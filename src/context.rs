use vstd::prelude::*;
use crate::params::Params;

verus! {

/// The request methods this server tells apart.
#[derive(PartialEq, Eq, Structural, Clone, Copy, Debug)]
pub enum HttpMethod {
    UNKNOWN,
    GET,
    PUT,
    POST,
}

/// The method that a request-line token stands for.
pub open spec fn method_of(token: Seq<char>) -> HttpMethod {
    if token == "GET"@ {
        HttpMethod::GET
    } else if token == "PUT"@ {
        HttpMethod::PUT
    } else if token == "POST"@ {
        HttpMethod::POST
    } else {
        HttpMethod::UNKNOWN
    }
}

/// Whether two strings hold the same characters.
pub fn str_equals(a: &str, b: &str) -> (r: bool)
    ensures
        r == (a@ == b@),
{
    let x = a.to_owned();
    let y = b.to_owned();
    x == y
}

impl HttpMethod {
    pub fn from_str(method: &str) -> (r: HttpMethod)
        ensures
            r == method_of(method@),
    {
        proof {
            reveal_strlit("GET");
            reveal_strlit("PUT");
            reveal_strlit("POST");
        }
        if str_equals(method, "GET") {
            HttpMethod::GET
        } else if str_equals(method, "PUT") {
            HttpMethod::PUT
        } else if str_equals(method, "POST") {
            HttpMethod::POST
        } else {
            HttpMethod::UNKNOWN
        }
    }
}

/// How a handler's response is to be treated: a standard status, or `NoStatus`,
/// which asks for a cached payload instead of a status line.
#[derive(PartialEq, Eq, Structural, Clone, Copy, Debug)]
pub enum HttpResponseType {
    Success,
    NotFound,
    InternalError,
    NoStatus,
}

/// The numeric status code of a response type (`0` for `NoStatus`).
pub open spec fn code_of(t: HttpResponseType) -> u16 {
    match t {
        HttpResponseType::Success => 200,
        HttpResponseType::NotFound => 404,
        HttpResponseType::InternalError => 500,
        HttpResponseType::NoStatus => 0,
    }
}

impl HttpResponseType {
    pub fn code(&self) -> (r: u16)
        ensures
            r == code_of(*self),
    {
        match self {
            HttpResponseType::Success => 200,
            HttpResponseType::NotFound => 404,
            HttpResponseType::InternalError => 500,
            HttpResponseType::NoStatus => 0,
        }
    }
}

/// A parsed HTTP request.
pub struct Request {
    pub method: HttpMethod,
    /// Always `http`.
    pub protocol: String,
    /// The decoded path of the target.
    pub path: String,
    /// The raw query string, empty where the target has none.
    pub querystring: String,
    /// Header name to value, as received.
    pub header: Params,
    /// Decoded query parameters; the last of equal keys wins.
    pub get: Params,
    /// Decoded form parameters of a POST body; the last of equal keys wins.
    pub post: Params,
    /// Raw body bytes read after the header.
    pub body: Vec<u8>,
}

/// What a handler or the static-file resolver answers with.
pub struct Response {
    pub http_type: HttpResponseType,
    pub text: String,
    pub data: Vec<u8>,
    pub mime: String,
}

} // verus!
