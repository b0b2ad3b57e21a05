use vstd::prelude::*;
use vstd::string::StrSliceExecFns;
use vstd::utf8::encode_utf8;
use crate::context::{HttpResponseType, Response};

verus! {

/// The page sent with a `NotFound` response.
pub open spec fn not_found_page() -> Seq<char> {
    "<!DOCTYPE html><html><head><title>404 File not found</title></head><body><h1>404 File not found</h1></body></html>"@
}

/// The page sent with an `InternalError` response.
pub open spec fn internal_error_page() -> Seq<char> {
    "<!DOCTYPE html><html><head><title>500 Internal server error</title></head><body><h1>500 Internal server error</h1></body></html>"@
}

impl Response {
    /// `200 OK` with an HTML page.
    pub fn ok_text(response_html: &str) -> (r: Response)
        ensures
            r.http_type == HttpResponseType::Success,
            r.text@ == "OK"@,
            r.data@ == encode_utf8(response_html@),
            r.mime@ == "text/html"@,
    {
        Response::new(HttpResponseType::Success, "OK", response_html.as_bytes_vec(), "text/html")
    }

    /// `200 OK` with a JSON document.
    pub fn ok_json(response_html: &str) -> (r: Response)
        ensures
            r.http_type == HttpResponseType::Success,
            r.text@ == "OK"@,
            r.data@ == encode_utf8(response_html@),
            r.mime@ == "application/json"@,
    {
        Response::new(
            HttpResponseType::Success,
            "OK",
            response_html.as_bytes_vec(),
            "application/json",
        )
    }

    /// `200 OK` with raw bytes of the given type.
    pub fn ok_bytes(data: Vec<u8>, mime: &str) -> (r: Response)
        ensures
            r.http_type == HttpResponseType::Success,
            r.text@ == "OK"@,
            r.data@ == data@,
            r.mime@ == mime@,
    {
        Response::new(HttpResponseType::Success, "OK", data, mime)
    }

    /// `404 File not found` with a short HTML page.
    pub fn notfound() -> (r: Response)
        ensures
            r.http_type == HttpResponseType::NotFound,
            r.text@ == "File not found"@,
            r.data@ == encode_utf8(not_found_page()),
            r.mime@ == "text/html"@,
    {
        let page =
            "<!DOCTYPE html><html><head><title>404 File not found</title></head><body><h1>404 File not found</h1></body></html>";
        proof {
            reveal_strlit(
                "<!DOCTYPE html><html><head><title>404 File not found</title></head><body><h1>404 File not found</h1></body></html>",
            );
        }
        Response::new(HttpResponseType::NotFound, "File not found", page.as_bytes_vec(), "text/html")
    }

    /// A response with no standard status and no payload.
    pub fn none() -> (r: Response)
        ensures
            r.http_type == HttpResponseType::NoStatus,
            r.text@ == Seq::<char>::empty(),
            r.data@ == Seq::<u8>::empty(),
            r.mime@ == "text/html"@,
    {
        proof {
            reveal_strlit("");
        }
        Response::new(HttpResponseType::NoStatus, "", "".as_bytes_vec(), "text/html")
    }

    /// Asks for the cached payload stored under `file`.
    pub fn cached(file: &str) -> (r: Response)
        ensures
            r.http_type == HttpResponseType::NoStatus,
            r.text@ == "cached"@,
            r.data@ == encode_utf8(file@),
            r.mime@ == "text/html"@,
    {
        Response::new(HttpResponseType::NoStatus, "cached", file.as_bytes_vec(), "text/html")
    }

    /// `500 Internal server error` with a short HTML page.
    pub fn internal_error() -> (r: Response)
        ensures
            r.http_type == HttpResponseType::InternalError,
            r.text@ == "Internal server error"@,
            r.data@ == encode_utf8(internal_error_page()),
            r.mime@ == "text/html"@,
    {
        let page =
            "<!DOCTYPE html><html><head><title>500 Internal server error</title></head><body><h1>500 Internal server error</h1></body></html>";
        proof {
            reveal_strlit(
                "<!DOCTYPE html><html><head><title>500 Internal server error</title></head><body><h1>500 Internal server error</h1></body></html>",
            );
        }
        Response::new(
            HttpResponseType::InternalError,
            "Internal server error",
            page.as_bytes_vec(),
            "text/html",
        )
    }

    /// A response with the given parts.
    pub fn new(http_type: HttpResponseType, text: &str, data: Vec<u8>, mime: &str) -> (r: Response)
        ensures
            r.http_type == http_type,
            r.text@ == text@,
            r.data@ == data@,
            r.mime@ == mime@,
    {
        Response { http_type, text: text.to_owned(), data, mime: mime.to_owned() }
    }
}

} // verus!
