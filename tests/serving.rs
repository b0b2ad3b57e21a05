use rweblet::connection::{
    body_after_headers, body_offset, content_length, on_body_bytes, parse_decimal, BodyState,
    ConnAction, Connection, ReadEvent, IDLE_READS,
};
use rweblet::router::RoutingTable;
use rweblet::statics::{
    binary_class, dispatch, sanitize_path, static_file_path, static_response,
    Dispatch, FileRead,
};
use rweblet::writer::{decimal, response_bytes};
use rweblet::{HttpResponseType, Params, Response};

#[test]
fn response_constructors() {
    let r = Response::ok_text("fine");
    assert_eq!(r.http_type, HttpResponseType::Success);
    assert_eq!(r.text, "OK");
    assert_eq!(r.data, b"fine".to_vec());
    assert_eq!(r.mime, "text/html");
    let r = Response::ok_json("{}");
    assert_eq!(r.mime, "application/json");
    assert_eq!(r.data, b"{}".to_vec());
    let r = Response::ok_bytes(vec![1, 2, 3], "image/png");
    assert_eq!(r.data, vec![1, 2, 3]);
    assert_eq!(r.mime, "image/png");
    let r = Response::none();
    assert_eq!(r.http_type, HttpResponseType::NoStatus);
    assert!(r.data.is_empty());
    let r = Response::cached("client/index.html");
    assert_eq!(r.http_type, HttpResponseType::NoStatus);
    assert_eq!(r.text, "cached");
    assert_eq!(r.data, b"client/index.html".to_vec());
    let r = Response::internal_error();
    assert_eq!(r.http_type, HttpResponseType::InternalError);
    assert!(String::from_utf8(r.data).unwrap().contains("500"));
    let r = Response::new(HttpResponseType::NotFound, "x", vec![9], "");
    assert_eq!(r.text, "x");
    assert_eq!(r.mime, "");
}

#[test]
fn missing_file_is_404_page() {
    let r = static_response("/nothing/here.html", FileRead::Missing);
    assert_eq!(r.http_type, HttpResponseType::NotFound);
    assert_eq!(r.http_type.code(), 404);
    assert_eq!(r.text, "File not found");
    let body = String::from_utf8(r.data).unwrap();
    assert!(body.contains("404"));
    assert!(body.starts_with("<!DOCTYPE html>"));
}

#[test]
fn unreadable_file_is_500() {
    let r = static_response("/a.html", FileRead::Failed);
    assert_eq!(r.http_type.code(), 500);
    assert_eq!(r.text, "Internal server error");
}

#[test]
fn text_file_gets_its_type() {
    let r = static_response("/folder/index.html", FileRead::Read(b"<p>hi</p>".to_vec()));
    assert_eq!(r.http_type.code(), 200);
    assert_eq!(r.mime, "text/html");
    assert_eq!(r.data, b"<p>hi</p>".to_vec());
    let r = static_response("/style.css", FileRead::Read(vec![b'a', 0xff]));
    assert_eq!(r.mime, "text/css");
    assert_eq!(r.data, "a\u{FFFD}".as_bytes().to_vec());
}

#[test]
fn image_file_is_octet_stream() {
    let bytes = vec![0x89, b'P', b'N', b'G', 0xff];
    let r = static_response("/img/logo.png", FileRead::Read(bytes.clone()));
    assert_eq!(r.http_type.code(), 200);
    assert_eq!(r.mime, "application/octet-stream");
    assert_eq!(r.data, bytes);
    let r = static_response("/noext", FileRead::Read(vec![1]));
    assert_eq!(r.mime, "application/octet-stream");
}

#[test]
fn binary_classes() {
    assert!(binary_class("image/png"));
    assert!(binary_class("application/json"));
    assert!(binary_class("audio/ogg"));
    assert!(binary_class("video/mp4"));
    assert!(!binary_class("text/html"));
    assert!(!binary_class("imagex/png"));
}

#[test]
fn sanitizing_removes_parent_steps() {
    assert_eq!(sanitize_path("/../../etc/passwd"), "/etc/passwd");
    assert_eq!(sanitize_path("/a/b.html"), "/a/b.html");
    assert_eq!(sanitize_path("....//"), "");
    assert_eq!(sanitize_path("..././x"), "x");
    assert_eq!(static_file_path("client", "/a/../b.html"), "client//a/b.html");
}

#[test]
fn wire_format_of_text_response() {
    let bytes = response_bytes(&Response::ok_text("hi"));
    assert_eq!(
        bytes,
        b"HTTP/1.1 200 OK\r\nContent-Length: 2\r\nContent-Type: text/html\r\n\r\nhi".to_vec()
    );
    let bytes = response_bytes(&Response::new(HttpResponseType::NotFound, "Gone", vec![7; 12], ""));
    assert_eq!(bytes[..bytes.len() - 12].to_vec(), b"HTTP/1.1 404 Gone\r\nContent-Length: 12\r\n\r\n".to_vec());
}

fn read_head(bytes: &[u8]) -> (u32, usize) {
    let text = String::from_utf8_lossy(bytes);
    let mut lines = text.split("\r\n");
    let status = lines.next().unwrap();
    let code: u32 = status.split(' ').nth(1).unwrap().parse().unwrap();
    let len_line = lines.next().unwrap();
    let len: usize = len_line.strip_prefix("Content-Length: ").unwrap().parse().unwrap();
    (code, len)
}

#[test]
fn written_response_reads_back() {
    let cases = vec![
        Response::ok_text("hello world"),
        Response::notfound(),
        Response::internal_error(),
        Response::ok_bytes(vec![0u8; 1234], "application/octet-stream"),
        Response::new(HttpResponseType::Success, "Fine: ünïcode", Vec::new(), ""),
    ];
    for r in cases {
        let bytes = response_bytes(&r);
        let (code, len) = read_head(&bytes);
        assert_eq!(code as u16, r.http_type.code());
        assert_eq!(len, r.data.len());
        assert!(bytes.ends_with(&r.data));
    }
}

#[test]
fn repeated_static_requests_are_identical() {
    let first = response_bytes(&static_response("/index.html", FileRead::Read(b"same".to_vec())));
    let second = response_bytes(&static_response("/index.html", FileRead::Read(b"same".to_vec())));
    assert_eq!(first, second);
    let a = response_bytes(&static_response("/x", FileRead::Missing));
    let b = response_bytes(&static_response("/x", FileRead::Missing));
    assert_eq!(a, b);
}

#[test]
fn decimal_digits() {
    assert_eq!(decimal(0), b"0".to_vec());
    assert_eq!(decimal(404), b"404".to_vec());
    assert_eq!(decimal(u64::MAX), u64::MAX.to_string().into_bytes());
}

#[test]
fn first_matching_route_wins() {
    let mut t = RoutingTable::new();
    assert_eq!(t.route("^/$"), Some(0));
    assert_eq!(t.route("^/api/.*"), Some(1));
    assert_eq!(t.route("^/api/users$"), Some(2));
    assert_eq!(t.len(), 3);
    assert_eq!(t.select("/"), Some(0));
    assert_eq!(t.select("/api/users"), Some(1));
    assert_eq!(t.select("/static/a.css"), None);
}

#[test]
fn same_pattern_keeps_its_slot() {
    let mut t = RoutingTable::new();
    assert_eq!(t.route("^/a$"), Some(0));
    assert_eq!(t.route("^/b$"), Some(1));
    assert_eq!(t.route("^/a$"), Some(0));
    assert_eq!(t.len(), 2);
}

#[test]
fn invalid_pattern_is_refused() {
    let mut t = RoutingTable::new();
    assert_eq!(t.route("(unclosed"), None);
    assert_eq!(t.len(), 0);
}

#[test]
fn dispatch_sends_no_status_to_cache() {
    match dispatch(Response::cached("client/index.html")) {
        Dispatch::CacheLookup(k) => assert_eq!(k, "client/index.html"),
        Dispatch::Standard(_) => panic!("expected a cache lookup"),
    }
    match dispatch(Response::ok_text("x")) {
        Dispatch::Standard(r) => assert_eq!(r.data, b"x".to_vec()),
        Dispatch::CacheLookup(_) => panic!("expected a standard response"),
    }
}

#[test]
fn cache_key_is_decoded_lossily() {
    let r = Response::new(HttpResponseType::NoStatus, "cached", vec![b'k', 0xc3], "");
    match dispatch(r) {
        Dispatch::CacheLookup(k) => assert_eq!(k, "k\u{FFFD}"),
        Dispatch::Standard(_) => panic!("expected a cache lookup"),
    }
}

#[test]
fn idle_reads_close_the_connection() {
    let mut c = Connection::new();
    assert_eq!(c.idle_left, IDLE_READS);
    for _ in 0..5 {
        assert_eq!(c.step(ReadEvent::Empty), ConnAction::Wait);
    }
    assert_eq!(c.step(ReadEvent::Empty), ConnAction::Close);
}

#[test]
fn data_renews_idle_budget() {
    let mut c = Connection::new();
    c.step(ReadEvent::Empty);
    c.step(ReadEvent::Empty);
    assert_eq!(c.idle_left, 3);
    assert_eq!(c.step(ReadEvent::Data), ConnAction::Handle);
    assert_eq!(c.idle_left, 5);
    assert_eq!(c.step(ReadEvent::Failed), ConnAction::Close);
}

#[test]
fn body_reading_states() {
    assert_eq!(body_after_headers(None, 10), BodyState::Complete);
    assert_eq!(body_after_headers(Some(55), 55), BodyState::Complete);
    let s = body_after_headers(Some(55), 20);
    assert_eq!(s, BodyState::ReadingBody(35));
    let s = on_body_bytes(s, 30);
    assert_eq!(s, BodyState::ReadingBody(5));
    assert_eq!(on_body_bytes(s, 9), BodyState::Complete);
    assert_eq!(on_body_bytes(BodyState::AwaitingHeaders, 9), BodyState::AwaitingHeaders);
}

#[test]
fn decimal_parsing() {
    assert_eq!(parse_decimal("55"), Some(55));
    assert_eq!(parse_decimal("0"), Some(0));
    assert_eq!(parse_decimal(""), None);
    assert_eq!(parse_decimal("5a"), None);
    assert_eq!(parse_decimal("-1"), None);
    assert_eq!(parse_decimal("99999999999999999999999"), None);
    assert_eq!(parse_decimal(&usize::MAX.to_string()), Some(usize::MAX));
}

#[test]
fn declared_content_length() {
    let mut h = Params::new();
    assert_eq!(content_length(&h), None);
    h.insert(String::from("Content-Length"), String::from("55"));
    assert_eq!(content_length(&h), Some(55));
    h.insert(String::from("Content-Length"), String::from("x"));
    assert_eq!(content_length(&h), None);
}

#[test]
fn body_starts_after_blank_line() {
    assert_eq!(body_offset(b"GET / HTTP/1.1\r\nHost: h\r\n\r\nabc"), Some(27));
    assert_eq!(body_offset(b"GET / HTTP/1.1\r\n"), None);
    assert_eq!(body_offset(b""), None);
}
