use rweblet::request::form_params;
use rweblet::{HttpMethod, KeyValue, Request};

fn get_request_path(method: &str, path: &str) -> String {
    format!("{} {} HTTP/1.1
        Host: 127.0.0.1:8080
        User-Agent: Mozilla/5.0 (X11; Ubuntu; Linux x86_64; rv:81.0) Gecko/20100101 Firefox/81.0
        Accept: text/html,application/xhtml+xml,application/xml;q=0.9,image/webp,*/*;q=0.8
        Accept-Language: da,en-US;q=0.7,en;q=0.3
        Accept-Encoding: gzip, deflate
        DNT: 1
        Connection: keep-alive
        Upgrade-Insecure-Requests: 1", method, path)
}

fn get_request() -> String {
    get_request_path("GET", "/")
}

fn post_request(path: &str) -> String {
    format!("POST {} HTTP/1.1
Host: 127.0.0.1:8080
User-Agent: Mozilla/5.0 (X11; Ubuntu; Linux x86_64; rv:82.0) Gecko/20100101 Firefox/82.0
Accept: text/html,application/xhtml+xml,application/xml;q=0.9,image/webp,*/*;q=0.8
Accept-Language: da,en-US;q=0.7,en;q=0.3
Accept-Encoding: gzip, deflate
Referer: http://127.0.0.1:8080/
Content-Type: application/x-www-form-urlencoded
Content-Length: 55
Origin: http://127.0.0.1:8080
DNT: 1
Connection: keep-alive
Upgrade-Insecure-Requests: 1

post1=postval1&post2=postval2&file=CV+Dianne+august.pdf", path)
}

#[test]
fn keyvalue_from_text_tests() {
    let kv = KeyValue::from_text("my_key:my_value");
    assert_eq!(kv.key, "my_key");
    assert_eq!(kv.value, "my_value");

    let kv = KeyValue::from_text("my_key:my:value");
    assert_eq!(kv.value, "my:value");

    let kv = KeyValue::from_text("#my_key:my:value
        line 2
        line 3#");
    assert_eq!(kv.value.lines().count(), 3, "There are three lines in this test and the amount of lines inside the value should be 3");

    let kv = KeyValue::from_text("key :value");
    assert_eq!(kv.key, "key", "A key should be trimmed for white spaces");

    let kv = KeyValue::from_text("\nkey\n  :value#");
    assert_eq!(kv.key, "key", "A key should be trimmed for both spaces and new lines: {}", kv.key);
}

#[test]
fn keyvalue_from_text_char_tests() {
    let kv = KeyValue::from_text_char("my_key=my_value", '=');
    assert_eq!(kv.key, "my_key");
    assert_eq!(kv.value, "my_value");
}

#[test]
fn test_query_key() {
    let path = "/folder/index.html?hello=world&quote=hej+verden";
    let r = Request::from_request_data(post_request(path).as_str()).unwrap();
    assert_eq!(*r.get.get("hello").unwrap(), "world");
    assert_eq!(*r.get.get("quote").unwrap(), "hej verden");
}

#[test]
fn test_post_data() {
    let path = "/folder/index.html?hello=world&quote=hej+verden";
    let r = Request::from_request_data(post_request(path).as_str()).unwrap();
    assert!(r.post.contains_key("post1"), "There should be a key called post1 in the posted dataset");
    assert!(r.post.contains_key("post2"), "There should be a key called post2 in the posted dataset");

    assert_eq!(*r.post.get("post1").unwrap(), "postval1");
    assert_eq!(*r.post.get("post2").unwrap(), "postval2");
}

#[test]
fn test_request_from_data_uri_row() {
    let r = Request::from_request_data(get_request().as_str()).unwrap();
    assert_eq!(r.path, "/");

    let path = "/folder/index.html";
    let r = Request::from_request_data(post_request(path).as_str()).unwrap();
    assert_eq!(r.path, path);
}

#[test]
fn test_request_from_data_empty() {
    let r = Request::from_request_data("");
    assert!(matches!(r, Result::Err("Bad request")));
}

#[test]
fn method_tokens_map_to_methods() {
    assert_eq!(HttpMethod::from_str("GET"), HttpMethod::GET);
    assert_eq!(HttpMethod::from_str("PUT"), HttpMethod::PUT);
    assert_eq!(HttpMethod::from_str("POST"), HttpMethod::POST);
    assert_eq!(HttpMethod::from_str("GOT"), HttpMethod::UNKNOWN);
    assert_eq!(HttpMethod::from_str("get"), HttpMethod::UNKNOWN);
    assert_eq!(HttpMethod::from_str(""), HttpMethod::UNKNOWN);
}

#[test]
fn parsed_methods_with_host() {
    for (token, method) in [
        ("GET", HttpMethod::GET),
        ("PUT", HttpMethod::PUT),
        ("POST", HttpMethod::POST),
        ("GOT", HttpMethod::UNKNOWN),
    ] {
        let text = format!("{} / HTTP/1.1\r\nHost: example.org\r\n\r\n", token);
        let r = Request::from_request_data(text.as_str()).unwrap();
        assert_eq!(r.method, method);
        assert_eq!(r.protocol, "http");
        assert_eq!(r.path, "/");
        assert_eq!(r.querystring, "");
    }
}

#[test]
fn short_request_line_is_bad_request() {
    let r = Request::from_request_data("GET /\r\nHost: a\r\n");
    assert!(matches!(r, Err("Bad request")));
    let r = Request::from_request_data("\n");
    assert!(matches!(r, Err("Bad request")));
}

#[test]
fn missing_host_is_url_error() {
    let r = Request::from_request_data("POST / HTTP/1.1\n        ");
    assert!(matches!(r, Err("Failed to parse url")));
}

#[test]
fn unresolvable_target_is_url_error() {
    let r = Request::from_request_data("GET / HTTP/1.1\r\nHost: exa mple\r\n");
    assert!(matches!(r, Err("Failed to parse url")));
}

#[test]
fn header_with_inner_colons_is_split_at_first() {
    let r = Request::from_request_data("GET / HTTP/1.1\r\nHost: h:8080\r\n  key : value:x:y  \r\n").unwrap();
    assert_eq!(*r.header.get("key").unwrap(), "value:x:y");
    assert_eq!(*r.header.get("Host").unwrap(), "h:8080");
    assert!(!r.header.contains_key("value"));
}

#[test]
fn headers_stop_at_first_line_without_colon() {
    let r = Request::from_request_data("GET / HTTP/1.1\r\nHost: h\r\nno colon\r\nLate: 1\r\n").unwrap();
    assert!(!r.header.contains_key("Late"));
}

#[test]
fn path_drops_the_query() {
    let r = Request::from_request_data("GET /folder/index.html?x=y HTTP/1.1\r\nHost: h\r\n\r\n").unwrap();
    assert_eq!(r.path, "/folder/index.html");
    assert_eq!(r.querystring, "x=y");
    assert_eq!(*r.get.get("x").unwrap(), "y");
}

#[test]
fn get_body_is_not_read_as_form() {
    let r = Request::from_request_data("GET / HTTP/1.1\r\nHost: h\r\n\r\na=b").unwrap();
    assert!(!r.post.contains_key("a"));
    assert!(r.body.is_empty());
}

#[test]
fn post_body_after_blank_lines() {
    let r = Request::from_request_data("POST /f HTTP/1.1\r\nHost: h\r\n\r\n   \r\n\r\nk=v&k=w").unwrap();
    assert_eq!(*r.post.get("k").unwrap(), "w");
}

#[test]
fn form_decoding_plus_and_percent() {
    let p = form_params("hello=world&quote=hej+verden&pct=a%21b&dup=1&dup=2");
    assert_eq!(*p.get("hello").unwrap(), "world");
    assert_eq!(*p.get("quote").unwrap(), "hej verden");
    assert_eq!(*p.get("pct").unwrap(), "a!b");
    assert_eq!(*p.get("dup").unwrap(), "2");
    assert!(p.get("missing").is_none());
}

#[test]
fn params_last_insert_wins() {
    let mut p = rweblet::Params::new();
    assert!(!p.contains_key("a"));
    p.insert(String::from("a"), String::from("1"));
    p.insert(String::from("b"), String::from("2"));
    p.insert(String::from("a"), String::from("3"));
    assert_eq!(*p.get("a").unwrap(), "3");
    assert_eq!(*p.get("b").unwrap(), "2");
}
