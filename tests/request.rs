use httpserver::httprequest::{HttpMethod, HttpRequest, HttpResource, HttpVersion};

#[test]
fn test_http_method_from_str() {
    let method: HttpMethod = "GET".into();
    assert_eq!(method, HttpMethod::GET);

    assert_eq!(HttpMethod::from("GET"), HttpMethod::GET);
    let method: HttpMethod = "POST".into();
    assert_eq!(method, HttpMethod::POST);
    let method: HttpMethod = "OPTIONS".into();
    assert_eq!(method, HttpMethod::UNINITIALIZED);
}

#[test]
fn test_http_version_from_str() {
    let version: HttpVersion = "HTTP/1.0".into();
    assert_eq!(version, HttpVersion::HTTP10);

    assert_eq!(HttpVersion::from("HTTP/1.1"), HttpVersion::HTTP11);
    let version: HttpVersion = "HTTP/2.0".into();
    assert_eq!(version, HttpVersion::UNINITIALIZED);
}

#[test]
fn test_http_request_from_str() {
    let request: HttpRequest = HttpRequest::from(
        "GET / HTTP/1.1\r\nHost: localhost:8080\r\nContent-Length: 10\r\n\r\nHello, world!\nEnd Line."
            .to_string(),
    );
    assert_eq!(request.method, HttpMethod::GET);
    assert_eq!(request.resource, HttpResource::PATH("/".to_string()));
    assert_eq!(request.version, HttpVersion::HTTP11);
    assert_eq!(
        request.headers.get("Host"),
        Some(&"localhost:8080".to_string())
    );
    assert_eq!(request.headers.len(), 2);
    assert_eq!(request.body, "Hello, world!\nEnd Line.");
}

#[test]
fn malformed_request_line_leaves_fields_uninitialized() {
    let request = HttpRequest::from("GET /only-two\r\nHost: a\r\n\r\n".to_string());
    assert_eq!(request.method, HttpMethod::UNINITIALIZED);
    assert_eq!(request.resource, HttpResource::UNINITIALIZED);
    assert_eq!(request.version, HttpVersion::UNINITIALIZED);
    assert_eq!(request.resource_path(), "");
    assert_eq!(request.headers.get("Host"), Some(&"a".to_string()));
}

#[test]
fn request_line_split_on_any_white_space() {
    let request = HttpRequest::from("POST\t/form   HTTP/1.0\r\n".to_string());
    assert_eq!(request.method, HttpMethod::POST);
    assert_eq!(request.resource_path(), "/form");
    assert_eq!(request.version, HttpVersion::HTTP10);
    assert_eq!(request.body, "");
}

#[test]
fn duplicate_header_last_value_wins() {
    let request = HttpRequest::from(
        "GET / HTTP/1.1\r\nX-Key: first\r\n  X-Key :  second  \r\nOther: a:b\r\n".to_string(),
    );
    assert_eq!(request.headers.len(), 2);
    assert_eq!(request.headers.get("X-Key"), Some(&"second".to_string()));
    assert_eq!(request.headers.get("Other"), Some(&"a:b".to_string()));
    assert_eq!(request.headers.get("Missing"), None);
}

#[test]
fn lines_without_colon_join_the_body() {
    let request = HttpRequest::from("GET / HTTP/1.1\nfirst\r\n\r\nsecond\nthird\r".to_string());
    assert_eq!(request.body, "first\nsecond\nthird\r");
}

#[test]
fn empty_first_line_skips_request_line() {
    let request = HttpRequest::from("\r\nGET / HTTP/1.1\r\n".to_string());
    assert_eq!(request.method, HttpMethod::UNINITIALIZED);
    assert_eq!(request.body, "GET / HTTP/1.1\r\n");
}

#[test]
fn version_as_string() {
    assert_eq!(HttpVersion::HTTP10.as_string(), "HTTP/1.0");
    assert_eq!(HttpVersion::HTTP11.as_string(), "HTTP/1.1");
    assert_eq!(HttpVersion::UNINITIALIZED.as_string(), "UNINITIALIZED");
}

#[test]
fn body_after_empty_line_is_kept_as_it_stands() {
    let request = HttpRequest::from(
        "POST / HTTP/1.1\r\nHost: h\r\n\r\nkey: value\r\n\r\nlast".to_string(),
    );
    assert_eq!(request.headers.len(), 1);
    assert_eq!(request.body, "key: value\r\n\r\nlast");
}
