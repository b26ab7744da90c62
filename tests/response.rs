use httpserver::headers::Headers;
use httpserver::httpresponse::{decimal_chars, HttpResponse};

#[test]
fn test_http_response_into_string() {
    let mut headers = Headers::new();
    headers.insert("Content-Type".to_string(), "text/html".to_string());
    let response = HttpResponse::new("200", Some(headers), Some("Hello, world!".to_string()));
    let response_string: String = response.as_text();
    assert_eq!(
        response_string,
        "HTTP/1.1 200 OK\r\nContent-Type: text/html\r\nContent-Length: 13\r\n\r\nHello, world!"
    );
}

#[test]
fn test_http_response_into_string_without_headers() {
    let response = HttpResponse::default();
    let response_string: String = response.as_text();
    assert_eq!(
        response_string,
        "HTTP/1.1 200 OK\r\nContent-Length: 0\r\n\r\n"
    );
}

#[test]
fn test_200_response() {
    let response = HttpResponse::new("200", None, Some("Hello, world!".to_string()));
    let response_string: String = response.as_text();
    assert_eq!(
        response_string,
        "HTTP/1.1 200 OK\r\nContent-Type: text/html\r\nContent-Length: 13\r\n\r\nHello, world!"
    );
}

#[test]
fn test_404_response() {
    let response = HttpResponse::new("404", None, Some("Not Found".to_string()));
    let response_string: String = response.as_text();
    assert_eq!(
        response_string,
        "HTTP/1.1 404 Not Found\r\nContent-Type: text/html\r\nContent-Length: 9\r\n\r\nNot Found"
    );
}

#[test]
fn test_500_response() {
    let response = HttpResponse::new("500", None, Some("Internal Server Error".to_string()));
    let response_string: String = response.as_text();
    assert_eq!(
        response_string,
        "HTTP/1.1 500 Internal Server Error\r\nContent-Type: text/html\r\nContent-Length: 21\r\n\r\nInternal Server Error"
    );
}

#[test]
fn unknown_status_code_reads_not_found() {
    let response = HttpResponse::new("302", None, None);
    assert_eq!(response.status_code(), "302");
    assert_eq!(response.status_text(), "Not Found");
    assert_eq!(response.body(), "");
}

#[test]
fn content_length_counts_utf8_bytes() {
    let response = HttpResponse::new("200", None, Some("héllo €".to_string()));
    let s = response.as_text();
    assert!(s.contains("Content-Length: 10\r\n"));
    assert!(s.ends_with("\r\n\r\nhéllo €"));
}

#[test]
fn binary_response_bytes() {
    let mut headers = Headers::new();
    headers.insert("Content-Type".to_string(), "image/png".to_string());
    let response = HttpResponse::new_binary("200", Some(headers), Some(vec![0u8, 159, 255]));
    assert_eq!(response.binary_body(), Some(&[0u8, 159, 255][..]));
    let head = "HTTP/1.1 200 OK\r\nContent-Type: image/png\r\nContent-Length: 3\r\n\r\n";
    assert_eq!(response.to_binary_response_string(&[0u8, 159, 255]), head);
    let mut expected = head.as_bytes().to_vec();
    expected.extend_from_slice(&[0u8, 159, 255]);
    assert_eq!(response.to_bytes(), expected);
}

#[test]
fn binary_response_without_headers() {
    let response = HttpResponse::new_binary("404", None, None);
    assert_eq!(response.headers(), "");
    assert_eq!(
        response.to_bytes(),
        b"HTTP/1.1 404 Not Found\r\nContent-Length: 0\r\n\r\n".to_vec()
    );
}

#[test]
fn getters_of_text_response() {
    let response = HttpResponse::new("200", None, Some("x".to_string()));
    assert_eq!(response.version(), "HTTP/1.1");
    assert_eq!(response.headers(), "Content-Type: text/html\r\n");
    assert_eq!(response.body(), "x");
    assert_eq!(response.binary_body(), None);
    assert_eq!(response.to_bytes(), response.as_text().into_bytes());
}

#[test]
fn decimal_digits() {
    assert_eq!(decimal_chars(0), vec!['0']);
    assert_eq!(decimal_chars(1234567890), "1234567890".chars().collect::<Vec<char>>());
}

#[test]
fn header_insert_replaces_in_place() {
    let mut h = Headers::new();
    h.insert("A".to_string(), "1".to_string());
    h.insert("B".to_string(), "2".to_string());
    h.insert("A".to_string(), "3".to_string());
    assert_eq!(h.len(), 2);
    assert_eq!(
        h.entries(),
        &vec![("A".to_string(), "3".to_string()), ("B".to_string(), "2".to_string())]
    );
}

#[test]
fn caller_content_length_is_not_written() {
    let mut headers = Headers::new();
    headers.insert("content-LENGTH".to_string(), "99".to_string());
    headers.insert("X-A".to_string(), "1".to_string());
    let response = HttpResponse::new("200", Some(headers), None);
    assert_eq!(
        response.as_text(),
        "HTTP/1.1 200 OK\r\nX-A: 1\r\nContent-Length: 0\r\n\r\n"
    );
    assert_eq!(response.headers(), "content-LENGTH: 99\r\nX-A: 1\r\n");
    let mut headers = Headers::new();
    headers.insert("Content-Length".to_string(), "99".to_string());
    let response = HttpResponse::new_binary("200", Some(headers), Some(vec![1, 2]));
    assert_eq!(
        response.to_bytes(),
        b"HTTP/1.1 200 OK\r\nContent-Length: 2\r\n\r\n\x01\x02".to_vec()
    );
}
