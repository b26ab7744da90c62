use httpserver::httprequest::{HttpMethod, HttpVersion};
use httpserver::route::{parse_number_bytes, read_chunked_body, ReadError, Route, Strategy};

fn text(r: &[u8]) -> String {
    String::from_utf8(r.to_vec()).unwrap()
}

#[test]
fn test_read_request_with_body() {
    let request = "POST /test HTTP/1.1\r\nContent-Length: 11\r\n\r\nHello World";
    let result = Route::read_full_request(request.as_bytes());
    assert!(result.is_ok());
    let (request_content, _) = result.unwrap();
    let request_content = text(&request_content);
    assert!(request_content.contains("POST /test HTTP/1.1"));
    assert!(request_content.contains("Hello World"));
}

#[test]
fn test_read_request_without_body() {
    let request = "GET / HTTP/1.1\r\nHost: localhost\r\n\r\n";
    let result = Route::read_full_request(request.as_bytes());
    assert!(result.is_ok());
    let (request_content, _) = result.unwrap();
    let request_content = text(&request_content);
    assert!(request_content.contains("GET / HTTP/1.1"));
    assert!(!request_content.contains("Hello World"));
}

#[test]
fn fixed_length_body_is_read_exactly() {
    let input = b"POST /a HTTP/1.1\r\ncontent-LENGTH: 5\r\n\r\nHelloEXTRA";
    let (req, used) = Route::read_full_request(input).unwrap();
    assert_eq!(text(&req), "POST /a HTTP/1.1\r\ncontent-LENGTH: 5\r\n\r\nHello");
    assert_eq!(used, input.len() - 5);
}

#[test]
fn chunked_body_is_reassembled() {
    let input = b"POST /w HTTP/1.1\r\nTransfer-Encoding: chunked\r\n\r\n4\r\nWiki\r\n5\r\npedia\r\n0\r\n\r\n";
    let (req, used) = Route::read_full_request(input).unwrap();
    assert_eq!(used, input.len());
    assert!(text(&req).ends_with("\r\n\r\nWikipedia"));
}

#[test]
fn chunked_body_alone() {
    let body = b"4\r\nWiki\r\n5\r\npedia\r\n0\r\n\r\n";
    let (data, end) = read_chunked_body(body, 0).unwrap();
    assert_eq!(data, b"Wikipedia".to_vec());
    assert_eq!(end, body.len());
}

#[test]
fn chunk_sizes_are_hexadecimal() {
    let body = b"A\r\n0123456789\r\n0\r\n\r\n";
    let (data, _) = read_chunked_body(body, 0).unwrap();
    assert_eq!(data, b"0123456789".to_vec());
}

#[test]
fn unreadable_chunk_size_ends_body() {
    let body = b"zz\r\nabc\r\n";
    let (data, end) = read_chunked_body(body, 0).unwrap();
    assert!(data.is_empty());
    assert_eq!(end, 9);
}

#[test]
fn truncated_inputs_are_incomplete() {
    assert_eq!(Route::read_full_request(b"GET / HTTP/1.1\r\nHost: a\r\n"), Err(ReadError::Incomplete));
    assert_eq!(
        Route::read_full_request(b"POST / HTTP/1.1\r\nContent-Length: 10\r\n\r\nshort"),
        Err(ReadError::Incomplete)
    );
    assert_eq!(read_chunked_body(b"5\r\nab", 0), Err(ReadError::Incomplete));
    assert_eq!(read_chunked_body(b"0\r\n", 0), Err(ReadError::Incomplete));
}

#[test]
fn bad_content_length_reads_no_body() {
    let (req, used) = Route::read_full_request(b"GET / HTTP/1.1\r\nContent-Length: x1\r\n\r\nrest").unwrap();
    assert_eq!(text(&req), "GET / HTTP/1.1\r\nContent-Length: x1\r\n\r\n");
    assert_eq!(used, 38);
}

#[test]
fn numbers_as_from_str_radix_reads_them() {
    assert_eq!(parse_number_bytes(b"+42", 10), Some(42));
    assert_eq!(parse_number_bytes(b"ff", 16), Some(255));
    assert_eq!(parse_number_bytes(b"FF", 16), Some(255));
    assert_eq!(parse_number_bytes(b"", 10), None);
    assert_eq!(parse_number_bytes(b"+", 10), None);
    assert_eq!(parse_number_bytes(b"-1", 10), None);
    assert_eq!(parse_number_bytes(b"1a", 10), None);
    assert_eq!(parse_number_bytes(b"18446744073709551615", 10), Some(usize::MAX));
    assert_eq!(parse_number_bytes(b"18446744073709551616", 10), None);
}

#[test]
fn round_trip_of_fixed_length_body() {
    let body: Vec<u8> = vec![0, 1, 2, 255, 13, 10, 13, 10, 7];
    let mut wire = format!("POST /upload HTTP/1.1\r\nHost: x\r\nContent-Length: {}\r\n\r\n", body.len()).into_bytes();
    wire.extend_from_slice(&body);
    let (req, used) = Route::read_full_request(&wire).unwrap();
    assert_eq!(used, wire.len());
    assert_eq!(req, wire);
}

#[test]
fn read_request_parses_the_framed_text() {
    let input = b"GET /index.html HTTP/1.1\r\nHost: localhost:8080\r\n\r\n";
    let (req, used) = Route::read_request(input).unwrap();
    assert_eq!(used, input.len());
    assert_eq!(req.method, HttpMethod::GET);
    assert_eq!(req.version, HttpVersion::HTTP11);
    assert_eq!(req.resource_path(), "/index.html");
    assert_eq!(req.headers.get("Host"), Some(&"localhost:8080".to_string()));
}

#[test]
fn read_request_replaces_invalid_utf8() {
    let input = b"POST / HTTP/1.1\r\nContent-Length: 2\r\n\r\n\xff!";
    let (req, _) = Route::read_request(input).unwrap();
    assert_eq!(req.body, "\u{fffd}!");
}

#[test]
fn every_named_path_is_resolved() {
    assert_eq!(Route::select("/"), Strategy::StaticResource);
    assert_eq!(Route::select("/docs/index.html"), Strategy::StaticResource);
    assert_eq!(Route::select("/css/style.css?v=1"), Strategy::StaticResource);
    assert_eq!(Route::select(""), Strategy::NotFound);
}

#[test]
fn decoded_body_is_the_bytes_after_the_head() {
    let input = b"POST / HTTP/1.1\r\nContent-Length: 1\r\n\r\n\n";
    let (req, _) = Route::read_request(input).unwrap();
    assert_eq!(req.body, "\n");
    let body = "a: b\r\n\r\nc\r";
    let wire = format!("POST / HTTP/1.1\r\nContent-Length: {}\r\n\r\n{body}", body.len());
    let (req, used) = Route::read_request(wire.as_bytes()).unwrap();
    assert_eq!(used, wire.len());
    assert_eq!(req.body.as_bytes(), body.as_bytes());
    assert_eq!(req.headers.len(), 1);
}

#[test]
fn decoded_chunked_body() {
    let input = b"POST / HTTP/1.1\r\nTransfer-Encoding: chunked\r\n\r\n4\r\nWiki\r\n5\r\npedia\r\n0\r\n\r\n";
    let (req, _) = Route::read_request(input).unwrap();
    assert_eq!(req.body, "Wikipedia");
}

#[test]
fn ended_input_without_empty_line_is_a_request() {
    let (req, used) = Route::read_request_at_end(b"GET /x HTTP/1.1\r\nHost: a\r\nstray").unwrap();
    assert_eq!(used, 31);
    assert_eq!(req.resource_path(), "/x");
    assert_eq!(req.headers.get("Host"), Some(&"a".to_string()));
    assert_eq!(req.body, "stray");
    assert_eq!(
        Route::read_request_at_end(b"POST / HTTP/1.1\r\nContent-Length: 3\r\n").unwrap_err(),
        ReadError::Incomplete
    );
    assert_eq!(
        Route::read_request_at_end(b"POST / HTTP/1.1\r\nContent-Length: 3\r\n\r\nab").unwrap_err(),
        ReadError::Incomplete
    );
    let (req, _) = Route::read_request_at_end(b"GET / HTTP/1.1\r\n\r\n").unwrap();
    assert_eq!(req.body, "");
}
