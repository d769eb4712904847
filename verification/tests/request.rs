use http_server::error::HttpError;
use http_server::http_request::{content_length, parse_request_line, HttpRequest, Method};

#[test]
fn request_line_splits_into_three_tokens() {
    let (m, p, v) = parse_request_line("GET /index.html HTTP/1.1\r\n").unwrap();
    assert_eq!(m, Method::Get);
    assert_eq!(p, "/index.html");
    assert_eq!(v, "HTTP/1.1");
}

#[test]
fn request_line_method_is_case_insensitive() {
    let (m, _, _) = parse_request_line("post /files/a HTTP/1.1\r\n").unwrap();
    assert_eq!(m, Method::Post);
}

#[test]
fn request_line_errors() {
    assert_eq!(parse_request_line("").unwrap_err(), HttpError::MissingMethod);
    assert_eq!(parse_request_line("  \r\n").unwrap_err(), HttpError::MissingMethod);
    assert_eq!(parse_request_line("PUT / HTTP/1.1\r\n").unwrap_err(), HttpError::UnsupportedMethod);
    assert_eq!(parse_request_line("GET\r\n").unwrap_err(), HttpError::MissingPath);
    assert_eq!(parse_request_line("GET /\r\n").unwrap_err(), HttpError::MissingVersion);
}

#[test]
fn parse_reads_declared_body() {
    let input = b"POST /files/a.txt HTTP/1.1\r\nContent-Length: 5\r\n\r\nhello".to_vec();
    let req = HttpRequest::parse(&input).unwrap();
    assert_eq!(req.method, Method::Post);
    assert_eq!(req.path, "/files/a.txt");
    assert_eq!(req.version, "HTTP/1.1");
    assert_eq!(req.headers.get("content-length"), Some("5"));
    assert_eq!(req.body, Some(b"hello".to_vec()));
}

#[test]
fn parse_without_content_length_has_no_body() {
    let input = b"GET / HTTP/1.1\r\nHost: localhost\r\n\r\nleftover".to_vec();
    let req = HttpRequest::parse(&input).unwrap();
    assert_eq!(req.body, None);
}

#[test]
fn parse_with_unparsable_content_length_has_no_body() {
    let input = b"POST / HTTP/1.1\r\nContent-Length: many\r\n\r\nhello".to_vec();
    let req = HttpRequest::parse(&input).unwrap();
    assert_eq!(req.body, None);
}

#[test]
fn parse_truncated_body_is_an_error() {
    let input = b"POST / HTTP/1.1\r\nContent-Length: 10\r\n\r\nhi".to_vec();
    assert_eq!(HttpRequest::parse(&input).unwrap_err(), HttpError::UnexpectedEnd);
}

#[test]
fn parse_bad_header_line_is_an_error() {
    let input = b"GET / HTTP/1.1\r\nnocolonhere\r\n\r\n".to_vec();
    assert_eq!(HttpRequest::parse(&input).unwrap_err(), HttpError::HeaderMissingColon);
}

#[test]
fn parse_invalid_utf8_head_is_an_error() {
    let input = vec![0xffu8, 0xfe, 0x0a, 0x0d, 0x0a];
    assert_eq!(HttpRequest::parse(&input).unwrap_err(), HttpError::InvalidUtf8);
}

#[test]
fn parse_decodes_utf8_header_values() {
    let input = "GET / HTTP/1.1\r\nX-Name: J\u{fc}rgen\r\n\r\n".as_bytes().to_vec();
    let req = HttpRequest::parse(&input).unwrap();
    assert_eq!(req.headers.get("x-name"), Some("J\u{fc}rgen"));
}

#[test]
fn parse_head_without_final_blank_line_still_ends() {
    let input = b"GET /x HTTP/1.1\r\nHost: h\r\n".to_vec();
    let req = HttpRequest::parse(&input).unwrap();
    assert_eq!(req.headers.get("Host"), Some("h"));
    assert_eq!(req.body, None);
}

#[test]
fn content_length_reads_digits_only() {
    let mut h = http_server::http_headers::HttpHeaders::new();
    h.add("Content-Length".to_string(), "42".to_string());
    assert_eq!(content_length(&h), Some(42));
    let mut h2 = http_server::http_headers::HttpHeaders::new();
    h2.add("Content-Length".to_string(), "18446744073709551616".to_string());
    assert_eq!(content_length(&h2), None);
}
