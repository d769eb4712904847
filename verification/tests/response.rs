use http_server::http_response::HttpResponse;
use http_server::strutil::{dec_str, parse_dec};

#[test]
fn new_sets_content_type_and_length_first() {
    let r = HttpResponse::new(
        "HTTP/1.1 200 OK".to_string(),
        "text/plain".to_string(),
        b"hi".to_vec(),
    );
    let entries = r.headers.iter();
    assert_eq!(entries.len(), 2);
    assert_eq!(entries[0].name, "Content-Type");
    assert_eq!(entries[0].value, "text/plain");
    assert_eq!(entries[1].name, "Content-Length");
    assert_eq!(entries[1].value, "2");
}

#[test]
fn serialize_writes_status_headers_blank_line_body() {
    let r = HttpResponse::new(
        "HTTP/1.1 200 OK".to_string(),
        "text/plain".to_string(),
        b"hi".to_vec(),
    );
    let wire = r.serialize();
    assert_eq!(
        wire,
        b"HTTP/1.1 200 OK\r\nContent-Type: text/plain\r\nContent-Length: 2\r\n\r\nhi".to_vec()
    );
}

#[test]
fn serialized_response_round_trips_through_a_decoder() {
    let r = HttpResponse::new(
        "HTTP/1.1 200 OK".to_string(),
        "text/plain".to_string(),
        b"hi".to_vec(),
    );
    let wire = r.serialize();
    // re-extract the body and headers as a compliant decoder would
    let blank = wire.windows(4).position(|w| w == b"\r\n\r\n").unwrap();
    let body = &wire[blank + 4..];
    assert_eq!(body, b"hi");
    let head = std::str::from_utf8(&wire[..blank]).unwrap();
    let mut parsed = http_server::http_headers::HttpHeaders::new();
    for line in head.lines().skip(1) {
        assert_eq!(parsed.add_line(line), Ok(false));
    }
    let len: usize = parsed.get("Content-Length").unwrap().parse().unwrap();
    assert_eq!(len, 2);
    assert_eq!(len, body.len());
}

#[test]
fn serialize_keeps_added_headers_in_order() {
    let mut r = HttpResponse::new(
        "HTTP/1.1 200 OK".to_string(),
        "text/plain".to_string(),
        b"abc".to_vec(),
    );
    r.headers.add("Content-Encoding".to_string(), "gzip".to_string());
    let wire = r.serialize();
    assert_eq!(
        wire,
        b"HTTP/1.1 200 OK\r\nContent-Type: text/plain\r\nContent-Length: 3\r\nContent-Encoding: gzip\r\n\r\nabc"
            .to_vec()
    );
}

#[test]
fn decimal_strings_round_trip() {
    assert_eq!(dec_str(0), "0");
    assert_eq!(dec_str(7), "7");
    assert_eq!(dec_str(12345), "12345");
    assert_eq!(parse_dec(&dec_str(0)), Some(0));
    assert_eq!(parse_dec(&dec_str(987654321)), Some(987654321));
    assert_eq!(parse_dec(&dec_str(usize::MAX)), Some(usize::MAX));
}

#[test]
fn parse_dec_rejects_non_digits_and_overflow() {
    assert_eq!(parse_dec(""), None);
    assert_eq!(parse_dec("+5"), None);
    assert_eq!(parse_dec(" 5"), None);
    assert_eq!(parse_dec("5x"), None);
    assert_eq!(parse_dec("18446744073709551616"), None);
    assert_eq!(parse_dec("007"), Some(7));
}
