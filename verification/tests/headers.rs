use http_server::error::HttpError;
use http_server::http_headers::HttpHeaders;

#[test]
fn get_is_case_insensitive() {
    let mut h = HttpHeaders::new();
    h.add("Content-Type".to_string(), "text/html".to_string());
    assert_eq!(h.get("content-type"), Some("text/html"));
    assert_eq!(h.get("CONTENT-TYPE"), Some("text/html"));
    assert_eq!(h.get("Content-Type"), Some("text/html"));
}

#[test]
fn get_returns_last_added_value() {
    let mut h = HttpHeaders::new();
    h.add("X-Tag".to_string(), "one".to_string());
    h.add("x-tag".to_string(), "two".to_string());
    assert_eq!(h.get("X-TAG"), Some("two"));
}

#[test]
fn iter_yields_all_entries_in_order_with_duplicates() {
    let mut h = HttpHeaders::new();
    h.add("A".to_string(), "1".to_string());
    h.add("B".to_string(), "2".to_string());
    h.add("A".to_string(), "3".to_string());
    let entries = h.iter();
    assert_eq!(entries.len(), 3);
    assert_eq!(entries[0].name, "A");
    assert_eq!(entries[0].value, "1");
    assert_eq!(entries[1].name, "B");
    assert_eq!(entries[1].value, "2");
    assert_eq!(entries[2].name, "A");
    assert_eq!(entries[2].value, "3");
}

#[test]
fn get_all_returns_every_match_in_order() {
    let mut h = HttpHeaders::new();
    h.add("Set-Cookie".to_string(), "a=1".to_string());
    h.add("Host".to_string(), "x".to_string());
    h.add("set-cookie".to_string(), "b=2".to_string());
    assert_eq!(h.get_all("SET-COOKIE"), vec!["a=1", "b=2"]);
    assert_eq!(h.get_all("absent"), Vec::<&str>::new());
}

#[test]
fn get_absent_name_is_none() {
    let h = HttpHeaders::new();
    assert_eq!(h.get("Host"), None);
}

#[test]
fn add_line_parses_name_and_value() {
    let mut h = HttpHeaders::new();
    assert_eq!(h.add_line("Host: example.com\r\n"), Ok(false));
    assert_eq!(h.get("host"), Some("example.com"));
}

#[test]
fn add_line_splits_on_first_colon_only() {
    let mut h = HttpHeaders::new();
    assert_eq!(h.add_line("Referer: http://x/y\r\n"), Ok(false));
    assert_eq!(h.get("Referer"), Some("http://x/y"));
}

#[test]
fn add_line_trims_name_and_value() {
    let mut h = HttpHeaders::new();
    assert_eq!(h.add_line("  Accept :  text/plain \r\n"), Ok(false));
    assert_eq!(h.get("accept"), Some("text/plain"));
}

#[test]
fn add_line_blank_ends_block() {
    let mut h = HttpHeaders::new();
    assert_eq!(h.add_line("\r\n"), Ok(true));
    assert_eq!(h.add_line(""), Ok(true));
}

#[test]
fn add_line_without_colon_is_rejected() {
    let mut h = HttpHeaders::new();
    assert_eq!(h.add_line("garbage\r\n"), Err(HttpError::HeaderMissingColon));
}
