use http_server::strutil::{contains_str, split_char_vec, split_ws_vec, str_eq, str_ieq, trim, trim_end};

#[test]
fn split_on_slash_keeps_empty_segments() {
    assert_eq!(split_char_vec("/echo/hello", '/'), vec!["", "echo", "hello"]);
    assert_eq!(split_char_vec("/files/", '/'), vec!["", "files", ""]);
    assert_eq!(split_char_vec("", '/'), vec![""]);
    assert_eq!(split_char_vec("a//b", '/'), vec!["a", "", "b"]);
}

#[test]
fn split_whitespace_drops_empty_tokens() {
    assert_eq!(split_ws_vec("GET /path HTTP/1.1\r\n"), vec!["GET", "/path", "HTTP/1.1"]);
    assert_eq!(split_ws_vec("  a \t b  "), vec!["a", "b"]);
    assert_eq!(split_ws_vec("   "), Vec::<String>::new());
    assert_eq!(split_ws_vec(""), Vec::<String>::new());
}

#[test]
fn trimming() {
    assert_eq!(trim_end("value\r\n"), "value");
    assert_eq!(trim_end("a b \t\r\n"), "a b");
    assert_eq!(trim("  spaced out  "), "spaced out");
    assert_eq!(trim(" \r\n "), "");
}

#[test]
fn string_comparisons() {
    assert!(str_eq("abc", "abc"));
    assert!(!str_eq("abc", "abd"));
    assert!(str_ieq("Content-Length", "content-length"));
    assert!(!str_ieq("Content-Length", "content-lengt"));
}

#[test]
fn substring_search_is_case_sensitive() {
    assert!(contains_str("gzip, deflate", "gzip"));
    assert!(contains_str("xgzipx", "gzip"));
    assert!(!contains_str("GZIP", "gzip"));
    assert!(!contains_str("gz", "gzip"));
    assert!(contains_str("anything", ""));
}
