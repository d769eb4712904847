use http_server::http_request::{HttpRequest, Method};
use http_server::router::{
    create_router, file_read_outcome, file_write_outcome, match_path, respond, HandlerKind,
    RouteAction, RouteResponse, Router,
};

#[test]
fn match_captures_named_segment() {
    let params = match_path("/echo/:message", "/echo/hello").unwrap();
    assert_eq!(params.get("message"), Some("hello"));
}

#[test]
fn match_fails_on_segment_count_mismatch() {
    assert!(match_path("/a/b", "/a/b/c").is_none());
    assert!(match_path("/a/b/c", "/a/b").is_none());
}

#[test]
fn match_allows_empty_capture() {
    let params = match_path("/files/:filename", "/files/").unwrap();
    assert_eq!(params.get("filename"), Some(""));
}

#[test]
fn match_fails_on_literal_mismatch() {
    assert!(match_path("/files/:filename", "/file/x").is_none());
}

#[test]
fn match_root_pattern() {
    let params = match_path("/", "/").unwrap();
    assert_eq!(params.get("anything"), None);
}

fn request(bytes: &[u8]) -> HttpRequest {
    HttpRequest::parse(&bytes.to_vec()).unwrap()
}

fn expect_response(action: RouteAction) -> http_server::http_response::HttpResponse {
    match action {
        RouteAction::Respond(r) => r,
        _ => panic!("expected a finished response"),
    }
}

#[test]
fn first_registered_route_wins() {
    let mut router = Router::new();
    router.add_route(Method::Get, "/x", HandlerKind::Root);
    router.add_route(Method::Get, "/:y", HandlerKind::UserAgent);
    let req = request(b"GET /x HTTP/1.1\r\n\r\n");
    let resp = expect_response(router.route(&req));
    // the root handler answers with an empty body; the user-agent handler
    // would have answered "Unknown"
    assert_eq!(resp.status_line, "HTTP/1.1 200 OK");
    assert_eq!(resp.body, Vec::<u8>::new());

    let other = request(b"GET /z HTTP/1.1\r\n\r\n");
    let resp2 = expect_response(router.route(&other));
    assert_eq!(resp2.body, b"Unknown".to_vec());
}

#[test]
fn method_must_match_for_a_binding_to_apply() {
    let mut router = Router::new();
    router.add_route(Method::Post, "/x", HandlerKind::Root);
    let req = request(b"GET /x HTTP/1.1\r\n\r\n");
    let resp = expect_response(router.route(&req));
    assert_eq!(resp.status_line, "HTTP/1.1 404 Not Found");
}

#[test]
fn echo_with_gzip_negotiation() {
    let router = create_router();
    let req = request(b"GET /echo/abc HTTP/1.1\r\nAccept-Encoding: gzip, deflate\r\n\r\n");
    let resp = expect_response(router.route(&req));
    assert_eq!(resp.status_line, "HTTP/1.1 200 OK");
    assert_eq!(resp.headers.get("Content-Encoding"), Some("gzip"));
    assert_eq!(resp.body, b"abc".to_vec());
}

#[test]
fn echo_without_gzip_sets_no_encoding() {
    let router = create_router();
    let req = request(b"GET /echo/abc HTTP/1.1\r\nAccept-Encoding: br\r\n\r\n");
    let resp = expect_response(router.route(&req));
    assert_eq!(resp.headers.get("Content-Encoding"), None);
    assert_eq!(resp.body, b"abc".to_vec());
}

#[test]
fn missing_user_agent_answers_unknown() {
    let router = create_router();
    let req = request(b"GET /user-agent HTTP/1.1\r\n\r\n");
    let resp = expect_response(router.route(&req));
    assert_eq!(resp.status_line, "HTTP/1.1 200 OK");
    assert_eq!(resp.body, b"Unknown".to_vec());
}

#[test]
fn user_agent_is_reflected() {
    let router = create_router();
    let req = request(b"GET /user-agent HTTP/1.1\r\nUser-Agent: curl/8.0\r\n\r\n");
    let resp = expect_response(router.route(&req));
    assert_eq!(resp.body, b"curl/8.0".to_vec());
}

#[test]
fn file_write_then_read() {
    let router = create_router();
    // a tiny in-memory stand-in for the file-system capability
    let mut stored: Option<(String, Vec<u8>)> = None;

    let post = request(b"POST /files/note.txt HTTP/1.1\r\nContent-Length: 5\r\n\r\nhello");
    let resp = match router.route(&post) {
        RouteAction::WriteFile { filename, content } => {
            assert_eq!(filename, "note.txt");
            stored = Some((filename, content));
            respond(file_write_outcome(true))
        },
        _ => panic!("expected a file write"),
    };
    assert_eq!(resp.status_line, "HTTP/1.1 201 Created");
    assert_eq!(resp.body, Vec::<u8>::new());

    let get = request(b"GET /files/note.txt HTTP/1.1\r\n\r\n");
    let resp2 = match router.route(&get) {
        RouteAction::ReadFile { filename } => {
            let content = match &stored {
                Some((name, data)) if *name == filename => Some(data.clone()),
                _ => None,
            };
            respond(file_read_outcome(content))
        },
        _ => panic!("expected a file read"),
    };
    assert_eq!(resp2.status_line, "HTTP/1.1 200 OK");
    assert_eq!(resp2.headers.get("Content-Type"), Some("application/octet-stream"));
    assert_eq!(resp2.body, b"hello".to_vec());
}

#[test]
fn file_post_without_body_is_not_found() {
    let router = create_router();
    let post = request(b"POST /files/note.txt HTTP/1.1\r\n\r\n");
    let resp = expect_response(router.route(&post));
    assert_eq!(resp.status_line, "HTTP/1.1 404 Not Found");
}

#[test]
fn failed_file_operations_are_not_found() {
    let resp = respond(file_read_outcome(None));
    assert_eq!(resp.status_line, "HTTP/1.1 404 Not Found");
    let resp2 = respond(file_write_outcome(false));
    assert_eq!(resp2.status_line, "HTTP/1.1 404 Not Found");
}

#[test]
fn unknown_path_is_not_found() {
    let router = create_router();
    let req = request(b"GET /nope HTTP/1.1\r\n\r\n");
    let resp = expect_response(router.route(&req));
    assert_eq!(resp.status_line, "HTTP/1.1 404 Not Found");
    assert_eq!(resp.body, Vec::<u8>::new());
    assert_eq!(resp.headers.get("Content-Type"), Some("text/plain"));
}

#[test]
fn not_found_serializes_with_empty_body() {
    let router = create_router();
    let req = request(b"GET /nope HTTP/1.1\r\n\r\n");
    let resp = expect_response(router.route(&req));
    let wire = resp.serialize();
    assert_eq!(
        wire,
        b"HTTP/1.1 404 Not Found\r\nContent-Type: text/plain\r\nContent-Length: 0\r\n\r\n".to_vec()
    );
}

#[test]
fn route_outcome_translation_table() {
    let ok = respond(RouteResponse::Success(b"x".to_vec(), None));
    assert_eq!(ok.status_line, "HTTP/1.1 200 OK");
    assert_eq!(ok.headers.get("Content-Type"), Some("text/plain"));
    let enc = respond(RouteResponse::Success(b"x".to_vec(), Some("gzip".to_string())));
    assert_eq!(enc.headers.get("Content-Encoding"), Some("gzip"));
    let created = respond(RouteResponse::Created);
    assert_eq!(created.status_line, "HTTP/1.1 201 Created");
    let file = respond(RouteResponse::FileContent(b"data".to_vec()));
    assert_eq!(file.headers.get("Content-Type"), Some("application/octet-stream"));
    assert_eq!(file.body, b"data".to_vec());
}
