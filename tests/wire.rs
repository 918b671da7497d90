use http_server::http::{bad_request, create_response, or_not_found, parse_request, response_bytes, response_to_string};
use http_server::types::Response;

fn lines(v: &[&str]) -> Vec<String> {
    v.iter().map(|s| s.to_string()).collect()
}

#[test]
fn parse_request_line_and_headers() {
    let req = parse_request(&lines(&["GET /user/1 HTTP/1.1", "Host: example.com", "X-Pad:   a:b  "])).unwrap();
    assert_eq!(req.method, "GET");
    assert_eq!(req.path, "/user/1");
    assert_eq!(req.headers.get("Host").map(|s| s.as_str()), Some("example.com"));
    assert_eq!(req.headers.get("X-Pad").map(|s| s.as_str()), Some("a:b"));
    assert!(req.body.is_empty());
    assert_eq!(req.params.len(), 0);
}

#[test]
fn parse_request_splits_on_any_whitespace() {
    let req = parse_request(&lines(&["  POST\t/api/data  "])).unwrap();
    assert_eq!(req.method, "POST");
    assert_eq!(req.path, "/api/data");
}

#[test]
fn parse_request_ignores_lines_without_colon_and_keeps_last_duplicate() {
    let req = parse_request(&lines(&["GET /", "junk", "A: 1", "A: 2"])).unwrap();
    assert_eq!(req.headers.len(), 1);
    assert_eq!(req.headers.get("A").map(|s| s.as_str()), Some("2"));
}

#[test]
fn parse_request_rejects_empty_and_short() {
    assert!(parse_request(&[]).is_none());
    assert!(parse_request(&lines(&["GET"])).is_none());
    assert!(parse_request(&lines(&["   "])).is_none());
}

#[test]
fn serialize_adds_content_length() {
    let r = Response::new().with_header("Content-Type", "text/plain").with_body("hello");
    assert_eq!(
        response_to_string(&r),
        "HTTP/1.1 200 OK\r\nContent-Length: 5\r\nContent-Type: text/plain\r\n\r\nhello"
    );
}

#[test]
fn serialize_keeps_given_content_length() {
    let r = Response::new().with_status(201).with_header("Content-Length", "0");
    assert_eq!(response_to_string(&r), "HTTP/1.1 201 Created\r\nContent-Length: 0\r\n\r\n");
}

#[test]
fn serialize_reason_phrases() {
    let table = [
        (200, "OK"),
        (201, "Created"),
        (204, "No Content"),
        (400, "Bad Request"),
        (401, "Unauthorized"),
        (403, "Forbidden"),
        (404, "Not Found"),
        (500, "Internal Server Error"),
        (418, "Unknown"),
    ];
    for (code, phrase) in table {
        let text = response_to_string(&Response::new().with_status(code));
        assert_eq!(text, format!("HTTP/1.1 {} {}\r\nContent-Length: 0\r\n\r\n", code, phrase));
    }
}

#[test]
fn serialize_binary_body_bytes_and_lossy_text() {
    let r = Response::new().with_body_bytes(vec![0xff, b'a']);
    let bytes = response_bytes(&r);
    assert!(bytes.ends_with(&[b'\r', b'\n', b'\r', b'\n', 0xff, b'a']));
    let text = response_to_string(&r);
    assert!(text.ends_with("\u{fffd}a"));
    assert!(text.starts_with("HTTP/1.1 200 OK\r\nContent-Length: 2\r\n"));
}

#[test]
fn builders_and_helpers() {
    let r = Response::text("plain");
    assert_eq!(r.status, 200);
    assert_eq!(r.headers.get("Content-Type").map(|s| s.as_str()), Some("text/plain"));
    assert_eq!(r.body, b"plain".to_vec());
    let j = Response::json("{}".to_string());
    assert_eq!(j.headers.get("Content-Type").map(|s| s.as_str()), Some("application/json"));
    let h = Response::html("<p>x</p>").with_header("Content-Type", "text/x");
    assert_eq!(h.headers.len(), 1);
    assert_eq!(h.headers.get("Content-Type").map(|s| s.as_str()), Some("text/x"));
    let nf = Response::not_found();
    assert_eq!(nf.status, 404);
    assert!(String::from_utf8(nf.body).unwrap().contains("404 Not Found"));
}

#[test]
fn connection_level_fallbacks() {
    assert_eq!(bad_request().status, 400);
    assert!(bad_request().body.is_empty());
    assert_eq!(or_not_found(None).status, 404);
    assert_eq!(or_not_found(Some(Response::new().with_status(204))).status, 204);
}

#[test]
fn greeting_echoes_request_line() {
    let text = create_response(&lines(&["GET /hello HTTP/1.1", "Host: x"]));
    assert_eq!(
        text,
        "HTTP/1.1 200 OK\r\nContent-Type: text/html\r\nContent-Length: 98\r\n\r\n<html><body><h1>Hello from Rust HTTP Server!</h1><p>You requested: GET /hello</p></body></html>"
    );
    assert_eq!(create_response(&lines(&["BROKEN"])), "HTTP/1.1 400 Bad Request\r\n\r\n");
    assert_eq!(create_response(&[]), "HTTP/1.1 400 Bad Request\r\n\r\n");
}
