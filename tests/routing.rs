use http_server::http::{or_not_found, response_to_string};
use http_server::pages::{create_router, Page};
use http_server::router::{build_file_path, fallback_file_response, get_content_type, static_file_response, Dispatch, FileOutcome, Router};
use http_server::strmap::StrMap;
use http_server::types::{Request, Response};

fn request(method: &str, path: &str) -> Request {
    Request {
        method: method.to_string(),
        path: path.to_string(),
        headers: StrMap::new(),
        body: Vec::new(),
        params: StrMap::new(),
    }
}

fn content_type(r: &Response) -> Option<&str> {
    r.headers.get("Content-Type").map(|s| s.as_str())
}

fn serve(router: &Router<Page>, method: &str, path: &str) -> Response {
    let mut req = request(method, path);
    let routed = match router.route(&mut req) {
        Dispatch::Handler(page) => Some(page.respond(&req)),
        Dispatch::Mount(file) => Some(static_file_response(&file, FileOutcome::NotFound)),
        Dispatch::Fallback(file) => fallback_file_response(&file, FileOutcome::NotFound),
        Dispatch::Reply(r) => Some(r),
        Dispatch::NoRoute => None,
    };
    or_not_found(routed)
}

#[test]
fn home_page_is_html() {
    let router = create_router();
    let r = serve(&router, "GET", "/");
    assert_eq!(r.status, 200);
    assert_eq!(content_type(&r), Some("text/html"));
    assert!(String::from_utf8(r.body).unwrap().contains("Welcome to Rust HTTP Server!"));
}

#[test]
fn user_page_shows_id() {
    let router = create_router();
    let r = serve(&router, "GET", "/user/42");
    assert_eq!(r.status, 200);
    assert!(String::from_utf8(r.body).unwrap().contains("User ID: 42"));
}

#[test]
fn api_status_is_json() {
    let router = create_router();
    let r = serve(&router, "GET", "/api/status");
    assert_eq!(r.status, 200);
    assert_eq!(content_type(&r), Some("application/json"));
    assert_eq!(r.body, b"{\"status\":\"online\",\"version\":\"1.0\"}".to_vec());
}

#[test]
fn api_data_accepts_post() {
    let router = create_router();
    let r = serve(&router, "POST", "/api/data");
    assert_eq!(r.status, 200);
    assert_eq!(r.body, b"{\"success\":true,\"message\":\"Data received\"}".to_vec());
}

#[test]
fn unknown_path_without_static_dir_is_404() {
    let mut router: Router<Page> = Router::new();
    router.get("/", Page::Home);
    let mut req = request("GET", "/nonexistent");
    assert!(matches!(router.route(&mut req), Dispatch::NoRoute));
    assert_eq!(serve(&router, "GET", "/nonexistent").status, 404);
}

#[test]
fn missing_static_file_is_404_from_mount() {
    let router = create_router();
    let mut req = request("GET", "/static/missing.png");
    match router.route(&mut req) {
        Dispatch::Mount(file) => {
            assert_eq!(file, "./public/missing.png");
            let r = static_file_response(&file, FileOutcome::NotFound);
            assert_eq!(r.status, 404);
            assert_eq!(content_type(&r), Some("text/html"));
        },
        _ => panic!("expected the static mount"),
    }
    assert_eq!(req.params.get("filepath").map(|s| s.as_str()), Some("missing.png"));
}

#[test]
fn post_to_get_only_route_is_404() {
    let router = create_router();
    let mut req = request("POST", "/api/status");
    assert!(matches!(router.route(&mut req), Dispatch::NoRoute));
    assert_eq!(serve(&router, "POST", "/api/status").status, 404);
}

#[test]
fn first_registered_route_wins() {
    let mut router: Router<u32> = Router::new();
    router.get("/user/:id", 1);
    router.get("/user/self", 2);
    let mut req = request("GET", "/user/self");
    match router.route(&mut req) {
        Dispatch::Handler(h) => assert_eq!(*h, 1),
        _ => panic!("expected a handler"),
    }
    assert_eq!(req.params.get("id").map(|s| s.as_str()), Some("self"));
}

#[test]
fn later_route_reached_when_earlier_fails() {
    let mut router: Router<u32> = Router::new();
    router.get("/user/self", 1);
    router.get("/user/:id", 2);
    router.post("/user/:id", 3);
    let mut req = request("GET", "/user/7");
    match router.route(&mut req) {
        Dispatch::Handler(h) => assert_eq!(*h, 2),
        _ => panic!("expected a handler"),
    }
    let mut req = request("POST", "/user/7");
    match router.route(&mut req) {
        Dispatch::Handler(h) => assert_eq!(*h, 3),
        _ => panic!("expected a handler"),
    }
}

#[test]
fn put_and_delete_routes() {
    let mut router: Router<u32> = Router::new();
    router.put("/item/:id", 1);
    router.delete("/item/:id", 2);
    let mut req = request("DELETE", "/item/3");
    assert!(matches!(router.route(&mut req), Dispatch::Handler(&2)));
    let mut req = request("PUT", "/item/3");
    assert!(matches!(router.route(&mut req), Dispatch::Handler(&1)));
}

#[test]
fn add_route_uppercases_method() {
    let mut router: Router<u32> = Router::new();
    router.add_route("patch", "/x", 5);
    let mut req = request("PATCH", "/x");
    assert!(matches!(router.route(&mut req), Dispatch::Handler(&5)));
    let mut lower = request("patch", "/x");
    assert!(matches!(router.route(&mut lower), Dispatch::NoRoute));
}

#[test]
fn fallback_serves_from_static_dir() {
    let mut router: Router<u32> = Router::new();
    router.set_static_dir("./www");
    let mut req = request("GET", "/css/../site.css");
    match router.route(&mut req) {
        Dispatch::Fallback(file) => assert_eq!(file, "./www/css/site.css"),
        _ => panic!("expected the fallback"),
    }
    let mut post = request("POST", "/site.css");
    assert!(matches!(router.route(&mut post), Dispatch::NoRoute));
}

#[test]
fn traversal_segments_are_dropped() {
    let a = build_file_path("./public", "/static/../../etc/passwd");
    let b = build_file_path("./public", "/static/etc/passwd");
    assert_eq!(a, b);
    assert_eq!(a, "./public/static/etc/passwd");
    assert_eq!(build_file_path("./public/", "./a//b/."), "./public/a/b");
    assert_eq!(build_file_path("", "x/y"), "x/y");
}

#[test]
fn content_types_by_extension() {
    let cases = [
        ("a/index.html", "text/html"),
        ("s.css", "text/css"),
        ("app.js", "application/javascript"),
        ("d.json", "application/json"),
        ("p.png", "image/png"),
        ("p.jpg", "image/jpeg"),
        ("p.jpeg", "image/jpeg"),
        ("p.gif", "image/gif"),
        ("p.svg", "image/svg+xml"),
        ("doc.pdf", "application/pdf"),
        ("r.txt", "text/plain"),
        ("f.xml", "application/xml"),
        ("favicon.ico", "image/x-icon"),
        ("archive.tar.gz", "application/octet-stream"),
        ("noext", "application/octet-stream"),
        ("dir/.hidden", "application/octet-stream"),
        ("x.HTML", "application/octet-stream"),
    ];
    for (path, ty) in cases {
        assert_eq!(get_content_type(path), ty, "{}", path);
    }
}

#[test]
fn static_file_responses_by_outcome() {
    let ok = static_file_response("./public/a.css", FileOutcome::Contents(vec![1, 2, 3]));
    assert_eq!(ok.status, 200);
    assert_eq!(content_type(&ok), Some("text/css"));
    assert_eq!(ok.body, vec![1, 2, 3]);
    let denied = static_file_response("./public/a.css", FileOutcome::PermissionDenied);
    assert_eq!(denied.status, 403);
    assert_eq!(denied.body, b"403 Forbidden: Access to this resource is denied".to_vec());
    let failed = static_file_response("./public/a.css", FileOutcome::Failed);
    assert_eq!(failed.status, 500);
    assert_eq!(failed.body, b"500 Internal Server Error".to_vec());
}

#[test]
fn fallback_collapses_read_errors() {
    assert!(fallback_file_response("a.txt", FileOutcome::NotFound).is_none());
    assert!(fallback_file_response("a.txt", FileOutcome::PermissionDenied).is_none());
    assert!(fallback_file_response("a.txt", FileOutcome::Failed).is_none());
    let r = fallback_file_response("a.txt", FileOutcome::Contents(b"hi".to_vec())).unwrap();
    assert_eq!(content_type(&r), Some("text/plain"));
    assert_eq!(r.body, b"hi".to_vec());
}

#[test]
fn end_to_end_wire_text() {
    let router = create_router();
    let text = response_to_string(&serve(&router, "GET", "/api/status"));
    assert_eq!(
        text,
        "HTTP/1.1 200 OK\r\nContent-Length: 35\r\nContent-Type: application/json\r\n\r\n{\"status\":\"online\",\"version\":\"1.0\"}"
    );
}
