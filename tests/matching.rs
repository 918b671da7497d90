use http_server::matcher::{match_segments, parse_path_pattern, PathSegment};
use http_server::strmap::StrMap;

fn names(segs: &[PathSegment]) -> Vec<String> {
    segs.iter()
        .map(|s| match s {
            PathSegment::Static(x) => format!("S:{}", x),
            PathSegment::Param(x) => format!("P:{}", x),
            PathSegment::Wildcard(x) => format!("W:{}", x),
        })
        .collect()
}

#[test]
fn pattern_compiles_static_and_param_segments() {
    let segs = parse_path_pattern("/user/:id/posts");
    assert_eq!(names(&segs), vec!["S:user", "P:id", "S:posts"]);
}

#[test]
fn pattern_drops_empty_segments() {
    let segs = parse_path_pattern("//a///b/");
    assert_eq!(names(&segs), vec!["S:a", "S:b"]);
    assert!(parse_path_pattern("/").is_empty());
}

#[test]
fn pattern_wildcard_only_in_last_place() {
    assert_eq!(names(&parse_path_pattern("/static/*filepath")), vec!["S:static", "W:filepath"]);
    assert_eq!(names(&parse_path_pattern("/*a/b")), vec!["S:*a", "S:b"]);
}

#[test]
fn match_binds_params() {
    let segs = parse_path_pattern("/user/:id/post/:pid");
    let mut params = StrMap::new();
    assert!(match_segments(&segs, "/user/42/post/7", &mut params));
    assert_eq!(params.get("id").map(|s| s.as_str()), Some("42"));
    assert_eq!(params.get("pid").map(|s| s.as_str()), Some("7"));
}

#[test]
fn match_rejects_other_segment_counts() {
    let segs = parse_path_pattern("/user/:id");
    let mut params = StrMap::new();
    assert!(!match_segments(&segs, "/user", &mut params));
    assert!(!match_segments(&segs, "/user/1/extra", &mut params));
    assert_eq!(params.len(), 0);
}

#[test]
fn match_is_case_sensitive_on_static_segments() {
    let segs = parse_path_pattern("/api/status");
    let mut params = StrMap::new();
    assert!(!match_segments(&segs, "/API/status", &mut params));
    assert!(match_segments(&segs, "//api//status/", &mut params));
}

#[test]
fn match_keeps_params_bound_before_a_mismatch() {
    let segs = parse_path_pattern("/:a/x");
    let mut params = StrMap::new();
    assert!(!match_segments(&segs, "/first/y", &mut params));
    assert_eq!(params.get("a").map(|s| s.as_str()), Some("first"));
}

#[test]
fn match_later_param_overrides_same_name() {
    let segs = parse_path_pattern("/:x/:x");
    let mut params = StrMap::new();
    assert!(match_segments(&segs, "/one/two", &mut params));
    assert_eq!(params.get("x").map(|s| s.as_str()), Some("two"));
    assert_eq!(params.len(), 1);
}

#[test]
fn match_twice_gives_same_params() {
    let segs = parse_path_pattern("/user/:id/:tab");
    let mut first = StrMap::new();
    let mut second = StrMap::new();
    assert!(match_segments(&segs, "/user/9/info", &mut first));
    assert!(match_segments(&segs, "/user/9/info", &mut second));
    for k in ["id", "tab"] {
        assert_eq!(first.get(k), second.get(k));
    }
    assert_eq!(first.len(), second.len());
    assert!(match_segments(&segs, "/user/9/info", &mut first));
    assert_eq!(first.len(), 2);
    assert_eq!(first.get("id").map(|s| s.as_str()), Some("9"));
}

#[test]
fn wildcard_takes_rest_of_path() {
    let segs = parse_path_pattern("/static/*filepath");
    let mut params = StrMap::new();
    assert!(match_segments(&segs, "/static/css//site.css", &mut params));
    assert_eq!(params.get("filepath").map(|s| s.as_str()), Some("css/site.css"));
    let mut none = StrMap::new();
    assert!(!match_segments(&segs, "/static", &mut none));
    assert!(!match_segments(&segs, "/other/a", &mut none));
}

#[test]
fn strmap_insert_replaces_value() {
    let mut m = StrMap::new();
    m.insert("k".to_string(), "1".to_string());
    m.insert("j".to_string(), "2".to_string());
    m.insert("k".to_string(), "3".to_string());
    assert_eq!(m.len(), 2);
    assert_eq!(m.get("k").map(|s| s.as_str()), Some("3"));
    assert!(m.contains_key("j"));
    assert!(!m.contains_key("K"));
    assert_eq!(m.get("missing"), None);
    let (k0, v0) = m.entry(0);
    assert_eq!((k0.as_str(), v0.as_str()), ("k", "3"));
}
