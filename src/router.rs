//! The router: routes kept per method in registration order, first match
//! wins, with static-file fallback for GET requests.

use vstd::prelude::*;
use crate::matcher::{compile, match_params, match_segments, parse_path_pattern, pattern_matches, seg_views, PathSegment, SegSpec};
use crate::strmap::StrMap;
use crate::text::{lemma_pieces_nonempty, segments, split_pieces, str_eq, to_upper, upper_of, views};
use crate::types::{content_type_only, not_found_page, Request, Response};
use vstd::utf8::encode_utf8;

verus! {

/// What a route leads to.
pub enum Target<H> {
    /// A handler that the caller invokes.
    Handler(H),
    /// Files under this directory, named by the `filepath` parameter.
    Mount(String),
}

/// One registered route.
pub struct Route<H> {
    /// The uppercase method it answers.
    pub method: String,
    /// The compiled pattern.
    pub segments: Vec<PathSegment>,
    /// What a match leads to.
    pub target: Target<H>,
}

impl<H> Route<H> {
    /// The route's compiled pattern, as a mathematical value.
    pub open spec fn pattern(&self) -> Seq<SegSpec> {
        seg_views(self.segments@)
    }

    /// Compiles `pattern` into a route for `method` leading to `target`.
    pub fn new(method: String, pattern: &str, target: Target<H>) -> (r: Route<H>)
        ensures
            r.method@ == method@,
            r.pattern() == compile(pattern@),
            r.target == target,
    {
        Route { method, segments: parse_path_pattern(pattern), target }
    }

    /// Matches `path` against this route's pattern, binding parameters.
    pub fn matches(&self, path: &str, params: &mut StrMap) -> (r: bool)
        requires
            old(params).wf(),
        ensures
            final(params).wf(),
            r == pattern_matches(self.pattern(), segments(path@)),
            final(params)@ == match_params(self.pattern(), segments(path@), old(params)@),
    {
        match_segments(&self.segments, path, params)
    }
}

/// What routing decided for a request.
pub enum Dispatch<'a, H> {
    /// Invoke this handler with the request.
    Handler(&'a H),
    /// A static mount matched: read this file and answer as
    /// `static_file_response` says.
    Mount(String),
    /// No route matched: read this file under the static directory and
    /// answer as `fallback_file_response` says.
    Fallback(String),
    /// The response is already decided.
    Reply(Response),
    /// Nothing matched.
    NoRoute,
}

/// Whether a segment names the current or the parent directory.
pub open spec fn is_dot_segment(s: Seq<char>) -> bool {
    s == seq!['.'] || s == seq!['.', '.']
}

/// The segments with `.` and `..` left out, in order.
pub open spec fn safe_segments(s: Seq<Seq<char>>) -> Seq<Seq<char>>
    decreases s.len(),
{
    if s.len() == 0 {
        s
    } else if is_dot_segment(s.last()) {
        safe_segments(s.drop_last())
    } else {
        safe_segments(s.drop_last()).push(s.last())
    }
}

/// `base` with one more component, a slash between the two where `base`
/// is not empty and does not already end in one.
pub open spec fn push_component(base: Seq<char>, c: Seq<char>) -> Seq<char> {
    if base.len() == 0 || base.last() == '/' {
        base + c
    } else {
        base + seq!['/'] + c
    }
}

/// `dir` with each of `parts` appended as a component.
pub open spec fn join_path(dir: Seq<char>, parts: Seq<Seq<char>>) -> Seq<char>
    decreases parts.len(),
{
    if parts.len() == 0 {
        dir
    } else {
        push_component(join_path(dir, parts.drop_last()), parts.last())
    }
}

/// The file that `rel` names under `dir`: its non-empty segments other
/// than `.` and `..`, appended to `dir`.
pub open spec fn file_path(dir: Seq<char>, rel: Seq<char>) -> Seq<char> {
    join_path(dir, safe_segments(segments(rel)))
}

fn is_dot(s: &str) -> (r: bool)
    ensures
        r == is_dot_segment(s@),
{
    let n = s.unicode_len();
    if n == 1 && s.get_char(0) == '.' {
        assert(s@ =~= seq!['.']);
        true
    } else if n == 2 && s.get_char(0) == '.' && s.get_char(1) == '.' {
        assert(s@ =~= seq!['.', '.']);
        true
    } else {
        assert(seq!['.'].len() == 1 && seq!['.', '.'].len() == 2);
        assert(seq!['.'][0] == '.' && seq!['.', '.'][0] == '.' && seq!['.', '.'][1] == '.');
        false
    }
}

/// The file that `rel` names under `dir`, with `.`, `..` and empty
/// segments of `rel` left out, so that it cannot leave `dir`.
pub fn build_file_path(dir: &str, rel: &str) -> (r: String)
    ensures
        r@ == file_path(dir@, rel@),
{
    let parts = split_pieces(rel, false);
    let ghost pv = views(parts@);
    let n = parts.len();
    let mut out = dir.to_owned();
    let mut i: usize = 0;
    proof {
        reveal_strlit("/");
        assert(pv.subrange(0, 0) =~= Seq::<Seq<char>>::empty());
    }
    while i < n
        invariant
            n == parts@.len(),
            pv == views(parts@),
            pv == segments(rel@),
            i <= n,
            out@ == join_path(dir@, safe_segments(pv.subrange(0, i as int))),
            "/"@ == seq!['/'],
        decreases n - i,
    {
        let part = parts[i].as_str();
        assert(pv.subrange(0, i + 1).drop_last() =~= pv.subrange(0, i as int));
        assert(pv.subrange(0, i + 1).last() == part@);
        if !is_dot(part) {
            let len = out.as_str().unicode_len();
            let ghost safe = safe_segments(pv.subrange(0, i as int));
            assert(safe.push(part@).drop_last() =~= safe);
            if len > 0 && out.as_str().get_char(len - 1) != '/' {
                out.append("/");
            }
            out.append(part);
        }
        i = i + 1;
    }
    assert(pv.subrange(0, n as int) =~= pv);
    out
}

/// Each kept segment is one of the given segments, and neither `.` nor `..`.
proof fn lemma_safe_segments(s: Seq<Seq<char>>)
    ensures
        forall|i: int| 0 <= i < safe_segments(s).len() ==> !is_dot_segment(#[trigger] safe_segments(s)[i])
            && exists|j: int| 0 <= j < s.len() && s[j] == safe_segments(s)[i],
    decreases s.len(),
{
    if s.len() > 0 {
        let p = s.drop_last();
        lemma_safe_segments(p);
        let t = safe_segments(s);
        assert forall|i: int| 0 <= i < t.len() implies !is_dot_segment(#[trigger] t[i])
            && exists|j: int| 0 <= j < s.len() && s[j] == t[i] by {
            if i < safe_segments(p).len() {
                assert(t[i] == safe_segments(p)[i]);
                let j = choose|j: int| 0 <= j < p.len() && p[j] == safe_segments(p)[i];
                assert(s[j] == p[j]);
            } else {
                assert(t[i] == s.last());
                assert(s[s.len() - 1] == t[i]);
            }
        }
    }
}

/// Traversal is defeated by omission: the components that a request path
/// adds under the directory are segments of that path, none of them empty,
/// `.` or `..`.
pub proof fn law_no_traversal(dir: Seq<char>, rel: Seq<char>)
    ensures
        file_path(dir, rel) == join_path(dir, safe_segments(segments(rel))),
        forall|i: int| 0 <= i < safe_segments(segments(rel)).len() ==> {
            let c = #[trigger] safe_segments(segments(rel))[i];
            &&& c.len() > 0
            &&& !is_dot_segment(c)
            &&& exists|j: int| 0 <= j < segments(rel).len() && segments(rel)[j] == c
        },
{
    lemma_safe_segments(segments(rel));
    lemma_pieces_nonempty(rel, false);
}

/// The index of the last `c` in `s`, or -1 where there is none.
pub open spec fn last_index_of(s: Seq<char>, c: char) -> int
    decreases s.len(),
{
    if s.len() == 0 {
        -1
    } else if s.last() == c {
        s.len() - 1
    } else {
        last_index_of(s.drop_last(), c)
    }
}

/// The extension of the path's last segment: what follows its last dot,
/// where that dot is not its first character.
pub open spec fn extension(path: Seq<char>) -> Option<Seq<char>> {
    let parts = segments(path);
    if parts.len() == 0 {
        None
    } else {
        let d = last_index_of(parts.last(), '.');
        if d <= 0 {
            None
        } else {
            Some(parts.last().skip(d + 1))
        }
    }
}

/// The media type served for a file extension.
pub open spec fn content_type_for(ext: Option<Seq<char>>) -> Seq<char> {
    match ext {
        None => "application/octet-stream"@,
        Some(e) => if e == "html"@ {
            "text/html"@
        } else if e == "css"@ {
            "text/css"@
        } else if e == "js"@ {
            "application/javascript"@
        } else if e == "json"@ {
            "application/json"@
        } else if e == "png"@ {
            "image/png"@
        } else if e == "jpg"@ || e == "jpeg"@ {
            "image/jpeg"@
        } else if e == "gif"@ {
            "image/gif"@
        } else if e == "svg"@ {
            "image/svg+xml"@
        } else if e == "pdf"@ {
            "application/pdf"@
        } else if e == "txt"@ {
            "text/plain"@
        } else if e == "xml"@ {
            "application/xml"@
        } else if e == "ico"@ {
            "image/x-icon"@
        } else {
            "application/octet-stream"@
        },
    }
}

fn media_type(e: &str) -> (r: &'static str)
    ensures
        r@ == content_type_for(Some(e@)),
{
    if str_eq(e, "html") {
        "text/html"
    } else if str_eq(e, "css") {
        "text/css"
    } else if str_eq(e, "js") {
        "application/javascript"
    } else if str_eq(e, "json") {
        "application/json"
    } else if str_eq(e, "png") {
        "image/png"
    } else if str_eq(e, "jpg") || str_eq(e, "jpeg") {
        "image/jpeg"
    } else if str_eq(e, "gif") {
        "image/gif"
    } else if str_eq(e, "svg") {
        "image/svg+xml"
    } else if str_eq(e, "pdf") {
        "application/pdf"
    } else if str_eq(e, "txt") {
        "text/plain"
    } else if str_eq(e, "xml") {
        "application/xml"
    } else if str_eq(e, "ico") {
        "image/x-icon"
    } else {
        "application/octet-stream"
    }
}

/// The media type of a file, from the extension of its path.
pub fn get_content_type(path: &str) -> (r: &'static str)
    ensures
        r@ == content_type_for(extension(path@)),
{
    let parts = split_pieces(path, false);
    let k = parts.len();
    if k == 0 {
        return "application/octet-stream";
    }
    let name = parts[k - 1].as_str();
    proof {
        assert(views(parts@).last() == name@);
    }
    let n = name.unicode_len();
    let mut i: usize = n;
    assert(name@.subrange(0, n as int) == name@);
    while i > 0 && name.get_char(i - 1) != '.'
        invariant
            n == name@.len(),
            i <= n,
            last_index_of(name@, '.') == last_index_of(name@.subrange(0, i as int), '.'),
        decreases i,
    {
        assert(name@.subrange(0, i as int).drop_last() == name@.subrange(0, i - 1));
        i = i - 1;
    }
    if i <= 1 {
        return "application/octet-stream";
    }
    let ext = name.substring_char(i, n);
    assert(ext@ == name@.skip(i as int));
    media_type(ext)
}

/// How reading a file turned out.
pub enum FileOutcome {
    /// The file's bytes.
    Contents(Vec<u8>),
    /// No such file.
    NotFound,
    /// The file may not be read.
    PermissionDenied,
    /// Any other failure.
    Failed,
}

/// The body of the forbidden page.
pub open spec fn forbidden_text() -> Seq<char> {
    "403 Forbidden: Access to this resource is denied"@
}

/// The body of the server-error page.
pub open spec fn server_error_text() -> Seq<char> {
    "500 Internal Server Error"@
}

/// The 200 response that carries a file's bytes, typed by its extension.
pub fn file_response(file: &str, content: Vec<u8>) -> (r: Response)
    ensures
        r.wf(),
        r.status == 200,
        r.headers@ == content_type_only(content_type_for(extension(file@))),
        r.body@ == content@,
{
    Response::new().with_header("Content-Type", get_content_type(file)).with_body_bytes(content)
}

/// The answer of a static mount to reading `file`: its bytes, or 404, 403
/// or 500 by the kind of failure.
pub fn static_file_response(file: &str, outcome: FileOutcome) -> (r: Response)
    ensures
        r.wf(),
        match outcome {
            FileOutcome::Contents(b) => r.status == 200
                && r.headers@ == content_type_only(content_type_for(extension(file@)))
                && r.body@ == b@,
            FileOutcome::NotFound => r.status == 404
                && r.headers@ == content_type_only("text/html"@)
                && r.body@ == encode_utf8(not_found_page()),
            FileOutcome::PermissionDenied => r.status == 403
                && r.headers@ == Map::<Seq<char>, Seq<char>>::empty()
                && r.body@ == encode_utf8(forbidden_text()),
            FileOutcome::Failed => r.status == 500
                && r.headers@ == Map::<Seq<char>, Seq<char>>::empty()
                && r.body@ == encode_utf8(server_error_text()),
        },
{
    match outcome {
        FileOutcome::Contents(b) => file_response(file, b),
        FileOutcome::NotFound => Response::not_found(),
        FileOutcome::PermissionDenied => Response::new().with_status(403).with_body(
            "403 Forbidden: Access to this resource is denied",
        ),
        FileOutcome::Failed => Response::new().with_status(500).with_body("500 Internal Server Error"),
    }
}

/// The answer of the GET fallback to reading `file`: its bytes, or nothing
/// on any failure, so that the caller answers 404.
pub fn fallback_file_response(file: &str, outcome: FileOutcome) -> (r: Option<Response>)
    ensures
        match outcome {
            FileOutcome::Contents(b) => r is Some && r->Some_0.wf() && r->Some_0.status == 200
                && r->Some_0.headers@ == content_type_only(content_type_for(extension(file@)))
                && r->Some_0.body@ == b@,
            _ => r is None,
        },
{
    match outcome {
        FileOutcome::Contents(b) => Some(file_response(file, b)),
        _ => None,
    }
}

/// The router: routes in registration order, and an optional static
/// directory for GET fallback.
pub struct Router<H> {
    routes: Vec<Route<H>>,
    static_dir: Option<String>,
}

/// The index of the first route from `k` on that answers `method` and
/// whose pattern matches `path`.
pub open spec fn first_match<H>(
    routes: Seq<Route<H>>,
    method: Seq<char>,
    path: Seq<Seq<char>>,
    k: int,
) -> Option<int>
    decreases routes.len() - k,
{
    if k < 0 || k >= routes.len() {
        None
    } else if routes[k].method@ == method && pattern_matches(routes[k].pattern(), path) {
        Some(k)
    } else {
        first_match(routes, method, path, k + 1)
    }
}

/// The parameter map after trying the routes from `k` on, each that
/// answers `method` in turn, up to and including the first that matches.
pub open spec fn params_after<H>(
    routes: Seq<Route<H>>,
    method: Seq<char>,
    path: Seq<Seq<char>>,
    k: int,
    m: Map<Seq<char>, Seq<char>>,
) -> Map<Seq<char>, Seq<char>>
    decreases routes.len() - k,
{
    if k < 0 || k >= routes.len() {
        m
    } else if routes[k].method@ == method {
        let m2 = match_params(routes[k].pattern(), path, m);
        if pattern_matches(routes[k].pattern(), path) {
            m2
        } else {
            params_after(routes, method, path, k + 1, m2)
        }
    } else {
        params_after(routes, method, path, k + 1, m)
    }
}

/// Registration order decides: where the route at `i` answers the method
/// and matches the path, the route chosen is that one or an earlier one,
/// never a later one.
pub proof fn law_first_registered_wins<H>(
    routes: Seq<Route<H>>,
    method: Seq<char>,
    path: Seq<Seq<char>>,
    i: int,
)
    requires
        0 <= i < routes.len(),
        routes[i].method@ == method,
        pattern_matches(routes[i].pattern(), path),
    ensures
        first_match(routes, method, path, 0) is Some,
        first_match(routes, method, path, 0)->Some_0 <= i,
{
    lemma_first_match_from(routes, method, path, 0, i);
}

proof fn lemma_first_match_from<H>(
    routes: Seq<Route<H>>,
    method: Seq<char>,
    path: Seq<Seq<char>>,
    k: int,
    i: int,
)
    requires
        0 <= k <= i < routes.len(),
        routes[i].method@ == method,
        pattern_matches(routes[i].pattern(), path),
    ensures
        first_match(routes, method, path, k) is Some,
        k <= first_match(routes, method, path, k)->Some_0 <= i,
    decreases i - k,
{
    if k < i {
        lemma_first_match_from(routes, method, path, k + 1, i);
    }
}

/// What routing owes for a request with this method and path, given the
/// parameters that matching left behind.
pub open spec fn dispatch_spec<H>(
    routes: Seq<Route<H>>,
    static_dir: Option<Seq<char>>,
    method: Seq<char>,
    path: Seq<char>,
    params: Map<Seq<char>, Seq<char>>,
    r: Dispatch<H>,
) -> bool {
    match first_match(routes, method, segments(path), 0) {
        Some(i) => match routes[i].target {
            Target::Handler(h) => r is Handler && *r->Handler_0 == h,
            Target::Mount(dir) => if params.contains_key("filepath"@) {
                r is Mount && r->Mount_0@ == file_path(dir@, params["filepath"@])
            } else {
                r is Reply && r->Reply_0.wf() && r->Reply_0.status == 404
                    && r->Reply_0.headers@ == content_type_only("text/html"@)
                    && r->Reply_0.body@ == encode_utf8(not_found_page())
            },
        },
        None => if method == "GET"@ && static_dir is Some {
            r is Fallback && r->Fallback_0@ == file_path(static_dir->Some_0, path)
        } else {
            r is NoRoute
        },
    }
}

impl<H> Router<H> {
    /// The registered routes, in registration order.
    pub closed spec fn routes(&self) -> Seq<Route<H>> {
        self.routes@
    }

    /// The static directory, if one is set.
    pub closed spec fn static_dir(&self) -> Option<Seq<char>> {
        match self.static_dir {
            Some(d) => Some(d@),
            None => None,
        }
    }

    /// A router with no routes and no static directory.
    pub fn new() -> (r: Router<H>)
        ensures
            r.routes().len() == 0,
            r.static_dir() is None,
    {
        Router { routes: Vec::new(), static_dir: None }
    }

    /// Sets the directory that unmatched GET requests are served from.
    pub fn set_static_dir(&mut self, dir: &str)
        ensures
            final(self).routes() == old(self).routes(),
            final(self).static_dir() == Some(dir@),
    {
        self.static_dir = Some(dir.to_owned());
    }

    fn push_route(&mut self, route: Route<H>)
        ensures
            final(self).routes() == old(self).routes().push(route),
            final(self).static_dir() == old(self).static_dir(),
    {
        self.routes.push(route);
    }

    /// Registers `handler` for `method`, uppercased, and `path`, after all
    /// routes registered before.
    pub fn add_route(&mut self, method: &str, path: &str, handler: H)
        ensures
            final(self).routes().len() == old(self).routes().len() + 1,
            final(self).routes().drop_last() == old(self).routes(),
            final(self).routes().last().method@ == upper_of(method@),
            final(self).routes().last().pattern() == compile(path@),
            final(self).routes().last().target == Target::Handler(handler),
            final(self).static_dir() == old(self).static_dir(),
    {
        let route = Route::new(to_upper(method), path, Target::Handler(handler));
        self.push_route(route);
    }

    fn add_with(&mut self, method: &str, path: &str, handler: H)
        ensures
            final(self).routes().len() == old(self).routes().len() + 1,
            final(self).routes().drop_last() == old(self).routes(),
            final(self).routes().last().method@ == method@,
            final(self).routes().last().pattern() == compile(path@),
            final(self).routes().last().target == Target::Handler(handler),
            final(self).static_dir() == old(self).static_dir(),
    {
        let route = Route::new(method.to_owned(), path, Target::Handler(handler));
        self.push_route(route);
    }

    /// Registers `handler` for GET requests on `path`.
    pub fn get(&mut self, path: &str, handler: H)
        ensures
            final(self).routes().len() == old(self).routes().len() + 1,
            final(self).routes().drop_last() == old(self).routes(),
            final(self).routes().last().method@ == "GET"@,
            final(self).routes().last().pattern() == compile(path@),
            final(self).routes().last().target == Target::Handler(handler),
            final(self).static_dir() == old(self).static_dir(),
    {
        self.add_with("GET", path, handler);
    }

    /// Registers `handler` for POST requests on `path`.
    pub fn post(&mut self, path: &str, handler: H)
        ensures
            final(self).routes().len() == old(self).routes().len() + 1,
            final(self).routes().drop_last() == old(self).routes(),
            final(self).routes().last().method@ == "POST"@,
            final(self).routes().last().pattern() == compile(path@),
            final(self).routes().last().target == Target::Handler(handler),
            final(self).static_dir() == old(self).static_dir(),
    {
        self.add_with("POST", path, handler);
    }

    /// Registers `handler` for PUT requests on `path`.
    pub fn put(&mut self, path: &str, handler: H)
        ensures
            final(self).routes().len() == old(self).routes().len() + 1,
            final(self).routes().drop_last() == old(self).routes(),
            final(self).routes().last().method@ == "PUT"@,
            final(self).routes().last().pattern() == compile(path@),
            final(self).routes().last().target == Target::Handler(handler),
            final(self).static_dir() == old(self).static_dir(),
    {
        self.add_with("PUT", path, handler);
    }

    /// Registers `handler` for DELETE requests on `path`.
    pub fn delete(&mut self, path: &str, handler: H)
        ensures
            final(self).routes().len() == old(self).routes().len() + 1,
            final(self).routes().drop_last() == old(self).routes(),
            final(self).routes().last().method@ == "DELETE"@,
            final(self).routes().last().pattern() == compile(path@),
            final(self).routes().last().target == Target::Handler(handler),
            final(self).static_dir() == old(self).static_dir(),
    {
        self.add_with("DELETE", path, handler);
    }

    /// Mounts `dir_path` at `url_path`: sets it as the static directory and
    /// registers a GET route `url_path/*filepath` that serves the file that
    /// the rest of the path names under it.
    pub fn serve_static(&mut self, url_path: &str, dir_path: &str)
        ensures
            final(self).routes().len() == old(self).routes().len() + 1,
            final(self).routes().drop_last() == old(self).routes(),
            final(self).routes().last().method@ == "GET"@,
            final(self).routes().last().pattern() == compile(url_path@ + "/*filepath"@),
            final(self).routes().last().target is Mount,
            final(self).routes().last().target->Mount_0@ == dir_path@,
            final(self).static_dir() == Some(dir_path@),
    {
        self.static_dir = Some(dir_path.to_owned());
        let mut pattern = url_path.to_owned();
        pattern.append("/*filepath");
        let route = Route::new("GET".to_owned(), pattern.as_str(), Target::Mount(dir_path.to_owned()));
        self.push_route(route);
    }

    /// Routes `request`: the first route, in registration order, that
    /// answers its method and whose pattern matches its path decides, each
    /// route tried writing its bound parameters into `request.params`;
    /// failing that, a GET request falls back to the static directory.
    pub fn route<'a>(&'a self, request: &mut Request) -> (r: Dispatch<'a, H>)
        requires
            old(request).wf(),
        ensures
            final(request).wf(),
            final(request).method == old(request).method,
            final(request).path == old(request).path,
            final(request).headers == old(request).headers,
            final(request).body == old(request).body,
            final(request).params@ == params_after(
                self.routes(),
                old(request).method@,
                segments(old(request).path@),
                0,
                old(request).params@,
            ),
            dispatch_spec(
                self.routes(),
                self.static_dir(),
                old(request).method@,
                old(request).path@,
                final(request).params@,
                r,
            ),
    {
        let ghost m = request.method@;
        let ghost p = segments(request.path@);
        let ghost m0 = request.params@;
        let n = self.routes.len();
        let mut i: usize = 0;
        while i < n
            invariant
                n == self.routes@.len(),
                i <= n,
                request.wf(),
                request.method == old(request).method,
                request.path == old(request).path,
                request.headers == old(request).headers,
                request.body == old(request).body,
                m == request.method@,
                p == segments(request.path@),
                m0 == old(request).params@,
                params_after(self.routes(), m, p, 0, m0) == params_after(self.routes(), m, p, i as int, request.params@),
                first_match(self.routes(), m, p, 0) == first_match(self.routes(), m, p, i as int),
            decreases n - i,
        {
            let route = &self.routes[i];
            if route.method == request.method {
                if route.matches(request.path.as_str(), &mut request.params) {
                    match &route.target {
                        Target::Handler(h) => {
                            return Dispatch::Handler(h);
                        },
                        Target::Mount(dir) => {
                            match request.params.get("filepath") {
                                Some(v) => {
                                    return Dispatch::Mount(build_file_path(dir.as_str(), v.as_str()));
                                },
                                None => {
                                    return Dispatch::Reply(Response::not_found());
                                },
                            }
                        },
                    }
                }
            }
            i = i + 1;
        }
        if str_eq(request.method.as_str(), "GET") {
            match &self.static_dir {
                Some(dir) => {
                    return Dispatch::Fallback(build_file_path(dir.as_str(), request.path.as_str()));
                },
                None => {},
            }
        }
        Dispatch::NoRoute
    }
}

} // verus!
