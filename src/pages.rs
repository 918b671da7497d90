//! The demo site: its pages and the router that serves them.

use vstd::prelude::*;
use vstd::utf8::encode_utf8;
use crate::matcher::compile;
use crate::router::{Router, Target};
use crate::types::{content_type_only, Request, Response};

verus! {

/// The pages of the demo site.
#[derive(Clone, Copy, PartialEq, Eq, Structural, Debug)]
pub enum Page {
    /// The welcome page at `/`.
    Home,
    /// A user's profile at `/user/:id`.
    User,
    /// The service status at `/api/status`.
    ApiStatus,
    /// The data sink at `/api/data`.
    ApiData,
}

/// The welcome page's HTML.
pub open spec fn home_html() -> Seq<char> {
    "<html><body><h1>Welcome to Rust HTTP Server!</h1><p>Home page</p></body></html>"@
}

/// The profile page's HTML for a user id.
pub open spec fn user_html(id: Seq<char>) -> Seq<char> {
    "<html><body><h1>User Profile</h1><p>User ID: "@ + id + "</p></body></html>"@
}

/// The status document.
pub open spec fn status_json() -> Seq<char> {
    "{\"status\":\"online\",\"version\":\"1.0\"}"@
}

/// The acknowledgement of posted data.
pub open spec fn received_json() -> Seq<char> {
    "{\"success\":true,\"message\":\"Data received\"}"@
}

/// The user id that the profile page shows: the `id` parameter, or
/// `unknown` where there is none.
pub open spec fn user_id(params: Map<Seq<char>, Seq<char>>) -> Seq<char> {
    if params.contains_key("id"@) {
        params["id"@]
    } else {
        "unknown"@
    }
}

impl Page {
    /// The page's response to `req`.
    pub fn respond(&self, req: &Request) -> (r: Response)
        requires
            req.wf(),
        ensures
            r.wf(),
            r.status == 200,
            match *self {
                Page::Home => r.headers@ == content_type_only("text/html"@)
                    && r.body@ == encode_utf8(home_html()),
                Page::User => r.headers@ == content_type_only("text/html"@)
                    && r.body@ == encode_utf8(user_html(user_id(req.params@))),
                Page::ApiStatus => r.headers@ == content_type_only("application/json"@)
                    && r.body@ == encode_utf8(status_json()),
                Page::ApiData => r.headers@ == content_type_only("application/json"@)
                    && r.body@ == encode_utf8(received_json()),
            },
    {
        match self {
            Page::Home => Response::html(
                "<html><body><h1>Welcome to Rust HTTP Server!</h1><p>Home page</p></body></html>",
            ),
            Page::User => {
                let mut html = "<html><body><h1>User Profile</h1><p>User ID: ".to_owned();
                match req.params.get("id") {
                    Some(id) => html.append(id.as_str()),
                    None => html.append("unknown"),
                }
                html.append("</p></body></html>");
                Response::html(html.as_str())
            },
            Page::ApiStatus => Response::json("{\"status\":\"online\",\"version\":\"1.0\"}".to_owned()),
            Page::ApiData => Response::json(
                "{\"success\":true,\"message\":\"Data received\"}".to_owned(),
            ),
        }
    }
}

/// The demo site's router: files under `./public`, mounted at `/static`
/// and as the GET fallback, then the four pages.
pub fn create_router() -> (r: Router<Page>)
    ensures
        r.static_dir() == Some("./public"@),
        r.routes().len() == 5,
        r.routes()[0].method@ == "GET"@,
        r.routes()[0].pattern() == compile("/static"@ + "/*filepath"@),
        r.routes()[0].target is Mount,
        r.routes()[0].target->Mount_0@ == "./public"@,
        r.routes()[1].method@ == "GET"@,
        r.routes()[1].pattern() == compile("/"@),
        r.routes()[1].target == Target::Handler(Page::Home),
        r.routes()[2].method@ == "GET"@,
        r.routes()[2].pattern() == compile("/user/:id"@),
        r.routes()[2].target == Target::Handler(Page::User),
        r.routes()[3].method@ == "GET"@,
        r.routes()[3].pattern() == compile("/api/status"@),
        r.routes()[3].target == Target::Handler(Page::ApiStatus),
        r.routes()[4].method@ == "POST"@,
        r.routes()[4].pattern() == compile("/api/data"@),
        r.routes()[4].target == Target::Handler(Page::ApiData),
{
    let mut router: Router<Page> = Router::new();
    router.set_static_dir("./public");
    router.serve_static("/static", "./public");
    router.get("/", Page::Home);
    router.get("/user/:id", Page::User);
    router.get("/api/status", Page::ApiStatus);
    router.post("/api/data", Page::ApiData);
    proof {
        let rs = router.routes();
        assert(rs.drop_last().drop_last().drop_last().drop_last()[0] == rs[0]);
        assert(rs.drop_last().drop_last().drop_last()[1] == rs[1]);
        assert(rs.drop_last().drop_last()[2] == rs[2]);
        assert(rs.drop_last()[3] == rs[3]);
    }
    router
}

} // verus!
