//! The request and response records that handlers exchange.

use vstd::prelude::*;
use vstd::utf8::encode_utf8;
use crate::strmap::StrMap;

verus! {

/// One parsed HTTP request.
pub struct Request {
    /// The method token as received.
    pub method: String,
    /// The raw path, not decoded.
    pub path: String,
    /// Header names to values, names as received.
    pub headers: StrMap,
    /// The body bytes; left empty by the parser.
    pub body: Vec<u8>,
    /// Route parameters, filled in while routing.
    pub params: StrMap,
}

impl Request {
    /// Both maps keep one entry per key.
    pub open spec fn wf(&self) -> bool {
        self.headers.wf() && self.params.wf()
    }
}

/// One HTTP response.
pub struct Response {
    /// The status code.
    pub status: u16,
    /// Header names to values.
    pub headers: StrMap,
    /// The body bytes.
    pub body: Vec<u8>,
}

/// The single header that the content helpers set.
pub open spec fn content_type_only(value: Seq<char>) -> Map<Seq<char>, Seq<char>> {
    Map::<Seq<char>, Seq<char>>::empty().insert("Content-Type"@, value)
}

/// The body of the not-found page.
pub open spec fn not_found_page() -> Seq<char> {
    "<html><body><h1>404 Not Found</h1><p>The requested resource could not be found.</p></body></html>"@
}

impl Response {
    /// The header map keeps one entry per key.
    pub open spec fn wf(&self) -> bool {
        self.headers.wf()
    }

    /// An empty 200 response.
    pub fn new() -> (r: Response)
        ensures
            r.wf(),
            r.status == 200,
            r.headers@ == Map::<Seq<char>, Seq<char>>::empty(),
            r.body@ == Seq::<u8>::empty(),
    {
        Response { status: 200, headers: StrMap::new(), body: Vec::new() }
    }

    /// This response with its status replaced.
    pub fn with_status(self, status: u16) -> (r: Response)
        requires
            self.wf(),
        ensures
            r.wf(),
            r.status == status,
            r.headers@ == self.headers@,
            r.body@ == self.body@,
    {
        let mut r = self;
        r.status = status;
        r
    }

    /// This response with `key` set to `value`, replacing an earlier value.
    pub fn with_header(self, key: &str, value: &str) -> (r: Response)
        requires
            self.wf(),
        ensures
            r.wf(),
            r.status == self.status,
            r.headers@ == self.headers@.insert(key@, value@),
            r.body@ == self.body@,
    {
        let mut r = self;
        r.headers.insert(key.to_owned(), value.to_owned());
        r
    }

    /// This response with the UTF-8 bytes of `body` as its body.
    pub fn with_body(self, body: &str) -> (r: Response)
        requires
            self.wf(),
        ensures
            r.wf(),
            r.status == self.status,
            r.headers@ == self.headers@,
            r.body@ == encode_utf8(body@),
    {
        let mut r = self;
        r.body = body.as_bytes_vec();
        r
    }

    /// This response with `body` as its body.
    pub fn with_body_bytes(self, body: Vec<u8>) -> (r: Response)
        requires
            self.wf(),
        ensures
            r.wf(),
            r.status == self.status,
            r.headers@ == self.headers@,
            r.body@ == body@,
    {
        let mut r = self;
        r.body = body;
        r
    }

    /// A 200 HTML page.
    pub fn html(content: &str) -> (r: Response)
        ensures
            r.wf(),
            r.status == 200,
            r.headers@ == content_type_only("text/html"@),
            r.body@ == encode_utf8(content@),
    {
        Response::new().with_header("Content-Type", "text/html").with_body(content)
    }

    /// A 200 plain-text response.
    pub fn text(content: &str) -> (r: Response)
        ensures
            r.wf(),
            r.status == 200,
            r.headers@ == content_type_only("text/plain"@),
            r.body@ == encode_utf8(content@),
    {
        Response::new().with_header("Content-Type", "text/plain").with_body(content)
    }

    /// A 200 JSON response.
    pub fn json(content: String) -> (r: Response)
        ensures
            r.wf(),
            r.status == 200,
            r.headers@ == content_type_only("application/json"@),
            r.body@ == encode_utf8(content@),
    {
        Response::new().with_header("Content-Type", "application/json").with_body(content.as_str())
    }

    /// The 404 HTML page.
    pub fn not_found() -> (r: Response)
        ensures
            r.wf(),
            r.status == 404,
            r.headers@ == content_type_only("text/html"@),
            r.body@ == encode_utf8(not_found_page()),
    {
        Response::new().with_status(404).with_header("Content-Type", "text/html").with_body(
            "<html><body><h1>404 Not Found</h1><p>The requested resource could not be found.</p></body></html>",
        )
    }
}

} // verus!
