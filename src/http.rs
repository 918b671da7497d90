//! The wire side: parsing a request's head lines, and framing a response.

use vstd::prelude::*;
use vstd::utf8::encode_utf8;
use crate::strmap::StrMap;
use crate::text::{find_char, index_of, split_pieces, trim, trimmed, views, words};
use crate::types::{content_type_only, not_found_page, Request, Response};

verus! {

/// The name and trimmed value of a header line, split at its first colon.
pub open spec fn header_of(line: Seq<char>) -> Option<(Seq<char>, Seq<char>)> {
    let c = index_of(line, ':');
    if c < line.len() {
        Some((line.take(c), trimmed(line.skip(c + 1))))
    } else {
        None
    }
}

/// The headers that a run of header lines sets, a later line overriding an
/// earlier one with the same name, lines without a colon ignored.
pub open spec fn headers_of(lines: Seq<Seq<char>>) -> Map<Seq<char>, Seq<char>>
    decreases lines.len(),
{
    if lines.len() == 0 {
        Map::empty()
    } else {
        let m = headers_of(lines.drop_last());
        match header_of(lines.last()) {
            Some(h) => m.insert(h.0, h.1),
            None => m,
        }
    }
}

/// Whether the request line of these head lines has a method and a path.
pub open spec fn parsable(lines: Seq<Seq<char>>) -> bool {
    lines.len() > 0 && words(lines[0]).len() >= 2
}

/// Parses the head lines of a request, the blank line left out: the first
/// holds the method and the path, separated by whitespace; each later line
/// with a colon is a header. The body and the parameters start empty.
pub fn parse_request(request_lines: &[String]) -> (r: Option<Request>)
    ensures
        r is Some <==> parsable(views(request_lines@)),
        r is Some ==> {
            let req = r->Some_0;
            let first = words(request_lines@[0]@);
            &&& req.wf()
            &&& req.method@ == first[0]
            &&& req.path@ == first[1]
            &&& req.headers@ == headers_of(views(request_lines@).skip(1))
            &&& req.body@.len() == 0
            &&& req.params@ == Map::<Seq<char>, Seq<char>>::empty()
        },
{
    let ghost lv = views(request_lines@);
    if request_lines.len() == 0 {
        return None;
    }
    let parts = split_pieces(request_lines[0].as_str(), true);
    assert(lv[0] == request_lines@[0]@);
    if parts.len() < 2 {
        return None;
    }
    let method = parts[0].clone();
    let path = parts[1].clone();
    proof {
        assert(views(parts@)[0] == parts@[0]@);
        assert(views(parts@)[1] == parts@[1]@);
    }
    let mut headers = StrMap::new();
    let n = request_lines.len();
    let mut i: usize = 1;
    assert(lv.skip(1).subrange(0, 0) =~= Seq::<Seq<char>>::empty());
    while i < n
        invariant
            n == request_lines@.len(),
            lv == views(request_lines@),
            1 <= i <= n,
            headers.wf(),
            headers@ == headers_of(lv.skip(1).subrange(0, i - 1)),
        decreases n - i,
    {
        let line = request_lines[i].as_str();
        let ghost seen = lv.skip(1).subrange(0, i as int);
        assert(seen.drop_last() =~= lv.skip(1).subrange(0, i - 1));
        assert(seen.last() == line@);
        let len = line.unicode_len();
        let c = find_char(line, ':');
        if c < len {
            let key = line.substring_char(0, c).to_owned();
            let value = trim(line.substring_char(c + 1, len));
            assert(line@.subrange(0, c as int) == line@.take(c as int));
            assert(line@.subrange(c + 1, len as int) == line@.skip(c + 1));
            headers.insert(key, value);
        }
        i = i + 1;
    }
    assert(lv.skip(1).subrange(0, n - 1) =~= lv.skip(1));
    Some(Request { method, path, headers, body: Vec::new(), params: StrMap::new() })
}

/// The reason phrase sent with a status code.
pub open spec fn reason_phrase(status: u16) -> Seq<char> {
    if status == 200 {
        "OK"@
    } else if status == 201 {
        "Created"@
    } else if status == 204 {
        "No Content"@
    } else if status == 400 {
        "Bad Request"@
    } else if status == 401 {
        "Unauthorized"@
    } else if status == 403 {
        "Forbidden"@
    } else if status == 404 {
        "Not Found"@
    } else if status == 500 {
        "Internal Server Error"@
    } else {
        "Unknown"@
    }
}

/// The ASCII decimal digits of `n`, without leading zeros.
pub open spec fn decimal(n: nat) -> Seq<u8>
    decreases n,
{
    if n < 10 {
        seq![(48 + n) as u8]
    } else {
        decimal(n / 10).push((48 + n % 10) as u8)
    }
}

/// One `Name: Value` line for each header, in storage order.
pub open spec fn header_lines(pairs: Seq<(Seq<char>, Seq<char>)>) -> Seq<u8>
    decreases pairs.len(),
{
    if pairs.len() == 0 {
        Seq::empty()
    } else {
        header_lines(pairs.drop_last()) + encode_utf8(pairs.last().0) + encode_utf8(": "@)
            + encode_utf8(pairs.last().1) + encode_utf8("\r\n"@)
    }
}

/// The bytes sent for a response: the status line, a `Content-Length` line
/// unless the headers set one, the headers, a blank line, the body.
pub open spec fn wire_bytes(status: u16, headers: &StrMap, body: Seq<u8>) -> Seq<u8> {
    encode_utf8("HTTP/1.1 "@) + decimal(status as nat) + encode_utf8(" "@) + encode_utf8(
        reason_phrase(status),
    ) + encode_utf8("\r\n"@) + (if headers@.contains_key("Content-Length"@) {
        Seq::empty()
    } else {
        encode_utf8("Content-Length: "@) + decimal(body.len()) + encode_utf8("\r\n"@)
    }) + header_lines(headers.pairs()) + encode_utf8("\r\n"@) + body
}

fn reason_text(status: u16) -> (r: &'static str)
    ensures
        r@ == reason_phrase(status),
{
    if status == 200 {
        "OK"
    } else if status == 201 {
        "Created"
    } else if status == 204 {
        "No Content"
    } else if status == 400 {
        "Bad Request"
    } else if status == 401 {
        "Unauthorized"
    } else if status == 403 {
        "Forbidden"
    } else if status == 404 {
        "Not Found"
    } else if status == 500 {
        "Internal Server Error"
    } else {
        "Unknown"
    }
}

fn append_bytes(out: &mut Vec<u8>, b: &[u8])
    ensures
        final(out)@ == old(out)@ + b@,
{
    let ghost start = out@;
    let mut i: usize = 0;
    while i < b.len()
        invariant
            i <= b@.len(),
            out@ == start + b@.subrange(0, i as int),
        decreases b@.len() - i,
    {
        out.push(b[i]);
        assert(b@.subrange(0, i + 1) == b@.subrange(0, i as int).push(b@[i as int]));
        i = i + 1;
    }
    assert(b@.subrange(0, b@.len() as int) == b@);
}

fn append_str(out: &mut Vec<u8>, s: &str)
    ensures
        final(out)@ == old(out)@ + encode_utf8(s@),
{
    append_bytes(out, s.as_bytes());
}

fn append_decimal(out: &mut Vec<u8>, n: usize)
    ensures
        final(out)@ == old(out)@ + decimal(n as nat),
    decreases n,
{
    if n >= 10 {
        append_decimal(out, n / 10);
    }
    let ghost mid = out@;
    out.push((48 + n % 10) as u8);
    proof {
        if n < 10 {
            assert(decimal(n as nat) == seq![(48 + n) as u8]);
        } else {
            assert(decimal(n as nat) == decimal((n / 10) as nat).push((48 + n % 10) as u8));
        }
    }
}

/// The bytes sent for `response`.
pub fn response_bytes(response: &Response) -> (r: Vec<u8>)
    requires
        response.wf(),
    ensures
        r@ == wire_bytes(response.status, &response.headers, response.body@),
{
    let mut out: Vec<u8> = Vec::new();
    append_str(&mut out, "HTTP/1.1 ");
    append_decimal(&mut out, response.status as usize);
    append_str(&mut out, " ");
    append_str(&mut out, reason_text(response.status));
    append_str(&mut out, "\r\n");
    let ghost head = out@;
    if !response.headers.contains_key("Content-Length") {
        append_str(&mut out, "Content-Length: ");
        append_decimal(&mut out, response.body.len());
        append_str(&mut out, "\r\n");
    }
    let ghost before_headers = out@;
    let n = response.headers.len();
    let mut i: usize = 0;
    assert(response.headers.pairs().subrange(0, 0) =~= Seq::<(Seq<char>, Seq<char>)>::empty());
    while i < n
        invariant
            n == response.headers.pairs().len(),
            i <= n,
            out@ == before_headers + header_lines(response.headers.pairs().subrange(0, i as int)),
        decreases n - i,
    {
        let (key, value) = response.headers.entry(i);
        let ghost seen = response.headers.pairs().subrange(0, i + 1);
        assert(seen.drop_last() =~= response.headers.pairs().subrange(0, i as int));
        assert(seen.last() == (key@, value@));
        append_str(&mut out, key.as_str());
        append_str(&mut out, ": ");
        append_str(&mut out, value.as_str());
        append_str(&mut out, "\r\n");
        i = i + 1;
    }
    assert(response.headers.pairs().subrange(0, n as int) =~= response.headers.pairs());
    append_str(&mut out, "\r\n");
    append_bytes(&mut out, response.body.as_slice());
    out
}

/// What `String::from_utf8_lossy` makes of these bytes.
pub uninterp spec fn lossy_text(b: Seq<u8>) -> Seq<char>;

/// Relies on `String::from_utf8_lossy`: the bytes read as UTF-8, each
/// invalid sequence replaced by U+FFFD, a function of the bytes alone.
#[verifier::external_body]
fn decode_lossy(b: &[u8]) -> (r: String)
    ensures
        r@ == lossy_text(b@),
{
    String::from_utf8_lossy(b).into_owned()
}

/// The response as text: its wire bytes read as UTF-8, invalid sequences
/// replaced.
pub fn response_to_string(response: &Response) -> (r: String)
    requires
        response.wf(),
    ensures
        r@ == lossy_text(wire_bytes(response.status, &response.headers, response.body@)),
{
    let bytes = response_bytes(response);
    decode_lossy(bytes.as_slice())
}

/// The response for a parsed request: the routed one, or the 404 page
/// where no route answered.
pub fn or_not_found(routed: Option<Response>) -> (r: Response)
    requires
        routed is Some ==> routed->Some_0.wf(),
    ensures
        r.wf(),
        match routed {
            Some(x) => r == x,
            None => r.status == 404 && r.headers@ == content_type_only("text/html"@)
                && r.body@ == encode_utf8(not_found_page()),
        },
{
    match routed {
        Some(x) => x,
        None => Response::not_found(),
    }
}

/// The response to a request that could not be parsed: an empty 400.
pub fn bad_request() -> (r: Response)
    ensures
        r.wf(),
        r.status == 400,
        r.headers@ == Map::<Seq<char>, Seq<char>>::empty(),
        r.body@.len() == 0,
{
    Response::new().with_status(400)
}

/// The fixed greeting that echoes a request's method and path.
pub open spec fn greeting(method: Seq<char>, path: Seq<char>) -> Seq<char> {
    "HTTP/1.1 200 OK\r\nContent-Type: text/html\r\nContent-Length: 98\r\n\r\n<html><body><h1>Hello from Rust HTTP Server!</h1><p>You requested: "@
        + method + " "@ + path + "</p></body></html>"@
}

/// A complete greeting response for the request's head lines, without
/// routing: the greeting where the request line has a method and a path,
/// a bare 400 otherwise.
pub fn create_response(request_lines: &[String]) -> (r: String)
    ensures
        parsable(views(request_lines@)) ==> r@ == greeting(
            words(request_lines@[0]@)[0],
            words(request_lines@[0]@)[1],
        ),
        !parsable(views(request_lines@)) ==> r@ == "HTTP/1.1 400 Bad Request\r\n\r\n"@,
{
    if request_lines.len() > 0 {
        let parts = split_pieces(request_lines[0].as_str(), true);
        assert(views(request_lines@)[0] == request_lines@[0]@);
        if parts.len() >= 2 {
            assert(views(parts@)[0] == parts@[0]@);
            assert(views(parts@)[1] == parts@[1]@);
            let mut out = "HTTP/1.1 200 OK\r\nContent-Type: text/html\r\nContent-Length: 98\r\n\r\n<html><body><h1>Hello from Rust HTTP Server!</h1><p>You requested: ".to_owned();
            out.append(parts[0].as_str());
            out.append(" ");
            out.append(parts[1].as_str());
            out.append("</p></body></html>");
            return out;
        }
    }
    "HTTP/1.1 400 Bad Request\r\n\r\n".to_owned()
}

} // verus!
