//! Responses and their form on the wire.

use crate::bytes::{crlf, COLON, CR, LF, SP};
use crate::decimal::{digits, push_number};
use crate::headers::{distinct_names, lemma_missing, lemma_present, lookup, Headers};
use crate::request::content_length;
use vstd::prelude::*;
use vstd::slice::slice_to_vec;
use vstd::string::*;

verus! {

/// The statuses that the server answers with.
#[derive(Clone, Copy, Debug, PartialEq, Eq, Structural)]
pub enum Status {
    /// 200 OK
    Success,
    /// 201 Created
    Created,
    /// 400 Bad Request
    BadRequest,
    /// 404 Not Found
    NotFound,
}

impl Status {
    /// The status as the status line writes it: the code, a space, the reason.
    pub open spec fn line(self) -> Seq<u8> {
        match self {
            Status::Success => "200 OK".spec_bytes(),
            Status::Created => "201 Created".spec_bytes(),
            Status::BadRequest => "400 Bad Request".spec_bytes(),
            Status::NotFound => "404 Not Found".spec_bytes(),
        }
    }

    /// The numeric code.
    pub open spec fn number(self) -> nat {
        match self {
            Status::Success => 200,
            Status::Created => 201,
            Status::BadRequest => 400,
            Status::NotFound => 404,
        }
    }

    /// The status as the status line writes it.
    pub fn status_line(self) -> (r: &'static [u8])
        ensures
            r@ == self.line(),
    {
        match self {
            Status::Success => "200 OK".as_bytes(),
            Status::Created => "201 Created".as_bytes(),
            Status::BadRequest => "400 Bad Request".as_bytes(),
            Status::NotFound => "404 Not Found".as_bytes(),
        }
    }

    /// The numeric code.
    pub fn code(self) -> (r: u16)
        ensures
            r == self.number(),
    {
        match self {
            Status::Success => 200,
            Status::Created => 201,
            Status::BadRequest => 400,
            Status::NotFound => 404,
        }
    }
}

/// The name of the header that says what kind of content the body is.
pub open spec fn content_type() -> Seq<u8> {
    "Content-Type".spec_bytes()
}

/// What a response holds, as plain values.
pub struct ResponseView {
    pub status: Status,
    pub headers: Seq<(Seq<u8>, Seq<u8>)>,
    pub body: Seq<u8>,
}

/// The response that holds a status and nothing else.
pub open spec fn bare(status: Status) -> ResponseView {
    ResponseView { status, headers: Seq::empty(), body: Seq::empty() }
}

/// The response that carries `body` as content of the kind `kind`: the
/// content type first, then the length of the body in bytes.
pub open spec fn carrying(status: Status, kind: Seq<u8>, body: Seq<u8>) -> ResponseView {
    ResponseView {
        status,
        headers: seq![(content_type(), kind), (content_length(), digits(body.len()))],
        body,
    }
}

/// What every response keeps to: no header name stands twice, and a body that
/// is not empty comes with its kind and with its exact length in bytes.
pub open spec fn well_formed(r: ResponseView) -> bool {
    &&& distinct_names(r.headers)
    &&& r.body.len() > 0 ==> {
        &&& lookup(r.headers, content_length()) == Some(digits(r.body.len()))
        &&& lookup(r.headers, content_type()) is Some
    }
}

/// The two content headers have different names.
pub proof fn lemma_content_names()
    ensures
        content_type() != content_length(),
{
    reveal_strlit("Content-Type");
    reveal_strlit("Content-Length");
    broadcast use is_ascii_spec_bytes;
    assert(is_ascii("Content-Type"));
    assert(is_ascii("Content-Length"));
    assert(content_type().len() == 12);
    assert(content_length().len() == 14);
}

/// A response made by `bare` or by `carrying` is well formed.
pub proof fn lemma_well_formed(status: Status, kind: Seq<u8>, body: Seq<u8>)
    ensures
        well_formed(bare(status)),
        well_formed(carrying(status, kind, body)),
{
    lemma_content_names();
    let h = carrying(status, kind, body).headers;
    assert(h[0].0 == content_type() && h[1].0 == content_length());
    lemma_present(h, content_length(), 1);
    lemma_present(h, content_type(), 0);
}

/// A response: a status, headers in order, and a body.
#[derive(Debug)]
pub struct Response {
    status: Status,
    headers: Headers,
    body: Vec<u8>,
}

impl View for Response {
    type V = ResponseView;

    closed spec fn view(&self) -> ResponseView {
        ResponseView { status: self.status, headers: self.headers@, body: self.body@ }
    }
}

impl Response {
    #[verifier::type_invariant]
    closed spec fn is_sound(self) -> bool {
        well_formed(self@)
    }

    /// A response without headers and without a body.
    pub fn empty(status: Status) -> (r: Response)
        ensures
            r@ == bare(status),
    {
        proof {
            lemma_well_formed(status, Seq::empty(), Seq::empty());
        }
        Response { status, headers: Headers::new(), body: Vec::new() }
    }

    /// A response that carries `body`, with its kind and its length in bytes
    /// as headers. An empty body is announced with length zero.
    pub fn with_body(status: Status, kind: &[u8], body: Vec<u8>) -> (r: Response)
        ensures
            r@ == carrying(status, kind@, body@),
    {
        let mut length: Vec<u8> = Vec::new();
        push_number(&mut length, body.len());
        assert(length@ =~= digits(body@.len()));
        let mut headers = Headers::new();
        headers.insert(slice_to_vec("Content-Type".as_bytes()), slice_to_vec(kind));
        let ghost first = seq![(content_type(), kind@)];
        assert(headers@ =~= first);
        proof {
            lemma_content_names();
            lemma_missing(first, content_length());
            lemma_well_formed(status, kind@, body@);
        }
        headers.insert(slice_to_vec("Content-Length".as_bytes()), length);
        assert(headers@ =~= carrying(status, kind@, body@).headers);
        Response { status, headers, body }
    }

    /// The status.
    pub fn status(&self) -> (r: Status)
        ensures
            r == self@.status,
    {
        self.status
    }

    /// The headers, in the order in which they are written.
    pub fn headers(&self) -> (r: &Headers)
        ensures
            r@ == self@.headers,
    {
        &self.headers
    }

    /// The body.
    pub fn body(&self) -> (r: &[u8])
        ensures
            r@ == self@.body,
    {
        self.body.as_slice()
    }
}

/// The header lines: for each header its name, a colon and a space, its
/// value, and a line terminator.
pub open spec fn header_block(h: Seq<(Seq<u8>, Seq<u8>)>) -> Seq<u8>
    decreases h.len(),
{
    if h.len() == 0 {
        Seq::empty()
    } else {
        header_block(h.drop_last()) + h.last().0 + seq![COLON, SP] + h.last().1 + crlf()
    }
}

/// What precedes the status on the status line.
pub open spec fn version_prefix() -> Seq<u8> {
    "HTTP/1.1 ".spec_bytes()
}

/// The bytes that carry a response: the status line, the header lines in
/// order, a blank line and the body. No header is added.
pub open spec fn wire(r: ResponseView) -> Seq<u8> {
    version_prefix() + r.status.line() + crlf() + header_block(r.headers) + crlf() + r.body
}

/// Writes a response out as bytes.
pub fn serialize(resp: &Response) -> (out: Vec<u8>)
    ensures
        out@ == wire(resp@),
        well_formed(resp@),
{
    proof {
        use_type_invariant(resp);
    }
    let mut out: Vec<u8> = Vec::new();
    out.extend_from_slice("HTTP/1.1 ".as_bytes());
    out.extend_from_slice(resp.status.status_line());
    out.push(CR);
    out.push(LF);
    let ghost start = out@;
    assert(start =~= version_prefix() + resp@.status.line() + crlf());
    let n = resp.headers.len();
    let mut i: usize = 0;
    assert(resp@.headers.take(0) =~= Seq::<(Seq<u8>, Seq<u8>)>::empty());
    while i < n
        invariant
            n == resp@.headers.len(),
            i <= n,
            out@ == start + header_block(resp@.headers.take(i as int)),
        decreases n - i,
    {
        let ghost before = out@;
        match resp.headers.entry(i) {
            Some((name, value)) => {
                out.extend_from_slice(name);
                out.push(COLON);
                out.push(SP);
                out.extend_from_slice(value);
                out.push(CR);
                out.push(LF);
            },
            None => {},
        }
        proof {
            let h = resp@.headers;
            let t = h.take(i + 1);
            assert(t.drop_last() =~= h.take(i as int));
            assert(t.last() == h[i as int]);
            assert(out@ =~= before + h[i as int].0 + seq![COLON, SP] + h[i as int].1 + crlf());
            assert(out@ =~= start + header_block(t));
        }
        i += 1;
    }
    assert(resp@.headers.take(n as int) =~= resp@.headers);
    out.push(CR);
    out.push(LF);
    out.extend_from_slice(resp.body.as_slice());
    assert(out@ =~= wire(resp@));
    out
}

/// The form on the wire of a response without headers and without a body:
/// the status line and a blank line.
pub proof fn law_bare_wire(status: Status)
    ensures
        wire(bare(status)) == version_prefix() + status.line() + crlf() + crlf(),
{
    assert(wire(bare(status)) =~= version_prefix() + status.line() + crlf() + crlf());
}

/// The empty 200, as it is written.
pub proof fn law_wire_success()
    ensures
        wire(bare(Status::Success)) == "HTTP/1.1 200 OK\r\n\r\n".spec_bytes(),
{
    reveal_strlit("HTTP/1.1 ");
    reveal_strlit("200 OK");
    reveal_strlit("HTTP/1.1 200 OK\r\n\r\n");
    broadcast use is_ascii_spec_bytes;
    assert(is_ascii("HTTP/1.1 "));
    assert(is_ascii("200 OK"));
    assert(is_ascii("HTTP/1.1 200 OK\r\n\r\n"));
    assert(wire(bare(Status::Success)) =~= "HTTP/1.1 200 OK\r\n\r\n".spec_bytes());
}

/// The empty 201, as it is written.
pub proof fn law_wire_created()
    ensures
        wire(bare(Status::Created)) == "HTTP/1.1 201 Created\r\n\r\n".spec_bytes(),
{
    reveal_strlit("HTTP/1.1 ");
    reveal_strlit("201 Created");
    reveal_strlit("HTTP/1.1 201 Created\r\n\r\n");
    broadcast use is_ascii_spec_bytes;
    assert(is_ascii("HTTP/1.1 "));
    assert(is_ascii("201 Created"));
    assert(is_ascii("HTTP/1.1 201 Created\r\n\r\n"));
    assert(wire(bare(Status::Created)) =~= "HTTP/1.1 201 Created\r\n\r\n".spec_bytes());
}

/// The empty 400, as it is written.
pub proof fn law_wire_bad_request()
    ensures
        wire(bare(Status::BadRequest)) == "HTTP/1.1 400 Bad Request\r\n\r\n".spec_bytes(),
{
    reveal_strlit("HTTP/1.1 ");
    reveal_strlit("400 Bad Request");
    reveal_strlit("HTTP/1.1 400 Bad Request\r\n\r\n");
    broadcast use is_ascii_spec_bytes;
    assert(is_ascii("HTTP/1.1 "));
    assert(is_ascii("400 Bad Request"));
    assert(is_ascii("HTTP/1.1 400 Bad Request\r\n\r\n"));
    assert(wire(bare(Status::BadRequest)) =~= "HTTP/1.1 400 Bad Request\r\n\r\n".spec_bytes());
}

/// The empty 404, as it is written.
pub proof fn law_wire_not_found()
    ensures
        wire(bare(Status::NotFound)) == "HTTP/1.1 404 Not Found\r\n\r\n".spec_bytes(),
{
    reveal_strlit("HTTP/1.1 ");
    reveal_strlit("404 Not Found");
    reveal_strlit("HTTP/1.1 404 Not Found\r\n\r\n");
    broadcast use is_ascii_spec_bytes;
    assert(is_ascii("HTTP/1.1 "));
    assert(is_ascii("404 Not Found"));
    assert(is_ascii("HTTP/1.1 404 Not Found\r\n\r\n"));
    assert(wire(bare(Status::NotFound)) =~= "HTTP/1.1 404 Not Found\r\n\r\n".spec_bytes());
}

/// The form on the wire of a response that carries a body: the status line,
/// the content type, the length of the body in bytes, a blank line, the body.
pub proof fn law_carrying_wire(status: Status, kind: Seq<u8>, body: Seq<u8>)
    ensures
        wire(carrying(status, kind, body)) == version_prefix() + status.line() + crlf()
            + content_type() + seq![COLON, SP] + kind + crlf() + content_length() + seq![
            COLON,
            SP,
        ] + digits(body.len()) + crlf() + crlf() + body,
{
    let h = carrying(status, kind, body).headers;
    let h1 = h.drop_last();
    assert(h1 =~= seq![(content_type(), kind)]);
    assert(h1.drop_last() =~= Seq::<(Seq<u8>, Seq<u8>)>::empty());
    assert(header_block(h1.drop_last()) =~= Seq::<u8>::empty());
    assert(header_block(h1) =~= content_type() + seq![COLON, SP] + kind + crlf());
    assert(header_block(h) =~= content_type() + seq![COLON, SP] + kind + crlf()
        + content_length() + seq![COLON, SP] + digits(body.len()) + crlf());
    assert(wire(carrying(status, kind, body)) =~= version_prefix() + status.line() + crlf()
        + content_type() + seq![COLON, SP] + kind + crlf() + content_length() + seq![COLON, SP]
        + digits(body.len()) + crlf() + crlf() + body);
}

} // verus!
