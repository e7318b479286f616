//! Requests, and the parser that reads one from the bytes of a single read.
//!
//! The parser works on what one read returned and never asks for more: a body
//! that is announced but has not arrived in full is an error, not a reason to
//! wait. That caps a request at the size of the read buffer.

use crate::bytes::{
    blank_line, crlf, find, first_at, first_index_of, is_token, law_tokens, lemma_no_index,
    lines, next_token, split_line, tokens, trim, trimmed, COLON, CR, LF,
};
use crate::decimal::{is_number, number, parse_number, NumberError};
use crate::headers::{distinct_names, law_lookup_put, law_put_distinct, lookup, put, Headers};
use vstd::prelude::*;
use vstd::slice::slice_to_vec;
use vstd::string::*;

verus! {

/// Why a buffer was not read as a request.
#[derive(Clone, Copy, Debug, PartialEq, Eq)]
pub enum ParseError {
    /// The first line holds fewer than three tokens.
    MalformedStatusLine,
    /// The headers announce a longer body than the buffer holds.
    IncompleteBody,
}

/// A parsed request.
#[derive(Debug)]
pub struct Request {
    method: Vec<u8>,
    path: Vec<u8>,
    version: Vec<u8>,
    headers: Headers,
    body: Vec<u8>,
}

/// What a request holds, as plain values.
pub struct RequestView {
    pub method: Seq<u8>,
    pub path: Seq<u8>,
    pub version: Seq<u8>,
    pub headers: Seq<(Seq<u8>, Seq<u8>)>,
    pub body: Seq<u8>,
}

impl View for Request {
    type V = RequestView;

    closed spec fn view(&self) -> RequestView {
        RequestView {
            method: self.method@,
            path: self.path@,
            version: self.version@,
            headers: self.headers@,
            body: self.body@,
        }
    }
}

/// Method, path and version of a request line: its first three tokens. A
/// line of fewer tokens has none; tokens after the third count for nothing.
pub open spec fn request_line(line: Seq<u8>) -> Option<(Seq<u8>, Seq<u8>, Seq<u8>)> {
    let t = tokens(line);
    if t.len() < 3 {
        None
    } else {
        Some((t[0], t[1], t[2]))
    }
}

/// Name and value of a header line: what stands before and after its first
/// colon, each trimmed. A line without a colon is no header.
pub open spec fn header_of(line: Seq<u8>) -> Option<(Seq<u8>, Seq<u8>)> {
    match first_index_of(line, seq![COLON]) {
        Some(i) => Some((trimmed(line.take(i)), trimmed(line.skip(i + 1)))),
        None => None,
    }
}

/// The mapping that the header lines build, each line stored in turn.
pub open spec fn headers_of(ls: Seq<Seq<u8>>) -> Seq<(Seq<u8>, Seq<u8>)>
    decreases ls.len(),
{
    if ls.len() == 0 {
        Seq::empty()
    } else {
        let before = headers_of(ls.drop_last());
        match header_of(ls.last()) {
            Some((name, value)) => put(before, name, value),
            None => before,
        }
    }
}

/// The name of the header that announces the length of the body.
pub open spec fn content_length() -> Seq<u8> {
    "Content-Length".spec_bytes()
}

/// The length of the body that the headers announce. A value that is not a
/// decimal number announces nothing.
pub open spec fn declared_length(headers: Seq<(Seq<u8>, Seq<u8>)>) -> Option<nat> {
    match lookup(headers, content_length()) {
        Some(v) => if is_number(v) {
            Some(number(v))
        } else {
            None
        },
        None => None,
    }
}

/// The header block of a buffer: what stands before the first blank line, or
/// all of it where there is none.
pub open spec fn head(bytes: Seq<u8>) -> Seq<u8> {
    match first_index_of(bytes, blank_line()) {
        Some(i) => bytes.take(i),
        None => bytes,
    }
}

/// What follows the first blank line of a buffer.
pub open spec fn remainder(bytes: Seq<u8>) -> Seq<u8> {
    match first_index_of(bytes, blank_line()) {
        Some(i) => bytes.skip(i + 4),
        None => Seq::empty(),
    }
}

/// The request that a buffer holds, or the reason why it holds none.
pub open spec fn parsed(bytes: Seq<u8>) -> Result<RequestView, ParseError> {
    let ls = lines(head(bytes));
    let rest = remainder(bytes);
    match request_line(ls[0]) {
        None => Err(ParseError::MalformedStatusLine),
        Some((method, path, version)) => {
            let headers = headers_of(ls.skip(1));
            match declared_length(headers) {
                None => Ok(RequestView { method, path, version, headers, body: rest }),
                Some(n) => if n <= rest.len() {
                    Ok(RequestView { method, path, version, headers, body: rest.take(n as int) })
                } else {
                    Err(ParseError::IncompleteBody)
                },
            }
        },
    }
}

/// Splits a request line into method, path and version.
pub fn split_request_line(line: &[u8]) -> (r: Option<(&[u8], &[u8], &[u8])>)
    ensures
        match r {
            Some((m, p, v)) => request_line(line@) == Some((m@, p@, v@)),
            None => request_line(line@) is None,
        },
{
    let (a1, b1) = match next_token(line) {
        Some(t) => t,
        None => {
            return None;
        },
    };
    let after_method = &line[b1..line.len()];
    assert(after_method@ =~= line@.skip(b1 as int));
    let (a2, b2) = match next_token(after_method) {
        Some(t) => t,
        None => {
            return None;
        },
    };
    let after_path = &after_method[b2..after_method.len()];
    assert(after_path@ =~= after_method@.skip(b2 as int));
    let (a3, b3) = match next_token(after_path) {
        Some(t) => t,
        None => {
            return None;
        },
    };
    Some((&line[a1..b1], &after_method[a2..b2], &after_path[a3..b3]))
}

/// Splits a header line into name and value.
pub fn split_header(line: &[u8]) -> (r: Option<(&[u8], &[u8])>)
    ensures
        match r {
            Some((name, value)) => header_of(line@) == Some((name@, value@)),
            None => header_of(line@) is None,
        },
{
    let n = line.len();
    let colon: [u8; 1] = [COLON];
    assert(colon@ =~= seq![COLON]);
    match find(line, colon.as_slice()) {
        Some(i) => {
            assert(first_at(line@, seq![COLON], i as int));
            assert(i + 1 <= n);
            Some((trim(&line[0..i]), trim(&line[i + 1..n])))
        },
        None => None,
    }
}

/// Reads the request that `bytes` holds.
///
/// The header block ends at the first blank line; without one the whole
/// buffer is header block and the body is empty. The first line must hold
/// three tokens. Every further line with a colon sets a header, a later line
/// replacing an earlier one of the same name; other lines are passed over.
/// Where `Content-Length` holds a decimal number, the body is that many bytes
/// of what follows the blank line, and fewer bytes there are an error;
/// otherwise the body is all that follows.
pub fn parse(bytes: &[u8]) -> (r: Result<Request, ParseError>)
    ensures
        match r {
            Ok(req) => parsed(bytes@) == Ok::<RequestView, ParseError>(req@),
            Err(e) => parsed(bytes@) == Err::<RequestView, ParseError>(e),
        },
{
    let n = bytes.len();
    let end: [u8; 4] = [CR, LF, CR, LF];
    assert(end@ =~= blank_line());
    let (block, rest) = match find(bytes, end.as_slice()) {
        Some(i) => {
            assert(first_at(bytes@, blank_line(), i as int));
            assert(i + 4 <= n);
            (&bytes[0..i], &bytes[i + 4..n])
        },
        None => (bytes, &bytes[n..n]),
    };
    assert(block@ == head(bytes@));
    assert(rest@ =~= remainder(bytes@));
    let (first, after_first) = split_line(block);
    let (method, path, version) = match split_request_line(first) {
        Some(parts) => parts,
        None => {
            return Err(ParseError::MalformedStatusLine);
        },
    };
    let mut headers = Headers::new();
    let mut more = after_first;
    let ghost mut done: Seq<Seq<u8>> = seq![first@];
    assert(done.skip(1) =~= Seq::<Seq<u8>>::empty());
    while more.is_some()
        invariant
            done.len() >= 1,
            done[0] == first@,
            lines(block@) == done + (match more {
                Some(m) => lines(m@),
                None => Seq::empty(),
            }),
            headers@ == headers_of(done.skip(1)),
        decreases
                (match more {
                    Some(m) => m@.len() + 1,
                    None => 0,
                }),
    {
        let m = more.unwrap();
        let (line, next) = split_line(m);
        proof {
            let grown = done.push(line@);
            assert(grown.skip(1).drop_last() =~= done.skip(1));
            assert(grown.skip(1).last() == line@);
            assert(done + (seq![line@] + match next {
                Some(x) => lines(x@),
                None => Seq::empty(),
            }) =~= grown + match next {
                Some(x) => lines(x@),
                None => Seq::empty(),
            });
        }
        match split_header(line) {
            Some((name, value)) => {
                headers.insert(slice_to_vec(name), slice_to_vec(value));
            },
            None => {},
        }
        proof {
            done = done.push(line@);
        }
        more = next;
    }
    assert(lines(block@) =~= done);
    let body = match headers.get("Content-Length".as_bytes()) {
        Some(v) => match parse_number(v) {
            Ok(k) => {
                if k > rest.len() {
                    return Err(ParseError::IncompleteBody);
                }
                &rest[0..k]
            },
            Err(NumberError::Overflow) => {
                return Err(ParseError::IncompleteBody);
            },
            Err(NumberError::NotDigits) => rest,
        },
        None => rest,
    };
    Ok(
        Request {
            method: slice_to_vec(method),
            path: slice_to_vec(path),
            version: slice_to_vec(version),
            headers,
            body: slice_to_vec(body),
        },
    )
}

impl Request {
    /// The method, as it was sent.
    pub fn method(&self) -> (r: &[u8])
        ensures
            r@ == self@.method,
    {
        self.method.as_slice()
    }

    /// The path, as it was sent.
    pub fn path(&self) -> (r: &[u8])
        ensures
            r@ == self@.path,
    {
        self.path.as_slice()
    }

    /// The protocol version, as it was sent.
    pub fn version(&self) -> (r: &[u8])
        ensures
            r@ == self@.version,
    {
        self.version.as_slice()
    }

    /// The headers.
    pub fn headers(&self) -> (r: &Headers)
        ensures
            r@ == self@.headers,
    {
        &self.headers
    }

    /// The value of the header `name`.
    pub fn header(&self, name: &[u8]) -> (r: Option<&[u8]>)
        ensures
            match r {
                Some(v) => lookup(self@.headers, name@) == Some(v@),
                None => lookup(self@.headers, name@) is None,
            },
    {
        self.headers.get(name)
    }

    /// The body.
    pub fn body(&self) -> (r: &[u8])
        ensures
            r@ == self@.body,
    {
        self.body.as_slice()
    }
}

/// Whether the line `line` sets the header `name`.
pub open spec fn sets(line: Seq<u8>, name: Seq<u8>) -> bool {
    match header_of(line) {
        Some((n, _)) => n == name,
        None => false,
    }
}

/// No header name stands twice in the mapping that header lines build.
pub proof fn law_headers_distinct(ls: Seq<Seq<u8>>)
    ensures
        distinct_names(headers_of(ls)),
    decreases ls.len(),
{
    if ls.len() > 0 {
        law_headers_distinct(ls.drop_last());
        match header_of(ls.last()) {
            Some((name, value)) => {
                law_put_distinct(headers_of(ls.drop_last()), name, value);
            },
            None => {},
        }
    }
}

/// Of the lines that set one header the last one wins: its value is the
/// value that the header has.
pub proof fn law_last_line_wins(ls: Seq<Seq<u8>>, i: int, name: Seq<u8>, value: Seq<u8>)
    requires
        0 <= i < ls.len(),
        header_of(ls[i]) == Some((name, value)),
        forall|j: int| i < j < ls.len() ==> !sets(#[trigger] ls[j], name),
    ensures
        lookup(headers_of(ls), name) == Some(value),
    decreases ls.len(),
{
    let front = ls.drop_last();
    let before = headers_of(front);
    if i == ls.len() - 1 {
        law_lookup_put(before, name, value, name);
    } else {
        assert(front[i] == ls[i]);
        assert forall|j: int| i < j < front.len() implies !sets(#[trigger] front[j], name) by {
            assert(front[j] == ls[j]);
        }
        law_last_line_wins(front, i, name, value);
        assert(!sets(ls[ls.len() - 1], name));
        match header_of(ls.last()) {
            Some((n, v)) => {
                law_lookup_put(before, n, v, name);
            },
            None => {},
        }
    }
}

/// A header that no line sets has no value.
pub proof fn law_unset_header(ls: Seq<Seq<u8>>, name: Seq<u8>)
    requires
        forall|j: int| 0 <= j < ls.len() ==> !sets(#[trigger] ls[j], name),
    ensures
        lookup(headers_of(ls), name) is None,
    decreases ls.len(),
{
    if ls.len() > 0 {
        let front = ls.drop_last();
        assert forall|j: int| 0 <= j < front.len() implies !sets(#[trigger] front[j], name) by {
            assert(front[j] == ls[j]);
        }
        law_unset_header(front, name);
        assert(!sets(ls[ls.len() - 1], name));
        match header_of(ls.last()) {
            Some((n, v)) => {
                law_lookup_put(headers_of(front), n, v, name);
            },
            None => {},
        }
    }
}

/// What holds of every request that the parser returns: method, path and
/// version are tokens, no header name stands twice, and the body is the
/// beginning of what follows the blank line: all of it, or as many bytes of
/// it as the headers announce.
pub proof fn law_parsed_request(bytes: Seq<u8>)
    ensures
        match parsed(bytes) {
            Ok(req) => {
                &&& is_token(req.method)
                &&& is_token(req.path)
                &&& is_token(req.version)
                &&& distinct_names(req.headers)
                &&& req.body.is_prefix_of(remainder(bytes))
                &&& match declared_length(req.headers) {
                    Some(n) => req.body.len() == n,
                    None => req.body == remainder(bytes),
                }
            },
            Err(e) => true,
        },
{
    let first = lines(head(bytes))[0];
    law_tokens(first);
    if tokens(first).len() >= 3 {
        assert(is_token(tokens(first)[0]));
        assert(is_token(tokens(first)[1]));
        assert(is_token(tokens(first)[2]));
    }
    law_headers_distinct(lines(head(bytes)).skip(1));
}

/// The parser fails for want of bytes exactly where the headers announce a
/// longer body than what follows the blank line.
pub proof fn law_incomplete_iff_short(bytes: Seq<u8>)
    ensures
        parsed(bytes) == Err::<RequestView, ParseError>(ParseError::IncompleteBody) <==> {
            &&& tokens(lines(head(bytes))[0]).len() >= 3
            &&& declared_length(headers_of(lines(head(bytes)).skip(1))) matches Some(n)
            &&& n > remainder(bytes).len()
        },
{
}

/// A buffer whose first line holds fewer than three tokens is no request,
/// and no other buffer fails in that way.
pub proof fn law_malformed_iff_short(bytes: Seq<u8>)
    ensures
        parsed(bytes) == Err::<RequestView, ParseError>(ParseError::MalformedStatusLine)
            <==> tokens(lines(head(bytes))[0]).len() < 3,
{
}

/// The empty buffer is no request.
pub proof fn lemma_empty_is_malformed()
    ensures
        parsed(Seq::empty()) == Err::<RequestView, ParseError>(ParseError::MalformedStatusLine),
{
    let none = Seq::<u8>::empty();
    lemma_no_index(none, blank_line());
    lemma_no_index(none, crlf());
    assert(lines(none) =~= seq![none]);
}

} // verus!
