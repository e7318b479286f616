//! The handlers: one per family of routes, each from what the router handed
//! over to a response. The handlers for files do not touch the disk: they
//! name the file, and turn what the disk answered into a response.

use crate::bytes::{crlf, COLON, SP};
use crate::decimal::digits;
use crate::headers::lookup;
use crate::request::{content_length, Request};
use crate::response::{
    bare, carrying, content_type, law_carrying_wire, version_prefix, wire, Response,
    ResponseView, Status,
};
use vstd::prelude::*;
use vstd::slice::slice_to_vec;
use vstd::string::*;

verus! {

/// Why a handler could not answer with success.
#[derive(Clone, Copy, Debug, PartialEq, Eq, Structural)]
pub enum HandlerError {
    /// The request lacks a header that the handler needs.
    MissingHeader,
    /// The file is not there, or could not be read or written.
    NotFound,
}

/// The kind of content that the echo handlers send.
pub open spec fn text_plain() -> Seq<u8> {
    "text/plain".spec_bytes()
}

/// The kind of content that a file is sent as.
pub open spec fn octet_stream() -> Seq<u8> {
    "application/octet-stream".spec_bytes()
}

/// The name of the header that the user-agent handler sends back.
pub open spec fn user_agent_header() -> Seq<u8> {
    "User-Agent".spec_bytes()
}

/// A handler's result, as plain values.
pub open spec fn outcome(r: Result<Response, HandlerError>) -> Result<ResponseView, HandlerError> {
    match r {
        Ok(resp) => Ok(resp@),
        Err(e) => Err(e),
    }
}

/// What the echo handler answers.
pub open spec fn echoed(text: Seq<u8>) -> ResponseView {
    carrying(Status::Success, text_plain(), text)
}

/// What the user-agent handler answers to a request with these headers.
pub open spec fn user_agent_reply(headers: Seq<(Seq<u8>, Seq<u8>)>) -> Result<
    ResponseView,
    HandlerError,
> {
    match lookup(headers, user_agent_header()) {
        Some(v) => Ok(echoed(v)),
        None => Err(HandlerError::MissingHeader),
    }
}

/// What the file-read handler answers once the disk has answered: the
/// contents of the file, or nothing where it could not be read.
pub open spec fn file_read_reply(contents: Option<Seq<u8>>) -> Result<ResponseView, HandlerError> {
    match contents {
        Some(c) => Ok(carrying(Status::Success, octet_stream(), c)),
        None => Err(HandlerError::NotFound),
    }
}

/// What the file-write handler answers once the disk has answered.
pub open spec fn file_write_reply(stored: bool) -> Result<ResponseView, HandlerError> {
    if stored {
        Ok(bare(Status::Created))
    } else {
        Err(HandlerError::NotFound)
    }
}

/// The response that reports a handler's failure.
pub open spec fn failure(e: HandlerError) -> ResponseView {
    match e {
        HandlerError::MissingHeader => bare(Status::BadRequest),
        HandlerError::NotFound => bare(Status::NotFound),
    }
}

/// The response that a handler's result comes to.
pub open spec fn settled(r: Result<ResponseView, HandlerError>) -> ResponseView {
    match r {
        Ok(resp) => resp,
        Err(e) => failure(e),
    }
}

/// Answers with an empty 200.
pub fn static_ok() -> (r: Response)
    ensures
        r@ == bare(Status::Success),
{
    Response::empty(Status::Success)
}

/// Answers with an empty 404.
pub fn not_found() -> (r: Response)
    ensures
        r@ == bare(Status::NotFound),
{
    Response::empty(Status::NotFound)
}

/// Sends `text` back as plain text.
pub fn echo(text: &[u8]) -> (r: Response)
    ensures
        r@ == echoed(text@),
{
    Response::with_body(Status::Success, "text/plain".as_bytes(), slice_to_vec(text))
}

/// Sends the value of the `User-Agent` header back as plain text.
pub fn user_agent(req: &Request) -> (r: Result<Response, HandlerError>)
    ensures
        outcome(r) == user_agent_reply(req@.headers),
{
    match req.header("User-Agent".as_bytes()) {
        Some(v) => Ok(echo(v)),
        None => Err(HandlerError::MissingHeader),
    }
}

/// Sends the contents of a file back, or reports that it could not be read.
pub fn file_read(contents: Option<Vec<u8>>) -> (r: Result<Response, HandlerError>)
    ensures
        outcome(r) == file_read_reply(
            match contents {
                Some(c) => Some(c@),
                None => None,
            },
        ),
{
    match contents {
        Some(c) => Ok(
            Response::with_body(Status::Success, "application/octet-stream".as_bytes(), c),
        ),
        None => Err(HandlerError::NotFound),
    }
}

/// Reports that a file was stored, or that it could not be.
pub fn file_write(stored: bool) -> (r: Result<Response, HandlerError>)
    ensures
        outcome(r) == file_write_reply(stored),
{
    if stored {
        Ok(Response::empty(Status::Created))
    } else {
        Err(HandlerError::NotFound)
    }
}

/// Turns a handler's result into the response to send.
pub fn settle(r: Result<Response, HandlerError>) -> (resp: Response)
    ensures
        resp@ == settled(outcome(r)),
{
    match r {
        Ok(resp) => resp,
        Err(HandlerError::MissingHeader) => Response::empty(Status::BadRequest),
        Err(HandlerError::NotFound) => Response::empty(Status::NotFound),
    }
}

/// An echo, as it is written: the status line, the two content headers,
/// a blank line, and the text.
pub proof fn law_echo_wire(text: Seq<u8>)
    ensures
        wire(echoed(text))
            == "HTTP/1.1 200 OK\r\nContent-Type: text/plain\r\nContent-Length: ".spec_bytes()
            + digits(text.len()) + "\r\n\r\n".spec_bytes() + text,
{
    law_carrying_wire(Status::Success, text_plain(), text);
    let front = version_prefix() + Status::Success.line() + crlf() + content_type() + seq![
        COLON,
        SP,
    ] + text_plain() + crlf() + content_length() + seq![COLON, SP];
    assert(front =~= "HTTP/1.1 200 OK\r\nContent-Type: text/plain\r\nContent-Length: ".spec_bytes())
        by {
        reveal_strlit("HTTP/1.1 ");
        reveal_strlit("200 OK");
        reveal_strlit("Content-Type");
        reveal_strlit("text/plain");
        reveal_strlit("Content-Length");
        reveal_strlit("HTTP/1.1 200 OK\r\nContent-Type: text/plain\r\nContent-Length: ");
        broadcast use is_ascii_spec_bytes;
        assert(is_ascii("HTTP/1.1 "));
        assert(is_ascii("200 OK"));
        assert(is_ascii("Content-Type"));
        assert(is_ascii("text/plain"));
        assert(is_ascii("Content-Length"));
        assert(is_ascii("HTTP/1.1 200 OK\r\nContent-Type: text/plain\r\nContent-Length: "));
    }
    assert(crlf() + crlf() =~= "\r\n\r\n".spec_bytes()) by {
        reveal_strlit("\r\n\r\n");
        broadcast use is_ascii_spec_bytes;
        assert(is_ascii("\r\n\r\n"));
    }
    assert(wire(echoed(text)) =~= front + digits(text.len()) + (crlf() + crlf()) + text);
}

/// A file, as it is written: the status line, the two content headers,
/// a blank line, and the contents.
pub proof fn law_file_wire(contents: Seq<u8>)
    ensures
        wire(carrying(Status::Success, octet_stream(), contents))
            == "HTTP/1.1 200 OK\r\nContent-Type: application/octet-stream\r\nContent-Length: ".spec_bytes()
            + digits(contents.len()) + "\r\n\r\n".spec_bytes() + contents,
{
    law_carrying_wire(Status::Success, octet_stream(), contents);
    let front = version_prefix() + Status::Success.line() + crlf() + content_type() + seq![
        COLON,
        SP,
    ] + octet_stream() + crlf() + content_length() + seq![COLON, SP];
    assert(front
        =~= "HTTP/1.1 200 OK\r\nContent-Type: application/octet-stream\r\nContent-Length: ".spec_bytes())
        by {
        reveal_strlit("HTTP/1.1 ");
        reveal_strlit("200 OK");
        reveal_strlit("Content-Type");
        reveal_strlit("application/octet-stream");
        reveal_strlit("Content-Length");
        reveal_strlit(
            "HTTP/1.1 200 OK\r\nContent-Type: application/octet-stream\r\nContent-Length: ",
        );
        broadcast use is_ascii_spec_bytes;
        assert(is_ascii("HTTP/1.1 "));
        assert(is_ascii("200 OK"));
        assert(is_ascii("Content-Type"));
        assert(is_ascii("application/octet-stream"));
        assert(is_ascii("Content-Length"));
        assert(is_ascii(
            "HTTP/1.1 200 OK\r\nContent-Type: application/octet-stream\r\nContent-Length: ",
        ));
    }
    assert(crlf() + crlf() =~= "\r\n\r\n".spec_bytes()) by {
        reveal_strlit("\r\n\r\n");
        broadcast use is_ascii_spec_bytes;
        assert(is_ascii("\r\n\r\n"));
    }
    assert(wire(carrying(Status::Success, octet_stream(), contents)) =~= front + digits(
        contents.len(),
    ) + (crlf() + crlf()) + contents);
}

} // verus!
