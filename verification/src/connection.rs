//! One connection, as a state machine. The machine decides; its caller does
//! the outside work. The caller performs the action that a step returns (a
//! read from the socket, a file operation, a write to the socket) and hands
//! the outcome back as the next event.
//!
//! The machine rests only where it waits for outside work. A request is
//! parsed and routed, and its handler runs, within the step that takes the
//! bytes read; where the handler needs a file, the machine waits for it in
//! `Loading` or `Storing`, and the handler finishes in the step that takes
//! the outcome.
//!
//! Every connection is kept open: after an answer is written the next
//! request is read, until the peer closes, a read times out or fails, or a
//! write fails. Requests on one connection are taken one after another: the
//! next read is asked for only when the answer to the last request has been
//! written.

use crate::config::ServerConfig;
use crate::files::{locate, located};
use crate::handlers::{
    echo, echoed, failure, file_read, file_read_reply, file_write, file_write_reply, not_found,
    settle, settled, static_ok, user_agent, user_agent_reply, HandlerError,
};
use crate::request::{parse, parsed, ParseError, Request, RequestView};
use crate::response::{bare, serialize, wire, Response, ResponseView, Status};
use crate::router::{route, routed, Handler, HandlerView};
use vstd::prelude::*;
use vstd::slice::slice_to_vec;

verus! {

/// Where a connection stands: what outside work it is waiting for.
#[derive(Clone, Copy, Debug, PartialEq, Eq, Structural)]
pub enum State {
    /// Waiting for the bytes of the next request.
    Reading,
    /// Routed to the file-read handler: waiting for the contents of a file.
    Loading,
    /// Routed to the file-write handler: waiting for a file to be stored.
    Storing,
    /// Waiting for a response to be written out in full.
    Writing,
    /// Done: nothing more is read or written.
    Closed,
}

/// The outcome of the outside work that the last action asked for.
#[derive(Debug, PartialEq, Eq)]
pub enum Event {
    /// A read returned these bytes; none at all means that the peer has closed.
    Received(Vec<u8>),
    /// A read timed out or failed.
    ReadFailed,
    /// The file was read, and these are its contents.
    Loaded(Vec<u8>),
    /// The file is not there or could not be read.
    LoadFailed,
    /// The file was written.
    Stored,
    /// The file could not be created or written.
    StoreFailed,
    /// The response was written out in full.
    Sent,
    /// The response could not be written out in full.
    SendFailed,
}

/// An event, as plain values.
pub enum EventView {
    Received(Seq<u8>),
    ReadFailed,
    Loaded(Seq<u8>),
    LoadFailed,
    Stored,
    StoreFailed,
    Sent,
    SendFailed,
}

impl View for Event {
    type V = EventView;

    open spec fn view(&self) -> EventView {
        match self {
            Event::Received(bytes) => EventView::Received(bytes@),
            Event::ReadFailed => EventView::ReadFailed,
            Event::Loaded(contents) => EventView::Loaded(contents@),
            Event::LoadFailed => EventView::LoadFailed,
            Event::Stored => EventView::Stored,
            Event::StoreFailed => EventView::StoreFailed,
            Event::Sent => EventView::Sent,
            Event::SendFailed => EventView::SendFailed,
        }
    }
}

/// The outside work that the caller is to do next.
#[derive(Debug, PartialEq, Eq)]
pub enum Action {
    /// Read from the socket, once.
    Read,
    /// Read the file at `path`.
    Load { path: Vec<u8> },
    /// Create the file at `path` with `contents`, in place of what was there.
    Store { path: Vec<u8>, contents: Vec<u8> },
    /// Write all of `bytes` to the socket.
    Send { bytes: Vec<u8> },
    /// Close the socket.
    Close,
}

/// An action, as plain values.
pub enum ActionView {
    Read,
    Load { path: Seq<u8> },
    Store { path: Seq<u8>, contents: Seq<u8> },
    Send { bytes: Seq<u8> },
    Close,
}

impl View for Action {
    type V = ActionView;

    open spec fn view(&self) -> ActionView {
        match self {
            Action::Read => ActionView::Read,
            Action::Load { path } => ActionView::Load { path: path@ },
            Action::Store { path, contents } => ActionView::Store {
                path: path@,
                contents: contents@,
            },
            Action::Send { bytes } => ActionView::Send { bytes: bytes@ },
            Action::Close => ActionView::Close,
        }
    }
}

/// The step that sends a response: its bytes go out, and the connection
/// waits for the write.
pub open spec fn sending(resp: ResponseView) -> (State, ActionView) {
    (State::Writing, ActionView::Send { bytes: wire(resp) })
}

/// The step that closes the connection.
pub open spec fn closing() -> (State, ActionView) {
    (State::Closed, ActionView::Close)
}

/// The step that a request leads to. The router picks the handler. A handler
/// that needs no file answers at once; one that needs a file asks for it
/// under the directory `root`, or answers 404 where the name escapes it.
pub open spec fn dispatched(root: Seq<u8>, req: RequestView) -> (State, ActionView) {
    match routed(req.method, req.path) {
        HandlerView::StaticOk => sending(bare(Status::Success)),
        HandlerView::Echo { text } => sending(echoed(text)),
        HandlerView::UserAgent => sending(settled(user_agent_reply(req.headers))),
        HandlerView::FileRead { name } => match located(root, name) {
            Some(path) => (State::Loading, ActionView::Load { path }),
            None => sending(failure(HandlerError::NotFound)),
        },
        HandlerView::FileWrite { name } => match located(root, name) {
            Some(path) => (State::Storing, ActionView::Store { path, contents: req.body }),
            None => sending(failure(HandlerError::NotFound)),
        },
        HandlerView::NotFound => sending(bare(Status::NotFound)),
    }
}

/// The step that the bytes of one read lead to. No bytes: the peer has
/// closed. A first line of fewer than three tokens is answered with 400, and
/// the connection goes on. A body that did not arrive in full closes the
/// connection, for the rest of it is never read. Any other buffer is a
/// request.
pub open spec fn received(root: Seq<u8>, bytes: Seq<u8>) -> (State, ActionView) {
    if bytes.len() == 0 {
        closing()
    } else {
        match parsed(bytes) {
            Ok(req) => dispatched(root, req),
            Err(ParseError::MalformedStatusLine) => sending(bare(Status::BadRequest)),
            Err(ParseError::IncompleteBody) => closing(),
        }
    }
}

/// The step from `state` on `event`: the next state and what to do next. An
/// event that the state was not waiting for closes the connection, as do a
/// failed read and a failed write.
pub open spec fn stepped(root: Seq<u8>, state: State, event: EventView) -> (State, ActionView) {
    match (state, event) {
        (State::Reading, EventView::Received(bytes)) => received(root, bytes),
        (State::Loading, EventView::Loaded(contents)) => sending(
            settled(file_read_reply(Some(contents))),
        ),
        (State::Loading, EventView::LoadFailed) => sending(settled(file_read_reply(None))),
        (State::Storing, EventView::Stored) => sending(settled(file_write_reply(true))),
        (State::Storing, EventView::StoreFailed) => sending(settled(file_write_reply(false))),
        (State::Writing, EventView::Sent) => (State::Reading, ActionView::Read),
        _ => closing(),
    }
}

/// A connection over a run of events: the state it ends in, and the actions
/// it asked for, one for each event, in order.
pub open spec fn run(root: Seq<u8>, state: State, events: Seq<EventView>) -> (
    State,
    Seq<ActionView>,
)
    decreases events.len(),
{
    if events.len() == 0 {
        (state, Seq::empty())
    } else {
        let first = stepped(root, state, events[0]);
        let rest = run(root, first.0, events.drop_first());
        (rest.0, seq![first.1] + rest.1)
    }
}

/// The step that sends `resp`.
fn send(resp: Response) -> (r: (State, Action))
    ensures
        (r.0, r.1@) == sending(resp@),
{
    (State::Writing, Action::Send { bytes: serialize(&resp) })
}

/// Where a connection begins: in `Reading`, with a read to do.
pub fn start() -> (r: (State, Action))
    ensures
        r.0 == State::Reading,
        r.1@ == ActionView::Read,
{
    (State::Reading, Action::Read)
}

/// Routes a request and runs its handler as far as it goes without a file.
pub fn dispatch(config: &ServerConfig, req: &Request) -> (r: (State, Action))
    ensures
        (r.0, r.1@) == dispatched(config@.files_root, req@),
{
    match route(req.method(), req.path()) {
        Handler::StaticOk => send(static_ok()),
        Handler::Echo { text } => send(echo(text.as_slice())),
        Handler::UserAgent => send(settle(user_agent(req))),
        Handler::FileRead { name } => match locate(config.files_root(), name.as_slice()) {
            Some(path) => (State::Loading, Action::Load { path }),
            None => send(settle(Err(HandlerError::NotFound))),
        },
        Handler::FileWrite { name } => match locate(config.files_root(), name.as_slice()) {
            Some(path) => (
                State::Storing,
                Action::Store { path, contents: slice_to_vec(req.body()) },
            ),
            None => send(settle(Err(HandlerError::NotFound))),
        },
        Handler::NotFound => send(not_found()),
    }
}

/// Takes one step: from the state of a connection and the outcome of its
/// last action to its next state and its next action.
pub fn step(config: &ServerConfig, state: State, event: Event) -> (r: (State, Action))
    ensures
        (r.0, r.1@) == stepped(config@.files_root, state, event@),
{
    match (state, event) {
        (State::Reading, Event::Received(bytes)) => {
            if bytes.len() == 0 {
                (State::Closed, Action::Close)
            } else {
                match parse(bytes.as_slice()) {
                    Ok(req) => dispatch(config, &req),
                    Err(ParseError::MalformedStatusLine) => send(
                        Response::empty(Status::BadRequest),
                    ),
                    Err(ParseError::IncompleteBody) => (State::Closed, Action::Close),
                }
            }
        },
        (State::Loading, Event::Loaded(contents)) => send(settle(file_read(Some(contents)))),
        (State::Loading, Event::LoadFailed) => send(settle(file_read(None))),
        (State::Storing, Event::Stored) => send(settle(file_write(true))),
        (State::Storing, Event::StoreFailed) => send(settle(file_write(false))),
        (State::Writing, Event::Sent) => (State::Reading, Action::Read),
        _ => (State::Closed, Action::Close),
    }
}

} // verus!
