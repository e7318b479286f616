//! What holds of the server's answers, for every request and on every
//! connection.

use crate::bytes::{lines, tokens};
use crate::client::{is_writable, law_parse_written, written};
use crate::connection::{
    dispatched, received, run, sending, stepped, ActionView, EventView, State,
};
use crate::decimal::digits;
use crate::files::{escapes, joined};
use crate::handlers::{
    echoed, law_echo_wire, law_file_wire, octet_stream, text_plain, user_agent_header,
};
use crate::headers::{lemma_present, lookup};
use crate::request::{
    content_length, head, lemma_empty_is_malformed, parsed, ParseError, RequestView,
};
use crate::response::{
    bare, carrying, content_type, law_wire_bad_request, lemma_content_names, lemma_well_formed,
    well_formed, wire, ResponseView, Status,
};
use crate::router::{
    echo_prefix, files_prefix, lemma_echo_route, lemma_files_route, lemma_user_agent_route,
    method_get, method_post, root_path, routed, user_agent_path, HandlerView,
};
use vstd::prelude::*;
use vstd::string::*;
use vstd::utf8::encode_utf8;

verus! {

/// A read that holds a request leads to the step that the request leads to:
/// every law on requests is a law on the bytes that parse to them.
pub proof fn law_received_request(root: Seq<u8>, bytes: Seq<u8>, req: RequestView)
    requires
        parsed(bytes) == Ok::<RequestView, ParseError>(req),
    ensures
        stepped(root, State::Reading, EventView::Received(bytes)) == dispatched(root, req),
{
    if bytes.len() == 0 {
        assert(bytes =~= Seq::<u8>::empty());
        lemma_empty_is_malformed();
    }
}

/// From the bytes read to the step taken: a connection that reads what a
/// client wrote for a writable request takes the step that the request leads
/// to. With this, every law on requests is a law on what clients send.
pub proof fn law_written_request(root: Seq<u8>, req: RequestView)
    requires
        is_writable(req),
    ensures
        stepped(root, State::Reading, EventView::Received(written(req))) == dispatched(root, req),
{
    law_parse_written(req);
    law_received_request(root, written(req), req);
}

/// Echo: for every text, a `GET` of `/echo/` followed by the text is answered
/// at once with 200, with the text, byte for byte, as the body, and with the
/// number of its bytes as `Content-Length`. Headers and body of the request
/// count for nothing.
pub proof fn law_echo(root: Seq<u8>, req: RequestView, text: Seq<u8>)
    requires
        req.method == method_get(),
        req.path == echo_prefix() + text,
    ensures
        dispatched(root, req) == sending(echoed(text)),
        echoed(text).status == Status::Success,
        echoed(text).body == text,
        lookup(echoed(text).headers, content_length()) == Some(digits(text.len())),
        lookup(echoed(text).headers, content_type()) == Some(text_plain()),
{
    lemma_echo_route(text);
    lemma_content_names();
    let h = echoed(text).headers;
    assert(h[0].0 == content_type() && h[1].0 == content_length());
    lemma_present(h, content_length(), 1);
    lemma_present(h, content_type(), 0);
}

/// Echo of a string: for every string, a `GET` of `/echo/` followed by its
/// UTF-8 encoding is answered with those bytes as the body and with their
/// number, which is the length of the string in bytes and not in
/// characters, as `Content-Length`.
pub proof fn law_echo_string(root: Seq<u8>, req: RequestView, s: Seq<char>)
    requires
        req.method == method_get(),
        req.path == echo_prefix() + encode_utf8(s),
    ensures
        dispatched(root, req) == sending(echoed(encode_utf8(s))),
        echoed(encode_utf8(s)).body == encode_utf8(s),
        lookup(echoed(encode_utf8(s)).headers, content_length()) == Some(
            digits(encode_utf8(s).len()),
        ),
{
    law_echo(root, req, encode_utf8(s));
}

/// Echo, from the bytes read to the bytes written: a connection that reads
/// a written `GET` of `/echo/` followed by a text sends that text back, with
/// 200 and with the number of its bytes as `Content-Length`, whatever the
/// headers and the body of the request. (The text holds no whitespace, or
/// the path would not be a token: it would end where the whitespace begins.)
pub proof fn law_echo_written(root: Seq<u8>, req: RequestView, text: Seq<u8>)
    requires
        is_writable(req),
        req.method == method_get(),
        req.path == echo_prefix() + text,
    ensures
        stepped(root, State::Reading, EventView::Received(written(req))) == (
            State::Writing,
            ActionView::Send {
                bytes: "HTTP/1.1 200 OK\r\nContent-Type: text/plain\r\nContent-Length: ".spec_bytes()
                    + digits(text.len()) + "\r\n\r\n".spec_bytes() + text,
            },
        ),
{
    law_written_request(root, req);
    law_echo(root, req, text);
    law_echo_wire(text);
}

/// The root: a `GET` of `/` is answered at once with 200, without headers
/// and without a body, whatever headers and body the request has.
pub proof fn law_root(root: Seq<u8>, req: RequestView)
    requires
        req.method == method_get(),
        req.path == root_path(),
    ensures
        dispatched(root, req) == sending(bare(Status::Success)),
{
}

/// The user agent: a `GET` of `/user-agent` is answered at once, with the
/// value of the `User-Agent` header as the body of a 200 where the request
/// has that header, and with 400 where it has not.
pub proof fn law_user_agent(root: Seq<u8>, req: RequestView)
    requires
        req.method == method_get(),
        req.path == user_agent_path(),
    ensures
        match lookup(req.headers, user_agent_header()) {
            Some(value) => dispatched(root, req) == sending(echoed(value)),
            None => dispatched(root, req) == sending(bare(Status::BadRequest)),
        },
{
    lemma_user_agent_route();
}

/// A read whose first line holds fewer than three tokens is answered with
/// 400 and nothing else, and the connection goes on.
pub proof fn law_short_status_line(root: Seq<u8>, bytes: Seq<u8>)
    requires
        bytes.len() > 0,
        tokens(lines(head(bytes))[0]).len() < 3,
    ensures
        stepped(root, State::Reading, EventView::Received(bytes)) == (
            State::Writing,
            ActionView::Send { bytes: "HTTP/1.1 400 Bad Request\r\n\r\n".spec_bytes() },
        ),
{
    law_wire_bad_request();
}

/// A request that no route fits is answered with 404.
pub proof fn law_unrouted(root: Seq<u8>, req: RequestView)
    requires
        routed(req.method, req.path) == HandlerView::NotFound,
    ensures
        dispatched(root, req) == sending(bare(Status::NotFound)),
{
}

/// A name that escapes is answered with 404 at once, for reading and for
/// writing, and no file is asked for.
pub proof fn law_escape_not_found(root: Seq<u8>, req: RequestView, name: Seq<u8>)
    requires
        req.method == method_get() || req.method == method_post(),
        req.path == files_prefix() + name,
        escapes(name),
    ensures
        dispatched(root, req) == sending(bare(Status::NotFound)),
{
    lemma_files_route(name);
}

/// What is stored is what is read back: a `POST` and a `GET` of one name
/// under `/files/` name the same file, the `POST` stores the body of the
/// request there, and contents that the disk returns are sent back byte for
/// byte, with their length in bytes as `Content-Length`.
pub proof fn law_store_then_load(
    root: Seq<u8>,
    name: Seq<u8>,
    store: RequestView,
    load: RequestView,
)
    requires
        store.method == method_post(),
        store.path == files_prefix() + name,
        load.method == method_get(),
        load.path == files_prefix() + name,
        !escapes(name),
    ensures
        dispatched(root, store) == (
            State::Storing,
            ActionView::Store { path: joined(root, name), contents: store.body },
        ),
        stepped(root, State::Storing, EventView::Stored) == sending(bare(Status::Created)),
        dispatched(root, load) == (State::Loading, ActionView::Load { path: joined(root, name) }),
        stepped(root, State::Loading, EventView::Loaded(store.body)) == sending(
            carrying(Status::Success, octet_stream(), store.body),
        ),
        carrying(Status::Success, octet_stream(), store.body).body == store.body,
        lookup(
            carrying(Status::Success, octet_stream(), store.body).headers,
            content_length(),
        ) == Some(digits(store.body.len())),
        wire(carrying(Status::Success, octet_stream(), store.body))
            == "HTTP/1.1 200 OK\r\nContent-Type: application/octet-stream\r\nContent-Length: ".spec_bytes()
            + digits(store.body.len()) + "\r\n\r\n".spec_bytes() + store.body,
{
    law_file_wire(store.body);
    lemma_files_route(name);
    lemma_content_names();
    let h = carrying(Status::Success, octet_stream(), store.body).headers;
    assert(h[0].0 == content_type() && h[1].0 == content_length());
    lemma_present(h, content_length(), 1);
}

/// The response that a step sends, where it sends one.
pub open spec fn sent_response(root: Seq<u8>, state: State, event: EventView) -> ResponseView {
    match (state, event) {
        (State::Reading, EventView::Received(bytes)) => match parsed(bytes) {
            Ok(req) => match routed(req.method, req.path) {
                HandlerView::StaticOk => bare(Status::Success),
                HandlerView::Echo { text } => echoed(text),
                HandlerView::UserAgent => match lookup(req.headers, user_agent_header()) {
                    Some(value) => echoed(value),
                    None => bare(Status::BadRequest),
                },
                _ => bare(Status::NotFound),
            },
            Err(_) => bare(Status::BadRequest),
        },
        (State::Loading, EventView::Loaded(contents)) => carrying(
            Status::Success,
            octet_stream(),
            contents,
        ),
        (State::Storing, EventView::Stored) => bare(Status::Created),
        _ => bare(Status::NotFound),
    }
}

/// Whatever a connection writes is a response: in every state and on every
/// event, bytes that are sent are the wire form of a well-formed response.
/// Its status is one of the four, and a body that is not empty comes with
/// its exact length.
pub proof fn law_sends_responses(root: Seq<u8>, state: State, event: EventView)
    requires
        stepped(root, state, event).1 is Send,
    ensures
        stepped(root, state, event).1->bytes == wire(sent_response(root, state, event)),
        well_formed(sent_response(root, state, event)),
{
    let resp = sent_response(root, state, event);
    lemma_well_formed(resp.status, octet_stream(), resp.body);
    lemma_well_formed(resp.status, text_plain(), resp.body);
}

/// The states follow one another in one order only: a step leads from
/// `Reading` to any state, from a wait for a file to `Writing`, from
/// `Writing` back to `Reading`, and from anywhere to `Closed`; and `Closed`
/// is left by no event.
pub proof fn law_state_order(root: Seq<u8>, state: State, event: EventView)
    ensures
        ({
            let next = stepped(root, state, event).0;
            match state {
                State::Reading => true,
                State::Loading | State::Storing => next == State::Writing || next == State::Closed,
                State::Writing => next == State::Reading || next == State::Closed,
                State::Closed => next == State::Closed,
            }
        }),
        stepped(root, state, event).0 == State::Closed <==> stepped(root, state, event).1 is Close,
        stepped(root, state, event).0 == State::Writing <==> stepped(root, state, event).1 is Send,
        stepped(root, state, event).0 == State::Reading <==> stepped(root, state, event).1 is Read,
{
}

/// Whether `disk` is an outcome of the file operation that `state` waits for.
pub open spec fn awaited(state: State, disk: EventView) -> bool {
    match state {
        State::Loading => disk is Loaded || disk is LoadFailed,
        State::Storing => disk is Stored || disk is StoreFailed,
        _ => false,
    }
}

/// The events of one exchange, from the read of a request to the end of the
/// write of its answer: the bytes read, the outcome `disk` of the file
/// operation where the request needs one, and the completed write.
pub open spec fn exchange(root: Seq<u8>, bytes: Seq<u8>, disk: EventView) -> Seq<EventView> {
    if received(root, bytes).0 == State::Writing {
        seq![EventView::Received(bytes), EventView::Sent]
    } else {
        seq![EventView::Received(bytes), disk, EventView::Sent]
    }
}

/// The answer of one exchange: the bytes that are written to the socket.
pub open spec fn answer(root: Seq<u8>, bytes: Seq<u8>, disk: EventView) -> Seq<u8> {
    let first = received(root, bytes);
    if first.0 == State::Writing {
        first.1->bytes
    } else {
        stepped(root, first.0, disk).1->bytes
    }
}

/// The actions of one exchange: the file operation where the request needs
/// one, the write of the answer, and the next read.
pub open spec fn exchange_actions(root: Seq<u8>, bytes: Seq<u8>, disk: EventView) -> Seq<
    ActionView,
> {
    let first = received(root, bytes);
    if first.0 == State::Writing {
        seq![ActionView::Send { bytes: answer(root, bytes, disk) }, ActionView::Read]
    } else {
        seq![first.1, ActionView::Send { bytes: answer(root, bytes, disk) }, ActionView::Read]
    }
}

/// Whether a read of `bytes` begins an exchange that `disk` completes: the
/// bytes are a request that is answered at once, or one that needs a file
/// operation of which `disk` is an outcome.
pub open spec fn answerable(root: Seq<u8>, bytes: Seq<u8>, disk: EventView) -> bool {
    let state = received(root, bytes).0;
    state == State::Writing || awaited(state, disk)
}

/// `n` copies of `s`, one after another.
pub open spec fn repeated<A>(s: Seq<A>, n: nat) -> Seq<A>
    decreases n,
{
    if n == 0 {
        Seq::empty()
    } else {
        repeated(s, (n - 1) as nat) + s
    }
}

/// A run over two runs of events, one after the other, is the second run
/// begun where the first one ended.
pub proof fn lemma_run_append(
    root: Seq<u8>,
    state: State,
    first: Seq<EventView>,
    second: Seq<EventView>,
)
    ensures
        run(root, state, first + second) == (
            run(root, run(root, state, first).0, second).0,
            run(root, state, first).1 + run(root, run(root, state, first).0, second).1,
        ),
    decreases first.len(),
{
    if first.len() == 0 {
        assert(first + second =~= second);
        assert(run(root, state, first).1 + run(root, state, second).1 =~= run(
            root,
            state,
            second,
        ).1);
    } else {
        let all = first + second;
        assert(all[0] == first[0]);
        assert(all.drop_first() =~= first.drop_first() + second);
        let next = stepped(root, state, first[0]).0;
        lemma_run_append(root, next, first.drop_first(), second);
        let a = stepped(root, state, first[0]).1;
        let x = run(root, next, first.drop_first()).1;
        let y = run(root, run(root, next, first.drop_first()).0, second).1;
        assert(seq![a] + (x + y) =~= (seq![a] + x) + y);
    }
}

/// One exchange: a connection that waits for a request, reads one that can
/// be answered, and is told that the answer was written, has asked for
/// exactly the actions of that exchange and waits for the next request.
pub proof fn law_exchange(root: Seq<u8>, bytes: Seq<u8>, disk: EventView)
    requires
        answerable(root, bytes, disk),
    ensures
        run(root, State::Reading, exchange(root, bytes, disk)) == (
            State::Reading,
            exchange_actions(root, bytes, disk),
        ),
{
    let ev = exchange(root, bytes, disk);
    let first = received(root, bytes);
    reveal_with_fuel(run, 4);
    if first.0 == State::Writing {
        assert(ev.drop_first() =~= seq![EventView::Sent]);
        assert(ev.drop_first().drop_first() =~= Seq::<EventView>::empty());
        assert(run(root, State::Reading, ev).1 =~= exchange_actions(root, bytes, disk));
    } else {
        assert(ev.drop_first() =~= seq![disk, EventView::Sent]);
        assert(ev.drop_first().drop_first() =~= seq![EventView::Sent]);
        assert(ev.drop_first().drop_first().drop_first() =~= Seq::<EventView>::empty());
        assert(run(root, State::Reading, ev).1 =~= exchange_actions(root, bytes, disk));
    }
}

/// Keep-alive and order: two requests on one connection are each answered,
/// the first before the second is read, and the connection stays open until
/// the peer closes it. Over the events of the two exchanges and the empty
/// read that reports the peer's close, the connection asks for the actions
/// of the first exchange, then for those of the second, then for the close.
pub proof fn law_two_requests(
    root: Seq<u8>,
    first: Seq<u8>,
    first_disk: EventView,
    second: Seq<u8>,
    second_disk: EventView,
)
    requires
        answerable(root, first, first_disk),
        answerable(root, second, second_disk),
    ensures
        run(
            root,
            State::Reading,
            exchange(root, first, first_disk) + exchange(root, second, second_disk)
                + seq![EventView::Received(Seq::empty())],
        ) == (
            State::Closed,
            exchange_actions(root, first, first_disk) + exchange_actions(
                root,
                second,
                second_disk,
            ) + seq![ActionView::Close],
        ),
{
    let e1 = exchange(root, first, first_disk);
    let e2 = exchange(root, second, second_disk);
    let last = seq![EventView::Received(Seq::<u8>::empty())];
    law_exchange(root, first, first_disk);
    law_exchange(root, second, second_disk);
    lemma_run_append(root, State::Reading, e1, e2);
    lemma_run_append(root, State::Reading, e1 + e2, last);
    reveal_with_fuel(run, 2);
    assert(last.drop_first() =~= Seq::<EventView>::empty());
    assert(run(root, State::Reading, last) == (State::Closed, seq![ActionView::Close])) by {
        assert(run(root, State::Reading, last).1 =~= seq![ActionView::Close]);
    }
}

/// The same request, the same answer: however often one request is repeated
/// on a connection, with the same outcome of its file operation where it
/// needs one, each exchange asks for the same actions, and so writes the
/// same bytes.
pub proof fn law_repeatable(root: Seq<u8>, bytes: Seq<u8>, disk: EventView, n: nat)
    requires
        answerable(root, bytes, disk),
    ensures
        run(root, State::Reading, repeated(exchange(root, bytes, disk), n)) == (
            State::Reading,
            repeated(exchange_actions(root, bytes, disk), n),
        ),
    decreases n,
{
    if n == 0 {
    } else {
        let before = (n - 1) as nat;
        law_repeatable(root, bytes, disk, before);
        law_exchange(root, bytes, disk);
        lemma_run_append(
            root,
            State::Reading,
            repeated(exchange(root, bytes, disk), before),
            exchange(root, bytes, disk),
        );
    }
}

} // verus!
