//! The router: from the method and the path of a request to the handler that
//! answers it. Paths are compared byte for byte, as they were sent.

use crate::bytes::{bytes_eq, starts_with};
use vstd::prelude::*;
use vstd::slice::slice_to_vec;
use vstd::string::*;

verus! {

/// The handler that answers a request, with what it captured from the path.
#[derive(Debug, PartialEq, Eq)]
pub enum Handler {
    /// Answers with an empty 200.
    StaticOk,
    /// Sends `text` back.
    Echo { text: Vec<u8> },
    /// Sends the `User-Agent` header back.
    UserAgent,
    /// Sends the file `name` back.
    FileRead { name: Vec<u8> },
    /// Stores the body of the request in the file `name`.
    FileWrite { name: Vec<u8> },
    /// Answers with an empty 404.
    NotFound,
}

/// A handler, as plain values.
pub enum HandlerView {
    StaticOk,
    Echo { text: Seq<u8> },
    UserAgent,
    FileRead { name: Seq<u8> },
    FileWrite { name: Seq<u8> },
    NotFound,
}

impl View for Handler {
    type V = HandlerView;

    open spec fn view(&self) -> HandlerView {
        match self {
            Handler::StaticOk => HandlerView::StaticOk,
            Handler::Echo { text } => HandlerView::Echo { text: text@ },
            Handler::UserAgent => HandlerView::UserAgent,
            Handler::FileRead { name } => HandlerView::FileRead { name: name@ },
            Handler::FileWrite { name } => HandlerView::FileWrite { name: name@ },
            Handler::NotFound => HandlerView::NotFound,
        }
    }
}

pub open spec fn method_get() -> Seq<u8> {
    "GET".spec_bytes()
}

pub open spec fn method_post() -> Seq<u8> {
    "POST".spec_bytes()
}

pub open spec fn root_path() -> Seq<u8> {
    "/".spec_bytes()
}

pub open spec fn echo_prefix() -> Seq<u8> {
    "/echo/".spec_bytes()
}

pub open spec fn user_agent_path() -> Seq<u8> {
    "/user-agent".spec_bytes()
}

pub open spec fn files_prefix() -> Seq<u8> {
    "/files/".spec_bytes()
}

/// The handler for a method and a path. The routes are tried in this order
/// and the first that fits is taken; what a prefix route captures is all that
/// follows the prefix, further slashes included, unchanged.
pub open spec fn routed(method: Seq<u8>, path: Seq<u8>) -> HandlerView {
    if method == method_get() && path == root_path() {
        HandlerView::StaticOk
    } else if method == method_get() && echo_prefix().is_prefix_of(path) {
        HandlerView::Echo { text: path.skip(echo_prefix().len() as int) }
    } else if method == method_get() && path == user_agent_path() {
        HandlerView::UserAgent
    } else if method == method_get() && files_prefix().is_prefix_of(path) {
        HandlerView::FileRead { name: path.skip(files_prefix().len() as int) }
    } else if method == method_post() && files_prefix().is_prefix_of(path) {
        HandlerView::FileWrite { name: path.skip(files_prefix().len() as int) }
    } else {
        HandlerView::NotFound
    }
}

/// What follows the first `k` bytes of `s`.
fn tail(s: &[u8], k: usize) -> (r: Vec<u8>)
    requires
        k <= s@.len(),
    ensures
        r@ == s@.skip(k as int),
{
    let n = s.len();
    assert(s@.subrange(k as int, n as int) =~= s@.skip(k as int));
    slice_to_vec(&s[k..n])
}

/// Picks the handler for a method and a path.
pub fn route(method: &[u8], path: &[u8]) -> (h: Handler)
    ensures
        h@ == routed(method@, path@),
{
    let echo = "/echo/".as_bytes();
    let files = "/files/".as_bytes();
    if bytes_eq(method, "GET".as_bytes()) {
        if bytes_eq(path, "/".as_bytes()) {
            Handler::StaticOk
        } else if starts_with(path, echo) {
            Handler::Echo { text: tail(path, echo.len()) }
        } else if bytes_eq(path, "/user-agent".as_bytes()) {
            Handler::UserAgent
        } else if starts_with(path, files) {
            Handler::FileRead { name: tail(path, files.len()) }
        } else {
            Handler::NotFound
        }
    } else if bytes_eq(method, "POST".as_bytes()) && starts_with(path, files) {
        proof {
            lemma_methods_differ();
        }
        Handler::FileWrite { name: tail(path, files.len()) }
    } else {
        Handler::NotFound
    }
}

/// The two methods that have routes are different methods.
pub proof fn lemma_methods_differ()
    ensures
        method_get() != method_post(),
{
    reveal_strlit("GET");
    reveal_strlit("POST");
    broadcast use is_ascii_spec_bytes;
    assert(is_ascii("GET"));
    assert(is_ascii("POST"));
    assert(method_get().len() == 3);
    assert(method_post().len() == 4);
}

/// The routes, byte by byte.
pub proof fn lemma_route_bytes()
    ensures
        method_get() == seq![0x47u8, 0x45, 0x54],
        method_post() == seq![0x50u8, 0x4f, 0x53, 0x54],
        root_path() == seq![0x2fu8],
        echo_prefix() == seq![0x2fu8, 0x65, 0x63, 0x68, 0x6f, 0x2f],
        files_prefix() == seq![0x2fu8, 0x66, 0x69, 0x6c, 0x65, 0x73, 0x2f],
        user_agent_path().len() == 11,
        user_agent_path()[1] == 0x75u8,
{
    reveal_strlit("GET");
    reveal_strlit("POST");
    reveal_strlit("/");
    reveal_strlit("/echo/");
    reveal_strlit("/files/");
    reveal_strlit("/user-agent");
    broadcast use is_ascii_spec_bytes;
    assert(is_ascii("GET"));
    assert(is_ascii("POST"));
    assert(is_ascii("/"));
    assert(is_ascii("/echo/"));
    assert(is_ascii("/files/"));
    assert(is_ascii("/user-agent"));
    assert(method_get() =~= seq![0x47u8, 0x45, 0x54]);
    assert(method_post() =~= seq![0x50u8, 0x4f, 0x53, 0x54]);
    assert(root_path() =~= seq![0x2fu8]);
    assert(echo_prefix() =~= seq![0x2fu8, 0x65, 0x63, 0x68, 0x6f, 0x2f]);
    assert(files_prefix() =~= seq![0x2fu8, 0x66, 0x69, 0x6c, 0x65, 0x73, 0x2f]);
}

/// The echo route takes all that follows its prefix, as it stands.
pub proof fn lemma_echo_route(text: Seq<u8>)
    ensures
        routed(method_get(), echo_prefix() + text) == (HandlerView::Echo { text }),
{
    lemma_route_bytes();
    let path = echo_prefix() + text;
    assert(path.len() >= 6);
    assert(path.subrange(0, 6) =~= echo_prefix());
    assert(path.skip(6) =~= text);
}

/// The file routes take all that follows their prefix, as it stands: `GET`
/// to read the file of that name, `POST` to write it.
pub proof fn lemma_files_route(name: Seq<u8>)
    ensures
        routed(method_get(), files_prefix() + name) == (HandlerView::FileRead { name }),
        routed(method_post(), files_prefix() + name) == (HandlerView::FileWrite { name }),
{
    lemma_route_bytes();
    lemma_methods_differ();
    let path = files_prefix() + name;
    assert(path.len() >= 7);
    assert(path[1] == 0x66u8);
    assert(!echo_prefix().is_prefix_of(path)) by {
        if echo_prefix().is_prefix_of(path) {
            assert(path.subrange(0, 6)[1] == echo_prefix()[1]);
        }
    }
    assert(path.subrange(0, 7) =~= files_prefix());
    assert(path.skip(7) =~= name);
}

/// The user-agent route is taken by its exact path.
pub proof fn lemma_user_agent_route()
    ensures
        routed(method_get(), user_agent_path()) == HandlerView::UserAgent,
{
    lemma_route_bytes();
    let path = user_agent_path();
    assert(!echo_prefix().is_prefix_of(path)) by {
        if echo_prefix().is_prefix_of(path) {
            assert(path.subrange(0, 6)[1] == echo_prefix()[1]);
        }
    }
}

/// A method other than `GET` and `POST` has no route, whatever the path.
pub proof fn law_other_methods(method: Seq<u8>, path: Seq<u8>)
    requires
        method != method_get(),
        method != method_post(),
    ensures
        routed(method, path) == HandlerView::NotFound,
{
}

/// `POST` has no route outside `/files/`.
pub proof fn law_post_elsewhere(path: Seq<u8>)
    requires
        !files_prefix().is_prefix_of(path),
    ensures
        routed(method_post(), path) == HandlerView::NotFound,
{
    lemma_methods_differ();
}

} // verus!
