use minihttp::config::ServerConfig;
use minihttp::connection::{dispatch, start, step, Action, Event, State};
use minihttp::request::parse;
use std::collections::HashMap;

fn config() -> ServerConfig {
    ServerConfig::new(b"/tmp/data/".to_vec())
}

fn send(bytes: &[u8]) -> (State, Action) {
    (State::Writing, Action::Send { bytes: bytes.to_vec() })
}

/// Runs a connection over the given reads, with a disk held in memory, and
/// returns what was written to the socket, write by write.
fn serve(config: &ServerConfig, disk: &mut HashMap<Vec<u8>, Vec<u8>>, reads: &[&[u8]]) -> Vec<Vec<u8>> {
    let mut written = Vec::new();
    let mut next = 0;
    let (mut state, mut action) = start();
    loop {
        let event = match action {
            Action::Read => {
                if next < reads.len() {
                    next += 1;
                    Event::Received(reads[next - 1].to_vec())
                } else {
                    Event::Received(Vec::new())
                }
            }
            Action::Load { path } => match disk.get(&path) {
                Some(contents) => Event::Loaded(contents.clone()),
                None => Event::LoadFailed,
            },
            Action::Store { path, contents } => {
                if path.ends_with(b"/") {
                    Event::StoreFailed
                } else {
                    disk.insert(path, contents);
                    Event::Stored
                }
            }
            Action::Send { bytes } => {
                written.push(bytes);
                Event::Sent
            }
            Action::Close => break,
        };
        let stepped = step(config, state, event);
        state = stepped.0;
        action = stepped.1;
    }
    assert_eq!(state, State::Closed);
    written
}

#[test]
fn a_connection_starts_with_a_read() {
    assert_eq!(start(), (State::Reading, Action::Read));
}

#[test]
fn get_root_returns_200() {
    let c = config();
    assert_eq!(
        step(&c, State::Reading, Event::Received(b"GET / HTTP/1.1\r\n\r\n".to_vec())),
        send(b"HTTP/1.1 200 OK\r\n\r\n")
    );
}

#[test]
fn get_root_ignores_headers_and_body() {
    let c = config();
    let request =
        b"GET / HTTP/1.1\r\nHost: x\r\nUser-Agent: y\r\nContent-Length: 3\r\nnonsense\r\n\r\nabc";
    assert_eq!(
        step(&c, State::Reading, Event::Received(request.to_vec())),
        send(b"HTTP/1.1 200 OK\r\n\r\n")
    );
}

#[test]
fn get_echo_returns_the_text() {
    let c = config();
    assert_eq!(
        step(&c, State::Reading, Event::Received(b"GET /echo/abc HTTP/1.1\r\n\r\n".to_vec())),
        send(b"HTTP/1.1 200 OK\r\nContent-Type: text/plain\r\nContent-Length: 3\r\n\r\nabc")
    );
}

#[test]
fn get_echo_counts_utf8_bytes() {
    let c = config();
    let text = "na\u{ef}ve-\u{1f600}";
    assert_eq!(text.chars().count(), 7);
    assert_eq!(text.len(), 11);
    let mut request = b"GET /echo/".to_vec();
    request.extend_from_slice(text.as_bytes());
    request.extend_from_slice(b" HTTP/1.1\r\nHost: localhost\r\n\r\n");
    let mut expected =
        b"HTTP/1.1 200 OK\r\nContent-Type: text/plain\r\nContent-Length: 11\r\n\r\n".to_vec();
    expected.extend_from_slice(text.as_bytes());
    assert_eq!(step(&c, State::Reading, Event::Received(request)), send(&expected));
}

#[test]
fn get_echo_with_whitespace_ends_at_the_whitespace() {
    let c = config();
    assert_eq!(
        step(&c, State::Reading, Event::Received(b"GET /echo/a b HTTP/1.1\r\n\r\n".to_vec())),
        send(b"HTTP/1.1 200 OK\r\nContent-Type: text/plain\r\nContent-Length: 1\r\n\r\na")
    );
}

#[test]
fn short_status_line_returns_400() {
    let c = config();
    assert_eq!(
        step(&c, State::Reading, Event::Received(b"GET\r\n\r\n".to_vec())),
        send(b"HTTP/1.1 400 Bad Request\r\n\r\n")
    );
    assert_eq!(
        step(&c, State::Reading, Event::Received(b"GET /\r\nHost: x\r\n\r\n".to_vec())),
        send(b"HTTP/1.1 400 Bad Request\r\n\r\n")
    );
}

#[test]
fn a_connection_goes_on_after_a_400() {
    let c = config();
    let mut disk = HashMap::new();
    let written = serve(&c, &mut disk, &[b"GET\r\n\r\n", b"GET / HTTP/1.1\r\n\r\n"]);
    assert_eq!(written.len(), 2);
    assert_eq!(written[0], b"HTTP/1.1 400 Bad Request\r\n\r\n");
    assert_eq!(written[1], b"HTTP/1.1 200 OK\r\n\r\n");
}

#[test]
fn unknown_path_returns_404() {
    let c = config();
    assert_eq!(
        step(&c, State::Reading, Event::Received(b"GET /does-not-exist HTTP/1.1\r\n\r\n".to_vec())),
        send(b"HTTP/1.1 404 Not Found\r\n\r\n")
    );
}

#[test]
fn other_methods_return_404() {
    let c = config();
    for request in [
        &b"PUT /files/a HTTP/1.1\r\n\r\nx"[..],
        &b"DELETE / HTTP/1.1\r\n\r\n"[..],
        &b"POST /echo/abc HTTP/1.1\r\n\r\n"[..],
        &b"HEAD / HTTP/1.1\r\n\r\n"[..],
    ] {
        assert_eq!(
            step(&c, State::Reading, Event::Received(request.to_vec())),
            send(b"HTTP/1.1 404 Not Found\r\n\r\n")
        );
    }
}

#[test]
fn get_user_agent_returns_the_header() {
    let c = config();
    let request = b"GET /user-agent HTTP/1.1\r\nHost: localhost\r\nUser-Agent: test-client/1.0\r\n\r\n";
    assert_eq!(
        step(&c, State::Reading, Event::Received(request.to_vec())),
        send(b"HTTP/1.1 200 OK\r\nContent-Type: text/plain\r\nContent-Length: 15\r\n\r\ntest-client/1.0")
    );
}

#[test]
fn get_user_agent_without_the_header_returns_400() {
    let c = config();
    assert_eq!(
        step(&c, State::Reading, Event::Received(b"GET /user-agent HTTP/1.1\r\nHost: x\r\n\r\n".to_vec())),
        send(b"HTTP/1.1 400 Bad Request\r\n\r\n")
    );
}

#[test]
fn get_files_asks_for_the_file() {
    let c = config();
    assert_eq!(
        step(&c, State::Reading, Event::Received(b"GET /files/foo.txt HTTP/1.1\r\n\r\n".to_vec())),
        (State::Loading, Action::Load { path: b"/tmp/data/foo.txt".to_vec() })
    );
    let bare = ServerConfig::new(b"/srv/files".to_vec());
    assert_eq!(
        step(&bare, State::Reading, Event::Received(b"GET /files/a/b HTTP/1.1\r\n\r\n".to_vec())),
        (State::Loading, Action::Load { path: b"/srv/files/a/b".to_vec() })
    );
}

#[test]
fn a_loaded_file_is_sent() {
    let c = config();
    assert_eq!(
        step(&c, State::Loading, Event::Loaded(b"hello".to_vec())),
        send(b"HTTP/1.1 200 OK\r\nContent-Type: application/octet-stream\r\nContent-Length: 5\r\n\r\nhello")
    );
    assert_eq!(
        step(&c, State::Loading, Event::Loaded(Vec::new())),
        send(b"HTTP/1.1 200 OK\r\nContent-Type: application/octet-stream\r\nContent-Length: 0\r\n\r\n")
    );
}

#[test]
fn a_missing_file_returns_404() {
    let c = config();
    assert_eq!(step(&c, State::Loading, Event::LoadFailed), send(b"HTTP/1.1 404 Not Found\r\n\r\n"));
}

#[test]
fn post_files_asks_to_store_the_body() {
    let c = config();
    let request = b"POST /files/foo.txt HTTP/1.1\r\nContent-Length: 5\r\n\r\nhello";
    assert_eq!(
        step(&c, State::Reading, Event::Received(request.to_vec())),
        (
            State::Storing,
            Action::Store { path: b"/tmp/data/foo.txt".to_vec(), contents: b"hello".to_vec() }
        )
    );
    assert_eq!(step(&c, State::Storing, Event::Stored), send(b"HTTP/1.1 201 Created\r\n\r\n"));
}

#[test]
fn a_failed_store_returns_404() {
    let c = config();
    assert_eq!(step(&c, State::Storing, Event::StoreFailed), send(b"HTTP/1.1 404 Not Found\r\n\r\n"));
}

#[test]
fn names_that_escape_return_404_without_touching_the_disk() {
    let c = config();
    for request in [
        &b"GET /files/../secret HTTP/1.1\r\n\r\n"[..],
        &b"GET /files/a/../../secret HTTP/1.1\r\n\r\n"[..],
        &b"GET /files//etc/passwd HTTP/1.1\r\n\r\n"[..],
        &b"POST /files/../secret HTTP/1.1\r\n\r\nx"[..],
        &b"POST /files/.. HTTP/1.1\r\n\r\nx"[..],
    ] {
        assert_eq!(
            step(&c, State::Reading, Event::Received(request.to_vec())),
            send(b"HTTP/1.1 404 Not Found\r\n\r\n")
        );
    }
}

#[test]
fn post_then_get_returns_what_was_stored() {
    let c = config();
    let mut disk = HashMap::new();
    let written = serve(
        &c,
        &mut disk,
        &[
            b"POST /files/foo.txt HTTP/1.1\r\nContent-Length: 5\r\n\r\nhello",
            b"GET /files/foo.txt HTTP/1.1\r\n\r\n",
        ],
    );
    assert_eq!(written.len(), 2);
    assert_eq!(written[0], b"HTTP/1.1 201 Created\r\n\r\n");
    assert_eq!(
        written[1],
        b"HTTP/1.1 200 OK\r\nContent-Type: application/octet-stream\r\nContent-Length: 5\r\n\r\nhello"
    );
    assert_eq!(disk.get(&b"/tmp/data/foo.txt".to_vec()), Some(&b"hello".to_vec()));
}

#[test]
fn post_then_get_on_another_connection() {
    let c = config();
    let mut disk = HashMap::new();
    let first = serve(&c, &mut disk, &[b"POST /files/foo.txt HTTP/1.1\r\n\r\nhello"]);
    assert_eq!(first, vec![b"HTTP/1.1 201 Created\r\n\r\n".to_vec()]);
    let second = serve(&c, &mut disk, &[b"GET /files/foo.txt HTTP/1.1\r\n\r\n"]);
    assert_eq!(
        second,
        vec![b"HTTP/1.1 200 OK\r\nContent-Type: application/octet-stream\r\nContent-Length: 5\r\n\r\nhello".to_vec()]
    );
}

#[test]
fn a_later_write_replaces_an_earlier_one() {
    let c = config();
    let mut disk = HashMap::new();
    let written = serve(
        &c,
        &mut disk,
        &[
            b"POST /files/f HTTP/1.1\r\n\r\none",
            b"POST /files/f HTTP/1.1\r\n\r\ntwo!",
            b"GET /files/f HTTP/1.1\r\n\r\n",
        ],
    );
    assert_eq!(written.len(), 3);
    assert_eq!(
        written[2],
        b"HTTP/1.1 200 OK\r\nContent-Type: application/octet-stream\r\nContent-Length: 4\r\n\r\ntwo!"
    );
}

#[test]
fn get_of_a_file_that_was_never_stored_returns_404() {
    let c = config();
    let mut disk = HashMap::new();
    let written = serve(&c, &mut disk, &[b"GET /files/nothing HTTP/1.1\r\n\r\n"]);
    assert_eq!(written, vec![b"HTTP/1.1 404 Not Found\r\n\r\n".to_vec()]);
}

#[test]
fn post_without_a_blank_line_stores_an_empty_file() {
    let c = config();
    assert_eq!(
        step(&c, State::Reading, Event::Received(b"POST /files/e HTTP/1.1\r\nHost: x".to_vec())),
        (State::Storing, Action::Store { path: b"/tmp/data/e".to_vec(), contents: Vec::new() })
    );
}

#[test]
fn two_requests_are_answered_in_order() {
    let c = config();
    let mut disk = HashMap::new();
    let written = serve(
        &c,
        &mut disk,
        &[b"GET /echo/first HTTP/1.1\r\n\r\n", b"GET /echo/second HTTP/1.1\r\n\r\n"],
    );
    assert_eq!(written.len(), 2);
    assert_eq!(
        written[0],
        b"HTTP/1.1 200 OK\r\nContent-Type: text/plain\r\nContent-Length: 5\r\n\r\nfirst"
    );
    assert_eq!(
        written[1],
        b"HTTP/1.1 200 OK\r\nContent-Type: text/plain\r\nContent-Length: 6\r\n\r\nsecond"
    );
}

#[test]
fn the_next_read_follows_the_write() {
    let c = config();
    assert_eq!(step(&c, State::Writing, Event::Sent), (State::Reading, Action::Read));
}

#[test]
fn repeating_a_request_repeats_the_answer() {
    let c = config();
    let mut disk = HashMap::new();
    let request: &[u8] = b"GET /echo/abc HTTP/1.1\r\n\r\n";
    let written = serve(&c, &mut disk, &[request; 25]);
    assert_eq!(written.len(), 25);
    for w in &written {
        assert_eq!(
            w,
            b"HTTP/1.1 200 OK\r\nContent-Type: text/plain\r\nContent-Length: 3\r\n\r\nabc"
        );
    }
}

#[test]
fn an_empty_read_closes() {
    let c = config();
    assert_eq!(step(&c, State::Reading, Event::Received(Vec::new())), (State::Closed, Action::Close));
}

#[test]
fn a_failed_read_closes() {
    let c = config();
    assert_eq!(step(&c, State::Reading, Event::ReadFailed), (State::Closed, Action::Close));
}

#[test]
fn a_failed_write_closes() {
    let c = config();
    assert_eq!(step(&c, State::Writing, Event::SendFailed), (State::Closed, Action::Close));
}

#[test]
fn an_incomplete_body_closes() {
    let c = config();
    let request = b"POST /files/foo.txt HTTP/1.1\r\nContent-Length: 50\r\n\r\nhello";
    assert_eq!(
        step(&c, State::Reading, Event::Received(request.to_vec())),
        (State::Closed, Action::Close)
    );
}

#[test]
fn an_event_that_was_not_awaited_closes() {
    let c = config();
    let closed = (State::Closed, Action::Close);
    assert_eq!(step(&c, State::Reading, Event::Sent), closed);
    assert_eq!(step(&c, State::Reading, Event::Loaded(b"x".to_vec())), closed);
    assert_eq!(step(&c, State::Reading, Event::Stored), closed);
    assert_eq!(step(&c, State::Loading, Event::Stored), closed);
    assert_eq!(step(&c, State::Loading, Event::Received(b"GET / HTTP/1.1\r\n\r\n".to_vec())), closed);
    assert_eq!(step(&c, State::Storing, Event::Loaded(b"x".to_vec())), closed);
    assert_eq!(step(&c, State::Storing, Event::LoadFailed), closed);
    assert_eq!(step(&c, State::Writing, Event::Received(b"GET / HTTP/1.1\r\n\r\n".to_vec())), closed);
    assert_eq!(step(&c, State::Writing, Event::ReadFailed), closed);
    assert_eq!(step(&c, State::Closed, Event::Sent), closed);
    assert_eq!(step(&c, State::Closed, Event::Received(b"GET / HTTP/1.1\r\n\r\n".to_vec())), closed);
}

#[test]
fn dispatch_routes_a_parsed_request() {
    let c = config();
    let req = parse(b"GET /echo/xyz HTTP/1.1\r\n\r\n").unwrap();
    assert_eq!(
        dispatch(&c, &req),
        send(b"HTTP/1.1 200 OK\r\nContent-Type: text/plain\r\nContent-Length: 3\r\n\r\nxyz")
    );
    let req = parse(b"POST /files/n HTTP/1.1\r\n\r\nbody").unwrap();
    assert_eq!(
        dispatch(&c, &req),
        (State::Storing, Action::Store { path: b"/tmp/data/n".to_vec(), contents: b"body".to_vec() })
    );
}
