use minihttp::handlers::{
    echo, file_read, file_write, not_found, settle, static_ok, user_agent, HandlerError,
};
use minihttp::request::parse;
use minihttp::response::{serialize, Status};

#[test]
fn static_ok_is_an_empty_200() {
    let r = static_ok();
    assert_eq!(r.status(), Status::Success);
    assert_eq!(r.headers().len(), 0);
    assert_eq!(r.body(), b"");
}

#[test]
fn not_found_is_an_empty_404() {
    let r = not_found();
    assert_eq!(r.status(), Status::NotFound);
    assert_eq!(r.headers().len(), 0);
    assert_eq!(r.body(), b"");
}

#[test]
fn echo_sends_the_text_back() {
    let r = echo(b"abc");
    assert_eq!(r.status(), Status::Success);
    assert_eq!(r.headers().get(b"Content-Type"), Some(&b"text/plain"[..]));
    assert_eq!(r.headers().get(b"Content-Length"), Some(&b"3"[..]));
    assert_eq!(r.body(), b"abc");
}

#[test]
fn echo_counts_bytes_not_characters() {
    let text = "gr\u{fc}\u{df}e";
    assert_eq!(text.chars().count(), 5);
    assert_eq!(text.len(), 7);
    let r = echo(text.as_bytes());
    assert_eq!(r.headers().get(b"Content-Length"), Some(&b"7"[..]));
    assert_eq!(r.body(), text.as_bytes());
}

#[test]
fn user_agent_is_sent_back() {
    let req = parse(b"GET /user-agent HTTP/1.1\r\nUser-Agent: test-client/1.0\r\n\r\n").unwrap();
    let r = user_agent(&req).ok().unwrap();
    assert_eq!(r.status(), Status::Success);
    assert_eq!(r.headers().get(b"Content-Type"), Some(&b"text/plain"[..]));
    assert_eq!(r.headers().get(b"Content-Length"), Some(&b"15"[..]));
    assert_eq!(r.body(), b"test-client/1.0");
}

#[test]
fn user_agent_missing_is_an_error() {
    let req = parse(b"GET /user-agent HTTP/1.1\r\nuser-agent: lower\r\n\r\n").unwrap();
    assert_eq!(user_agent(&req).err(), Some(HandlerError::MissingHeader));
    let r = settle(user_agent(&req));
    assert_eq!(r.status(), Status::BadRequest);
    assert_eq!(serialize(&r), b"HTTP/1.1 400 Bad Request\r\n\r\n");
}

#[test]
fn file_read_sends_the_contents() {
    let r = file_read(Some(b"hello".to_vec())).ok().unwrap();
    assert_eq!(r.status(), Status::Success);
    assert_eq!(r.headers().get(b"Content-Type"), Some(&b"application/octet-stream"[..]));
    assert_eq!(r.headers().get(b"Content-Length"), Some(&b"5"[..]));
    assert_eq!(r.body(), b"hello");
    let r = file_read(Some(Vec::new())).ok().unwrap();
    assert_eq!(r.headers().get(b"Content-Length"), Some(&b"0"[..]));
}

#[test]
fn file_read_failure_is_not_found() {
    assert_eq!(file_read(None).err(), Some(HandlerError::NotFound));
    assert_eq!(settle(file_read(None)).status(), Status::NotFound);
}

#[test]
fn file_write_reports_created() {
    let r = file_write(true).ok().unwrap();
    assert_eq!(r.status(), Status::Created);
    assert_eq!(r.headers().len(), 0);
    assert_eq!(r.body(), b"");
}

#[test]
fn file_write_failure_is_not_found() {
    assert_eq!(file_write(false).err(), Some(HandlerError::NotFound));
    let r = settle(file_write(false));
    assert_eq!(r.status(), Status::NotFound);
    assert_eq!(serialize(&r), b"HTTP/1.1 404 Not Found\r\n\r\n");
}

#[test]
fn settle_keeps_a_success() {
    let r = settle(Ok(echo(b"x")));
    assert_eq!(r.status(), Status::Success);
    assert_eq!(r.body(), b"x");
}
