use minihttp::response::{serialize, Response, Status};

#[test]
fn statuses_have_their_codes_and_lines() {
    assert_eq!(Status::Success.code(), 200);
    assert_eq!(Status::Created.code(), 201);
    assert_eq!(Status::BadRequest.code(), 400);
    assert_eq!(Status::NotFound.code(), 404);
    assert_eq!(Status::Success.status_line(), b"200 OK");
    assert_eq!(Status::Created.status_line(), b"201 Created");
    assert_eq!(Status::BadRequest.status_line(), b"400 Bad Request");
    assert_eq!(Status::NotFound.status_line(), b"404 Not Found");
}

#[test]
fn an_empty_response_has_no_headers() {
    let r = Response::empty(Status::Created);
    assert_eq!(r.status(), Status::Created);
    assert_eq!(r.headers().len(), 0);
    assert_eq!(r.body(), b"");
}

#[test]
fn empty_responses_on_the_wire() {
    assert_eq!(serialize(&Response::empty(Status::Success)), b"HTTP/1.1 200 OK\r\n\r\n");
    assert_eq!(serialize(&Response::empty(Status::Created)), b"HTTP/1.1 201 Created\r\n\r\n");
    assert_eq!(serialize(&Response::empty(Status::BadRequest)), b"HTTP/1.1 400 Bad Request\r\n\r\n");
    assert_eq!(serialize(&Response::empty(Status::NotFound)), b"HTTP/1.1 404 Not Found\r\n\r\n");
}

#[test]
fn a_body_comes_with_kind_and_length() {
    let r = Response::with_body(Status::Success, b"text/plain", b"hello".to_vec());
    assert_eq!(r.status(), Status::Success);
    assert_eq!(r.headers().len(), 2);
    assert_eq!(r.headers().entry(0).unwrap().0, b"Content-Type");
    assert_eq!(r.headers().entry(0).unwrap().1, b"text/plain");
    assert_eq!(r.headers().entry(1).unwrap().0, b"Content-Length");
    assert_eq!(r.headers().entry(1).unwrap().1, b"5");
    assert_eq!(r.body(), b"hello");
    assert_eq!(
        serialize(&r),
        b"HTTP/1.1 200 OK\r\nContent-Type: text/plain\r\nContent-Length: 5\r\n\r\nhello"
    );
}

#[test]
fn an_empty_body_is_announced_with_length_zero() {
    let r = Response::with_body(Status::Success, b"text/plain", Vec::new());
    assert_eq!(
        serialize(&r),
        b"HTTP/1.1 200 OK\r\nContent-Type: text/plain\r\nContent-Length: 0\r\n\r\n"
    );
}

#[test]
fn length_counts_bytes() {
    let body = vec![b'x'; 1234];
    let r = Response::with_body(Status::Success, b"application/octet-stream", body.clone());
    assert_eq!(r.headers().get(b"Content-Length"), Some(&b"1234"[..]));
    let mut expected =
        b"HTTP/1.1 200 OK\r\nContent-Type: application/octet-stream\r\nContent-Length: 1234\r\n\r\n"
            .to_vec();
    expected.extend_from_slice(&body);
    assert_eq!(serialize(&r), expected);
    let text = "h\u{e9}llo \u{4e16}\u{754c}";
    assert_eq!(text.chars().count(), 8);
    let r = Response::with_body(Status::Success, b"text/plain", text.as_bytes().to_vec());
    assert_eq!(r.headers().get(b"Content-Length"), Some(&b"13"[..]));
}

#[test]
fn a_body_may_hold_any_bytes() {
    let r = Response::with_body(Status::Success, b"application/octet-stream", b"\r\n\r\n\x00\xff".to_vec());
    assert_eq!(
        serialize(&r),
        b"HTTP/1.1 200 OK\r\nContent-Type: application/octet-stream\r\nContent-Length: 6\r\n\r\n\r\n\r\n\x00\xff"
    );
}
