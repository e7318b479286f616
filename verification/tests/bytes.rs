use minihttp::bytes::{
    bytes_eq, find, is_space_byte, matches_at, next_token, split_line, starts_with, trim,
};

#[test]
fn whitespace_is_the_five_ascii_bytes() {
    for b in 0u8..=255 {
        let expected = b == b' ' || b == b'\t' || b == b'\n' || b == 0x0c || b == b'\r';
        assert_eq!(is_space_byte(b), expected);
    }
    assert!(!is_space_byte(0x0b));
}

#[test]
fn trim_strips_both_sides() {
    assert_eq!(trim(b"  a b \t\r\n"), b"a b");
    assert_eq!(trim(b"a"), b"a");
    assert_eq!(trim(b""), b"");
    assert_eq!(trim(b" \t "), b"");
    assert_eq!(trim(b"\x0ba\x0b"), b"\x0ba\x0b");
}

#[test]
fn find_gives_the_first_occurrence() {
    assert_eq!(find(b"abcabc", b"bc"), Some(1));
    assert_eq!(find(b"abcabc", b"abc"), Some(0));
    assert_eq!(find(b"abcabc", b"cab"), Some(2));
    assert_eq!(find(b"abcabc", b"abcabc"), Some(0));
    assert_eq!(find(b"abcabc", b"x"), None);
    assert_eq!(find(b"abc", b"abcd"), None);
    assert_eq!(find(b"abc", b""), Some(0));
    assert_eq!(find(b"", b""), Some(0));
    assert_eq!(find(b"", b"a"), None);
    assert_eq!(find(b"\r\r\n\r\n\r\n", b"\r\n\r\n"), Some(1));
}

#[test]
fn matches_at_compares_in_place() {
    assert!(matches_at(b"hello", b"ll", 2));
    assert!(!matches_at(b"hello", b"ll", 1));
    assert!(matches_at(b"hello", b"", 5));
    assert!(!matches_at(b"hello", b"", 6));
    assert!(!matches_at(b"hello", b"lo!", 3));
    assert!(!matches_at(b"hello", b"hello", usize::MAX));
}

#[test]
fn starts_with_and_equality() {
    assert!(starts_with(b"/echo/abc", b"/echo/"));
    assert!(starts_with(b"/echo/", b"/echo/"));
    assert!(!starts_with(b"/echo", b"/echo/"));
    assert!(!starts_with(b"/Echo/abc", b"/echo/"));
    assert!(starts_with(b"abc", b""));
    assert!(bytes_eq(b"abc", b"abc"));
    assert!(!bytes_eq(b"abc", b"abd"));
    assert!(!bytes_eq(b"abc", b"ab"));
    assert!(bytes_eq(b"", b""));
}

#[test]
fn next_token_finds_the_first_token() {
    assert_eq!(next_token(b"  GET   /a HTTP/1.1 "), Some((2, 5)));
    assert_eq!(next_token(b"   /a HTTP/1.1 "), Some((3, 5)));
    assert_eq!(next_token(b" HTTP/1.1"), Some((1, 9)));
    assert_eq!(next_token(b" \t\r\n"), None);
    assert_eq!(next_token(b""), None);
    assert_eq!(next_token(b"a"), Some((0, 1)));
    assert_eq!(next_token(b"a\x0bb c"), Some((0, 3)));
}

#[test]
fn split_line_cuts_at_the_first_terminator() {
    let (line, rest) = split_line(b"a\r\nb\r\nc");
    assert_eq!(line, b"a");
    assert_eq!(rest, Some(&b"b\r\nc"[..]));
    let (line, rest) = split_line(b"abc");
    assert_eq!(line, b"abc");
    assert_eq!(rest, None);
    let (line, rest) = split_line(b"abc\r\n");
    assert_eq!(line, b"abc");
    assert_eq!(rest, Some(&b""[..]));
    let (line, rest) = split_line(b"\r\nabc");
    assert_eq!(line, b"");
    assert_eq!(rest, Some(&b"abc"[..]));
    let (line, rest) = split_line(b"a\nb\rc");
    assert_eq!(line, b"a\nb\rc");
    assert_eq!(rest, None);
}
