//! Requests as a client writes them, and the proof that the parser reads
//! back what was written.

use crate::bytes::{
    blank_line, crlf, free_of, is_space, is_token, lemma_first_index, lemma_first_index_after,
    lemma_no_index_in, lemma_tokens_after, lemma_tokens_skip, lines, occurs_at, tokens,
    trimmed, trimmed_start, COLON, CR, LF, SP,
};
use crate::headers::{distinct_names, lemma_missing, unnamed};
use crate::request::{
    declared_length, head, header_of, headers_of, parsed, remainder, request_line, ParseError,
    RequestView,
};
use vstd::prelude::*;

verus! {

/// Whether no whitespace stands at either end of `s`.
pub open spec fn is_trimmed(s: Seq<u8>) -> bool {
    s.len() == 0 || (!is_space(s[0]) && !is_space(s.last()))
}

/// Whether a header can be written on a line and read back: its name holds
/// no colon, neither name nor value holds a carriage return, and neither
/// begins or ends with whitespace.
pub open spec fn is_plain_header(h: (Seq<u8>, Seq<u8>)) -> bool {
    &&& free_of(h.0, COLON)
    &&& free_of(h.0, CR)
    &&& free_of(h.1, CR)
    &&& is_trimmed(h.0)
    &&& is_trimmed(h.1)
}

/// The line that sets a header: its name, a colon and a space, its value.
pub open spec fn header_line(h: (Seq<u8>, Seq<u8>)) -> Seq<u8> {
    h.0 + seq![COLON, SP] + h.1
}

/// The lines that set the headers `hs`, in order.
pub open spec fn header_lines(hs: Seq<(Seq<u8>, Seq<u8>)>) -> Seq<Seq<u8>> {
    Seq::new(hs.len(), |i: int| header_line(hs[i]))
}

/// The first line of a request: method, path and version, one space between them.
pub open spec fn first_line(req: RequestView) -> Seq<u8> {
    req.method + seq![SP] + req.path + seq![SP] + req.version
}

/// Lines as one text, a line terminator between each two of them.
pub open spec fn joined_lines(ls: Seq<Seq<u8>>) -> Seq<u8>
    decreases ls.len(),
{
    if ls.len() == 0 {
        Seq::empty()
    } else if ls.len() == 1 {
        ls[0]
    } else {
        joined_lines(ls.drop_last()) + crlf() + ls.last()
    }
}

/// A request on the wire: the first line, the header lines, a blank line,
/// the body.
pub open spec fn written(req: RequestView) -> Seq<u8> {
    joined_lines(seq![first_line(req)] + header_lines(req.headers)) + blank_line() + req.body
}

/// Whether a request can be written and read back: method, path and version
/// are tokens, the headers are plain and no name stands twice, and where the
/// headers announce a length it is that of the body.
pub open spec fn is_writable(req: RequestView) -> bool {
    &&& is_token(req.method)
    &&& is_token(req.path)
    &&& is_token(req.version)
    &&& forall|i: int| 0 <= i < req.headers.len() ==> is_plain_header(#[trigger] req.headers[i])
    &&& distinct_names(req.headers)
    &&& match declared_length(req.headers) {
        Some(n) => n == req.body.len(),
        None => true,
    }
}

/// Text that is trimmed already is left as it is.
pub proof fn lemma_trimmed_same(s: Seq<u8>)
    requires
        is_trimmed(s),
    ensures
        trimmed(s) == s,
{
}

/// A header line gives back the header that it was written from.
pub proof fn lemma_header_line(h: (Seq<u8>, Seq<u8>))
    requires
        is_plain_header(h),
    ensures
        header_of(header_line(h)) == Some(h),
        free_of(header_line(h), CR),
        header_line(h).len() > 0,
{
    let line = header_line(h);
    let after = seq![SP] + h.1;
    assert(line =~= h.0 + seq![COLON] + after);
    lemma_first_index_after(h.0, seq![COLON], after);
    let k = h.0.len() as int;
    assert(line.take(k) =~= h.0);
    assert(line.skip(k + 1) =~= after);
    assert(after.drop_first() =~= h.1);
    assert(trimmed_start(after) == trimmed_start(h.1));
    lemma_trimmed_same(h.0);
    lemma_trimmed_same(h.1);
    assert forall|i: int| 0 <= i < line.len() implies line[i] != CR by {
        if i < k {
            assert(line[i] == h.0[i]);
        } else if i >= k + 2 {
            assert(line[i] == h.1[i - k - 2]);
        }
    }
}

/// The header lines of plain headers with distinct names build those headers.
pub proof fn lemma_header_lines(hs: Seq<(Seq<u8>, Seq<u8>)>)
    requires
        forall|i: int| 0 <= i < hs.len() ==> is_plain_header(#[trigger] hs[i]),
        distinct_names(hs),
    ensures
        headers_of(header_lines(hs)) == hs,
    decreases hs.len(),
{
    let ls = header_lines(hs);
    if hs.len() == 0 {
        assert(headers_of(ls) =~= hs);
    } else {
        let front = hs.drop_last();
        let last = hs.last();
        assert(ls.drop_last() =~= header_lines(front));
        assert forall|i: int| 0 <= i < front.len() implies is_plain_header(
            #[trigger] front[i],
        ) by {
            assert(front[i] == hs[i]);
        }
        assert(distinct_names(front)) by {
            assert forall|i: int, j: int| 0 <= i < j < front.len() implies #[trigger] front[i].0
                != #[trigger] front[j].0 by {
                assert(front[i].0 == hs[i].0);
                assert(front[j].0 == hs[j].0);
            }
        }
        lemma_header_lines(front);
        assert(is_plain_header(hs[hs.len() - 1]));
        lemma_header_line(last);
        assert(ls.last() == header_line(last));
        assert(unnamed(front, last.0)) by {
            assert forall|j: int| 0 <= j < front.len() implies (#[trigger] front[j]).0
                != last.0 by {
                assert(front[j].0 == hs[j].0);
                assert(hs[hs.len() - 1].0 == last.0);
            }
        }
        lemma_missing(front, last.0);
        assert(front.push(last) =~= hs);
    }
}

/// Joined lines begin with the first line; the others follow it, joined.
pub proof fn lemma_joined_front(ls: Seq<Seq<u8>>)
    requires
        ls.len() >= 2,
    ensures
        joined_lines(ls) == ls[0] + crlf() + joined_lines(ls.drop_first()),
    decreases ls.len(),
{
    let front = ls.drop_last();
    let tail = ls.drop_first();
    if ls.len() == 2 {
        assert(front =~= seq![ls[0]]);
        assert(tail =~= seq![ls[1]]);
        assert(joined_lines(front) == ls[0]);
        assert(joined_lines(tail) == ls[1]);
    } else {
        lemma_joined_front(front);
        assert(tail.drop_last() =~= front.drop_first());
        assert(tail.last() == ls.last());
        assert(front[0] == ls[0]);
        assert(joined_lines(ls) =~= ls[0] + crlf() + joined_lines(tail));
    }
}

/// A line without a carriage return, a line terminator and more text split
/// into that line and the lines of the text.
pub proof fn lemma_lines_after(line: Seq<u8>, rest: Seq<u8>)
    requires
        free_of(line, CR),
    ensures
        lines(line + crlf() + rest) == seq![line] + lines(rest),
{
    let text = line + crlf() + rest;
    let k = line.len() as int;
    lemma_first_index_after(line, crlf(), rest);
    assert(text.take(k) =~= line);
    assert(text.skip(k + 2) =~= rest);
}

/// Lines without a carriage return, joined and split again, are the same lines.
pub proof fn lemma_lines_of_joined(ls: Seq<Seq<u8>>)
    requires
        ls.len() >= 1,
        forall|i: int| 0 <= i < ls.len() ==> free_of(#[trigger] ls[i], CR),
    ensures
        lines(joined_lines(ls)) == ls,
    decreases ls.len(),
{
    if ls.len() == 1 {
        lemma_no_index_in(ls[0], crlf());
        assert(seq![ls[0]] =~= ls);
    } else {
        let tail = ls.drop_first();
        lemma_joined_front(ls);
        assert forall|i: int| 0 <= i < tail.len() implies free_of(#[trigger] tail[i], CR) by {
            assert(tail[i] == ls[i + 1]);
        }
        lemma_lines_of_joined(tail);
        lemma_lines_after(ls[0], joined_lines(tail));
        assert(seq![ls[0]] + tail =~= ls);
    }
}

/// Where a blank line stands, a carriage return stands at the first and at
/// the third place, and a line feed at the second.
pub proof fn lemma_blank_line_at(hay: Seq<u8>, j: int)
    requires
        occurs_at(hay, blank_line(), j),
    ensures
        j + 4 <= hay.len(),
        hay[j] == CR,
        hay[j + 1] == LF,
        hay[j + 2] == CR,
        hay[j + 3] == LF,
{
    let part = hay.subrange(j, j + 4);
    assert(part[0] == hay[j]);
    assert(part[1] == hay[j + 1]);
    assert(part[2] == hay[j + 2]);
    assert(part[3] == hay[j + 3]);
}

/// No blank line begins within joined lines that hold no carriage return
/// and of which none but the first may be empty.
pub proof fn lemma_no_blank_line_within(ls: Seq<Seq<u8>>, rest: Seq<u8>, j: int)
    requires
        ls.len() >= 1,
        forall|i: int| 0 <= i < ls.len() ==> free_of(#[trigger] ls[i], CR),
        forall|i: int| 1 <= i < ls.len() ==> (#[trigger] ls[i]).len() > 0,
        0 <= j < joined_lines(ls).len(),
    ensures
        !occurs_at(joined_lines(ls) + blank_line() + rest, blank_line(), j),
    decreases ls.len(),
{
    let text = joined_lines(ls);
    let hay = text + blank_line() + rest;
    if occurs_at(hay, blank_line(), j) {
        lemma_blank_line_at(hay, j);
        let k = ls[0].len() as int;
        if ls.len() == 1 {
            assert(hay[j] == ls[0][j]);
        } else {
            let tail = ls.drop_first();
            let after = joined_lines(tail);
            lemma_joined_front(ls);
            assert(text =~= ls[0] + crlf() + after);
            let inner = after + blank_line() + rest;
            assert(hay =~= ls[0] + crlf() + inner);
            assert forall|i: int| 0 <= i < tail.len() implies free_of(#[trigger] tail[i], CR) by {
                assert(tail[i] == ls[i + 1]);
            }
            assert forall|i: int| 1 <= i < tail.len() implies (#[trigger] tail[i]).len() > 0 by {
                assert(tail[i] == ls[i + 1]);
            }
            if j < k {
                assert(hay[j] == ls[0][j]);
            } else if j == k {
                assert(tail[0] == ls[1]);
                assert(tail[0].len() > 0);
                if tail.len() >= 2 {
                    lemma_joined_front(tail);
                }
                assert(after[0] == tail[0][0]);
                assert(hay[j + 2] == after[0]);
            } else if j == k + 1 {
                assert(hay[j] == LF);
            } else {
                let i = j - k - 2;
                assert(inner.subrange(i, i + 4) =~= hay.subrange(j, j + 4));
                lemma_no_blank_line_within(tail, rest, i);
            }
        }
    }
}

/// The first line of a request of three tokens holds no carriage return,
/// and its tokens are method, path and version.
pub proof fn lemma_first_line(req: RequestView)
    requires
        is_token(req.method),
        is_token(req.path),
        is_token(req.version),
    ensures
        free_of(first_line(req), CR),
        request_line(first_line(req)) == Some((req.method, req.path, req.version)),
{
    let (method, path, version) = (req.method, req.path, req.version);
    let line = first_line(req);
    let none = Seq::<u8>::empty();
    assert forall|i: int| 0 <= i < line.len() implies line[i] != CR by {
        if i < method.len() {
            assert(line[i] == method[i]);
        } else if i == method.len() {
        } else if i < method.len() + 1 + path.len() {
            assert(line[i] == path[i - method.len() - 1]);
        } else if i == method.len() + 1 + path.len() {
        } else {
            assert(line[i] == version[i - method.len() - path.len() - 2]);
        }
    }
    let after_path = seq![SP] + version;
    let after_method = seq![SP] + (path + after_path);
    assert(line =~= method + after_method);
    lemma_tokens_after(method, after_method);
    lemma_tokens_skip(SP, path + after_path);
    lemma_tokens_after(path, after_path);
    lemma_tokens_skip(SP, version);
    assert(version =~= version + none);
    lemma_tokens_after(version, none);
    assert(tokens(none) =~= Seq::<Seq<u8>>::empty());
    assert(tokens(line) =~= seq![method, path, version]);
}

/// What is written is what is read: a writable request, written out, parses
/// to that request: the same method, path and version, the same headers in
/// the same order, the same body.
pub proof fn law_parse_written(req: RequestView)
    requires
        is_writable(req),
    ensures
        parsed(written(req)) == Ok::<RequestView, ParseError>(req),
{
    let line = first_line(req);
    let hl = header_lines(req.headers);
    let ls = seq![line] + hl;
    let text = joined_lines(ls);
    let bytes = written(req);
    lemma_first_line(req);
    assert forall|i: int| 0 <= i < ls.len() implies free_of(#[trigger] ls[i], CR) by {
        if i >= 1 {
            assert(ls[i] == header_line(req.headers[i - 1]));
            assert(is_plain_header(req.headers[i - 1]));
            lemma_header_line(req.headers[i - 1]);
        }
    }
    assert forall|i: int| 1 <= i < ls.len() implies (#[trigger] ls[i]).len() > 0 by {
        assert(ls[i] == header_line(req.headers[i - 1]));
        assert(is_plain_header(req.headers[i - 1]));
        lemma_header_line(req.headers[i - 1]);
    }
    let k = text.len() as int;
    assert(bytes.subrange(k, k + 4) =~= blank_line());
    assert forall|j: int| 0 <= j < k implies !occurs_at(bytes, blank_line(), j) by {
        lemma_no_blank_line_within(ls, req.body, j);
    }
    lemma_first_index(bytes, blank_line(), k);
    assert(head(bytes) =~= text);
    assert(remainder(bytes) =~= req.body);
    lemma_lines_of_joined(ls);
    assert(ls.skip(1) =~= hl);
    lemma_header_lines(req.headers);
    assert(req.body.take(req.body.len() as int) =~= req.body);
}

} // verus!
