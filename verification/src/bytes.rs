//! Byte strings: whitespace, trimming, searching and comparing.

use vstd::prelude::*;

verus! {

/// Horizontal tab.
pub const TAB: u8 = 0x09;

/// Line feed.
pub const LF: u8 = 0x0a;

/// Form feed.
pub const FF: u8 = 0x0c;

/// Carriage return.
pub const CR: u8 = 0x0d;

/// Space.
pub const SP: u8 = 0x20;

/// Full stop.
pub const DOT: u8 = 0x2e;

/// Slash.
pub const SLASH: u8 = 0x2f;

/// Colon.
pub const COLON: u8 = 0x3a;

/// ASCII whitespace: space, tab, line feed, form feed and carriage return.
pub open spec fn is_space(b: u8) -> bool {
    b == SP || b == TAB || b == LF || b == FF || b == CR
}

/// Whether `b` is ASCII whitespace.
pub fn is_space_byte(b: u8) -> (r: bool)
    ensures
        r == is_space(b),
{
    b == SP || b == TAB || b == LF || b == FF || b == CR
}

/// The line terminator, carriage return and line feed.
pub open spec fn crlf() -> Seq<u8> {
    seq![CR, LF]
}

/// The terminator of a header block: an empty line after a line.
pub open spec fn blank_line() -> Seq<u8> {
    seq![CR, LF, CR, LF]
}

/// `s` without its leading whitespace.
pub open spec fn trimmed_start(s: Seq<u8>) -> Seq<u8>
    decreases s.len(),
{
    if s.len() > 0 && is_space(s[0]) {
        trimmed_start(s.drop_first())
    } else {
        s
    }
}

/// `s` without its trailing whitespace.
pub open spec fn trimmed_end(s: Seq<u8>) -> Seq<u8>
    decreases s.len(),
{
    if s.len() > 0 && is_space(s.last()) {
        trimmed_end(s.drop_last())
    } else {
        s
    }
}

/// `s` without the whitespace on either side.
pub open spec fn trimmed(s: Seq<u8>) -> Seq<u8> {
    trimmed_end(trimmed_start(s))
}

/// The part of `s` between its leading and its trailing whitespace.
pub fn trim(s: &[u8]) -> (r: &[u8])
    ensures
        r@ == trimmed(s@),
{
    let n = s.len();
    let mut lo: usize = 0;
    assert(s@.skip(0) =~= s@);
    while lo < n && is_space_byte(s[lo])
        invariant
            n == s@.len(),
            lo <= n,
            trimmed_start(s@.skip(lo as int)) == trimmed_start(s@),
        decreases n - lo,
    {
        assert(s@.skip(lo as int).drop_first() =~= s@.skip(lo + 1));
        lo += 1;
    }
    assert(trimmed_start(s@) == s@.skip(lo as int));
    assert(s@.skip(lo as int) =~= s@.subrange(lo as int, n as int));
    let mut hi: usize = n;
    while hi > lo && is_space_byte(s[hi - 1])
        invariant
            n == s@.len(),
            lo <= hi <= n,
            trimmed_end(s@.subrange(lo as int, hi as int)) == trimmed(s@),
        decreases hi - lo,
    {
        assert(s@.subrange(lo as int, hi as int).drop_last() =~= s@.subrange(lo as int, hi - 1));
        hi -= 1;
    }
    &s[lo..hi]
}

/// Whether `needle` stands in `hay` at position `i`.
pub open spec fn occurs_at(hay: Seq<u8>, needle: Seq<u8>, i: int) -> bool {
    0 <= i && i + needle.len() <= hay.len() && hay.subrange(i, i + needle.len()) == needle
}

/// Whether `i` is the first position at which `needle` stands in `hay`.
pub open spec fn first_at(hay: Seq<u8>, needle: Seq<u8>, i: int) -> bool {
    occurs_at(hay, needle, i) && forall|j: int| 0 <= j < i ==> !occurs_at(hay, needle, j)
}

/// Whether `needle` stands nowhere in `hay`.
pub open spec fn absent(hay: Seq<u8>, needle: Seq<u8>) -> bool {
    forall|j: int| !occurs_at(hay, needle, j)
}

/// The first position at which `needle` stands in `hay`, if it stands there at all.
pub open spec fn first_index_of(hay: Seq<u8>, needle: Seq<u8>) -> Option<int> {
    if exists|i: int| first_at(hay, needle, i) {
        Some(choose|i: int| first_at(hay, needle, i))
    } else {
        None
    }
}

/// A first occurrence is the one that `first_index_of` names.
pub proof fn lemma_first_index(hay: Seq<u8>, needle: Seq<u8>, i: int)
    requires
        first_at(hay, needle, i),
    ensures
        first_index_of(hay, needle) == Some(i),
{
    let c = choose|c: int| first_at(hay, needle, c);
    assert(first_at(hay, needle, c));
    if c < i {
        assert(!occurs_at(hay, needle, c));
    }
    if i < c {
        assert(!occurs_at(hay, needle, i));
    }
}

/// Where the needle stands nowhere, `first_index_of` names no position.
pub proof fn lemma_no_index(hay: Seq<u8>, needle: Seq<u8>)
    requires
        absent(hay, needle),
    ensures
        first_index_of(hay, needle) is None,
{
    assert forall|i: int| !first_at(hay, needle, i) by {
        assert(!occurs_at(hay, needle, i));
    }
}

/// Where the needle stands at all, it stands somewhere first, and not later
/// than where it was seen.
pub proof fn law_first_index_exists(hay: Seq<u8>, needle: Seq<u8>, i: int)
    requires
        occurs_at(hay, needle, i),
    ensures
        first_index_of(hay, needle) matches Some(k) && 0 <= k <= i && first_at(hay, needle, k),
    decreases i,
{
    if forall|j: int| 0 <= j < i ==> !occurs_at(hay, needle, j) {
        lemma_first_index(hay, needle, i);
    } else {
        let j = choose|j: int| 0 <= j < i && occurs_at(hay, needle, j);
        law_first_index_exists(hay, needle, j);
    }
}

/// Whether `needle` stands in `hay` at position `at`.
pub fn matches_at(hay: &[u8], needle: &[u8], at: usize) -> (r: bool)
    ensures
        r == occurs_at(hay@, needle@, at as int),
{
    let n = hay.len();
    let m = needle.len();
    if at > n || m > n - at {
        return false;
    }
    let mut k: usize = 0;
    while k < m
        invariant
            n == hay@.len(),
            m == needle@.len(),
            at + m <= n,
            k <= m,
            forall|j: int| 0 <= j < k ==> hay@[at + j] == needle@[j],
        decreases m - k,
    {
        if hay[at + k] != needle[k] {
            assert(hay@.subrange(at as int, at + m)[k as int] != needle@[k as int]);
            return false;
        }
        k += 1;
    }
    assert(hay@.subrange(at as int, at + m) =~= needle@);
    true
}

/// Whether the two byte strings are the same.
pub fn bytes_eq(a: &[u8], b: &[u8]) -> (r: bool)
    ensures
        r == (a@ == b@),
{
    if a.len() != b.len() {
        return false;
    }
    assert(a@.subrange(0, a@.len() as int) =~= a@);
    matches_at(a, b, 0)
}

/// Whether `s` begins with `prefix`.
pub fn starts_with(s: &[u8], prefix: &[u8]) -> (r: bool)
    ensures
        r == prefix@.is_prefix_of(s@),
{
    if prefix.len() > s.len() {
        return false;
    }
    matches_at(s, prefix, 0)
}

/// The first position at which `needle` stands in `hay`.
pub fn find(hay: &[u8], needle: &[u8]) -> (r: Option<usize>)
    ensures
        match r {
            Some(i) => first_index_of(hay@, needle@) == Some(i as int),
            None => first_index_of(hay@, needle@) is None,
        },
{
    let n = hay.len();
    let m = needle.len();
    if m > n {
        proof {
            lemma_no_index(hay@, needle@);
        }
        return None;
    }
    let last = n - m;
    let mut i: usize = 0;
    loop
        invariant
            n == hay@.len(),
            m == needle@.len(),
            last == n - m,
            i <= last,
            forall|j: int| 0 <= j < i ==> !occurs_at(hay@, needle@, j),
        decreases last - i,
    {
        if matches_at(hay, needle, i) {
            proof {
                lemma_first_index(hay@, needle@, i as int);
            }
            return Some(i);
        }
        if i == last {
            proof {
                lemma_no_index(hay@, needle@);
            }
            return None;
        }
        i += 1;
    }
}

/// The length of the longest prefix of `s` that holds no whitespace.
pub open spec fn word_len(s: Seq<u8>) -> nat
    decreases s.len(),
{
    if s.len() > 0 && !is_space(s[0]) {
        1 + word_len(s.drop_first())
    } else {
        0
    }
}

/// A prefix without whitespace that ends at whitespace, or at the end, is the leading word.
pub proof fn lemma_word_len(s: Seq<u8>, n: int)
    requires
        0 <= n <= s.len(),
        forall|k: int| 0 <= k < n ==> !is_space(s[k]),
        n == s.len() || is_space(s[n]),
    ensures
        word_len(s) == n,
    decreases n,
{
    if n > 0 {
        lemma_word_len(s.drop_first(), n - 1);
    }
}

/// The leading word is a part of the text: it is no longer than the text,
/// and it holds no whitespace.
pub proof fn lemma_word_len_bound(s: Seq<u8>)
    ensures
        word_len(s) <= s.len(),
        forall|k: int| 0 <= k < word_len(s) ==> !is_space(s[k]),
    decreases s.len(),
{
    if s.len() > 0 && !is_space(s[0]) {
        let t = s.drop_first();
        lemma_word_len_bound(t);
        assert forall|k: int| 0 <= k < word_len(s) implies !is_space(s[k]) by {
            if k > 0 {
                assert(s[k] == t[k - 1]);
            }
        }
    }
}

/// The whitespace-separated tokens of `s`, in the order in which they stand.
pub open spec fn tokens(s: Seq<u8>) -> Seq<Seq<u8>>
    decreases s.len(),
{
    if s.len() == 0 {
        Seq::empty()
    } else if is_space(s[0]) {
        tokens(s.drop_first())
    } else {
        proof {
            lemma_word_len_bound(s);
        }
        seq![s.take(word_len(s) as int)] + tokens(s.skip(word_len(s) as int))
    }
}

/// Every token is one: it is not empty, and it holds no whitespace.
pub proof fn law_tokens(s: Seq<u8>)
    ensures
        forall|i: int| 0 <= i < tokens(s).len() ==> is_token(#[trigger] tokens(s)[i]),
    decreases s.len(),
{
    if s.len() == 0 {
        assert(tokens(s).len() == 0);
    } else if is_space(s[0]) {
        law_tokens(s.drop_first());
        assert(tokens(s) == tokens(s.drop_first()));
    } else {
        lemma_word_len_bound(s);
        let n = word_len(s) as int;
        let first = s.take(n);
        let rest = tokens(s.skip(n));
        law_tokens(s.skip(n));
        assert(tokens(s) == seq![first] + rest);
        assert(is_token(first));
        assert forall|i: int| 0 <= i < tokens(s).len() implies is_token(
            #[trigger] tokens(s)[i],
        ) by {
            if i > 0 {
                assert(tokens(s)[i] == rest[i - 1]);
            }
        }
    }
}

/// The bounds of the first token of `s`.
pub fn next_token(s: &[u8]) -> (r: Option<(usize, usize)>)
    ensures
        match r {
            Some((a, b)) => {
                &&& a < b <= s@.len()
                &&& tokens(s@) == seq![s@.subrange(a as int, b as int)] + tokens(s@.skip(b as int))
            },
            None => tokens(s@) == Seq::<Seq<u8>>::empty(),
        },
{
    let n = s.len();
    let mut a: usize = 0;
    assert(s@.skip(0) =~= s@);
    while a < n && is_space_byte(s[a])
        invariant
            n == s@.len(),
            a <= n,
            tokens(s@.skip(a as int)) == tokens(s@),
        decreases n - a,
    {
        assert(s@.skip(a as int).drop_first() =~= s@.skip(a + 1));
        a += 1;
    }
    if a == n {
        return None;
    }
    let mut b: usize = a + 1;
    while b < n && !is_space_byte(s[b])
        invariant
            n == s@.len(),
            a < b <= n,
            forall|k: int| a <= k < b ==> !is_space(s@[k]),
        decreases n - b,
    {
        b += 1;
    }
    proof {
        let t = s@.skip(a as int);
        lemma_word_len(t, b - a);
        assert(t.take(b - a) =~= s@.subrange(a as int, b as int));
        assert(t.skip(b - a) =~= s@.skip(b as int));
    }
    Some((a, b))
}

/// The lines of `s`: the pieces between its line terminators.
pub open spec fn lines(s: Seq<u8>) -> Seq<Seq<u8>>
    decreases s.len(),
{
    match first_index_of(s, crlf()) {
        Some(i) => seq![s.take(i)] + lines(s.skip(i + 2)),
        None => seq![s],
    }
}

/// The first line of `s`, and what follows its terminator if it has one.
pub fn split_line(s: &[u8]) -> (r: (&[u8], Option<&[u8]>))
    ensures
        match r.1 {
            Some(rest) => lines(s@) == seq![r.0@] + lines(rest@) && rest@.len() < s@.len(),
            None => lines(s@) == seq![r.0@],
        },
{
    let n = s.len();
    let sep: [u8; 2] = [CR, LF];
    assert(sep@ =~= crlf());
    match find(s, sep.as_slice()) {
        Some(i) => {
            assert(first_at(s@, crlf(), i as int));
            assert(i + 2 <= n);
            (&s[0..i], Some(&s[i + 2..n]))
        },
        None => (s, None),
    }
}

/// Whether `s` is a token: not empty, and without whitespace.
pub open spec fn is_token(s: Seq<u8>) -> bool {
    s.len() > 0 && forall|i: int| 0 <= i < s.len() ==> !is_space(s[i])
}

/// Whether the byte `b` stands nowhere in `s`.
pub open spec fn free_of(s: Seq<u8>, b: u8) -> bool {
    forall|i: int| 0 <= i < s.len() ==> s[i] != b
}

/// A needle that follows a stretch without its first byte stands there first.
pub proof fn lemma_first_index_after(s: Seq<u8>, needle: Seq<u8>, rest: Seq<u8>)
    requires
        needle.len() > 0,
        free_of(s, needle[0]),
    ensures
        first_index_of(s + needle + rest, needle) == Some(s.len() as int),
{
    let hay = s + needle + rest;
    let k = s.len() as int;
    assert(hay.subrange(k, k + needle.len()) =~= needle);
    assert forall|j: int| 0 <= j < k implies !occurs_at(hay, needle, j) by {
        if occurs_at(hay, needle, j) {
            assert(hay.subrange(j, j + needle.len())[0] == hay[j]);
            assert(hay[j] == s[j]);
        }
    }
    lemma_first_index(hay, needle, k);
}

/// A needle stands nowhere in a stretch without its first byte.
pub proof fn lemma_no_index_in(s: Seq<u8>, needle: Seq<u8>)
    requires
        needle.len() > 0,
        free_of(s, needle[0]),
    ensures
        first_index_of(s, needle) is None,
{
    assert forall|j: int| !occurs_at(s, needle, j) by {
        if occurs_at(s, needle, j) {
            assert(s.subrange(j, j + needle.len())[0] == s[j]);
        }
    }
    lemma_no_index(s, needle);
}

/// A token that ends at whitespace, or at the end, is the first token, and
/// the other tokens are those of what follows it.
pub proof fn lemma_tokens_after(word: Seq<u8>, rest: Seq<u8>)
    requires
        is_token(word),
        rest.len() == 0 || is_space(rest[0]),
    ensures
        tokens(word + rest) == seq![word] + tokens(rest),
{
    let s = word + rest;
    let n = word.len() as int;
    assert forall|k: int| 0 <= k < n implies !is_space(s[k]) by {
        assert(s[k] == word[k]);
    }
    if rest.len() > 0 {
        assert(s[n] == rest[0]);
    }
    lemma_word_len(s, n);
    assert(s.take(n) =~= word);
    assert(s.skip(n) =~= rest);
}

/// Whitespace before the first token counts for nothing.
pub proof fn lemma_tokens_skip(b: u8, rest: Seq<u8>)
    requires
        is_space(b),
    ensures
        tokens(seq![b] + rest) == tokens(rest),
{
    let s = seq![b] + rest;
    assert(s.drop_first() =~= rest);
}

} // verus!
