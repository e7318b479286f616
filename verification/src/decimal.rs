//! Decimal numbers written as ASCII digits.

use vstd::prelude::*;

verus! {

/// The digit zero; the other nine follow it.
pub const ZERO: u8 = 0x30;

pub open spec fn is_digit(b: u8) -> bool {
    ZERO <= b <= ZERO + 9
}

/// What a digit counts; a byte that is no digit counts nothing.
pub open spec fn digit_value(b: u8) -> nat {
    if is_digit(b) {
        (b - ZERO) as nat
    } else {
        0
    }
}

/// Whether `s` writes a number: one digit or more, and nothing else.
pub open spec fn is_number(s: Seq<u8>) -> bool {
    s.len() > 0 && forall|i: int| 0 <= i < s.len() ==> is_digit(s[i])
}

/// The number that the digits of `s` write.
pub open spec fn number(s: Seq<u8>) -> nat
    decreases s.len(),
{
    if s.len() == 0 {
        0
    } else {
        number(s.drop_last()) * 10 + digit_value(s.last())
    }
}

/// The digits that write `n`, without leading zeros.
pub open spec fn digits(n: nat) -> Seq<u8>
    decreases n,
{
    if n < 10 {
        seq![(ZERO + n) as u8]
    } else {
        digits(n / 10).push((ZERO + n % 10) as u8)
    }
}

/// Why a byte string was not read as a number.
#[derive(Clone, Copy, Debug, PartialEq, Eq)]
pub enum NumberError {
    /// It is empty, or holds a byte that is no digit.
    NotDigits,
    /// It writes a number above `usize::MAX`.
    Overflow,
}

/// What `digits` writes is a number, and it is the number written.
pub proof fn law_digits_number(n: nat)
    ensures
        is_number(digits(n)),
        number(digits(n)) == n,
    decreases n,
{
    if n < 10 {
        assert(digits(n).drop_last() =~= Seq::<u8>::empty());
        assert(number(digits(n).drop_last()) == 0);
    } else {
        law_digits_number(n / 10);
        let d = digits(n / 10);
        let b = (ZERO + n % 10) as u8;
        assert(d.push(b).drop_last() =~= d);
    }
}

/// A longer string of digits writes no smaller number than its prefix.
pub proof fn lemma_number_prefix(s: Seq<u8>, k: int)
    requires
        0 <= k <= s.len(),
    ensures
        number(s.take(k)) <= number(s),
    decreases s.len() - k,
{
    if k < s.len() {
        lemma_number_prefix(s, k + 1);
        assert(s.take(k + 1).drop_last() =~= s.take(k));
    } else {
        assert(s.take(k) =~= s);
    }
}

/// Whether `s` is one digit or more and nothing else.
pub fn all_digits(s: &[u8]) -> (r: bool)
    ensures
        r == is_number(s@),
{
    let n = s.len();
    if n == 0 {
        return false;
    }
    let mut i: usize = 0;
    while i < n
        invariant
            n == s@.len(),
            i <= n,
            forall|j: int| 0 <= j < i ==> is_digit(s@[j]),
        decreases n - i,
    {
        if s[i] < ZERO || s[i] > ZERO + 9 {
            return false;
        }
        i += 1;
    }
    true
}

/// Reads `s` as a decimal number.
pub fn parse_number(s: &[u8]) -> (r: Result<usize, NumberError>)
    ensures
        match r {
            Ok(n) => is_number(s@) && number(s@) == n,
            Err(NumberError::NotDigits) => !is_number(s@),
            Err(NumberError::Overflow) => is_number(s@) && number(s@) > usize::MAX,
        },
{
    if !all_digits(s) {
        return Err(NumberError::NotDigits);
    }
    let n = s.len();
    let mut acc: usize = 0;
    let mut i: usize = 0;
    assert(s@.take(0) =~= Seq::<u8>::empty());
    while i < n
        invariant
            n == s@.len(),
            i <= n,
            is_number(s@),
            acc == number(s@.take(i as int)),
        decreases n - i,
    {
        let d = (s[i] - ZERO) as usize;
        proof {
            assert(s@.take(i + 1).drop_last() =~= s@.take(i as int));
            assert(number(s@.take(i + 1)) == acc * 10 + d);
            lemma_number_prefix(s@, i + 1);
        }
        let next = match acc.checked_mul(10) {
            Some(m) => m.checked_add(d),
            None => None,
        };
        match next {
            Some(v) => {
                acc = v;
            },
            None => {
                return Err(NumberError::Overflow);
            },
        }
        i += 1;
    }
    assert(s@.take(n as int) =~= s@);
    Ok(acc)
}

/// Appends the digits of `n` to `out`.
pub fn push_number(out: &mut Vec<u8>, n: usize)
    ensures
        final(out)@ == old(out)@ + digits(n as nat),
    decreases n,
{
    if n >= 10 {
        push_number(out, n / 10);
    }
    out.push(ZERO + (n % 10) as u8);
}

} // verus!
