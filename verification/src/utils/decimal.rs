//! Decimal text: how integers are written on the wire and how they are read back.

use vstd::prelude::*;

verus! {

/// ASCII `'0'`.
pub const ZERO: u8 = 48;

/// ASCII `'+'`.
pub const PLUS: u8 = 43;

/// ASCII `'-'`.
pub const MINUS: u8 = 45;

/// Whether `b` is one of the ASCII digits `'0'..='9'`.
pub open spec fn is_digit(b: u8) -> bool {
    48 <= b <= 57
}

/// Whether every byte of `s` is an ASCII digit.
pub open spec fn all_digits(s: Seq<u8>) -> bool {
    forall|i: int| 0 <= i < s.len() ==> is_digit(#[trigger] s[i])
}

/// The decimal digits of `n`, most significant first, without leading zeros.
pub open spec fn digits(n: nat) -> Seq<u8>
    decreases n,
{
    if n < 10 {
        seq![(48 + n) as u8]
    } else {
        digits(n / 10).push((48 + n % 10) as u8)
    }
}

/// The decimal text of `v`: a `'-'` in front of the digits of a negative number.
pub open spec fn signed_digits(v: int) -> Seq<u8> {
    if v < 0 {
        seq![45u8] + digits((-v) as nat)
    } else {
        digits(v as nat)
    }
}

/// The number that a string of digits denotes; 0 for the empty string.
pub open spec fn value_of(s: Seq<u8>) -> nat
    decreases s.len(),
{
    if s.len() == 0 {
        0
    } else {
        value_of(s.drop_last()) * 10 + (s.last() - 48) as nat
    }
}

/// The length of the longest prefix of `s` that consists of digits.
pub open spec fn digit_run(s: Seq<u8>) -> nat
    decreases s.len(),
{
    if s.len() > 0 && is_digit(s[0]) {
        1 + digit_run(s.drop_first())
    } else {
        0
    }
}

/// Whether `s` starts with `'+'` or `'-'`.
pub open spec fn has_sign(s: Seq<u8>) -> bool {
    s.len() > 0 && (s[0] == 43 || s[0] == 45)
}

/// Whether `s` starts with `'-'`.
pub open spec fn has_minus(s: Seq<u8>) -> bool {
    s.len() > 0 && s[0] == 45
}

/// What follows the sign of `s`, or all of `s` where it has none.
pub open spec fn unsigned_part(s: Seq<u8>) -> Seq<u8> {
    if has_sign(s) {
        s.drop_first()
    } else {
        s
    }
}

/// The number denoted by the digits with which `unsigned_part(s)` starts.
pub open spec fn leading_magnitude(s: Seq<u8>) -> nat {
    let body = unsigned_part(s);
    value_of(body.take(digit_run(body) as int))
}

/// Lenient reading of an unsigned number: an optional sign, then the longest run of
/// digits; whatever follows is ignored. Nothing is read from a text with neither sign
/// nor digit, from a magnitude above `u64::MAX`, or from a negative number other than zero.
pub open spec fn lenient_u64(s: Seq<u8>) -> Option<u64> {
    let magnitude = leading_magnitude(s);
    if !has_sign(s) && digit_run(s) == 0 {
        None
    } else if has_minus(s) {
        if magnitude == 0 {
            Some(0u64)
        } else {
            None
        }
    } else if magnitude <= u64::MAX {
        Some(magnitude as u64)
    } else {
        None
    }
}

/// Lenient reading of a signed number: an optional sign, then the longest run of digits;
/// whatever follows is ignored. Nothing is read from a text with neither sign nor digit,
/// or from a number outside the range of `i64`.
pub open spec fn lenient_i64(s: Seq<u8>) -> Option<i64> {
    let magnitude = leading_magnitude(s);
    let v: int = if has_minus(s) {
        -magnitude
    } else {
        magnitude as int
    };
    if !has_sign(s) && digit_run(s) == 0 {
        None
    } else if i64::MIN <= v <= i64::MAX {
        Some(v as i64)
    } else {
        None
    }
}

/// Strict reading of a signed number: an optional sign followed by one or more digits
/// and nothing else, denoting a number in the range of `i64`.
pub open spec fn strict_i64(s: Seq<u8>) -> Option<i64> {
    let body = unsigned_part(s);
    let v: int = if has_minus(s) {
        -value_of(body)
    } else {
        value_of(body) as int
    };
    if body.len() > 0 && all_digits(body) && i64::MIN <= v <= i64::MAX {
        Some(v as i64)
    } else {
        None
    }
}

/// `atoi::atoi::<u64>` reads an optional sign and then digits for as long as there are
/// any, and ignores the rest of the text. It returns `None` where it consumed nothing,
/// where the digits exceed `u64::MAX`, and where a `'-'` is followed by a digit other
/// than zero.
#[verifier::external_body]
pub(crate) fn atoi_u64(text: &[u8]) -> (r: Option<u64>)
    ensures
        r == lenient_u64(text@),
{
    atoi::atoi::<u64>(text)
}

/// `atoi::atoi::<i64>` reads an optional sign and then digits for as long as there are
/// any, and ignores the rest of the text. It returns `None` where it consumed nothing
/// and where the number leaves the range of `i64`.
#[verifier::external_body]
pub(crate) fn atoi_i64(text: &[u8]) -> (r: Option<i64>)
    ensures
        r == lenient_i64(text@),
{
    atoi::atoi::<i64>(text)
}

/// Every byte of `digits(n)` is a digit, and there is at least one.
pub proof fn lemma_digits_shape(n: nat)
    ensures
        digits(n).len() >= 1,
        all_digits(digits(n)),
    decreases n,
{
    if n >= 10 {
        lemma_digits_shape(n / 10);
    }
}

/// Reading the digits of a number gives the number back.
pub proof fn lemma_value_of_digits(n: nat)
    ensures
        value_of(digits(n)) == n,
    decreases n,
{
    let s = digits(n);
    if n < 10 {
        assert(value_of(s.drop_last()) == 0);
    } else {
        lemma_value_of_digits(n / 10);
        assert(s.drop_last() =~= digits(n / 10));
    }
}

/// A run of digits that ends at the end of the text, or at a byte that is no digit,
/// is the longest one.
pub proof fn lemma_digit_run(s: Seq<u8>, rest: Seq<u8>)
    requires
        all_digits(s),
        rest.len() == 0 || !is_digit(rest[0]),
    ensures
        digit_run(s + rest) == s.len(),
        (s + rest).take(s.len() as int) == s,
    decreases s.len(),
{
    if s.len() == 0 {
    } else {
        assert((s + rest).drop_first() =~= s.drop_first() + rest);
        lemma_digit_run(s.drop_first(), rest);
    }
}

/// The lenient reader gives back a number written by `digits`, whatever non-digit follows.
pub proof fn lemma_lenient_u64_reads_digits(n: nat, rest: Seq<u8>)
    requires
        n <= u64::MAX,
        rest.len() == 0 || !is_digit(rest[0]),
    ensures
        lenient_u64(digits(n) + rest) == Some(n as u64),
{
    let s = digits(n) + rest;
    lemma_digits_shape(n);
    lemma_value_of_digits(n);
    lemma_digit_run(digits(n), rest);
}

/// The lenient reader gives back a number written by `signed_digits`, whatever
/// non-digit follows.
pub proof fn lemma_lenient_i64_reads_digits(v: int, rest: Seq<u8>)
    requires
        i64::MIN <= v <= i64::MAX,
        rest.len() == 0 || !is_digit(rest[0]),
    ensures
        lenient_i64(signed_digits(v) + rest) == Some(v as i64),
{
    let s = signed_digits(v) + rest;
    if v < 0 {
        let m = (-v) as nat;
        lemma_digits_shape(m);
        lemma_value_of_digits(m);
        lemma_digit_run(digits(m), rest);
        assert(s.drop_first() =~= digits(m) + rest);
    } else {
        let m = v as nat;
        lemma_digits_shape(m);
        lemma_value_of_digits(m);
        lemma_digit_run(digits(m), rest);
    }
}

/// The strict reader gives back a number written by `signed_digits`.
pub proof fn lemma_strict_i64_reads_digits(v: int)
    requires
        i64::MIN <= v <= i64::MAX,
    ensures
        strict_i64(signed_digits(v)) == Some(v as i64),
{
    let s = signed_digits(v);
    if v < 0 {
        let m = (-v) as nat;
        lemma_digits_shape(m);
        lemma_value_of_digits(m);
        assert(s.drop_first() =~= digits(m));
    } else {
        let m = v as nat;
        lemma_digits_shape(m);
        lemma_value_of_digits(m);
    }
}

/// Appends the decimal digits of `n` to `out`.
pub fn push_digits(n: u64, out: &mut Vec<u8>)
    ensures
        final(out)@ == old(out)@ + digits(n as nat),
    decreases n,
{
    if n >= 10 {
        push_digits(n / 10, out);
    }
    let d: u8 = (n % 10) as u8;
    out.push(48 + d);
}

/// Appends the decimal text of `v` to `out`.
pub fn push_signed_digits(v: i64, out: &mut Vec<u8>)
    ensures
        final(out)@ == old(out)@ + signed_digits(v as int),
{
    if v < 0 {
        out.push(MINUS);
        let magnitude: u64 = if v == i64::MIN {
            9223372036854775808u64
        } else {
            (-v) as u64
        };
        push_digits(magnitude, out);
    } else {
        push_digits(v as u64, out);
    }
}

/// The decimal text of `n`.
pub fn format_u64(n: u64) -> (text: Vec<u8>)
    ensures
        text@ == digits(n as nat),
{
    let mut text: Vec<u8> = Vec::new();
    push_digits(n, &mut text);
    text
}

/// The decimal text of `v`.
pub fn format_i64(v: i64) -> (text: Vec<u8>)
    ensures
        text@ == signed_digits(v as int),
{
    let mut text: Vec<u8> = Vec::new();
    push_signed_digits(v, &mut text);
    text
}

} // verus!
