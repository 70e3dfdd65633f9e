//! The decimal grammar `[+-]?digits[.digits]` and the outcome of parsing a
//! byte string against it, stated over sequences of bytes.
use vstd::prelude::*;

use crate::math::pow10;
use crate::ParseError;

verus! {

pub open spec fn is_digit(b: u8) -> bool {
    48 <= b <= 57
}

/// The number written by a sequence of ASCII digits (most significant first).
pub open spec fn digits_value(s: Seq<u8>) -> nat
    decreases s.len(),
{
    if s.len() == 0 {
        0
    } else {
        digits_value(s.drop_last()) * 10 + (s.last() - 48) as nat
    }
}

/// Index of the first `.` at or after `i`, or `b.len()` when there is none.
pub open spec fn first_dot(b: Seq<u8>, i: int) -> int
    decreases b.len() - i,
{
    if i >= b.len() {
        b.len() as int
    } else if b[i] == 46 {
        i
    } else {
        first_dot(b, i + 1)
    }
}

/// Index of the first byte at or after `i` that is neither a digit nor the
/// decimal point at `dot`, or `b.len()` when there is none.
pub open spec fn first_invalid(b: Seq<u8>, dot: int, i: int) -> int
    decreases b.len() - i,
{
    if i >= b.len() {
        b.len() as int
    } else if i != dot && !is_digit(b[i]) {
        i
    } else {
        first_invalid(b, dot, i + 1)
    }
}

pub open spec fn min(a: int, b: int) -> int {
    if a <= b {
        a
    } else {
        b
    }
}

/// Fractional digits of `b[start..end)` that are kept at scale `s`: the
/// first `s` digits after the decimal point; later ones are dropped.
pub open spec fn kept_fraction(b: Seq<u8>, start: int, end: int, s: nat) -> Seq<u8> {
    let dot = first_dot(b, start);
    if end > dot + 1 {
        b.subrange(dot + 1, min(end, dot + 1 + s))
    } else {
        Seq::empty()
    }
}

/// Significant digits of `b[start..end)`: the integer digits followed by the
/// kept fractional digits.
pub open spec fn kept_digits(b: Seq<u8>, start: int, end: int, s: nat) -> Seq<u8> {
    let dot = first_dot(b, start);
    b.subrange(start, min(dot, end)) + kept_fraction(b, start, end, s)
}

/// Whether `b[start..]` (free of invalid bytes) holds at least one digit.
pub open spec fn has_digit(b: Seq<u8>, start: int) -> bool {
    let dot = first_dot(b, start);
    dot > start || b.len() > dot + 1
}

/// Parse the unsigned magnitude written in `b[start..]` at scale `s`,
/// rejecting values above `max`.
///
/// Bytes are read left to right, so the first problem met wins: a value that
/// grows past `max` before the first invalid byte is an `Overflow`, otherwise
/// the first invalid byte is reported. Digits beyond the `s`-th fractional one
/// are dropped (truncation); missing ones are filled with zeros.
pub open spec fn parse_magnitude(b: Seq<u8>, start: int, s: nat, max: nat) -> Result<
    nat,
    ParseError,
> {
    let dot = first_dot(b, start);
    let e = first_invalid(b, dot, start);
    let sig = kept_digits(b, start, e, s);
    let value = digits_value(sig) * pow10((s - kept_fraction(b, start, e, s).len()) as nat);
    if digits_value(sig) > max {
        Err(ParseError::Overflow)
    } else if e < b.len() {
        Err(ParseError::InvalidChar { byte: b[e], pos: e as usize })
    } else if !has_digit(b, start) {
        Err(ParseError::Empty)
    } else if value > max {
        Err(ParseError::Overflow)
    } else {
        Ok(value)
    }
}

/// Outcome of parsing `b` as a signed decimal at scale `s` into an `i32`
/// magnitude: an optional leading `+` or `-`, then `parse_magnitude`.
pub open spec fn parse_signed(b: Seq<u8>, s: nat, max: nat) -> Result<int, ParseError> {
    if b.len() == 0 {
        Err(ParseError::Empty)
    } else {
        let signed = b[0] == 45 || b[0] == 43;
        match parse_magnitude(b, if signed { 1 } else { 0 }, s, max) {
            Ok(v) => Ok(if b[0] == 45 { -v } else { v as int }),
            Err(e) => Err(e),
        }
    }
}

/// Outcome of parsing `b` as an unsigned decimal at scale `s`: no sign is
/// accepted (a leading `+` or `-` is an invalid byte at position 0).
pub open spec fn parse_unsigned(b: Seq<u8>, s: nat, max: nat) -> Result<int, ParseError> {
    if b.len() == 0 {
        Err(ParseError::Empty)
    } else {
        match parse_magnitude(b, 0, s, max) {
            Ok(v) => Ok(v as int),
            Err(e) => Err(e),
        }
    }
}

} // verus!

verus! {

/// `first_dot` is the position of the first `.` at or after `i`.
pub proof fn lemma_first_dot(b: Seq<u8>, i: int, k: int)
    requires
        0 <= i <= k <= b.len(),
        forall|j: int| i <= j < k ==> b[j] != 46,
        k == b.len() || b[k] == 46,
    ensures
        first_dot(b, i) == k,
    decreases k - i,
{
    if i < k {
        lemma_first_dot(b, i + 1, k);
    }
}

/// Bounds of `first_dot`: every byte before it is not a `.`.
pub proof fn lemma_first_dot_bounds(b: Seq<u8>, i: int)
    requires
        0 <= i <= b.len(),
    ensures
        i <= first_dot(b, i) <= b.len(),
        forall|j: int| i <= j < first_dot(b, i) ==> b[j] != 46,
        first_dot(b, i) < b.len() ==> b[first_dot(b, i)] == 46,
    decreases b.len() - i,
{
    if i < b.len() && b[i] != 46 {
        lemma_first_dot_bounds(b, i + 1);
    }
}

/// `first_invalid` is the first position at or after `i` whose byte is
/// neither a digit nor the decimal point.
pub proof fn lemma_first_invalid(b: Seq<u8>, dot: int, i: int, k: int)
    requires
        0 <= i <= k <= b.len(),
        forall|j: int| i <= j < k ==> j == dot || is_digit(#[trigger] b[j]),
        k == b.len() || (k != dot && !is_digit(b[k])),
    ensures
        first_invalid(b, dot, i) == k,
    decreases k - i,
{
    if i < k {
        lemma_first_invalid(b, dot, i + 1, k);
    }
}

/// Everything before `first_invalid` is valid.
pub proof fn lemma_first_invalid_bounds(b: Seq<u8>, dot: int, i: int)
    requires
        0 <= i <= b.len(),
    ensures
        i <= first_invalid(b, dot, i) <= b.len(),
        forall|j: int|
            i <= j < first_invalid(b, dot, i) ==> j == dot || is_digit(#[trigger] b[j]),
    decreases b.len() - i,
{
    if i < b.len() && (i == dot || is_digit(b[i])) {
        lemma_first_invalid_bounds(b, dot, i + 1);
    }
}

/// Appending a digit multiplies by ten and adds it.
pub proof fn lemma_digits_value_push(s: Seq<u8>, d: u8)
    ensures
        digits_value(s.push(d)) == digits_value(s) * 10 + (d - 48) as nat,
{
    assert(s.push(d).drop_last() =~= s);
}

/// The value of a digit string is at least the value of any prefix of it.
pub proof fn lemma_digits_value_prefix(s: Seq<u8>, k: int)
    requires
        0 <= k <= s.len(),
        forall|j: int| 0 <= j < s.len() ==> is_digit(#[trigger] s[j]),
    ensures
        digits_value(s.take(k)) <= digits_value(s),
    decreases s.len() - k,
{
    if k < s.len() {
        let t = s.take(k + 1);
        assert(t.drop_last() =~= s.take(k));
        assert(is_digit(t.last()));
        lemma_digits_value_prefix(s, k + 1);
    } else {
        assert(s.take(k) =~= s);
    }
}

/// Kept digits of a shorter scan are a prefix of those of a longer one.
pub proof fn lemma_kept_digits_prefix(b: Seq<u8>, start: int, i: int, e: int, s: nat)
    requires
        0 <= start <= i <= e <= b.len(),
    ensures
        kept_digits(b, start, i, s) =~= kept_digits(b, start, e, s).take(
            kept_digits(b, start, i, s).len() as int,
        ),
        kept_digits(b, start, i, s).len() <= kept_digits(b, start, e, s).len(),
{
    lemma_first_dot_bounds(b, start);
}

/// Kept digits only contain digits when the scanned range is valid.
pub proof fn lemma_kept_digits_are_digits(b: Seq<u8>, start: int, e: int, s: nat)
    requires
        0 <= start <= e <= b.len(),
        forall|j: int| start <= j < e ==> j == first_dot(b, start) || is_digit(#[trigger] b[j]),
    ensures
        forall|j: int|
            0 <= j < kept_digits(b, start, e, s).len() ==> is_digit(
                #[trigger] kept_digits(b, start, e, s)[j],
            ),
{
    lemma_first_dot_bounds(b, start);
    let dot = first_dot(b, start);
    let k = kept_digits(b, start, e, s);
    assert forall|j: int| 0 <= j < k.len() implies is_digit(#[trigger] k[j]) by {
        let n_int = min(dot, e) - start;
        if j < n_int {
            assert(k[j] == b[start + j]);
        } else {
            assert(k[j] == b[dot + 1 + (j - n_int)]);
        }
    }
}

} // verus!

verus! {

/// Extra fractional digits beyond the scale are dropped: a valid decimal with
/// more than `s` fractional digits parses exactly like its prefix cut after
/// the `s`-th one (as long as that prefix still holds a digit).
pub proof fn law_extra_fraction_digits_truncated(b: Seq<u8>, start: int, s: nat, max: nat)
    requires
        0 <= start <= b.len(),
        first_invalid(b, first_dot(b, start), start) == b.len(),
        first_dot(b, start) + 1 + s < b.len(),
        s >= 1 || first_dot(b, start) > start,
    ensures
        parse_magnitude(b, start, s, max) == parse_magnitude(
            b.take(first_dot(b, start) + 1 + s),
            start,
            s,
            max,
        ),
{
    let dot = first_dot(b, start);
    let t = b.take(dot + 1 + s);
    lemma_first_dot_bounds(b, start);
    lemma_first_invalid_bounds(b, dot, start);
    assert(b[dot] == 46);
    assert forall|j: int| start <= j < dot implies t[j] != 46 by {
        assert(t[j] == b[j]);
    }
    lemma_first_dot(t, start, dot);
    assert forall|j: int| start <= j < t.len() implies j == dot || is_digit(#[trigger] t[j]) by {
        assert(t[j] == b[j]);
    }
    lemma_first_invalid(t, dot, start, t.len() as int);
    assert(kept_fraction(b, start, b.len() as int, s) =~= kept_fraction(t, start, t.len() as int, s));
    assert(kept_digits(b, start, b.len() as int, s) =~= kept_digits(t, start, t.len() as int, s));
}

} // verus!

verus! {

/// Putting one byte in front shifts the first dot by one.
proof fn lemma_first_dot_shift(c: u8, t: Seq<u8>, i: int)
    requires
        0 <= i <= t.len(),
    ensures
        first_dot(seq![c] + t, i + 1) == first_dot(t, i) + 1,
    decreases t.len() - i,
{
    let b = seq![c] + t;
    if i < t.len() {
        assert(b[i + 1] == t[i]);
        lemma_first_dot_shift(c, t, i + 1);
    }
}

/// Putting one byte in front shifts the first invalid byte by one.
proof fn lemma_first_invalid_shift(c: u8, t: Seq<u8>, dot: int, i: int)
    requires
        0 <= i <= t.len(),
    ensures
        first_invalid(seq![c] + t, dot + 1, i + 1) == first_invalid(t, dot, i) + 1,
    decreases t.len() - i,
{
    let b = seq![c] + t;
    if i < t.len() {
        assert(b[i + 1] == t[i]);
        lemma_first_invalid_shift(c, t, dot, i + 1);
    }
}

/// Reading the magnitude after a one-byte prefix gives what reading the rest
/// alone gives, an invalid byte being reported one position further on.
proof fn lemma_parse_magnitude_shift(c: u8, t: Seq<u8>, s: nat, max: nat)
    ensures
        ({
            let r = parse_magnitude(t, 0, s, max);
            let r1 = parse_magnitude(seq![c] + t, 1, s, max);
            &&& r is Ok <==> r1 is Ok
            &&& r matches Ok(v) ==> r1 == Ok::<nat, ParseError>(v)
            &&& r == Err::<nat, ParseError>(ParseError::Empty) <==> r1 == Err::<nat, ParseError>(
                ParseError::Empty,
            )
            &&& r == Err::<nat, ParseError>(ParseError::Overflow) <==> r1 == Err::<nat, ParseError>(
                ParseError::Overflow,
            )
        }),
{
    let b = seq![c] + t;
    let dot = first_dot(t, 0);
    lemma_first_dot_shift(c, t, 0);
    let e = first_invalid(t, dot, 0);
    lemma_first_invalid_shift(c, t, dot, 0);
    lemma_first_dot_bounds(t, 0);
    lemma_first_invalid_bounds(t, dot, 0);
    assert(first_dot(b, 1) == dot + 1);
    assert(first_invalid(b, dot + 1, 1) == e + 1);
    assert(kept_fraction(b, 1, e + 1, s) =~= kept_fraction(t, 0, e, s));
    assert(kept_digits(b, 1, e + 1, s) =~= kept_digits(t, 0, e, s));
    assert(has_digit(b, 1) == has_digit(t, 0));
    if e < t.len() {
        assert(b[e + 1] == t[e]);
    }
}

/// A leading `+` changes nothing and a leading `-` only negates: if the text
/// `t` (not itself starting with a sign) parses to `v`, then `+t` parses to
/// `v` and `-t` to `-v`, and `+t` and `-t` parse exactly when `t` does.
pub proof fn law_sign_prefix(t: Seq<u8>, s: nat, max: nat)
    requires
        t.len() == 0 || (t[0] != 43 && t[0] != 45),
    ensures
        parse_signed(seq![43u8] + t, s, max) is Ok <==> parse_signed(t, s, max) is Ok,
        parse_signed(seq![45u8] + t, s, max) is Ok <==> parse_signed(t, s, max) is Ok,
        parse_signed(t, s, max) matches Ok(v) ==> parse_signed(seq![43u8] + t, s, max) == Ok::<
            int,
            ParseError,
        >(v),
        parse_signed(t, s, max) matches Ok(v) ==> parse_signed(seq![45u8] + t, s, max) == Ok::<
            int,
            ParseError,
        >(-v),
{
    lemma_parse_magnitude_shift(43u8, t, s, max);
    lemma_parse_magnitude_shift(45u8, t, s, max);
    assert((seq![43u8] + t)[0] == 43u8);
    assert((seq![45u8] + t)[0] == 45u8);
    if t.len() == 0 {
        assert(parse_magnitude(t, 0, s, max) is Err) by {
            assert(first_dot(t, 0) == 0);
            assert(first_invalid(t, 0, 0) == 0);
        }
    } else {
        assert(t[0] != 43 && t[0] != 45);
    }
}

} // verus!
