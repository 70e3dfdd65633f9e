//! Parser of signed decimal text into `Decimal32<S>`.
use vstd::prelude::*;
use vstd::string::*;

use crate::decimal32::Decimal32;
use crate::grammar::{self, digits_value, first_dot, first_invalid, is_digit, kept_digits, kept_fraction, parse_magnitude, parse_signed};
use crate::math::{self, pow10};
use crate::ParseError;

verus! {

const MINUS: u8 = 45;
const PLUS: u8 = 43;
const DOT: u8 = 46;
const ZERO_DIGIT: u8 = 48;

/// Parse a signed decimal string (`[+-]?digits[.digits]`); extra fractional
/// digits beyond `S` are truncated.
pub fn parse<const S: u32>(s: &str) -> (r: Result<Decimal32<S>, ParseError>)
    ensures
        Decimal32::<S>::view_result(r) == parse_signed(s.spec_bytes(), S as nat, i32::MAX as nat),
{
    parse_slice::<S>(s.as_bytes())
}

/// Parse signed decimal bytes; extra fractional digits beyond `S` are truncated.
pub fn parse_slice<const S: u32>(bytes: &[u8]) -> (r: Result<Decimal32<S>, ParseError>)
    ensures
        Decimal32::<S>::view_result(r) == parse_signed(bytes@, S as nat, i32::MAX as nat),
{
    if bytes.len() == 0 {
        return Err(ParseError::Empty);
    }
    let ghost b = bytes@;
    let mut i: usize = 0;
    let negative = if bytes[0] == MINUS {
        i += 1;
        true
    } else if bytes[0] == PLUS {
        i += 1;
        false
    } else {
        false
    };
    let ghost start = i as int;
    let ghost dot = first_dot(b, start);
    let ghost max: nat = i32::MAX as nat;
    proof {
        grammar::lemma_first_dot_bounds(b, start);
    }
    let mut acc: i32 = 0;
    let mut has_digits = false;

    while i < bytes.len() && bytes[i] != DOT
        invariant
            b == bytes@,
            b.len() > 0,
            start == (if b[0] == 45 || b[0] == 43 { 1int } else { 0int }),
            negative == (b[0] == 45),
            0 <= start <= i <= dot <= b.len(),
            dot == first_dot(b, start),
            forall|j: int| start <= j < dot ==> b[j] != 46,
            dot < b.len() ==> b[dot] == 46,
            forall|j: int| start <= j < i ==> is_digit(#[trigger] b[j]),
            acc == digits_value(kept_digits(b, start, i as int, S as nat)),
            0 <= acc,
            has_digits == (i > start),
            max == i32::MAX,
        decreases bytes.len() - i,
    {
        let d = bytes[i].wrapping_sub(ZERO_DIGIT);
        assert(d <= 9 <==> is_digit(b[i as int]));
        assert(d <= 9 ==> d == b[i as int] - 48);
        if d > 9 {
            proof {
                grammar::lemma_first_invalid(b, dot, start, i as int);
                assert(kept_digits(b, start, i as int, S as nat) =~= b.subrange(start, i as int));
            }
            return Err(ParseError::InvalidChar { byte: bytes[i], pos: i });
        }
        proof {
            assert(kept_digits(b, start, i as int, S as nat) =~= b.subrange(start, i as int));
            assert(kept_digits(b, start, i + 1, S as nat) =~= b.subrange(start, i + 1));
            assert(b.subrange(start, i + 1) =~= b.subrange(start, i as int).push(b[i as int]));
            grammar::lemma_digits_value_push(b.subrange(start, i as int), b[i as int]);
        }
        acc = match acc.checked_mul(10) {
            Some(v) => match v.checked_add(d as i32) {
                Some(w) => w,
                None => {
                    proof { lemma_overflow_before_invalid(b, start, i as int, S as nat, max); }
                    return Err(ParseError::Overflow);
                },
            },
            None => {
                proof { lemma_overflow_before_invalid(b, start, i as int, S as nat, max); }
                return Err(ParseError::Overflow);
            },
        };
        has_digits = true;
        i += 1;
    }
    assert(i == dot);

    let mut frac_digits: u32 = 0;
    if i < bytes.len() && bytes[i] == DOT {
        i += 1;
        while i < bytes.len()
            invariant
                b == bytes@,
                b.len() > 0,
                start == (if b[0] == 45 || b[0] == 43 { 1int } else { 0int }),
                negative == (b[0] == 45),
                0 <= start <= dot < i <= b.len(),
                dot == first_dot(b, start),
                forall|j: int| start <= j < i ==> j == dot || is_digit(#[trigger] b[j]),
                acc == digits_value(kept_digits(b, start, i as int, S as nat)),
                0 <= acc,
                frac_digits == kept_fraction(b, start, i as int, S as nat).len(),
                frac_digits <= S,
                has_digits == (dot > start || i > dot + 1),
                max == i32::MAX,
            decreases bytes.len() - i,
        {
            let d = bytes[i].wrapping_sub(ZERO_DIGIT);
            assert(d <= 9 <==> is_digit(b[i as int]));
            assert(d <= 9 ==> d == b[i as int] - 48);
            if d > 9 {
                proof {
                    grammar::lemma_first_invalid(b, dot, start, i as int);
                }
                return Err(ParseError::InvalidChar { byte: bytes[i], pos: i });
            }
            has_digits = true;
            if frac_digits < S {
                proof {
                    let k = kept_digits(b, start, i as int, S as nat);
                    assert(kept_digits(b, start, i + 1, S as nat) =~= k.push(b[i as int]));
                    grammar::lemma_digits_value_push(k, b[i as int]);
                }
                acc = match acc.checked_mul(10) {
                    Some(v) => match v.checked_add(d as i32) {
                        Some(w) => w,
                        None => {
                            proof { lemma_overflow_before_invalid(b, start, i as int, S as nat, max); }
                            return Err(ParseError::Overflow);
                        },
                    },
                    None => {
                        proof { lemma_overflow_before_invalid(b, start, i as int, S as nat, max); }
                        return Err(ParseError::Overflow);
                    },
                };
                frac_digits += 1;
            } else {
                proof {
                    assert(kept_digits(b, start, i + 1, S as nat) =~= kept_digits(b, start, i as int, S as nat));
                }
            }
            i += 1;
        }
    }
    proof {
        grammar::lemma_first_invalid(b, dot, start, b.len() as int);
        assert(i == b.len());
    }

    if !has_digits {
        return Err(ParseError::Empty);
    }

    let ghost sig = digits_value(kept_digits(b, start, b.len() as int, S as nat));
    assert(acc == sig);
    assert(pow10(0) == 1);
    assert(sig * pow10(0) == sig);
    let mut j = frac_digits;
    while j < S
        invariant
            b == bytes@,
            max == i32::MAX,
            b.len() > 0,
            start == (if b[0] == 45 || b[0] == 43 { 1int } else { 0int }),
            negative == (b[0] == 45),
            first_invalid(b, first_dot(b, start), start) == b.len(),
            grammar::has_digit(b, start),
            sig == digits_value(kept_digits(b, start, b.len() as int, S as nat)),
            frac_digits == kept_fraction(b, start, b.len() as int, S as nat).len(),
            sig <= max,
            frac_digits <= j <= S,
            acc == sig * pow10((j - frac_digits) as nat),
            0 <= acc,
        decreases S - j,
    {
        let ghost prev = acc;
        proof {
            assert(pow10((j + 1 - frac_digits) as nat) == 10 * pow10((j - frac_digits) as nat));
            assert(prev * 10 == sig * pow10((j + 1 - frac_digits) as nat)) by (nonlinear_arith)
                requires
                    prev == sig * pow10((j - frac_digits) as nat),
                    pow10((j + 1 - frac_digits) as nat) == 10 * pow10((j - frac_digits) as nat),
            ;
        }
        acc = match acc.checked_mul(10) {
            Some(v) => v,
            None => {
                proof {
                    math::lemma_pow10_add(((j + 1) - frac_digits) as nat, (S - (j + 1)) as nat);
                    math::lemma_pow10_positive((S - (j + 1)) as nat);
                    assert(sig * pow10((S - frac_digits) as nat) > max) by (nonlinear_arith)
                        requires
                            sig * pow10((j + 1 - frac_digits) as nat) > max,
                            pow10((S - frac_digits) as nat) == pow10((j + 1 - frac_digits) as nat) * pow10((S - (j + 1)) as nat),
                            pow10((S - (j + 1)) as nat) >= 1,
                            sig >= 0,
                    ;
                }
                return Err(ParseError::Overflow);
            },
        };
        j += 1;
    }
    Ok(Decimal32::from_raw(if negative { -acc } else { acc }))
}

/// An accumulator overflow at digit `i` means the significant digits read
/// before the first invalid byte already exceed `max`.
pub(crate) proof fn lemma_overflow_before_invalid(b: Seq<u8>, start: int, i: int, s: nat, max: nat)
    requires
        0 <= start <= i < b.len(),
        forall|j: int| start <= j <= i ==> j == first_dot(b, start) || is_digit(#[trigger] b[j]),
        digits_value(kept_digits(b, start, i + 1, s)) > max,
    ensures
        digits_value(kept_digits(b, start, first_invalid(b, first_dot(b, start), start), s)) > max,
{
    let dot = first_dot(b, start);
    let e = first_invalid(b, dot, start);
    grammar::lemma_first_invalid_bounds(b, dot, start);
    if e <= i {
        assert(e == dot || is_digit(b[e]));
        grammar::lemma_first_invalid_bounds(b, dot, start);
        // first_invalid stops on an invalid byte
        assert(false) by {
            lemma_first_invalid_stops(b, dot, start);
        }
    }
    grammar::lemma_kept_digits_prefix(b, start, i + 1, e, s);
    grammar::lemma_first_invalid_bounds(b, dot, start);
    grammar::lemma_kept_digits_are_digits(b, start, e, s);
    grammar::lemma_digits_value_prefix(
        kept_digits(b, start, e, s),
        kept_digits(b, start, i + 1, s).len() as int,
    );
}

proof fn lemma_first_invalid_stops(b: Seq<u8>, dot: int, i: int)
    requires
        0 <= i <= b.len(),
    ensures
        first_invalid(b, dot, i) < b.len() ==> first_invalid(b, dot, i) != dot && !is_digit(
            b[first_invalid(b, dot, i)],
        ),
    decreases b.len() - i,
{
    if i < b.len() && (i == dot || is_digit(b[i])) {
        lemma_first_invalid_stops(b, dot, i + 1);
    }
}

} // verus!
