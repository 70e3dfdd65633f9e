//! Parser of unsigned decimal text into `UDecimal32<S>`.
use vstd::prelude::*;
use vstd::string::*;

use crate::udecimal32::UDecimal32;
use crate::grammar::{self, digits_value, first_dot, first_invalid, is_digit, kept_digits, kept_fraction, parse_magnitude, parse_unsigned};
use crate::math::{self, pow10};
use crate::ParseError;

verus! {

const MINUS: u8 = 45;
const PLUS: u8 = 43;
const DOT: u8 = 46;
const ZERO_DIGIT: u8 = 48;

/// Parse an unsigned decimal string (`digits[.digits]`); signs are rejected and
/// extra fractional digits beyond `S` are truncated.
pub fn parse<const S: u32>(s: &str) -> (r: Result<UDecimal32<S>, ParseError>)
    ensures
        UDecimal32::<S>::view_result(r) == parse_unsigned(s.spec_bytes(), S as nat, u32::MAX as nat),
{
    parse_slice::<S>(s.as_bytes())
}

/// Parse unsigned decimal bytes; signs are rejected and extra fractional
/// digits beyond `S` are truncated.
pub fn parse_slice<const S: u32>(bytes: &[u8]) -> (r: Result<UDecimal32<S>, ParseError>)
    ensures
        UDecimal32::<S>::view_result(r) == parse_unsigned(bytes@, S as nat, u32::MAX as nat),
{
    if bytes.len() == 0 {
        return Err(ParseError::Empty);
    }
    let ghost b = bytes@;
    if bytes[0] == MINUS || bytes[0] == PLUS {
        proof {
            grammar::lemma_first_dot_bounds(b, 0);
            grammar::lemma_first_invalid(b, first_dot(b, 0), 0, 0);
            assert(kept_digits(b, 0, 0, S as nat) =~= Seq::<u8>::empty());
        }
        return Err(ParseError::InvalidChar { byte: bytes[0], pos: 0 });
    }
    let mut i: usize = 0;
    let ghost start = i as int;
    let ghost dot = first_dot(b, start);
    let ghost max: nat = u32::MAX as nat;
    proof {
        grammar::lemma_first_dot_bounds(b, start);
    }
    let mut acc: u32 = 0;
    let mut has_digits = false;

    while i < bytes.len() && bytes[i] != DOT
        invariant
            b == bytes@,
            b.len() > 0,
            start == 0,
            0 <= start <= i <= dot <= b.len(),
            dot == first_dot(b, start),
            forall|j: int| start <= j < dot ==> b[j] != 46,
            dot < b.len() ==> b[dot] == 46,
            forall|j: int| start <= j < i ==> is_digit(#[trigger] b[j]),
            acc == digits_value(kept_digits(b, start, i as int, S as nat)),
            0 <= acc,
            has_digits == (i > start),
            max == u32::MAX,
        decreases bytes.len() - i,
    {
        let d = bytes[i].wrapping_sub(ZERO_DIGIT);
        assert(d <= 9 <==> is_digit(b[i as int]));
        assert(d <= 9 ==> d == b[i as int] - 48);
        if d > 9 {
            proof {
                grammar::lemma_first_invalid(b, dot, start, i as int);
                assert(kept_digits(b, start, i as int, S as nat) =~= b.subrange(start, i as int));
            }
            return Err(ParseError::InvalidChar { byte: bytes[i], pos: i });
        }
        proof {
            assert(kept_digits(b, start, i as int, S as nat) =~= b.subrange(start, i as int));
            assert(kept_digits(b, start, i + 1, S as nat) =~= b.subrange(start, i + 1));
            assert(b.subrange(start, i + 1) =~= b.subrange(start, i as int).push(b[i as int]));
            grammar::lemma_digits_value_push(b.subrange(start, i as int), b[i as int]);
        }
        acc = match acc.checked_mul(10) {
            Some(v) => match v.checked_add(d as u32) {
                Some(w) => w,
                None => {
                    proof { crate::parse32::lemma_overflow_before_invalid(b, start, i as int, S as nat, max); }
                    return Err(ParseError::Overflow);
                },
            },
            None => {
                proof { crate::parse32::lemma_overflow_before_invalid(b, start, i as int, S as nat, max); }
                return Err(ParseError::Overflow);
            },
        };
        has_digits = true;
        i += 1;
    }
    assert(i == dot);

    let mut frac_digits: u32 = 0;
    if i < bytes.len() && bytes[i] == DOT {
        i += 1;
        while i < bytes.len()
            invariant
                b == bytes@,
                b.len() > 0,
                start == 0,
                0 <= start <= dot < i <= b.len(),
                dot == first_dot(b, start),
                forall|j: int| start <= j < i ==> j == dot || is_digit(#[trigger] b[j]),
                acc == digits_value(kept_digits(b, start, i as int, S as nat)),
                0 <= acc,
                frac_digits == kept_fraction(b, start, i as int, S as nat).len(),
                frac_digits <= S,
                has_digits == (dot > start || i > dot + 1),
                max == u32::MAX,
            decreases bytes.len() - i,
        {
            let d = bytes[i].wrapping_sub(ZERO_DIGIT);
            assert(d <= 9 <==> is_digit(b[i as int]));
            assert(d <= 9 ==> d == b[i as int] - 48);
            if d > 9 {
                proof {
                    grammar::lemma_first_invalid(b, dot, start, i as int);
                }
                return Err(ParseError::InvalidChar { byte: bytes[i], pos: i });
            }
            has_digits = true;
            if frac_digits < S {
                proof {
                    let k = kept_digits(b, start, i as int, S as nat);
                    assert(kept_digits(b, start, i + 1, S as nat) =~= k.push(b[i as int]));
                    grammar::lemma_digits_value_push(k, b[i as int]);
                }
                acc = match acc.checked_mul(10) {
                    Some(v) => match v.checked_add(d as u32) {
                        Some(w) => w,
                        None => {
                            proof { crate::parse32::lemma_overflow_before_invalid(b, start, i as int, S as nat, max); }
                            return Err(ParseError::Overflow);
                        },
                    },
                    None => {
                        proof { crate::parse32::lemma_overflow_before_invalid(b, start, i as int, S as nat, max); }
                        return Err(ParseError::Overflow);
                    },
                };
                frac_digits += 1;
            } else {
                proof {
                    assert(kept_digits(b, start, i + 1, S as nat) =~= kept_digits(b, start, i as int, S as nat));
                }
            }
            i += 1;
        }
    }
    proof {
        grammar::lemma_first_invalid(b, dot, start, b.len() as int);
        assert(i == b.len());
    }

    if !has_digits {
        return Err(ParseError::Empty);
    }

    let ghost sig = digits_value(kept_digits(b, start, b.len() as int, S as nat));
    assert(acc == sig);
    assert(pow10(0) == 1);
    assert(sig * pow10(0) == sig);
    let mut j = frac_digits;
    while j < S
        invariant
            b == bytes@,
            max == u32::MAX,
            b.len() > 0,
            start == 0,
            first_invalid(b, first_dot(b, start), start) == b.len(),
            grammar::has_digit(b, start),
            sig == digits_value(kept_digits(b, start, b.len() as int, S as nat)),
            frac_digits == kept_fraction(b, start, b.len() as int, S as nat).len(),
            sig <= max,
            frac_digits <= j <= S,
            acc == sig * pow10((j - frac_digits) as nat),
            0 <= acc,
        decreases S - j,
    {
        let ghost prev = acc;
        proof {
            assert(pow10((j + 1 - frac_digits) as nat) == 10 * pow10((j - frac_digits) as nat));
            assert(prev * 10 == sig * pow10((j + 1 - frac_digits) as nat)) by (nonlinear_arith)
                requires
                    prev == sig * pow10((j - frac_digits) as nat),
                    pow10((j + 1 - frac_digits) as nat) == 10 * pow10((j - frac_digits) as nat),
            ;
        }
        acc = match acc.checked_mul(10) {
            Some(v) => v,
            None => {
                proof {
                    math::lemma_pow10_add(((j + 1) - frac_digits) as nat, (S - (j + 1)) as nat);
                    math::lemma_pow10_positive((S - (j + 1)) as nat);
                    assert(sig * pow10((S - frac_digits) as nat) > max) by (nonlinear_arith)
                        requires
                            sig * pow10((j + 1 - frac_digits) as nat) > max,
                            pow10((S - frac_digits) as nat) == pow10((j + 1 - frac_digits) as nat) * pow10((S - (j + 1)) as nat),
                            pow10((S - (j + 1)) as nat) >= 1,
                            sig >= 0,
                    ;
                }
                return Err(ParseError::Overflow);
            },
        };
        j += 1;
    }
    Ok(UDecimal32::from_raw(acc))
}

} // verus!
