//! Formatting and parsing are inverse: the text that `to_string` produces
//! parses back to the same value.
use vstd::prelude::*;
use vstd::arithmetic::div_mod::*;
use vstd::utf8::*;

use crate::grammar::{self, digits_value, first_dot, first_invalid, has_digit, is_digit, kept_digits, kept_fraction, parse_magnitude, parse_signed, parse_unsigned};
use crate::math::{self, pow10};
use crate::text::{self, digit_char, nat_text, padded_digits, strip_trailing_zeros};
use crate::decimal32::Decimal32;
use crate::udecimal32::UDecimal32;
use crate::ParseError;

verus! {

/// The bytes of an ASCII character sequence.
pub open spec fn ascii_bytes(t: Seq<char>) -> Seq<u8> {
    t.map_values(|c: char| c as u8)
}

/// Every byte of `s` is an ASCII digit.
pub open spec fn all_digits(s: Seq<u8>) -> bool {
    forall|j: int| 0 <= j < s.len() ==> is_digit(#[trigger] s[j])
}

proof fn lemma_ascii_push(t: Seq<char>, c: char)
    ensures
        ascii_bytes(t.push(c)) =~= ascii_bytes(t).push(c as u8),
{
}

proof fn lemma_ascii_concat(a: Seq<char>, b: Seq<char>)
    ensures
        ascii_bytes(a + b) =~= ascii_bytes(a) + ascii_bytes(b),
{
}

/// The digit byte of `d`.
proof fn lemma_digit_byte(d: nat)
    requires
        d < 10,
    ensures
        digit_char(d) as u8 == 48 + d,
        is_digit(digit_char(d) as u8),
        '\0' <= digit_char(d) <= '\u{7f}',
{
}

/// `dv(a + b) == dv(a) * 10^|b| + dv(b)`.
pub proof fn lemma_digits_value_concat(a: Seq<u8>, b: Seq<u8>)
    ensures
        digits_value(a + b) == digits_value(a) * pow10(b.len()) + digits_value(b),
    decreases b.len(),
{
    if b.len() == 0 {
        assert(a + b =~= a);
        assert(pow10(0) == 1);
    } else {
        let b1 = b.drop_last();
        lemma_digits_value_concat(a, b1);
        assert((a + b).drop_last() =~= a + b1);
        assert((a + b).last() == b.last());
        let x = digits_value(a) as int;
        let p = pow10(b1.len()) as int;
        let y = digits_value(b1) as int;
        let d = (b.last() - 48) as nat as int;
        assert(pow10(b.len()) == 10 * pow10(b1.len()));
        assert((x * p + y) * 10 + d == x * (10 * p) + (y * 10 + d)) by (nonlinear_arith);
    }
}

/// The text of `n` is a non-empty digit string worth `n`.
pub proof fn lemma_nat_text_value(n: nat)
    ensures
        ascii_bytes(nat_text(n)).len() >= 1,
        all_digits(ascii_bytes(nat_text(n))),
        digits_value(ascii_bytes(nat_text(n))) == n,
        is_ascii_chars(nat_text(n)),
    decreases n,
{
    if n < 10 {
        lemma_digit_byte(n);
        assert(ascii_bytes(nat_text(n)) =~= seq![(48 + n) as u8]);
        let b = seq![(48 + n) as u8];
        assert(b.drop_last() =~= Seq::<u8>::empty());
        assert(digits_value(Seq::<u8>::empty()) == 0);
        assert(digits_value(b) == digits_value(b.drop_last()) * 10 + (b.last() - 48) as nat);
    } else {
        lemma_nat_text_value(n / 10);
        lemma_digit_byte(n % 10);
        lemma_ascii_push(nat_text(n / 10), digit_char(n % 10));
        grammar::lemma_digits_value_push(ascii_bytes(nat_text(n / 10)), digit_char(n % 10) as u8);
        lemma_fundamental_div_mod(n as int, 10);
        assert(digits_value(ascii_bytes(nat_text(n))) == (n / 10) * 10 + (n % 10));
    }
}

/// The `w` padded digits of `v` form a digit string worth `v % 10^w`.
pub proof fn lemma_padded_value(v: nat, w: nat)
    ensures
        ascii_bytes(padded_digits(v, w)).len() == w,
        all_digits(ascii_bytes(padded_digits(v, w))),
        digits_value(ascii_bytes(padded_digits(v, w))) == v % pow10(w),
        is_ascii_chars(padded_digits(v, w)),
    decreases w,
{
    if w == 0 {
        assert(pow10(0) == 1);
        assert(ascii_bytes(padded_digits(v, w)) =~= Seq::<u8>::empty());
    } else {
        let m = (w - 1) as nat;
        lemma_padded_value(v / 10, m);
        lemma_digit_byte(v % 10);
        lemma_ascii_push(padded_digits(v / 10, m), digit_char(v % 10));
        grammar::lemma_digits_value_push(ascii_bytes(padded_digits(v / 10, m)), digit_char(v % 10) as u8);
        // (v / 10 % 10^m) * 10 + v % 10 == v % 10^(m+1)
        math::lemma_pow10_positive(m);
        let p = pow10(m) as int;
        assert(pow10(w) == 10 * pow10(m));
        lemma_fundamental_div_mod(v as int, 10);
        lemma_fundamental_div_mod((v / 10) as int, p);
        lemma_mod_bound((v / 10) as int, p);
        lemma_mod_bound(v as int, 10);
        let q = (v / 10) as int / p;
        let r = (v / 10) as int % p;
        assert(v as int == (10 * p) * q + (r * 10 + v as int % 10)) by (nonlinear_arith)
            requires
                v as int == 10 * (v / 10) as int + v as int % 10,
                (v / 10) as int == p * q + r,
        ;
        assert(0 <= r * 10 + v as int % 10 < 10 * p) by (nonlinear_arith)
            requires 0 <= r < p, 0 <= v as int % 10 < 10;
        lemma_fundamental_div_mod_converse(v as int, 10 * p, q, r * 10 + v as int % 10);
    }
}

/// Stripping trailing zeros from a digit string divides its value by a power
/// of ten and keeps a digit string.
pub proof fn lemma_strip_value(t: Seq<char>)
    requires
        all_digits(ascii_bytes(t)),
        is_ascii_chars(t),
    ensures
        strip_trailing_zeros(t).len() <= t.len(),
        all_digits(ascii_bytes(strip_trailing_zeros(t))),
        is_ascii_chars(strip_trailing_zeros(t)),
        digits_value(ascii_bytes(strip_trailing_zeros(t))) * pow10(
            (t.len() - strip_trailing_zeros(t).len()) as nat,
        ) == digits_value(ascii_bytes(t)),
    decreases t.len(),
{
    if t.len() > 0 && t.last() == '0' {
        let u = t.drop_last();
        assert(ascii_bytes(u) =~= ascii_bytes(t).drop_last());
        assert(all_digits(ascii_bytes(u))) by {
            assert forall|j: int| 0 <= j < ascii_bytes(u).len() implies is_digit(
                #[trigger] ascii_bytes(u)[j],
            ) by {
                assert(ascii_bytes(u)[j] == ascii_bytes(t)[j]);
            }
        }
        lemma_strip_value(u);
        let z = (t.len() - strip_trailing_zeros(t).len()) as nat;
        assert(strip_trailing_zeros(t) == strip_trailing_zeros(u));
        // dv(t) == dv(u) * 10
        assert(ascii_bytes(t) =~= ascii_bytes(u).push(48u8));
        grammar::lemma_digits_value_push(ascii_bytes(u), 48u8);
        let s = digits_value(ascii_bytes(strip_trailing_zeros(u))) as int;
        let pz = pow10((z - 1) as nat) as int;
        assert(pow10(z) == 10 * pow10((z - 1) as nat));
        assert(s * (10 * pz) == (s * pz) * 10) by (nonlinear_arith);
    } else {
        assert(pow10(0) == 1);
        assert((t.len() - strip_trailing_zeros(t).len()) as nat == 0);
        let x = digits_value(ascii_bytes(t)) as int;
        assert(x * 1 == x);
    }
}

/// The bytes after an integer digit string: nothing, or a `.` and fraction digits.
pub open spec fn fraction_tail(dotted: bool, frac: Seq<u8>) -> Seq<u8> {
    if dotted {
        seq![46u8] + frac
    } else {
        Seq::empty()
    }
}

/// Parsing `prefix + int_digits [+ "." + frac_digits]` from just after
/// `prefix` yields `int * 10^s + frac * 10^(s - |frac|)`, or `Overflow`.
pub proof fn lemma_parse_well_formed(
    prefix: Seq<u8>,
    int_digits: Seq<u8>,
    dotted: bool,
    frac: Seq<u8>,
    s: nat,
    max: nat,
)
    requires
        int_digits.len() >= 1,
        all_digits(int_digits),
        all_digits(frac),
        frac.len() <= s,
        !dotted ==> frac.len() == 0,
    ensures
        ({
            let v = digits_value(int_digits) * pow10(s) + digits_value(frac) * pow10(
                (s - frac.len()) as nat,
            );
            parse_magnitude(
                prefix + int_digits + fraction_tail(dotted, frac),
                prefix.len() as int,
                s,
                max,
            ) == if v <= max {
                Ok::<nat, ParseError>(v)
            } else {
                Err(ParseError::Overflow)
            }
        }),
{
    let b = prefix + int_digits + fraction_tail(dotted, frac);
    let start = prefix.len() as int;
    let dot_at = start + int_digits.len();
    assert forall|j: int| start <= j < dot_at implies b[j] != 46 by {
        assert(b[j] == int_digits[j - start]);
        assert(is_digit(int_digits[j - start]));
    }
    if dotted {
        assert(b[dot_at] == 46);
    }
    grammar::lemma_first_dot(b, start, dot_at);
    let dot = first_dot(b, start);
    assert(dot == dot_at);
    assert forall|j: int| start <= j < b.len() implies j == dot || is_digit(#[trigger] b[j]) by {
        if j < dot_at {
            assert(b[j] == int_digits[j - start]);
        } else if j > dot_at {
            assert(b[j] == frac[j - dot_at - 1]);
        }
    }
    grammar::lemma_first_invalid(b, dot, start, b.len() as int);
    let e = b.len() as int;
    assert(kept_fraction(b, start, e, s) =~= frac);
    assert(kept_digits(b, start, e, s) =~= int_digits + frac);
    assert(has_digit(b, start));
    lemma_digits_value_concat(int_digits, frac);
    math::lemma_pow10_add(frac.len(), (s - frac.len()) as nat);
    math::lemma_pow10_positive((s - frac.len()) as nat);
    let x = digits_value(int_digits) as int;
    let y = digits_value(frac) as int;
    let pf = pow10(frac.len()) as int;
    let pr = pow10((s - frac.len()) as nat) as int;
    assert((frac.len() + (s - frac.len()) as nat) as nat == s);
    assert((x * pf + y) * pr == x * (pf * pr) + y * pr) by (nonlinear_arith);
    assert((x * pf + y) <= (x * pf + y) * pr) by (nonlinear_arith)
        requires x >= 0, y >= 0, pf >= 0, pr >= 1;
    assert(x * pf >= 0) by (nonlinear_arith) requires x >= 0, pf >= 0;
}

/// The text `padded_decimal_text(raw, s)` that the unsigned types print parses
/// back to `raw` whenever `raw` is within the parser's limit.
pub proof fn law_padded_text_round_trip(raw: nat, s: nat, max: nat)
    requires
        raw <= max,
    ensures
        parse_unsigned(encode_utf8(text::padded_decimal_text(raw, s)), s, max) == Ok::<
            int,
            ParseError,
        >(raw as int),
{
    let t = text::padded_decimal_text(raw, s);
    let p = pow10(s);
    math::lemma_pow10_positive(s);
    lemma_nat_text_value(raw / p);
    if s == 0 {
        assert(p == 1);
        lemma_nat_text_value(raw);
        let i = ascii_bytes(nat_text(raw));
        is_ascii_chars_encode_utf8(t);
        assert(encode_utf8(t) =~= Seq::<u8>::empty() + i + fraction_tail(false, Seq::empty()));
        lemma_parse_well_formed(Seq::empty(), i, false, Seq::empty(), s, max);
        assert(digits_value(Seq::<u8>::empty()) == 0);
        assert(digits_value(i) * 1 == raw);
        let v = digits_value(i) * pow10(s) + digits_value(Seq::<u8>::empty()) * pow10(
            (s - 0) as nat,
        );
        assert(v == raw) by (nonlinear_arith)
            requires
                v == digits_value(i) * pow10(s) + 0 * pow10((s - 0) as nat),
                pow10(s) == 1,
                digits_value(i) == raw,
        ;
        assert(parse_magnitude(encode_utf8(t), 0, s, max) == Ok::<nat, ParseError>(raw));
        assert(encode_utf8(t).len() > 0);
    } else {
        lemma_padded_value(raw % p, s);
        let i = ascii_bytes(nat_text(raw / p));
        let f = ascii_bytes(padded_digits(raw % p, s));
        lemma_ascii_concat(nat_text(raw / p), seq!['.']);
        lemma_ascii_concat(nat_text(raw / p) + seq!['.'], padded_digits(raw % p, s));
        assert(is_ascii_chars(t)) by {
            assert forall|k: int| 0 <= k < t.len() implies '\0' <= #[trigger] t[k] <= '\u{7f}' by {
                let n1 = nat_text(raw / p).len() as int;
                if k < n1 {
                    assert(t[k] == nat_text(raw / p)[k]);
                } else if k > n1 {
                    assert(t[k] == padded_digits(raw % p, s)[k - n1 - 1]);
                }
            }
        }
        is_ascii_chars_encode_utf8(t);
        assert(encode_utf8(t) =~= Seq::<u8>::empty() + i + fraction_tail(true, f));
        lemma_parse_well_formed(Seq::empty(), i, true, f, s, max);
        lemma_small_mod(raw % p, p);
        lemma_mod_bound(raw as int, p as int);
        assert((s - f.len()) as nat == 0);
        assert(pow10(0) == 1);
        lemma_fundamental_div_mod(raw as int, p as int);
        assert(digits_value(i) * p + digits_value(f) * 1 == raw) by (nonlinear_arith)
            requires
                digits_value(i) == raw / p,
                digits_value(f) == raw % p,
                raw == p * (raw / p) + raw % p,
        ;
        let v = digits_value(i) * pow10(s) + digits_value(f) * pow10((s - f.len()) as nat);
        assert(v == raw) by (nonlinear_arith)
            requires
                v == digits_value(i) * pow10(s) + digits_value(f) * pow10((s - f.len()) as nat),
                pow10((s - f.len()) as nat) == 1,
                pow10(s) == p,
                digits_value(i) * p + digits_value(f) * 1 == raw,
        ;
        assert(parse_magnitude(encode_utf8(t), 0, s, max) == Ok::<nat, ParseError>(raw));
        assert(encode_utf8(t).len() > 0);
    }
}

/// The text `trimmed_decimal_text(raw, s)` that the signed types print parses
/// back to `raw` whenever `|raw|` is within the parser's limit (for `i32` this
/// excludes only `i32::MIN`, whose magnitude overflows the accumulator).
pub proof fn law_trimmed_text_round_trip(raw: int, s: nat, max: nat)
    requires
        -max <= raw <= max,
    ensures
        parse_signed(encode_utf8(text::trimmed_decimal_text(raw, s)), s, max) == Ok::<
            int,
            ParseError,
        >(raw),
{
    let t = text::trimmed_decimal_text(raw, s);
    let p = pow10(s);
    math::lemma_pow10_positive(s);
    let m: nat = math::abs(raw) as nat;
    let q = m / p;
    let frac = m % p;
    lemma_mod_bound(m as int, p as int);
    lemma_fundamental_div_mod(m as int, p as int);
    assert(frac as int == math::abs(raw) % (p as int));
    let ip = math::trunc_div(raw, p as int);
    assert(raw >= 0 ==> ip == q);
    assert(raw < 0 ==> ip == -(q as int));
    let sign: Seq<char> = if raw < 0 { seq!['-'] } else { Seq::empty() };
    let fp: Seq<char> = if frac > 0 {
        seq!['.'] + strip_trailing_zeros(padded_digits(frac, s))
    } else {
        Seq::empty()
    };
    assert(t =~= sign + nat_text(q) + fp) by {
        if raw < 0 && q == 0 {
            assert(text::int_text(ip) == nat_text(0));
        } else if raw < 0 {
            assert(text::int_text(ip) == seq!['-'] + nat_text(q));
        }
    }
    lemma_nat_text_value(q);
    lemma_padded_value(frac, s);
    lemma_strip_value(padded_digits(frac, s));
    let st = strip_trailing_zeros(padded_digits(frac, s));
    let i = ascii_bytes(nat_text(q));
    let f: Seq<u8> = if frac > 0 { ascii_bytes(st) } else { Seq::empty() };
    let pre = ascii_bytes(sign);
    lemma_ascii_concat(sign, nat_text(q));
    lemma_ascii_concat(sign + nat_text(q), fp);
    if frac > 0 {
        lemma_ascii_concat(seq!['.'], st);
    }
    assert(ascii_bytes(fp) =~= fraction_tail(frac > 0, f));
    assert(is_ascii_chars(t)) by {
        assert forall|k: int| 0 <= k < t.len() implies '\0' <= #[trigger] t[k] <= '\u{7f}' by {
            let n0 = sign.len() as int;
            let n1 = n0 + nat_text(q).len();
            if k < n0 {
            } else if k < n1 {
                assert(t[k] == nat_text(q)[k - n0]);
            } else if k > n1 {
                assert(t[k] == st[k - n1 - 1]);
            }
        }
    }
    is_ascii_chars_encode_utf8(t);
    let b = encode_utf8(t);
    assert(b =~= pre + i + fraction_tail(frac > 0, f));
    lemma_parse_well_formed(pre, i, frac > 0, f, s, max);
    // the value read back is the magnitude
    let z = (s - f.len()) as nat;
    assert(digits_value(f) * pow10(z) == frac) by {
        if frac > 0 {
            assert(digits_value(ascii_bytes(padded_digits(frac, s))) == frac % p);
            lemma_small_mod(frac, p);
            assert(padded_digits(frac, s).len() == s);
        } else {
            assert(digits_value(Seq::<u8>::empty()) == 0);
            assert(0 * pow10(z) == 0);
        }
    }
    assert(q * p + frac == m) by (nonlinear_arith)
        requires m == p * q + frac;
    let v = digits_value(i) * pow10(s) + digits_value(f) * pow10(z);
    assert(v == m) by (nonlinear_arith)
        requires
            v == digits_value(i) * pow10(s) + digits_value(f) * pow10(z),
            digits_value(i) == q,
            pow10(s) == p,
            digits_value(f) * pow10(z) == frac,
            q * p + frac == m,
    ;
    assert(pre.len() == (if raw < 0 { 1int } else { 0int }));
    assert(parse_magnitude(b, pre.len() as int, s, max) == Ok::<nat, ParseError>(m));
    assert(b.len() > 0);
    // the sign byte decides the sign
    assert(b[0] == 45 <==> raw < 0) by {
        if raw >= 0 {
            assert(b[0] == i[0]);
            assert(is_digit(i[0]));
        }
    }
    assert(b[0] == 43 ==> false) by {
        if raw >= 0 {
            assert(b[0] == i[0]);
            assert(is_digit(i[0]));
        }
    }
}

} // verus!

verus! {

/// What `Decimal32::to_string` prints, `Decimal32::parse` reads back as the
/// same value, for every value but `MIN` (whose magnitude overflows the
/// parser's accumulator): `parse` works on the bytes of the text, and those
/// are `encode_utf8` of its characters.
pub proof fn law_decimal32_print_then_parse<const S: u32>(d: Decimal32<S>)
    requires
        S <= 9,
        d@ != i32::MIN,
    ensures
        parse_signed(encode_utf8(text::trimmed_decimal_text(d@, S as nat)), S as nat, i32::MAX as nat)
            == Ok::<int, ParseError>(d@),
{
    d.lemma_view_bounds();
    law_trimmed_text_round_trip(d@, S as nat, i32::MAX as nat);
}

/// What `UDecimal32::to_string` prints, `UDecimal32::parse` reads back as the
/// same value, for every value.
pub proof fn law_udecimal32_print_then_parse<const S: u32>(u: UDecimal32<S>)
    requires
        S <= 9,
    ensures
        parse_unsigned(encode_utf8(text::padded_decimal_text(u@ as nat, S as nat)), S as nat, u32::MAX as nat)
            == Ok::<int, ParseError>(u@),
{
    u.lemma_view_bounds();
    law_padded_text_round_trip(u@ as nat, S as nat, u32::MAX as nat);
}

} // verus!
