//! Decimal text: the character sequences that the formatting methods produce,
//! and the verified routines that build them.
use vstd::prelude::*;
use vstd::string::*;

use vstd::arithmetic::div_mod::*;

use crate::math::{self, pow10};

verus! {

/// The ASCII character of decimal digit `d` (`d < 10`).
pub open spec fn digit_char(d: nat) -> char {
    (48 + d) as char
}

/// Decimal text of a natural number, most significant digit first, no
/// leading zeros (`"0"` for zero).
pub open spec fn nat_text(n: nat) -> Seq<char>
    decreases n,
{
    if n < 10 {
        seq![digit_char(n)]
    } else {
        nat_text(n / 10).push(digit_char(n % 10))
    }
}

/// Decimal text of an integer: a `-` in front of negative values.
pub open spec fn int_text(n: int) -> Seq<char> {
    if n < 0 {
        seq!['-'] + nat_text((-n) as nat)
    } else {
        nat_text(n as nat)
    }
}

/// The lowest `w` decimal digits of `v`, zero-padded on the left to exactly
/// `w` characters.
pub open spec fn padded_digits(v: nat, w: nat) -> Seq<char>
    decreases w,
{
    if w == 0 {
        Seq::empty()
    } else {
        padded_digits(v / 10, (w - 1) as nat).push(digit_char(v % 10))
    }
}

/// `s` without its trailing `'0'` characters.
pub open spec fn strip_trailing_zeros(s: Seq<char>) -> Seq<char>
    decreases s.len(),
{
    if s.len() > 0 && s.last() == '0' {
        strip_trailing_zeros(s.drop_last())
    } else {
        s
    }
}

/// Text of a fixed-scale signed value: the integer part, then, when the
/// fraction is non-zero, a `.` and the `s` fractional digits with trailing
/// zeros removed. A value in `(-1, 0)` keeps its `-` sign.
pub open spec fn trimmed_decimal_text(raw: int, s: nat) -> Seq<char> {
    let scale = pow10(s) as int;
    let ip = math::trunc_div(raw, scale);
    let frac = (math::abs(raw) % scale) as nat;
    (if raw < 0 && ip == 0 {
        seq!['-']
    } else {
        Seq::empty()
    }) + int_text(ip) + (if frac > 0 {
        seq!['.'] + strip_trailing_zeros(padded_digits(frac, s))
    } else {
        Seq::empty()
    })
}

/// Text of a fixed-scale unsigned value: the integer part, then, for a
/// non-zero scale, a `.` and exactly `s` fractional digits.
pub open spec fn padded_decimal_text(raw: nat, s: nat) -> Seq<char> {
    if s == 0 {
        nat_text(raw)
    } else {
        nat_text(raw / pow10(s)) + seq!['.'] + padded_digits(raw % pow10(s), s)
    }
}

/// Calls `itoa::Buffer::format` on an `i64`, which writes its decimal
/// representation (a `-` in front of negative values, no leading zeros).
/// The contract claims the returned text is exactly `int_text(n)`.
#[verifier::external_body]
pub(crate) fn itoa_format(n: i64) -> (text: String)
    ensures
        text@ == int_text(n as int),
{
    let mut buffer = itoa::Buffer::new();
    String::from(buffer.format(n))
}

/// The one-character string of digit `d`.
pub(crate) fn digit_str(d: u64) -> (s: &'static str)
    requires
        d < 10,
    ensures
        s@ == seq![digit_char(d as nat)],
{
    proof {
        reveal_strlit("0");
        reveal_strlit("1");
        reveal_strlit("2");
        reveal_strlit("3");
        reveal_strlit("4");
        reveal_strlit("5");
        reveal_strlit("6");
        reveal_strlit("7");
        reveal_strlit("8");
        reveal_strlit("9");
    }
    match d {
        0 => "0",
        1 => "1",
        2 => "2",
        3 => "3",
        4 => "4",
        5 => "5",
        6 => "6",
        7 => "7",
        8 => "8",
        _ => "9",
    }
}

/// Appends the decimal text of `n` to `out`.
pub(crate) fn append_nat(out: &mut String, n: u64)
    ensures
        final(out)@ == old(out)@ + nat_text(n as nat),
    decreases n,
{
    if n >= 10 {
        append_nat(out, n / 10);
    }
    out.append(digit_str(n % 10));
    proof {
        assert(old(out)@ + nat_text(n as nat) =~= out@);
    }
}

/// Appends the `w`-digit zero-padded text of `v` (its lowest `w` digits).
pub(crate) fn append_padded(out: &mut String, v: u64, w: u32)
    ensures
        final(out)@ == old(out)@ + padded_digits(v as nat, w as nat),
    decreases w,
{
    if w > 0 {
        append_padded(out, v / 10, w - 1);
        out.append(digit_str(v % 10));
        proof {
            assert(old(out)@ + padded_digits(v as nat, w as nat) =~= out@);
        }
    } else {
        proof {
            assert(old(out)@ + padded_digits(v as nat, w as nat) =~= out@);
        }
    }
}

/// `j` zero characters.
pub open spec fn zeros(j: nat) -> Seq<char> {
    Seq::new(j, |i: int| '0')
}

/// Digit extraction: `(x % 10^(m+1)) / 10^m` is the digit of `x` at `10^m`,
/// and reducing modulo `10^m` afterwards leaves `x % 10^m`.
pub proof fn lemma_digit_at(x: nat, m: nat)
    ensures
        (x % pow10(m + 1)) / pow10(m) == (x / pow10(m)) % 10,
        (x % pow10(m + 1)) % pow10(m) == x % pow10(m),
        (x / pow10(m)) / 10 == x / pow10(m + 1),
{
    let p = pow10(m) as int;
    math::lemma_pow10_positive(m);
    assert(pow10(m + 1) == 10 * pow10(m));
    lemma_mod_mod(x as int, p, 10);
    assert(p * 10 == 10 * p) by (nonlinear_arith);
    lemma_div_denominator(x as int, p, 10);
    // x = q * (10p) + r with r = x % (10p); then r / p = (x / p) % 10
    let q = x as int / (10 * p);
    let r = x as int % (10 * p);
    lemma_fundamental_div_mod(x as int, 10 * p);
    lemma_mod_bound(x as int, 10 * p);
    lemma_fundamental_div_mod(r, p);
    lemma_mod_bound(r, p);
    let d = r / p;
    let t = r % p;
    assert(0 <= d < 10) by {
        lemma_div_pos_is_pos(r, p);
        if d >= 10 {
            assert(r >= p * d) by (nonlinear_arith) requires r == p * d + t, t >= 0;
            assert(p * d >= p * 10) by (nonlinear_arith) requires d >= 10, p > 0;
        }
    }
    assert(x as int == p * (10 * q + d) + t) by (nonlinear_arith)
        requires
            x as int == (10 * p) * q + r,
            r == p * d + t,
    ;
    lemma_fundamental_div_mod_converse(x as int, p, 10 * q + d, t);
    assert(x as int / p == 10 * q + d);
    lemma_fundamental_div_mod_converse(10 * q + d, 10, q, d);
    assert(10 * q + d == q * 10 + d);
}

/// A value divisible by `10^j` ends in `j` zero digits.
pub proof fn lemma_padded_trailing_zeros(v: nat, w: nat, j: nat)
    requires
        j <= w,
        v % pow10(j) == 0,
    ensures
        padded_digits(v, w) =~= padded_digits(v / pow10(j), (w - j) as nat) + zeros(j),
    decreases j,
{
    if j == 0 {
        assert(pow10(0) == 1);
        assert(v / pow10(0) == v);
    } else {
        let m = (j - 1) as nat;
        lemma_digit_at(v, m);
        math::lemma_pow10_positive(m);
        // v % 10^j == 0 gives v % 10 == 0 and (v / 10) % 10^(j-1) == 0
        lemma_digit_at(v, 0);
        assert(pow10(0) == 1 && pow10(1) == 10) by {
            math::lemma_pow10_values();
        }
        assert(v % 10 == 0) by {
            lemma_mod_mod(v as int, 10, pow10(m) as int);
            math::lemma_pow10_add(1, m);
            assert(pow10(j) == 10 * pow10(m));
        }
        let u = v / 10;
        assert(u % pow10(m) == 0) by {
            math::lemma_pow10_add(1, m);
            lemma_fundamental_div_mod(v as int, 10);
            assert(v as int == 10 * u);
            assert(pow10(j) == 10 * pow10(m));
            lemma_fundamental_div_mod(u as int, pow10(m) as int);
            let q2 = u as int / pow10(m) as int;
            let r2 = u as int % pow10(m) as int;
            lemma_mod_bound(u as int, pow10(m) as int);
            assert(v as int == (10 * pow10(m)) * q2 + 10 * r2) by (nonlinear_arith)
                requires v as int == 10 * u, u as int == pow10(m) * q2 + r2;
            assert(0 <= 10 * r2 < 10 * pow10(m));
            lemma_fundamental_div_mod_converse(v as int, 10 * pow10(m) as int, q2, 10 * r2);
        }
        lemma_padded_trailing_zeros(u, (w - 1) as nat, m);
        lemma_div_denominator(v as int, 10, pow10(m) as int);
        math::lemma_pow10_add(1, m);
        assert(u / pow10(m) == v / pow10(j));
        assert(digit_char(v % 10) == '0');
        assert(zeros(m).push('0') =~= zeros(j));
    }
}

/// Stripping trailing zeros ignores appended zeros and keeps a string whose
/// last character is not `'0'`.
pub proof fn lemma_strip_zeros(p: Seq<char>, j: nat)
    ensures
        strip_trailing_zeros(p + zeros(j)) == strip_trailing_zeros(p),
    decreases j,
{
    if j > 0 {
        let q = p + zeros(j);
        assert(q.last() == '0');
        assert(q.drop_last() =~= p + zeros((j - 1) as nat));
        lemma_strip_zeros(p, (j - 1) as nat);
    } else {
        assert(p + zeros(0) =~= p);
    }
}

/// Appends, when `frac` is non-zero, a `.` and the `s`-digit zero-padded text
/// of `frac` with its trailing zeros removed; appends nothing for zero.
pub(crate) fn append_fraction_trimmed(out: &mut String, frac: u64, scale: u64, s: u32)
    requires
        s <= 19,
        scale == pow10(s as nat),
        frac < scale,
    ensures
        final(out)@ == old(out)@ + (if frac > 0 {
            seq!['.'] + strip_trailing_zeros(padded_digits(frac as nat, s as nat))
        } else {
            Seq::empty()
        }),
{
    let ghost frac0: nat = frac as nat;
    let mut frac = frac;
    if frac > 0 {
        out.append(".");
    }
    let ghost dotted = out@;
    let mut divisor = scale;
    let ghost mut k: nat = 0;
    proof {
        assert(out@ =~= dotted + padded_digits(frac0 / pow10((s - k) as nat), k));
        vstd::arithmetic::div_mod::lemma_small_mod(frac0, pow10(s as nat));
    }
    while frac > 0
        invariant
            s <= 19,
            k <= s,
            frac0 < pow10(s as nat),
            frac0 == 0 ==> k == 0,
            divisor == pow10((s - k) as nat),
            frac == frac0 % pow10((s - k) as nat),
            out@ == dotted + padded_digits(frac0 / pow10((s - k) as nat), k),
            frac == 0 && k > 0 ==> padded_digits(frac0 / pow10((s - k) as nat), k).last() != '0',
        decreases divisor,
    {
        let ghost m: nat = (s - k - 1) as nat;
        proof {
            math::lemma_pow10_positive((s - k) as nat);
            vstd::arithmetic::div_mod::lemma_mod_bound(frac0 as int, divisor as int);
            if k == s {
                assert(pow10(0) == 1);
            }
            assert(s - k == m + 1);
            assert(pow10(m + 1) == 10 * pow10(m));
            lemma_digit_at(frac0, m);
            math::lemma_pow10_positive(m);
            if frac0 == 0 {
                vstd::arithmetic::div_mod::lemma_small_mod(0, pow10((s - k) as nat));
            }
        }
        divisor = divisor / 10;
        let digit = frac / divisor;
        let ghost before = frac;
        frac = frac % divisor;
        proof {
            vstd::arithmetic::div_mod::lemma_fundamental_div_mod(before as int, divisor as int);
            assert(digit < 10);
            if frac == 0 {
                assert(digit != 0) by (nonlinear_arith)
                    requires before == divisor * digit + frac, frac == 0, before > 0;
            }
        }
        out.append(digit_str(digit));
        proof {
            k = k + 1;
            assert((s - k) as nat == m);
            assert(out@ =~= dotted + padded_digits(frac0 / pow10((s - k) as nat), k));
        }
    }
    proof {
        lemma_padded_trailing_zeros(frac0, s as nat, (s - k) as nat);
        lemma_strip_zeros(padded_digits(frac0 / pow10((s - k) as nat), k), (s - k) as nat);
        let p = padded_digits(frac0 / pow10((s - k) as nat), k);
        assert(strip_trailing_zeros(p) == p);
        reveal_strlit(".");
        assert(out@ =~= old(out)@ + (if frac0 > 0 {
            seq!['.'] + strip_trailing_zeros(padded_digits(frac0, s as nat))
        } else {
            Seq::empty()
        }));
    }
}

/// Appends the decimal text of the integer `n` (`-` in front of negatives).
pub(crate) fn append_int(out: &mut String, n: i64)
    ensures
        final(out)@ == old(out)@ + int_text(n as int),
{
    if n < 0 {
        out.append("-");
        let m: u64 = (-(n as i128)) as u64;
        append_nat(out, m);
        proof {
            reveal_strlit("-");
            assert(final(out)@ =~= old(out)@ + int_text(n as int));
        }
    } else {
        append_nat(out, n as u64);
    }
}

} // verus!
