//! Mathematical model shared by every decimal type: powers of ten,
//! truncating division, and division under each rounding mode.
use vstd::prelude::*;
use vstd::arithmetic::div_mod::*;
use vstd::arithmetic::mul::*;

use crate::RoundFlag;

verus! {

/// `10^n`.
pub open spec fn pow10(n: nat) -> nat
    decreases n,
{
    if n == 0 {
        1
    } else {
        10 * pow10((n - 1) as nat)
    }
}

pub open spec fn abs(x: int) -> int {
    if x < 0 {
        -x
    } else {
        x
    }
}

/// Quotient of `n / d` rounded toward zero (Rust's `/` on signed integers).
pub open spec fn trunc_div(n: int, d: int) -> int {
    if n >= 0 {
        n / d
    } else {
        -((-n) / d)
    }
}

/// Remainder that goes with `trunc_div` (Rust's `%`: it takes the sign of `n`).
pub open spec fn trunc_rem(n: int, d: int) -> int {
    if n >= 0 {
        n % d
    } else {
        -((-n) % d)
    }
}

/// `n / d` rounded toward negative infinity.
pub open spec fn floor_div(n: int, d: int) -> int {
    if d > 0 {
        n / d
    } else {
        (-n) / (-d)
    }
}

/// The non-negative remainder `n/d - floor(n/d)`, scaled by `|d|`.
pub open spec fn floor_rem(n: int, d: int) -> int {
    if d > 0 {
        n % d
    } else {
        (-n) % (-d)
    }
}

/// `n / d` (`d != 0`) rounded to an integer under `mode`.
///
/// With `f = floor(n/d)` and `r = floor_rem(n, d)` (so `n/d = f + r/|d|`):
/// exact quotients are returned unchanged; otherwise `Floor` gives `f`,
/// `Ceil` gives `f + 1`, `Zero` moves toward zero, and the two nearest modes
/// compare `2r` with `|d|`, breaking a tie away from zero or toward the even
/// neighbour.
pub open spec fn round_div(n: int, d: int, mode: RoundFlag) -> int {
    let f = floor_div(n, d);
    let r = floor_rem(n, d);
    let ad = abs(d);
    if r == 0 {
        f
    } else {
        match mode {
            RoundFlag::Floor => f,
            RoundFlag::Ceil => f + 1,
            RoundFlag::Zero => if f >= 0 { f } else { f + 1 },
            RoundFlag::Nearest => {
                if 2 * r < ad {
                    f
                } else if 2 * r > ad {
                    f + 1
                } else if f >= 0 {
                    f + 1
                } else {
                    f
                }
            },
            RoundFlag::NearestEven => {
                if 2 * r < ad {
                    f
                } else if 2 * r > ad {
                    f + 1
                } else if f % 2 == 0 {
                    f
                } else {
                    f + 1
                }
            },
        }
    }
}

pub proof fn lemma_pow10_values()
    ensures
        pow10(0) == 1,
        pow10(1) == 10,
        pow10(2) == 100,
        pow10(3) == 1000,
        pow10(4) == 10000,
        pow10(5) == 100000,
        pow10(6) == 1000000,
        pow10(7) == 10000000,
        pow10(8) == 100000000,
        pow10(9) == 1000000000,
        pow10(10) == 10000000000,
        pow10(18) == 1000000000000000000,
        pow10(19) == 10000000000000000000,
{
    reveal_with_fuel(pow10, 20);
}

pub proof fn lemma_pow10_positive(n: nat)
    ensures
        pow10(n) >= 1,
    decreases n,
{
    if n > 0 {
        lemma_pow10_positive((n - 1) as nat);
    }
}

pub proof fn lemma_pow10_monotone(a: nat, b: nat)
    requires
        a <= b,
    ensures
        pow10(a) <= pow10(b),
    decreases b,
{
    if a < b {
        lemma_pow10_monotone(a, (b - 1) as nat);
        lemma_pow10_positive((b - 1) as nat);
    }
}

pub proof fn lemma_pow10_add(a: nat, b: nat)
    ensures
        pow10(a + b) == pow10(a) * pow10(b),
    decreases b,
{
    if b > 0 {
        lemma_pow10_add(a, (b - 1) as nat);
        let x = pow10(a) as int;
        let y = pow10((b - 1) as nat) as int;
        assert((a + b - 1) as nat == a + (b - 1) as nat);
        assert(pow10(a + b) == 10 * pow10(a + (b - 1) as nat));
        assert(pow10(b) == 10 * y);
        assert(x * (10 * y) == 10 * (x * y)) by (nonlinear_arith);
        assert(pow10(a) * pow10(b) == x * (10 * y));
    } else {
        assert(pow10(b) == 1);
        assert(a + b == a);
        assert(pow10(a) * 1 == pow10(a));
    }
}

/// Division with remainder for a positive divisor.
proof fn lemma_div_pos(n: int, d: int)
    requires
        d > 0,
    ensures
        n == d * (n / d) + n % d,
        0 <= n % d < d,
        n >= 0 ==> n / d >= 0,
{
    lemma_fundamental_div_mod(n, d);
    lemma_mod_bound(n, d);
    if n >= 0 {
        lemma_div_pos_is_pos(n, d);
    }
}

/// Truncating division and its remainder reassemble `n`, the remainder is
/// smaller than `|d|` and takes the sign of `n`.
pub proof fn lemma_trunc_div_rem(n: int, d: int)
    requires
        d != 0,
    ensures
        trunc_div(n, d) * d + trunc_rem(n, d) == n,
        abs(trunc_rem(n, d)) < abs(d),
        n >= 0 ==> trunc_rem(n, d) >= 0,
        n < 0 ==> trunc_rem(n, d) <= 0,
        (n >= 0) == (d > 0) ==> trunc_div(n, d) >= 0,
        (n >= 0) != (d > 0) ==> trunc_div(n, d) <= 0,
        abs(trunc_div(n, d)) == abs(n) / abs(d),
{
    let m = abs(n);
    let e = abs(d);
    lemma_div_pos(m, e);
    // Euclidean division by a negative divisor negates the quotient.
    if d > 0 {
        assert(m / d == m / e);
        assert(m % d == m % e);
    } else {
        assert(m == d * (m / d) + m % d && 0 <= m % d < -d) by (nonlinear_arith)
            requires d < 0;
        assert(m == (-(m / d)) * e + m % d) by (nonlinear_arith)
            requires m == d * (m / d) + m % d, e == -d;
        lemma_fundamental_div_mod_converse(m, e, -(m / d), m % d);
    }
    // Here m % d == m % e and m / d == sign(d) * (m / e).
    let q = m / e;
    let r = m % e;
    assert(m == q * e + r) by (nonlinear_arith)
        requires m == e * (m / e) + m % e, q == m / e, r == m % e;
    if d > 0 {
        if n >= 0 {
            assert(trunc_div(n, d) == q && trunc_rem(n, d) == r);
        } else {
            assert(trunc_div(n, d) == -q && trunc_rem(n, d) == -r);
            assert((-q) * d + (-r) == -(q * d + r)) by (nonlinear_arith);
        }
    } else {
        if n >= 0 {
            assert(trunc_div(n, d) == -q && trunc_rem(n, d) == r);
            assert((-q) * d == q * e) by (nonlinear_arith) requires e == -d;
        } else {
            assert(trunc_div(n, d) == q && trunc_rem(n, d) == -r);
            assert(q * d == -(q * e)) by (nonlinear_arith) requires e == -d;
        }
    }
}

/// Floor division and its remainder for either sign of divisor.
pub proof fn lemma_floor_div_rem(n: int, d: int)
    requires
        d != 0,
    ensures
        (if d > 0 { n } else { -n }) == abs(d) * floor_div(n, d) + floor_rem(n, d),
        0 <= floor_rem(n, d) < abs(d),
{
    if d > 0 {
        lemma_div_pos(n, d);
    } else {
        lemma_div_pos(-n, -d);
    }
}

/// If `n' == d' * q + r` with `0 <= r < d'`, then `q` and `r` are the floor
/// quotient and remainder.
pub proof fn lemma_floor_unique(n: int, d: int, q: int, r: int)
    requires
        d != 0,
        (if d > 0 { n } else { -n }) == abs(d) * q + r,
        0 <= r < abs(d),
    ensures
        floor_div(n, d) == q,
        floor_rem(n, d) == r,
{
    let nn = if d > 0 { n } else { -n };
    lemma_mul_is_commutative(abs(d), q);
    lemma_fundamental_div_mod_converse(nn, abs(d), q, r);
}

} // verus!

verus! {

/// Raw result of multiplying two values at scale `s`: the exact product of the
/// raw integers carries scale `2s`, so it is divided by `10^s`, truncating.
pub open spec fn mul_scaled(a: int, b: int, s: nat) -> int {
    trunc_div(a * b, pow10(s) as int)
}

/// Raw result of dividing two values at scale `s`, truncating toward zero.
pub open spec fn div_scaled(a: int, b: int, s: nat) -> int {
    trunc_div(a * pow10(s), b)
}

/// Raw result of dividing two values at scale `s`, rounded under `mode`.
pub open spec fn div_round_scaled(a: int, b: int, s: nat, mode: RoundFlag) -> int {
    round_div(a * pow10(s), b, mode)
}

/// Raw value `a` at scale `s` re-expressed at scale `out`, rounding under
/// `mode` when digits are dropped.
pub open spec fn rescale_round(a: int, s: nat, out: nat, mode: RoundFlag) -> int {
    if out >= s {
        a * pow10((out - s) as nat)
    } else {
        round_div(a, pow10((s - out) as nat) as int, mode)
    }
}

/// Whether raw value `a` at scale `s` can be written at scale `out` without
/// losing a digit.
pub open spec fn rescale_is_exact(a: int, s: nat, out: nat) -> bool {
    out >= s || a % (pow10((s - out) as nat) as int) == 0
}

/// Exact rescale of raw value `a` from scale `s` to scale `out` (meaningful
/// when `rescale_is_exact(a, s, out)`).
pub open spec fn rescale_exact(a: int, s: nat, out: nat) -> int {
    if out >= s {
        a * pow10((out - s) as nat)
    } else {
        a / (pow10((s - out) as nat) as int)
    }
}

/// `x` if it lies in `[lo, hi]`.
pub open spec fn fit(x: int, lo: int, hi: int) -> Option<int> {
    if lo <= x <= hi {
        Some(x)
    } else {
        None
    }
}

/// `x` clamped to `[lo, hi]`.
pub open spec fn clamp(x: int, lo: int, hi: int) -> int {
    if x < lo {
        lo
    } else if x > hi {
        hi
    } else {
        x
    }
}

/// Rust's `%` by a positive divisor is zero exactly when the Euclidean one is,
/// and then truncating and Euclidean quotients agree.
pub proof fn lemma_rem_zero_iff(n: int, d: int)
    requires
        d > 0,
    ensures
        (trunc_rem(n, d) == 0) == (n % d == 0),
        n % d == 0 ==> trunc_div(n, d) == n / d,
{
    lemma_div_pos(n, d);
    lemma_div_pos(-n, d);
    if n < 0 {
        if (-n) % d == 0 {
            assert(n == d * (-((-n) / d)) + 0) by (nonlinear_arith)
                requires -n == d * ((-n) / d) + (-n) % d, (-n) % d == 0;
            lemma_mul_is_commutative(d, -((-n) / d));
            lemma_fundamental_div_mod_converse(n, d, -((-n) / d), 0);
        }
        if n % d == 0 {
            assert(-n == d * (-(n / d)) + 0) by (nonlinear_arith)
                requires n == d * (n / d) + n % d, n % d == 0;
            lemma_mul_is_commutative(d, -(n / d));
            lemma_fundamental_div_mod_converse(-n, d, -(n / d), 0);
        }
    }
}

/// Rounding toward zero is Rust's truncating division.
pub proof fn law_round_zero_is_truncation(n: int, d: int)
    requires
        d != 0,
    ensures
        round_div(n, d, RoundFlag::Zero) == trunc_div(n, d),
{
    crate::rounding::lemma_floor_from_trunc(n, d);
    lemma_trunc_div_rem(n, d);
}

/// Dividing with rounding toward zero at scale `s` is the plain truncating
/// scaled division.
pub proof fn law_div_round_zero_is_div(a: int, b: int, s: nat)
    requires
        b != 0,
    ensures
        div_round_scaled(a, b, s, RoundFlag::Zero) == div_scaled(a, b, s),
{
    law_round_zero_is_truncation(a * pow10(s), b);
}

/// An exact quotient is returned unchanged whatever the rounding mode.
pub proof fn law_exact_quotient_ignores_mode(n: int, d: int, mode: RoundFlag)
    requires
        d != 0,
        trunc_rem(n, d) == 0,
    ensures
        round_div(n, d, mode) == trunc_div(n, d),
        trunc_div(n, d) * d == n,
{
    crate::rounding::lemma_floor_from_trunc(n, d);
    lemma_trunc_div_rem(n, d);
}

/// What each rounding mode means. With `n' / |d|` the exact quotient
/// (`n' = n` for `d > 0`, `-n` otherwise) and `r = round_div(n, d, mode)`:
/// `Floor` is the largest integer not above it, `Ceil` the smallest not below
/// it, `Zero` the one of those two nearer zero, and both nearest modes are
/// within half a unit of it, a tie going away from zero (`Nearest`) or to the
/// even neighbour (`NearestEven`).
pub proof fn law_round_div_meaning(n: int, d: int)
    requires
        d != 0,
    ensures
        ({
            let nn = if d > 0 { n } else { -n };
            let ad = abs(d);
            let fl = round_div(n, d, RoundFlag::Floor);
            let ce = round_div(n, d, RoundFlag::Ceil);
            let ze = round_div(n, d, RoundFlag::Zero);
            let ne = round_div(n, d, RoundFlag::Nearest);
            let ev = round_div(n, d, RoundFlag::NearestEven);
            &&& ad * fl <= nn < ad * (fl + 1)
            &&& ad * (ce - 1) < nn <= ad * ce
            &&& ze == (if nn >= 0 { fl } else { ce })
            &&& -ad <= 2 * (nn - ad * ne) <= ad
            &&& 2 * (nn - ad * ne) == ad ==> nn < 0
            &&& 2 * (nn - ad * ne) == -ad ==> nn > 0
            &&& -ad <= 2 * (nn - ad * ev) <= ad
            &&& (2 * (nn - ad * ev) == ad || 2 * (nn - ad * ev) == -ad) ==> ev % 2 == 0
        }),
{
    lemma_floor_div_rem(n, d);
    let nn = if d > 0 { n } else { -n };
    let ad = abs(d);
    let f = floor_div(n, d);
    let r = floor_rem(n, d);
    assert(ad * (f + 1) == ad * f + ad) by (nonlinear_arith);
    assert(ad * (f + 1 - 1) == ad * f) by (nonlinear_arith);
    assert(ad * (f - 1) == ad * f - ad) by (nonlinear_arith);
    assert(f >= 0 ==> nn >= 0) by (nonlinear_arith)
        requires nn == ad * f + r, r >= 0, ad > 0;
    assert(f < 0 ==> nn < 0) by (nonlinear_arith)
        requires nn == ad * f + r, r < ad, ad > 0;
}

/// Floor and ceiling bracket every rounding mode, one unit apart at most.
pub proof fn law_modes_between_floor_and_ceil(n: int, d: int, mode: RoundFlag)
    requires
        d != 0,
    ensures
        round_div(n, d, RoundFlag::Floor) <= round_div(n, d, mode) <= round_div(n, d, RoundFlag::Ceil),
        round_div(n, d, RoundFlag::Ceil) - round_div(n, d, RoundFlag::Floor) <= 1,
{
}

/// For a non-negative dividend and positive divisor, rounding toward zero
/// and toward negative infinity agree.
pub proof fn law_floor_is_zero_for_non_negatives(n: int, d: int)
    requires
        n >= 0,
        d > 0,
    ensures
        round_div(n, d, RoundFlag::Floor) == round_div(n, d, RoundFlag::Zero),
{
    lemma_div_pos(n, d);
}

/// A lossless rescale can be undone: rescaling the result back to the
/// starting scale is again lossless and gives back the starting raw value.
pub proof fn law_rescale_exact_round_trip(a: int, s: nat, out: nat)
    requires
        rescale_is_exact(a, s, out),
    ensures
        rescale_is_exact(rescale_exact(a, s, out), out, s),
        rescale_exact(rescale_exact(a, s, out), out, s) == a,
        rescale_exact(rescale_exact(a, s, out), out, s) * pow10(out) == a * pow10(out),
        rescale_exact(a, s, out) * pow10(s) == a * pow10(out),
{
    if out > s {
        let k = (out - s) as nat;
        let p = pow10(k) as int;
        lemma_pow10_positive(k);
        lemma_mod_multiples_basic(a, p);
        lemma_div_multiples_vanish(a, p);
        assert(a * p % p == 0) by {
            lemma_mul_is_commutative(a, p);
        }
        assert((a * p) / p == a) by {
            lemma_mul_is_commutative(a, p);
        }
        lemma_pow10_add(s, k);
        assert((s + k) as nat == out);
        assert(a * p * pow10(s) == a * (pow10(s) * p)) by (nonlinear_arith);
    } else if out < s {
        let k = (s - out) as nat;
        let p = pow10(k) as int;
        lemma_pow10_positive(k);
        lemma_div_pos(a, p);
        assert(p * (a / p) == (a / p) * p) by (nonlinear_arith);
        lemma_pow10_add(out, k);
        assert((out + k) as nat == s);
        assert((a / p) * (pow10(out) * p) == (p * (a / p)) * pow10(out)) by (nonlinear_arith);
    } else {
        assert(pow10(0) == 1);
        assert(a * 1 == a);
    }
}

/// When a rescale is lossless every rounding mode gives the exact result.
pub proof fn law_rescale_round_exact(a: int, s: nat, out: nat, mode: RoundFlag)
    requires
        rescale_is_exact(a, s, out),
    ensures
        rescale_round(a, s, out, mode) == rescale_exact(a, s, out),
{
    if out < s {
        let p = pow10((s - out) as nat) as int;
        lemma_pow10_positive((s - out) as nat);
        lemma_div_pos(a, p);
        lemma_floor_unique(a, p, a / p, 0);
    }
}

} // verus!

verus! {

/// Multiplying at scale `s` keeps the product of the raw values divided by
/// `10^s`, truncated toward zero: the part cut off, `a*b - 10^s * q`, is
/// smaller than `10^s` and has the sign of `a*b`. So the result has the sign
/// of the exact product (or is zero), and swapping or negating both factors
/// changes nothing.
pub proof fn law_mul_scaled_truncates(a: int, b: int, s: nat)
    ensures
        ({
            let p = pow10(s) as int;
            let q = mul_scaled(a, b, s);
            &&& a * b >= 0 ==> 0 <= a * b - p * q < p
            &&& a * b < 0 ==> -p < a * b - p * q <= 0
            &&& a * b >= 0 ==> q >= 0
            &&& a * b <= 0 ==> q <= 0
        }),
        mul_scaled(a, b, s) == mul_scaled(b, a, s),
        mul_scaled(-a, -b, s) == mul_scaled(a, b, s),
{
    let p = pow10(s) as int;
    lemma_pow10_positive(s);
    lemma_trunc_div_rem(a * b, p);
    let q = mul_scaled(a, b, s);
    assert(q * p == p * q) by (nonlinear_arith);
    assert(b * a == a * b) by (nonlinear_arith);
    assert((-a) * (-b) == a * b) by (nonlinear_arith);
}

/// Dividing at scale `s` is the exact quotient `a * 10^s / b` truncated
/// toward zero: the remainder `a * 10^s - b * q` is smaller than `|b|` and
/// has the sign of the dividend.
pub proof fn law_div_scaled_truncates(a: int, b: int, s: nat)
    requires
        b != 0,
    ensures
        ({
            let n = a * pow10(s);
            let q = div_scaled(a, b, s);
            &&& n >= 0 ==> 0 <= n - b * q < abs(b)
            &&& n < 0 ==> -abs(b) < n - b * q <= 0
        }),
{
    let n = a * pow10(s);
    lemma_trunc_div_rem(n, b);
    let q = div_scaled(a, b, s);
    assert(q * b == b * q) by (nonlinear_arith);
}

/// What each rounding mode gives when dividing at scale `s`. With `n' / |b|`
/// the exact quotient (`n' = a * 10^s` for `b > 0`, `-(a * 10^s)` otherwise):
/// `Floor` is the largest integer not above it, `Ceil` the smallest not
/// below it, `Zero` the one of those two nearer zero, and both nearest modes
/// are within half a unit of it, a tie going away from zero (`Nearest`) or
/// to the even neighbour (`NearestEven`).
pub proof fn law_div_round_scaled_meaning(a: int, b: int, s: nat)
    requires
        b != 0,
    ensures
        ({
            let nn = if b > 0 { a * pow10(s) } else { -(a * pow10(s)) };
            let ad = abs(b);
            let fl = div_round_scaled(a, b, s, RoundFlag::Floor);
            let ce = div_round_scaled(a, b, s, RoundFlag::Ceil);
            let ze = div_round_scaled(a, b, s, RoundFlag::Zero);
            let ne = div_round_scaled(a, b, s, RoundFlag::Nearest);
            let ev = div_round_scaled(a, b, s, RoundFlag::NearestEven);
            &&& ad * fl <= nn < ad * (fl + 1)
            &&& ad * (ce - 1) < nn <= ad * ce
            &&& ze == (if nn >= 0 { fl } else { ce })
            &&& -ad <= 2 * (nn - ad * ne) <= ad
            &&& 2 * (nn - ad * ne) == ad ==> nn < 0
            &&& 2 * (nn - ad * ne) == -ad ==> nn > 0
            &&& -ad <= 2 * (nn - ad * ev) <= ad
            &&& (2 * (nn - ad * ev) == ad || 2 * (nn - ad * ev) == -ad) ==> ev % 2 == 0
        }),
{
    law_round_div_meaning(a * pow10(s), b);
}

/// Rescaling to a scale at least as fine keeps the value exactly: the result
/// at scale `out` stands for the same number as `a` at scale `s`.
pub proof fn law_rescale_up_keeps_value(a: int, s: nat, out: nat, mode: RoundFlag)
    requires
        out >= s,
    ensures
        rescale_round(a, s, out, mode) * pow10(s) == a * pow10(out),
{
    let k = (out - s) as nat;
    lemma_pow10_add(s, k);
    assert((s + k) as nat == out);
    assert(a * pow10(k) * pow10(s) == a * (pow10(s) * pow10(k))) by (nonlinear_arith);
}

/// What each rounding mode gives when rescaling to a coarser scale: with
/// `p = 10^(s - out)` the exact result is `a / p`, and `Floor` is the largest
/// integer not above it, `Ceil` the smallest not below it, `Zero` the one of
/// those two nearer zero, and both nearest modes are within half a unit of
/// it, a tie going away from zero (`Nearest`) or to the even neighbour
/// (`NearestEven`). Every dropped digit counts, not only the first.
pub proof fn law_rescale_down_meaning(a: int, s: nat, out: nat)
    requires
        out < s,
    ensures
        ({
            let p = pow10((s - out) as nat) as int;
            let fl = rescale_round(a, s, out, RoundFlag::Floor);
            let ce = rescale_round(a, s, out, RoundFlag::Ceil);
            let ze = rescale_round(a, s, out, RoundFlag::Zero);
            let ne = rescale_round(a, s, out, RoundFlag::Nearest);
            let ev = rescale_round(a, s, out, RoundFlag::NearestEven);
            &&& p * fl <= a < p * (fl + 1)
            &&& p * (ce - 1) < a <= p * ce
            &&& ze == (if a >= 0 { fl } else { ce })
            &&& -p <= 2 * (a - p * ne) <= p
            &&& 2 * (a - p * ne) == p ==> a < 0
            &&& 2 * (a - p * ne) == -p ==> a > 0
            &&& -p <= 2 * (a - p * ev) <= p
            &&& (2 * (a - p * ev) == p || 2 * (a - p * ev) == -p) ==> ev % 2 == 0
        }),
{
    let p = pow10((s - out) as nat) as int;
    lemma_pow10_positive((s - out) as nat);
    law_round_div_meaning(a, p);
}

} // verus!
