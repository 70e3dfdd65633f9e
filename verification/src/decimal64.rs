//! `Decimal64<S>`: the 64-bit signed sibling of `Decimal32<S>`, with `i128`
//! intermediates; the target of `Decimal32::widen` and the source of `narrow`.
use vstd::prelude::*;

use crate::math::{self, clamp, div_round_scaled, div_scaled, fit, mul_scaled, pow10, rescale_exact, rescale_is_exact, rescale_round};
use crate::rounding::div_round_i128;
use crate::text::{self, trimmed_decimal_text};
use crate::decimal32::{clamp_i32, fit_i32, Decimal32};
use crate::RoundFlag;

verus! {

/// `10^s` as an `i64` (`s <= 18`: `10^19` does not fit).
fn const_pow10_i64(s: u32) -> (r: i64)
    requires
        s <= 18,
    ensures
        r == pow10(s as nat),
{
    let mut result: i64 = 1;
    let mut i: u32 = 0;
    while i < s
        invariant
            i <= s <= 18,
            result == pow10(i as nat),
        decreases s - i,
    {
        proof {
            math::lemma_pow10_monotone((i + 1) as nat, 18);
            math::lemma_pow10_values();
            assert(pow10((i + 1) as nat) == 10 * pow10(i as nat));
        }
        result = result * 10;
        i += 1;
    }
    result
}

/// Fixed-scale 64-bit signed decimal: the raw `i64` is the value times `10^S`.
#[derive(Clone, Copy, Debug, Eq, Ord, Hash)]
pub struct Decimal64<const S: u32>(i64);

impl<const S: u32> View for Decimal64<S> {
    type V = int;

    /// The raw integer: the mathematical value multiplied by `10^S`.
    closed spec fn view(&self) -> int {
        self.0 as int
    }
}

/// `x` if it fits an `i64`.
pub open spec fn fit_i64(x: int) -> Option<int> {
    fit(x, i64::MIN as int, i64::MAX as int)
}

/// `x` clamped to the `i64` range.
pub open spec fn clamp_i64(x: int) -> int {
    clamp(x, i64::MIN as int, i64::MAX as int)
}

/// `|a * b| <= 2^126` for `i64` factors, so the product fits an `i128`.
proof fn lemma_i64_product_bound(a: i64, b: i64)
    ensures
        -0x4000_0000_0000_0000_0000_0000_0000_0000 <= (a as int) * (b as int)
            <= 0x4000_0000_0000_0000_0000_0000_0000_0000,
{
    assert(-0x4000_0000_0000_0000_0000_0000_0000_0000 <= (a as int) * (b as int)
        <= 0x4000_0000_0000_0000_0000_0000_0000_0000) by (nonlinear_arith)
        requires
            -0x8000_0000_0000_0000 <= a <= 0x7fff_ffff_ffff_ffff,
            -0x8000_0000_0000_0000 <= b <= 0x7fff_ffff_ffff_ffff,
    ;
}

/// `|a| * 10^s < 2^124` for an `i64` and `s <= 18`.
proof fn lemma_i64_scaled_bound(a: i64, s: nat)
    requires
        s <= 18,
    ensures
        -0x1000_0000_0000_0000_0000_0000_0000_0000 < (a as int) * (pow10(s) as int)
            < 0x1000_0000_0000_0000_0000_0000_0000_0000,
{
    math::lemma_pow10_monotone(s, 18);
    math::lemma_pow10_values();
    math::lemma_pow10_positive(s);
    let p = pow10(s) as int;
    assert(-0x1000_0000_0000_0000_0000_0000_0000_0000 < (a as int) * p
        < 0x1000_0000_0000_0000_0000_0000_0000_0000) by (nonlinear_arith)
        requires
            -0x8000_0000_0000_0000 <= a <= 0x7fff_ffff_ffff_ffff,
            1 <= p <= 1_000_000_000_000_000_000,
    ;
}

impl<const S: u32> Decimal64<S> {
    /// The raw values of an optional decimal.
    pub open spec fn view_option(r: Option<Self>) -> Option<int> {
        match r {
            Some(v) => Some(v@),
            None => None,
        }
    }

    /// Multiplicative identity: `1.0`, stored as `10^S`.
    pub fn one() -> (d: Self)
        requires
            S <= 18,
        ensures
            d@ == pow10(S as nat),
    {
        Self(const_pow10_i64(S))
    }

    /// Largest representable value (`i64::MAX` raw).
    pub fn max_value() -> (d: Self)
        ensures
            d@ == i64::MAX,
    {
        Self(i64::MAX)
    }

    /// Wrap a raw `i64` without any scaling.
    pub fn from_raw(raw: i64) -> (d: Self)
        ensures
            d@ == raw,
    {
        Self(raw)
    }

    /// The raw `i64` storage value (the mathematical value times `10^S`).
    pub fn raw(self) -> (r: i64)
        ensures
            r == self@,
    {
        self.0
    }

    /// Product, truncated toward zero at scale `S`; `None` on overflow.
    pub fn checked_mul(self, rhs: Self) -> (r: Option<Self>)
        requires
            S <= 18,
        ensures
            Self::view_option(r) == fit_i64(mul_scaled(self@, rhs@, S as nat)),
    {
        proof {
            lemma_i64_product_bound(self.0, rhs.0);
            math::lemma_pow10_positive(S as nat);
        }
        let product = self.0 as i128 * rhs.0 as i128;
        let result = product / const_pow10_i64(S) as i128;
        let v: i64 = result.try_into().ok()?;
        Some(Self(v))
    }

    /// Quotient, truncated toward zero at scale `S`; `None` on division by
    /// zero or overflow.
    pub fn checked_div(self, rhs: Self) -> (r: Option<Self>)
        requires
            S <= 18,
        ensures
            rhs@ == 0 ==> r is None,
            rhs@ != 0 ==> Self::view_option(r) == fit_i64(div_scaled(self@, rhs@, S as nat)),
    {
        if rhs.0 == 0 {
            return None;
        }
        proof {
            lemma_i64_scaled_bound(self.0, S as nat);
            math::lemma_pow10_positive(S as nat);
        }
        let num = self.0 as i128 * const_pow10_i64(S) as i128;
        proof {
            math::lemma_trunc_div_rem(num as int, rhs.0 as int);
            vstd::arithmetic::div_mod::lemma_div_is_ordered_by_denominator(math::abs(num as int), 1, math::abs(rhs.0 as int));
        }
        let result = num / rhs.0 as i128;
        let v: i64 = result.try_into().ok()?;
        Some(Self(v))
    }

    /// Product truncated at scale `S`, clamped to `MAX`/`MIN` on overflow.
    pub fn saturating_mul(self, rhs: Self) -> (r: Self)
        requires
            S <= 18,
        ensures
            r@ == clamp_i64(mul_scaled(self@, rhs@, S as nat)),
    {
        proof {
            lemma_i64_product_bound(self.0, rhs.0);
            math::lemma_pow10_positive(S as nat);
        }
        let product = self.0 as i128 * rhs.0 as i128;
        let result = product / const_pow10_i64(S) as i128;
        let clamped = if result < i64::MIN as i128 {
            i64::MIN as i128
        } else if result > i64::MAX as i128 {
            i64::MAX as i128
        } else {
            result
        };
        Self(clamped as i64)
    }

    /// Quotient rounded under `mode`; `None` on division by zero or overflow.
    fn checked_div_round_impl(self, rhs: Self, mode: RoundFlag) -> (r: Option<Self>)
        requires
            S <= 18,
        ensures
            rhs@ == 0 ==> r is None,
            rhs@ != 0 ==> Self::view_option(r) == fit_i64(
                div_round_scaled(self@, rhs@, S as nat, mode),
            ),
    {
        if rhs.0 == 0 {
            return None;
        }
        proof {
            lemma_i64_scaled_bound(self.0, S as nat);
            math::lemma_pow10_positive(S as nat);
        }
        let num = self.0 as i128 * const_pow10_i64(S) as i128;
        let result = div_round_i128(num, rhs.0 as i128, mode);
        let v: i64 = result.try_into().ok()?;
        Some(Self(v))
    }
}

/// `|x|` as a `u64` (defined for `i64::MIN` too).
fn magnitude(x: i64) -> (m: u64)
    ensures
        m == math::abs(x as int),
{
    if x < 0 {
        (-(x as i128)) as u64
    } else {
        x as u64
    }
}

impl<const S: u32> Decimal64<S> {
    /// Decimal text: the integer part, then a `.` and the fraction with
    /// trailing zeros trimmed (`"1.5"`, `"-0.25"`, `"42"`).
    pub fn to_string(&self) -> (text: String)
        requires
            S <= 18,
        ensures
            text@ == trimmed_decimal_text(self@, S as nat),
    {
        let scale = const_pow10_i64(S);
        proof {
            math::lemma_pow10_positive(S as nat);
            math::lemma_trunc_div_rem(self.0 as int, scale as int);
            vstd::arithmetic::div_mod::lemma_div_is_ordered_by_denominator(
                math::abs(self.0 as int),
                1,
                scale as int,
            );
        }
        let int_part = self.0 / scale;
        let mut out = String::new();
        if self.0 < 0 && int_part == 0 {
            out.append("-");
        }
        let int_text = text::itoa_format(int_part);
        out.append(int_text.as_str());
        let frac: u64 = magnitude(self.0) % scale as u64;
        proof {
            vstd::arithmetic::div_mod::lemma_mod_bound(math::abs(self.0 as int), scale as int);
            reveal_strlit("-");
        }
        text::append_fraction_trimmed(&mut out, frac, scale as u64, S);
        proof {
            let raw = self@;
            let sc = pow10(S as nat) as int;
            assert(int_part == math::trunc_div(raw, sc));
            assert(out@ =~= trimmed_decimal_text(raw, S as nat));
        }
        out
    }
}

impl<const S: u32> Decimal64<S> {
    /// Divide using nearest-even (banker's) rounding; `None` on division by zero or overflow.
    pub fn checked_div_round_nearest_even(self, rhs: Self) -> (r: Option<Self>)
        requires
            S <= 18,
        ensures
            rhs@ == 0 ==> r is None,
            rhs@ != 0 ==> Self::view_option(r) == fit_i64(
                div_round_scaled(self@, rhs@, S as nat, RoundFlag::NearestEven),
            ),
    {
        self.checked_div_round_impl(rhs, RoundFlag::NearestEven)
    }

    /// Divide using nearest, ties away from zero; `None` on division by zero or overflow.
    pub fn checked_div_round_nearest(self, rhs: Self) -> (r: Option<Self>)
        requires
            S <= 18,
        ensures
            rhs@ == 0 ==> r is None,
            rhs@ != 0 ==> Self::view_option(r) == fit_i64(
                div_round_scaled(self@, rhs@, S as nat, RoundFlag::Nearest),
            ),
    {
        self.checked_div_round_impl(rhs, RoundFlag::Nearest)
    }

    /// Divide truncating toward zero; `None` on division by zero or overflow.
    pub fn checked_div_round_zero(self, rhs: Self) -> (r: Option<Self>)
        requires
            S <= 18,
        ensures
            rhs@ == 0 ==> r is None,
            rhs@ != 0 ==> Self::view_option(r) == fit_i64(
                div_round_scaled(self@, rhs@, S as nat, RoundFlag::Zero),
            ),
    {
        self.checked_div_round_impl(rhs, RoundFlag::Zero)
    }

    /// Divide rounding toward positive infinity; `None` on division by zero or overflow.
    pub fn checked_div_round_ceil(self, rhs: Self) -> (r: Option<Self>)
        requires
            S <= 18,
        ensures
            rhs@ == 0 ==> r is None,
            rhs@ != 0 ==> Self::view_option(r) == fit_i64(
                div_round_scaled(self@, rhs@, S as nat, RoundFlag::Ceil),
            ),
    {
        self.checked_div_round_impl(rhs, RoundFlag::Ceil)
    }

    /// Divide rounding toward negative infinity; `None` on division by zero or overflow.
    pub fn checked_div_round_floor(self, rhs: Self) -> (r: Option<Self>)
        requires
            S <= 18,
        ensures
            rhs@ == 0 ==> r is None,
            rhs@ != 0 ==> Self::view_option(r) == fit_i64(
                div_round_scaled(self@, rhs@, S as nat, RoundFlag::Floor),
            ),
    {
        self.checked_div_round_impl(rhs, RoundFlag::Floor)
    }

    /// Lossless rescale to scale `OUT`: `None` if fractional digits would be
    /// lost or on overflow.
    pub fn rescale_into<const OUT: u32>(self) -> (r: Option<Decimal64<OUT>>)
        requires
            OUT > S ==> OUT - S <= 18,
            OUT < S ==> S - OUT <= 18,
        ensures
            Decimal64::<OUT>::view_option(r) == (if rescale_is_exact(self@, S as nat, OUT as nat) {
                fit_i64(rescale_exact(self@, S as nat, OUT as nat))
            } else {
                None
            }),
    {
        if OUT > S {
            let factor = const_pow10_i64(OUT - S);
            match self.0.checked_mul(factor) {
                Some(v) => Some(Decimal64::from_raw(v)),
                None => None,
            }
        } else if OUT < S {
            let factor = const_pow10_i64(S - OUT);
            proof {
                math::lemma_pow10_positive((S - OUT) as nat);
                math::lemma_trunc_div_rem(self.0 as int, factor as int);
                math::lemma_rem_zero_iff(self.0 as int, factor as int);
                vstd::arithmetic::div_mod::lemma_div_is_ordered_by_denominator(
                    math::abs(self.0 as int),
                    1,
                    factor as int,
                );
            }
            if self.0 % factor != 0 {
                None
            } else {
                Some(Decimal64::from_raw(self.0 / factor))
            }
        } else {
            proof {
                let p = pow10((OUT - S) as nat);
                assert((OUT - S) as nat == 0);
                assert(p == 1);
                assert(self@ * p == self@) by (nonlinear_arith) requires p == 1;
            }
            Some(Decimal64::from_raw(self.0))
        }
    }

    /// Rescale to scale `OUT` rounding under `mode` when digits are dropped;
    /// `None` only on overflow.
    fn rescale_round_into_impl<const OUT: u32>(self, mode: RoundFlag) -> (r: Option<Decimal64<OUT>>)
        requires
            OUT > S ==> OUT - S <= 18,
            OUT < S ==> S - OUT <= 18,
        ensures
            Decimal64::<OUT>::view_option(r) == fit_i64(rescale_round(self@, S as nat, OUT as nat, mode)),
    {
        if OUT > S {
            let factor = const_pow10_i64(OUT - S);
            match self.0.checked_mul(factor) {
                Some(v) => Some(Decimal64::from_raw(v)),
                None => None,
            }
        } else if OUT < S {
            let factor = const_pow10_i64(S - OUT) as i128;
            proof {
                math::lemma_pow10_positive((S - OUT) as nat);
            }
            let result = div_round_i128(self.0 as i128, factor, mode);
            match i64::try_from(result) {
                Ok(v) => Some(Decimal64::from_raw(v)),
                Err(_) => None,
            }
        } else {
            proof {
                let p = pow10((OUT - S) as nat);
                assert((OUT - S) as nat == 0);
                assert(p == 1);
                assert(self@ * p == self@) by (nonlinear_arith) requires p == 1;
            }
            Some(Decimal64::from_raw(self.0))
        }
    }

    /// Rescale to scale `OUT` using nearest-even (banker's) rounding; `None` only on overflow.
    pub fn rescale_round_into_nearest_even<const OUT: u32>(self) -> (r: Option<Decimal64<OUT>>)
        requires
            OUT > S ==> OUT - S <= 18,
            OUT < S ==> S - OUT <= 18,
        ensures
            Decimal64::<OUT>::view_option(r) == fit_i64(
                rescale_round(self@, S as nat, OUT as nat, RoundFlag::NearestEven),
            ),
    {
        self.rescale_round_into_impl::<OUT>(RoundFlag::NearestEven)
    }

    /// Rescale to scale `OUT` using nearest, ties away from zero; `None` only on overflow.
    pub fn rescale_round_into_nearest<const OUT: u32>(self) -> (r: Option<Decimal64<OUT>>)
        requires
            OUT > S ==> OUT - S <= 18,
            OUT < S ==> S - OUT <= 18,
        ensures
            Decimal64::<OUT>::view_option(r) == fit_i64(
                rescale_round(self@, S as nat, OUT as nat, RoundFlag::Nearest),
            ),
    {
        self.rescale_round_into_impl::<OUT>(RoundFlag::Nearest)
    }

    /// Rescale to scale `OUT` truncating toward zero; `None` only on overflow.
    pub fn rescale_round_into_zero<const OUT: u32>(self) -> (r: Option<Decimal64<OUT>>)
        requires
            OUT > S ==> OUT - S <= 18,
            OUT < S ==> S - OUT <= 18,
        ensures
            Decimal64::<OUT>::view_option(r) == fit_i64(
                rescale_round(self@, S as nat, OUT as nat, RoundFlag::Zero),
            ),
    {
        self.rescale_round_into_impl::<OUT>(RoundFlag::Zero)
    }

    /// Rescale to scale `OUT` rounding toward positive infinity; `None` only on overflow.
    pub fn rescale_round_into_ceil<const OUT: u32>(self) -> (r: Option<Decimal64<OUT>>)
        requires
            OUT > S ==> OUT - S <= 18,
            OUT < S ==> S - OUT <= 18,
        ensures
            Decimal64::<OUT>::view_option(r) == fit_i64(
                rescale_round(self@, S as nat, OUT as nat, RoundFlag::Ceil),
            ),
    {
        self.rescale_round_into_impl::<OUT>(RoundFlag::Ceil)
    }

    /// Rescale to scale `OUT` rounding toward negative infinity; `None` only on overflow.
    pub fn rescale_round_into_floor<const OUT: u32>(self) -> (r: Option<Decimal64<OUT>>)
        requires
            OUT > S ==> OUT - S <= 18,
            OUT < S ==> S - OUT <= 18,
        ensures
            Decimal64::<OUT>::view_option(r) == fit_i64(
                rescale_round(self@, S as nat, OUT as nat, RoundFlag::Floor),
            ),
    {
        self.rescale_round_into_impl::<OUT>(RoundFlag::Floor)
    }
}

impl<const S: u32> Decimal64<S> {
    /// Narrow to `Decimal32<S>`; `None` when the raw value is outside the
    /// `i32` range. Only scales that `Decimal32` supports (`S <= 9`) are allowed.
    pub fn narrow(self) -> (r: Option<Decimal32<S>>)
        requires
            S <= 9,
        ensures
            Decimal32::<S>::view_option(r) == fit_i32(self@),
    {
        match i32::try_from(self.0) {
            Ok(v) => Some(Decimal32::from_raw(v)),
            Err(_) => None,
        }
    }
}

impl<const S: u32> Decimal32<S> {
    /// Widen to `Decimal64<S>`; always lossless.
    pub fn widen(self) -> (r: Decimal64<S>)
        ensures
            r@ == self@,
    {
        Decimal64::from_raw(self.raw() as i64)
    }
}

impl<const S: u32> From<Decimal32<S>> for Decimal64<S> {
    fn from(d: Decimal32<S>) -> (r: Self)
        ensures
            r@ == d@,
    {
        d.widen()
    }
}

impl<const S: u32> vstd::std_specs::convert::FromSpecImpl<Decimal32<S>> for Decimal64<S> {
    open spec fn obeys_from_spec() -> bool {
        true
    }

    closed spec fn from_spec(v: Decimal32<S>) -> Self {
        Self(v@ as i64)
    }
}

} // verus!

verus! {

/// Widening is lossless and narrowing undoes it: a widened value narrows back
/// to itself, and a 64-bit value that narrows at all widens back to itself.
pub proof fn law_widen_narrow_round_trip<const S: u32>(d: Decimal32<S>, w: Decimal64<S>)
    ensures
        fit_i32(d@) == Some(d@),
        fit_i32(w@) is Some ==> fit_i32(w@) == Some(w@),
{
    d.lemma_view_bounds();
}

/// A 64-bit raw result narrowed to 32 bits, as `narrow` does it.
pub open spec fn narrowed(r: Option<int>) -> Option<int> {
    match r {
        Some(x) => fit_i32(x),
        None => None,
    }
}

/// On `Decimal32` operands each 32-bit operation returns what the same
/// `Decimal64` operation returns on the widened operands (`widen` keeps the
/// raw value), narrowed: the 32-bit result exists exactly when the 64-bit one
/// exists and fits 32 bits, and then the two are equal. This covers
/// `checked_mul`, `checked_div`, every `checked_div_round_*`,
/// `rescale_into` and every `rescale_round_into_*`; `saturating_mul` clamps
/// to the same value as clamping the 64-bit saturated result again.
pub proof fn law_agrees_with_wide_sibling<const S: u32>(
    a: Decimal32<S>,
    b: Decimal32<S>,
    out: nat,
    mode: RoundFlag,
)
    ensures
        fit_i32(mul_scaled(a@, b@, S as nat)) == narrowed(fit_i64(mul_scaled(a@, b@, S as nat))),
        fit_i32(div_scaled(a@, b@, S as nat)) == narrowed(fit_i64(div_scaled(a@, b@, S as nat))),
        fit_i32(div_round_scaled(a@, b@, S as nat, mode)) == narrowed(
            fit_i64(div_round_scaled(a@, b@, S as nat, mode)),
        ),
        fit_i32(rescale_exact(a@, S as nat, out)) == narrowed(fit_i64(rescale_exact(a@, S as nat, out))),
        fit_i32(rescale_round(a@, S as nat, out, mode)) == narrowed(
            fit_i64(rescale_round(a@, S as nat, out, mode)),
        ),
        clamp_i32(mul_scaled(a@, b@, S as nat)) == clamp_i32(clamp_i64(mul_scaled(a@, b@, S as nat))),
{
}

} // verus!
