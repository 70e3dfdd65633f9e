//! `Decimal32<S>`: a signed fixed-scale decimal stored in an `i32` whose unit
//! is `10^(-S)`.
use vstd::prelude::*;
use vstd::string::*;

use crate::math::{self, clamp, div_round_scaled, div_scaled, fit, mul_scaled, pow10, rescale_exact, rescale_is_exact, rescale_round};
use crate::rounding::div_round_i64;
use crate::text::{self, trimmed_decimal_text};
use crate::{ParseError, RoundFlag};

verus! {

/// `10^s` as an `i32` (`s <= 9`: `10^10` does not fit).
fn const_pow10_i32(s: u32) -> (r: i32)
    requires
        s <= 9,
    ensures
        r == pow10(s as nat),
{
    let mut result: i32 = 1;
    let mut i: u32 = 0;
    while i < s
        invariant
            i <= s <= 9,
            result == pow10(i as nat),
        decreases s - i,
    {
        proof {
            math::lemma_pow10_monotone((i + 1) as nat, 9);
            math::lemma_pow10_values();
            assert(pow10((i + 1) as nat) == 10 * pow10(i as nat));
        }
        result = result * 10;
        i += 1;
    }
    result
}

/// Fixed-scale 32-bit signed decimal: the raw `i32` is the value times `10^S`.
#[derive(Clone, Copy, Debug, Eq, Ord, Hash)]
pub struct Decimal32<const S: u32>(i32);

impl<const S: u32> View for Decimal32<S> {
    type V = int;

    /// The raw integer: the mathematical value multiplied by `10^S`.
    closed spec fn view(&self) -> int {
        self.0 as int
    }
}

/// `x` if it fits an `i32`.
pub open spec fn fit_i32(x: int) -> Option<int> {
    fit(x, i32::MIN as int, i32::MAX as int)
}

/// `x` clamped to the `i32` range.
pub open spec fn clamp_i32(x: int) -> int {
    clamp(x, i32::MIN as int, i32::MAX as int)
}

/// `|a * b| <= 2^62` for `i32` factors, so the product fits an `i64`.
proof fn lemma_i32_product_bound(a: i32, b: i32)
    ensures
        -0x4000_0000_0000_0000 <= (a as int) * (b as int) <= 0x4000_0000_0000_0000,
{
    assert(-0x4000_0000_0000_0000 <= (a as int) * (b as int) <= 0x4000_0000_0000_0000)
        by (nonlinear_arith)
        requires
            -0x8000_0000 <= a <= 0x7fff_ffff,
            -0x8000_0000 <= b <= 0x7fff_ffff,
    ;
}

/// `|a| * 10^s < 2^61` for an `i32` and `s <= 9`.
proof fn lemma_i32_scaled_bound(a: i32, s: nat)
    requires
        s <= 9,
    ensures
        -0x2000_0000_0000_0000 < (a as int) * (pow10(s) as int) < 0x2000_0000_0000_0000,
{
    math::lemma_pow10_monotone(s, 9);
    math::lemma_pow10_values();
    math::lemma_pow10_positive(s);
    let p = pow10(s) as int;
    assert(-0x2000_0000_0000_0000 < (a as int) * p < 0x2000_0000_0000_0000) by (nonlinear_arith)
        requires
            -0x8000_0000 <= a <= 0x7fff_ffff,
            1 <= p <= 1_000_000_000,
    ;
}

impl<const S: u32> Decimal32<S> {
    /// The raw value lies in the `i32` range.
    pub proof fn lemma_view_bounds(self)
        ensures
            i32::MIN <= self@ <= i32::MAX,
    {
    }

    /// The raw values of an optional decimal.
    pub open spec fn view_option(r: Option<Self>) -> Option<int> {
        match r {
            Some(v) => Some(v@),
            None => None,
        }
    }

    /// The raw value of a parse result.
    pub open spec fn view_result(r: Result<Self, ParseError>) -> Result<int, ParseError> {
        match r {
            Ok(v) => Ok(v@),
            Err(e) => Err(e),
        }
    }

    /// The scale parameter `S`.
    pub fn scale() -> (s: u32)
        ensures
            s == S,
    {
        S
    }

    /// Additive identity: `0`.
    pub fn zero() -> (d: Self)
        ensures
            d@ == 0,
    {
        Self(0)
    }

    /// Multiplicative identity: `1.0`, stored as `10^S`.
    pub fn one() -> (d: Self)
        requires
            S <= 9,
        ensures
            d@ == pow10(S as nat),
    {
        Self(const_pow10_i32(S))
    }

    /// Largest representable value (`i32::MAX` raw).
    pub fn max_value() -> (d: Self)
        ensures
            d@ == i32::MAX,
    {
        Self(i32::MAX)
    }

    /// Smallest representable value (`i32::MIN` raw).
    pub fn min_value() -> (d: Self)
        ensures
            d@ == i32::MIN,
    {
        Self(i32::MIN)
    }

    /// Wrap a raw `i32` without any scaling.
    pub fn from_raw(raw: i32) -> (d: Self)
        ensures
            d@ == raw,
    {
        Self(raw)
    }

    /// The raw `i32` storage value (the mathematical value times `10^S`).
    pub fn raw(self) -> (r: i32)
        ensures
            r == self@,
    {
        self.0
    }

    /// Parse a decimal string. Extra fractional digits beyond `S` are truncated.
    pub fn parse(s: &str) -> (r: Result<Self, ParseError>)
        ensures
            Self::view_result(r) == crate::grammar::parse_signed(
                s.spec_bytes(),
                S as nat,
                i32::MAX as nat,
            ),
    {
        Self::from_slice(s.as_bytes())
    }

    /// Parse decimal bytes. Extra fractional digits beyond `S` are truncated.
    pub fn from_slice(bytes: &[u8]) -> (r: Result<Self, ParseError>)
        ensures
            Self::view_result(r) == crate::grammar::parse_signed(bytes@, S as nat, i32::MAX as nat),
    {
        crate::parse32::parse_slice::<S>(bytes)
    }

    /// Sum; `None` on overflow.
    pub fn checked_add(self, rhs: Self) -> (r: Option<Self>)
        ensures
            Self::view_option(r) == fit_i32(self@ + rhs@),
    {
        match self.0.checked_add(rhs.0) {
            Some(v) => Some(Self(v)),
            None => None,
        }
    }

    /// Difference; `None` on overflow.
    pub fn checked_sub(self, rhs: Self) -> (r: Option<Self>)
        ensures
            Self::view_option(r) == fit_i32(self@ - rhs@),
    {
        match self.0.checked_sub(rhs.0) {
            Some(v) => Some(Self(v)),
            None => None,
        }
    }

    /// Product, truncated toward zero at scale `S`; `None` on overflow.
    pub fn checked_mul(self, rhs: Self) -> (r: Option<Self>)
        requires
            S <= 9,
        ensures
            Self::view_option(r) == fit_i32(mul_scaled(self@, rhs@, S as nat)),
    {
        proof {
            lemma_i32_product_bound(self.0, rhs.0);
            math::lemma_pow10_positive(S as nat);
        }
        let product = self.0 as i64 * rhs.0 as i64;
        let result = product / const_pow10_i32(S) as i64;
        let v: i32 = result.try_into().ok()?;
        Some(Self(v))
    }

    /// Quotient, truncated toward zero at scale `S`; `None` on division by
    /// zero or overflow.
    pub fn checked_div(self, rhs: Self) -> (r: Option<Self>)
        requires
            S <= 9,
        ensures
            rhs@ == 0 ==> r is None,
            rhs@ != 0 ==> Self::view_option(r) == fit_i32(div_scaled(self@, rhs@, S as nat)),
    {
        if rhs.0 == 0 {
            return None;
        }
        proof {
            lemma_i32_scaled_bound(self.0, S as nat);
            math::lemma_pow10_positive(S as nat);
        }
        let num = self.0 as i64 * const_pow10_i32(S) as i64;
        proof {
            math::lemma_trunc_div_rem(num as int, rhs.0 as int);
            vstd::arithmetic::div_mod::lemma_div_is_ordered_by_denominator(math::abs(num as int), 1, math::abs(rhs.0 as int));
        }
        let result = num / rhs.0 as i64;
        let v: i32 = result.try_into().ok()?;
        Some(Self(v))
    }

    /// Sum, clamped to `MAX`/`MIN` on overflow.
    pub fn saturating_add(self, rhs: Self) -> (r: Self)
        ensures
            r@ == clamp_i32(self@ + rhs@),
    {
        match self.0.checked_add(rhs.0) {
            Some(v) => Self(v),
            None => if rhs.0 > 0 {
                Self(i32::MAX)
            } else {
                Self(i32::MIN)
            },
        }
    }

    /// Difference, clamped to `MAX`/`MIN` on overflow.
    pub fn saturating_sub(self, rhs: Self) -> (r: Self)
        ensures
            r@ == clamp_i32(self@ - rhs@),
    {
        match self.0.checked_sub(rhs.0) {
            Some(v) => Self(v),
            None => if rhs.0 < 0 {
                Self(i32::MAX)
            } else {
                Self(i32::MIN)
            },
        }
    }

    /// Product truncated at scale `S`, clamped to `MAX`/`MIN` on overflow.
    pub fn saturating_mul(self, rhs: Self) -> (r: Self)
        requires
            S <= 9,
        ensures
            r@ == clamp_i32(mul_scaled(self@, rhs@, S as nat)),
    {
        proof {
            lemma_i32_product_bound(self.0, rhs.0);
            math::lemma_pow10_positive(S as nat);
        }
        let product = self.0 as i64 * rhs.0 as i64;
        let result = product / const_pow10_i32(S) as i64;
        let clamped = if result < i32::MIN as i64 {
            i32::MIN as i64
        } else if result > i32::MAX as i64 {
            i32::MAX as i64
        } else {
            result
        };
        Self(clamped as i32)
    }

    /// Quotient rounded under `mode`; `None` on division by zero or overflow.
    fn checked_div_round_impl(self, rhs: Self, mode: RoundFlag) -> (r: Option<Self>)
        requires
            S <= 9,
        ensures
            rhs@ == 0 ==> r is None,
            rhs@ != 0 ==> Self::view_option(r) == fit_i32(
                div_round_scaled(self@, rhs@, S as nat, mode),
            ),
    {
        if rhs.0 == 0 {
            return None;
        }
        proof {
            lemma_i32_scaled_bound(self.0, S as nat);
            math::lemma_pow10_positive(S as nat);
        }
        let num = self.0 as i64 * const_pow10_i32(S) as i64;
        let result = div_round_i64(num, rhs.0 as i64, mode);
        let v: i32 = result.try_into().ok()?;
        Some(Self(v))
    }

    /// Quotient rounded under `mode`, for a non-zero divisor and a result in range.
    fn div_round_impl(self, rhs: Self, mode: RoundFlag) -> (r: Self)
        requires
            S <= 9,
            rhs@ != 0,
            fit_i32(div_round_scaled(self@, rhs@, S as nat, mode)) is Some,
        ensures
            r@ == div_round_scaled(self@, rhs@, S as nat, mode),
    {
        match self.checked_div_round_impl(rhs, mode) {
            Some(v) => v,
            None => vstd::pervasive::unreached(),
        }
    }
}

/// `|x|` as a `u32` (defined for `i32::MIN` too).
fn magnitude(x: i32) -> (m: u32)
    ensures
        m == math::abs(x as int),
{
    if x < 0 {
        (-(x as i64)) as u32
    } else {
        x as u32
    }
}

impl<const S: u32> Decimal32<S> {
    /// Decimal text: the integer part, then a `.` and the fraction with
    /// trailing zeros trimmed (`"1.5"`, `"-0.25"`, `"42"`).
    pub fn to_string(&self) -> (text: String)
        requires
            S <= 9,
        ensures
            text@ == trimmed_decimal_text(self@, S as nat),
    {
        let scale = const_pow10_i32(S);
        proof {
            math::lemma_pow10_positive(S as nat);
            math::lemma_trunc_div_rem(self.0 as int, scale as int);
            vstd::arithmetic::div_mod::lemma_div_is_ordered_by_denominator(
                math::abs(self.0 as int),
                1,
                scale as int,
            );
        }
        let int_part = self.0 / scale;
        let mut out = String::new();
        if self.0 < 0 && int_part == 0 {
            out.append("-");
        }
        let int_text = text::itoa_format(int_part as i64);
        out.append(int_text.as_str());
        let frac: u32 = magnitude(self.0) % scale as u32;
        proof {
            vstd::arithmetic::div_mod::lemma_mod_bound(math::abs(self.0 as int), scale as int);
            reveal_strlit("-");
        }
        text::append_fraction_trimmed(&mut out, frac as u64, scale as u64, S);
        proof {
            let raw = self@;
            let sc = pow10(S as nat) as int;
            assert(int_part == math::trunc_div(raw, sc));
            assert(out@ =~= trimmed_decimal_text(raw, S as nat));
        }
        out
    }
}

impl<const S: u32> Decimal32<S> {
    /// Divide using nearest-even (banker's) rounding; the divisor must be non-zero and the result in range.
    pub fn div_round_nearest_even(self, rhs: Self) -> (r: Self)
        requires
            S <= 9,
            rhs@ != 0,
            fit_i32(div_round_scaled(self@, rhs@, S as nat, RoundFlag::NearestEven)) is Some,
        ensures
            r@ == div_round_scaled(self@, rhs@, S as nat, RoundFlag::NearestEven),
    {
        self.div_round_impl(rhs, RoundFlag::NearestEven)
    }

    /// Divide using nearest, ties away from zero; the divisor must be non-zero and the result in range.
    pub fn div_round_nearest(self, rhs: Self) -> (r: Self)
        requires
            S <= 9,
            rhs@ != 0,
            fit_i32(div_round_scaled(self@, rhs@, S as nat, RoundFlag::Nearest)) is Some,
        ensures
            r@ == div_round_scaled(self@, rhs@, S as nat, RoundFlag::Nearest),
    {
        self.div_round_impl(rhs, RoundFlag::Nearest)
    }

    /// Divide truncating toward zero; the divisor must be non-zero and the result in range.
    pub fn div_round_zero(self, rhs: Self) -> (r: Self)
        requires
            S <= 9,
            rhs@ != 0,
            fit_i32(div_round_scaled(self@, rhs@, S as nat, RoundFlag::Zero)) is Some,
        ensures
            r@ == div_round_scaled(self@, rhs@, S as nat, RoundFlag::Zero),
    {
        self.div_round_impl(rhs, RoundFlag::Zero)
    }

    /// Divide rounding toward positive infinity; the divisor must be non-zero and the result in range.
    pub fn div_round_ceil(self, rhs: Self) -> (r: Self)
        requires
            S <= 9,
            rhs@ != 0,
            fit_i32(div_round_scaled(self@, rhs@, S as nat, RoundFlag::Ceil)) is Some,
        ensures
            r@ == div_round_scaled(self@, rhs@, S as nat, RoundFlag::Ceil),
    {
        self.div_round_impl(rhs, RoundFlag::Ceil)
    }

    /// Divide rounding toward negative infinity; the divisor must be non-zero and the result in range.
    pub fn div_round_floor(self, rhs: Self) -> (r: Self)
        requires
            S <= 9,
            rhs@ != 0,
            fit_i32(div_round_scaled(self@, rhs@, S as nat, RoundFlag::Floor)) is Some,
        ensures
            r@ == div_round_scaled(self@, rhs@, S as nat, RoundFlag::Floor),
    {
        self.div_round_impl(rhs, RoundFlag::Floor)
    }

    /// Divide using nearest-even (banker's) rounding; `None` on division by zero or overflow.
    pub fn checked_div_round_nearest_even(self, rhs: Self) -> (r: Option<Self>)
        requires
            S <= 9,
        ensures
            rhs@ == 0 ==> r is None,
            rhs@ != 0 ==> Self::view_option(r) == fit_i32(
                div_round_scaled(self@, rhs@, S as nat, RoundFlag::NearestEven),
            ),
    {
        self.checked_div_round_impl(rhs, RoundFlag::NearestEven)
    }

    /// Divide using nearest, ties away from zero; `None` on division by zero or overflow.
    pub fn checked_div_round_nearest(self, rhs: Self) -> (r: Option<Self>)
        requires
            S <= 9,
        ensures
            rhs@ == 0 ==> r is None,
            rhs@ != 0 ==> Self::view_option(r) == fit_i32(
                div_round_scaled(self@, rhs@, S as nat, RoundFlag::Nearest),
            ),
    {
        self.checked_div_round_impl(rhs, RoundFlag::Nearest)
    }

    /// Divide truncating toward zero; `None` on division by zero or overflow.
    pub fn checked_div_round_zero(self, rhs: Self) -> (r: Option<Self>)
        requires
            S <= 9,
        ensures
            rhs@ == 0 ==> r is None,
            rhs@ != 0 ==> Self::view_option(r) == fit_i32(
                div_round_scaled(self@, rhs@, S as nat, RoundFlag::Zero),
            ),
    {
        self.checked_div_round_impl(rhs, RoundFlag::Zero)
    }

    /// Divide rounding toward positive infinity; `None` on division by zero or overflow.
    pub fn checked_div_round_ceil(self, rhs: Self) -> (r: Option<Self>)
        requires
            S <= 9,
        ensures
            rhs@ == 0 ==> r is None,
            rhs@ != 0 ==> Self::view_option(r) == fit_i32(
                div_round_scaled(self@, rhs@, S as nat, RoundFlag::Ceil),
            ),
    {
        self.checked_div_round_impl(rhs, RoundFlag::Ceil)
    }

    /// Divide rounding toward negative infinity; `None` on division by zero or overflow.
    pub fn checked_div_round_floor(self, rhs: Self) -> (r: Option<Self>)
        requires
            S <= 9,
        ensures
            rhs@ == 0 ==> r is None,
            rhs@ != 0 ==> Self::view_option(r) == fit_i32(
                div_round_scaled(self@, rhs@, S as nat, RoundFlag::Floor),
            ),
    {
        self.checked_div_round_impl(rhs, RoundFlag::Floor)
    }

    /// Lossless rescale to scale `OUT`: `None` if fractional digits would be
    /// lost or on overflow.
    pub fn rescale_into<const OUT: u32>(self) -> (r: Option<Decimal32<OUT>>)
        requires
            OUT > S ==> OUT - S <= 9,
            OUT < S ==> S - OUT <= 9,
        ensures
            Decimal32::<OUT>::view_option(r) == (if rescale_is_exact(self@, S as nat, OUT as nat) {
                fit_i32(rescale_exact(self@, S as nat, OUT as nat))
            } else {
                None
            }),
    {
        if OUT > S {
            let factor = const_pow10_i32(OUT - S);
            match self.0.checked_mul(factor) {
                Some(v) => Some(Decimal32::from_raw(v)),
                None => None,
            }
        } else if OUT < S {
            let factor = const_pow10_i32(S - OUT);
            proof {
                math::lemma_pow10_positive((S - OUT) as nat);
                math::lemma_trunc_div_rem(self.0 as int, factor as int);
                math::lemma_rem_zero_iff(self.0 as int, factor as int);
                vstd::arithmetic::div_mod::lemma_div_is_ordered_by_denominator(
                    math::abs(self.0 as int),
                    1,
                    factor as int,
                );
            }
            if self.0 % factor != 0 {
                None
            } else {
                Some(Decimal32::from_raw(self.0 / factor))
            }
        } else {
            proof {
                let p = pow10((OUT - S) as nat);
                assert((OUT - S) as nat == 0);
                assert(p == 1);
                assert(self@ * p == self@) by (nonlinear_arith) requires p == 1;
            }
            Some(Decimal32::from_raw(self.0))
        }
    }

    /// Rescale to scale `OUT` rounding under `mode` when digits are dropped;
    /// `None` only on overflow.
    fn rescale_round_into_impl<const OUT: u32>(self, mode: RoundFlag) -> (r: Option<Decimal32<OUT>>)
        requires
            OUT > S ==> OUT - S <= 9,
            OUT < S ==> S - OUT <= 9,
        ensures
            Decimal32::<OUT>::view_option(r) == fit_i32(rescale_round(self@, S as nat, OUT as nat, mode)),
    {
        if OUT > S {
            let factor = const_pow10_i32(OUT - S);
            match self.0.checked_mul(factor) {
                Some(v) => Some(Decimal32::from_raw(v)),
                None => None,
            }
        } else if OUT < S {
            let factor = const_pow10_i32(S - OUT) as i64;
            proof {
                math::lemma_pow10_positive((S - OUT) as nat);
            }
            let result = div_round_i64(self.0 as i64, factor, mode);
            match i32::try_from(result) {
                Ok(v) => Some(Decimal32::from_raw(v)),
                Err(_) => None,
            }
        } else {
            proof {
                let p = pow10((OUT - S) as nat);
                assert((OUT - S) as nat == 0);
                assert(p == 1);
                assert(self@ * p == self@) by (nonlinear_arith) requires p == 1;
            }
            Some(Decimal32::from_raw(self.0))
        }
    }

    /// Rescale to scale `OUT` using nearest-even (banker's) rounding; `None` only on overflow.
    pub fn rescale_round_into_nearest_even<const OUT: u32>(self) -> (r: Option<Decimal32<OUT>>)
        requires
            OUT > S ==> OUT - S <= 9,
            OUT < S ==> S - OUT <= 9,
        ensures
            Decimal32::<OUT>::view_option(r) == fit_i32(
                rescale_round(self@, S as nat, OUT as nat, RoundFlag::NearestEven),
            ),
    {
        self.rescale_round_into_impl::<OUT>(RoundFlag::NearestEven)
    }

    /// Rescale to scale `OUT` using nearest, ties away from zero; `None` only on overflow.
    pub fn rescale_round_into_nearest<const OUT: u32>(self) -> (r: Option<Decimal32<OUT>>)
        requires
            OUT > S ==> OUT - S <= 9,
            OUT < S ==> S - OUT <= 9,
        ensures
            Decimal32::<OUT>::view_option(r) == fit_i32(
                rescale_round(self@, S as nat, OUT as nat, RoundFlag::Nearest),
            ),
    {
        self.rescale_round_into_impl::<OUT>(RoundFlag::Nearest)
    }

    /// Rescale to scale `OUT` truncating toward zero; `None` only on overflow.
    pub fn rescale_round_into_zero<const OUT: u32>(self) -> (r: Option<Decimal32<OUT>>)
        requires
            OUT > S ==> OUT - S <= 9,
            OUT < S ==> S - OUT <= 9,
        ensures
            Decimal32::<OUT>::view_option(r) == fit_i32(
                rescale_round(self@, S as nat, OUT as nat, RoundFlag::Zero),
            ),
    {
        self.rescale_round_into_impl::<OUT>(RoundFlag::Zero)
    }

    /// Rescale to scale `OUT` rounding toward positive infinity; `None` only on overflow.
    pub fn rescale_round_into_ceil<const OUT: u32>(self) -> (r: Option<Decimal32<OUT>>)
        requires
            OUT > S ==> OUT - S <= 9,
            OUT < S ==> S - OUT <= 9,
        ensures
            Decimal32::<OUT>::view_option(r) == fit_i32(
                rescale_round(self@, S as nat, OUT as nat, RoundFlag::Ceil),
            ),
    {
        self.rescale_round_into_impl::<OUT>(RoundFlag::Ceil)
    }

    /// Rescale to scale `OUT` rounding toward negative infinity; `None` only on overflow.
    pub fn rescale_round_into_floor<const OUT: u32>(self) -> (r: Option<Decimal32<OUT>>)
        requires
            OUT > S ==> OUT - S <= 9,
            OUT < S ==> S - OUT <= 9,
        ensures
            Decimal32::<OUT>::view_option(r) == fit_i32(
                rescale_round(self@, S as nat, OUT as nat, RoundFlag::Floor),
            ),
    {
        self.rescale_round_into_impl::<OUT>(RoundFlag::Floor)
    }
}

impl<const S: u32> Decimal32<S> {
    /// Debug text `Decimal32<S>(raw)`, e.g. `"Decimal32<4>(12345)"`.
    pub fn to_debug_string(&self) -> (text: String)
        ensures
            text@ == "Decimal32<"@ + text::nat_text(S as nat) + ">("@ + text::int_text(self@) + ")"@,
    {
        let mut out = String::from_str("Decimal32<");
        text::append_nat(&mut out, S as u64);
        out.append(">(");
        text::append_int(&mut out, self.0 as i64);
        out.append(")");
        out
    }
}

impl<const S: u32> core::str::FromStr for Decimal32<S> {
    type Err = ParseError;

    fn from_str(s: &str) -> (r: Result<Self, ParseError>)
        ensures
            Self::view_result(r) == crate::grammar::parse_signed(
                s.spec_bytes(),
                S as nat,
                i32::MAX as nat,
            ),
    {
        Self::from_slice(s.as_bytes())
    }
}

} // verus!



verus! {

impl<const S: u32> core::ops::Add for Decimal32<S> {
    type Output = Self;

    /// Sum; the caller guarantees it fits.
    fn add(self, rhs: Self) -> (r: Self)
        ensures
            r@ == self@ + rhs@,
    {
        Self(self.0 + rhs.0)
    }
}

impl<const S: u32> vstd::std_specs::ops::AddSpecImpl for Decimal32<S> {
    open spec fn obeys_add_spec() -> bool {
        true
    }

    open spec fn add_req(self, rhs: Self) -> bool {
        fit_i32(self@ + rhs@) is Some
    }

    closed spec fn add_spec(self, rhs: Self) -> Self {
        Self((self.0 + rhs.0) as i32)
    }
}

impl<const S: u32> core::ops::Sub for Decimal32<S> {
    type Output = Self;

    /// Difference; the caller guarantees it fits.
    fn sub(self, rhs: Self) -> (r: Self)
        ensures
            r@ == self@ - rhs@,
    {
        Self(self.0 - rhs.0)
    }
}

impl<const S: u32> vstd::std_specs::ops::SubSpecImpl for Decimal32<S> {
    open spec fn obeys_sub_spec() -> bool {
        true
    }

    open spec fn sub_req(self, rhs: Self) -> bool {
        fit_i32(self@ - rhs@) is Some
    }

    closed spec fn sub_spec(self, rhs: Self) -> Self {
        Self((self.0 - rhs.0) as i32)
    }
}

impl<const S: u32> core::ops::Neg for Decimal32<S> {
    type Output = Self;

    /// Negation; the caller guarantees the value is not `MIN`.
    fn neg(self) -> (r: Self)
        ensures
            r@ == -self@,
    {
        Self(-self.0)
    }
}

impl<const S: u32> vstd::std_specs::ops::NegSpecImpl for Decimal32<S> {
    open spec fn obeys_neg_spec() -> bool {
        true
    }

    open spec fn neg_req(self) -> bool {
        self@ != i32::MIN
    }

    closed spec fn neg_spec(self) -> Self {
        Self((-self.0) as i32)
    }
}

impl<const S: u32> core::ops::Mul for Decimal32<S> {
    type Output = Self;

    /// Product truncated at scale `S`; the caller guarantees it fits.
    fn mul(self, rhs: Self) -> (r: Self)
        ensures
            r@ == mul_scaled(self@, rhs@, S as nat),
    {
        match self.checked_mul(rhs) {
            Some(v) => v,
            None => vstd::pervasive::unreached(),
        }
    }
}

impl<const S: u32> vstd::std_specs::ops::MulSpecImpl for Decimal32<S> {
    open spec fn obeys_mul_spec() -> bool {
        true
    }

    open spec fn mul_req(self, rhs: Self) -> bool {
        S <= 9 && fit_i32(mul_scaled(self@, rhs@, S as nat)) is Some
    }

    closed spec fn mul_spec(self, rhs: Self) -> Self {
        Self(mul_scaled(self@, rhs@, S as nat) as i32)
    }
}

impl<const S: u32> core::ops::Div for Decimal32<S> {
    type Output = Self;

    /// Quotient truncated at scale `S`; the caller guarantees a non-zero
    /// divisor and a result in range.
    fn div(self, rhs: Self) -> (r: Self)
        ensures
            r@ == div_scaled(self@, rhs@, S as nat),
    {
        match self.checked_div(rhs) {
            Some(v) => v,
            None => vstd::pervasive::unreached(),
        }
    }
}

impl<const S: u32> vstd::std_specs::ops::DivSpecImpl for Decimal32<S> {
    open spec fn obeys_div_spec() -> bool {
        true
    }

    open spec fn div_req(self, rhs: Self) -> bool {
        S <= 9 && rhs@ != 0 && fit_i32(div_scaled(self@, rhs@, S as nat)) is Some
    }

    closed spec fn div_spec(self, rhs: Self) -> Self {
        Self(div_scaled(self@, rhs@, S as nat) as i32)
    }
}

} // verus!
