//! `UDecimal32<S>`: an unsigned fixed-scale decimal stored in a `u32` whose
//! unit is `10^(-S)`. Only non-negative values are representable.
use vstd::prelude::*;
use vstd::string::*;

use crate::decimal32::{fit_i32, Decimal32};
use crate::math::{self, clamp, div_round_scaled, div_scaled, fit, mul_scaled, pow10, rescale_exact, rescale_is_exact, rescale_round};
use crate::rounding::div_round_u64;
use crate::text::{self, padded_decimal_text};
use crate::{ParseError, RoundFlag};

verus! {

/// `10^s` as a `u32` (`s <= 9`: `10^10` does not fit).
fn const_pow10_u32(s: u32) -> (r: u32)
    requires
        s <= 9,
    ensures
        r == pow10(s as nat),
{
    let mut result: u32 = 1;
    let mut i: u32 = 0;
    while i < s
        invariant
            i <= s <= 9,
            result == pow10(i as nat),
        decreases s - i,
    {
        proof {
            math::lemma_pow10_monotone((i + 1) as nat, 9);
            math::lemma_pow10_values();
            assert(pow10((i + 1) as nat) == 10 * pow10(i as nat));
        }
        result = result * 10;
        i += 1;
    }
    result
}

/// Fixed-scale 32-bit unsigned decimal: the raw `u32` is the value times `10^S`.
#[derive(Clone, Copy, Debug, Eq, Ord, Hash)]
pub struct UDecimal32<const S: u32>(u32);

impl<const S: u32> View for UDecimal32<S> {
    type V = int;

    /// The raw integer: the mathematical value multiplied by `10^S`.
    closed spec fn view(&self) -> int {
        self.0 as int
    }
}

/// `x` if it fits a `u32`.
pub open spec fn fit_u32(x: int) -> Option<int> {
    fit(x, 0, u32::MAX as int)
}

/// `x` clamped to the `u32` range.
pub open spec fn clamp_u32(x: int) -> int {
    clamp(x, 0, u32::MAX as int)
}

/// `a * 10^s < 2^62` for a `u32` and `s <= 9`.
proof fn lemma_u32_scaled_bound(a: u32, s: nat)
    requires
        s <= 9,
    ensures
        0 <= (a as int) * (pow10(s) as int) < 0x4000_0000_0000_0000,
{
    math::lemma_pow10_monotone(s, 9);
    math::lemma_pow10_values();
    math::lemma_pow10_positive(s);
    let p = pow10(s) as int;
    assert(0 <= (a as int) * p < 0x4000_0000_0000_0000) by (nonlinear_arith)
        requires
            0 <= a <= 0xffff_ffff,
            1 <= p <= 1_000_000_000,
    ;
}

impl<const S: u32> UDecimal32<S> {
    /// The raw value lies in the `u32` range.
    pub proof fn lemma_view_bounds(self)
        ensures
            0 <= self@ <= u32::MAX,
    {
    }

    /// The raw values of an optional decimal.
    pub open spec fn view_option(r: Option<Self>) -> Option<int> {
        match r {
            Some(v) => Some(v@),
            None => None,
        }
    }

    /// The raw value of a parse result.
    pub open spec fn view_result(r: Result<Self, ParseError>) -> Result<int, ParseError> {
        match r {
            Ok(v) => Ok(v@),
            Err(e) => Err(e),
        }
    }

    /// The scale parameter `S`.
    pub fn scale() -> (s: u32)
        ensures
            s == S,
    {
        S
    }

    /// Additive identity: `0`.
    pub fn zero() -> (d: Self)
        ensures
            d@ == 0,
    {
        Self(0)
    }

    /// Multiplicative identity: `1.0`, stored as `10^S`.
    pub fn one() -> (d: Self)
        requires
            S <= 9,
        ensures
            d@ == pow10(S as nat),
    {
        Self(const_pow10_u32(S))
    }

    /// Largest representable value (`u32::MAX` raw).
    pub fn max_value() -> (d: Self)
        ensures
            d@ == u32::MAX,
    {
        Self(u32::MAX)
    }

    /// Wrap a raw `u32` without any scaling.
    pub fn from_raw(raw: u32) -> (d: Self)
        ensures
            d@ == raw,
    {
        Self(raw)
    }

    /// The raw `u32` storage value (the mathematical value times `10^S`).
    pub fn raw(self) -> (r: u32)
        ensures
            r == self@,
    {
        self.0
    }

    /// Parse a decimal string. Signs are rejected; extra fractional digits
    /// beyond `S` are truncated.
    pub fn parse(s: &str) -> (r: Result<Self, ParseError>)
        ensures
            Self::view_result(r) == crate::grammar::parse_unsigned(
                s.spec_bytes(),
                S as nat,
                u32::MAX as nat,
            ),
    {
        Self::from_slice(s.as_bytes())
    }

    /// Parse decimal bytes. Signs are rejected; extra fractional digits are truncated.
    pub fn from_slice(bytes: &[u8]) -> (r: Result<Self, ParseError>)
        ensures
            Self::view_result(r) == crate::grammar::parse_unsigned(
                bytes@,
                S as nat,
                u32::MAX as nat,
            ),
    {
        crate::parse_unsigned32::parse_slice::<S>(bytes)
    }

    /// Convert to `Decimal32<S>`; `None` when the raw value exceeds `i32::MAX`.
    pub fn as_signed(self) -> (r: Option<Decimal32<S>>)
        ensures
            Decimal32::<S>::view_option(r) == fit_i32(self@),
    {
        if self.0 <= i32::MAX as u32 {
            Some(Decimal32::from_raw(self.0 as i32))
        } else {
            None
        }
    }

    /// Sum; `None` on overflow.
    pub fn checked_add(self, rhs: Self) -> (r: Option<Self>)
        ensures
            Self::view_option(r) == fit_u32(self@ + rhs@),
    {
        match self.0.checked_add(rhs.0) {
            Some(v) => Some(Self(v)),
            None => None,
        }
    }

    /// Difference; `None` on underflow.
    pub fn checked_sub(self, rhs: Self) -> (r: Option<Self>)
        ensures
            Self::view_option(r) == fit_u32(self@ - rhs@),
    {
        match self.0.checked_sub(rhs.0) {
            Some(v) => Some(Self(v)),
            None => None,
        }
    }

    /// Product, truncated at scale `S`; `None` on overflow.
    pub fn checked_mul(self, rhs: Self) -> (r: Option<Self>)
        requires
            S <= 9,
        ensures
            Self::view_option(r) == fit_u32(mul_scaled(self@, rhs@, S as nat)),
    {
        proof {
            assert((self.0 as int) * (rhs.0 as int) <= 0xffff_ffff * 0xffff_ffff) by (nonlinear_arith)
                requires self.0 <= 0xffff_ffff, rhs.0 <= 0xffff_ffff;
            assert(0 <= (self.0 as int) * (rhs.0 as int)) by (nonlinear_arith);
            math::lemma_pow10_positive(S as nat);
        }
        let product = self.0 as u64 * rhs.0 as u64;
        let result = product / const_pow10_u32(S) as u64;
        let v: u32 = result.try_into().ok()?;
        Some(Self(v))
    }

    /// Quotient, truncated at scale `S`; `None` on division by zero or overflow.
    pub fn checked_div(self, rhs: Self) -> (r: Option<Self>)
        requires
            S <= 9,
        ensures
            rhs@ == 0 ==> r is None,
            rhs@ != 0 ==> Self::view_option(r) == fit_u32(div_scaled(self@, rhs@, S as nat)),
    {
        if rhs.0 == 0 {
            return None;
        }
        proof {
            lemma_u32_scaled_bound(self.0, S as nat);
        }
        let num = self.0 as u64 * const_pow10_u32(S) as u64;
        let result = num / rhs.0 as u64;
        let v: u32 = result.try_into().ok()?;
        Some(Self(v))
    }

    /// Sum, clamped to `MAX` on overflow.
    pub fn saturating_add(self, rhs: Self) -> (r: Self)
        ensures
            r@ == clamp_u32(self@ + rhs@),
    {
        Self(self.0.saturating_add(rhs.0))
    }

    /// Difference, clamped to `ZERO` on underflow.
    pub fn saturating_sub(self, rhs: Self) -> (r: Self)
        ensures
            r@ == clamp_u32(self@ - rhs@),
    {
        Self(self.0.saturating_sub(rhs.0))
    }

    /// Product truncated at scale `S`, clamped to `MAX` on overflow.
    pub fn saturating_mul(self, rhs: Self) -> (r: Self)
        requires
            S <= 9,
        ensures
            r@ == clamp_u32(mul_scaled(self@, rhs@, S as nat)),
    {
        proof {
            assert(0 <= (self.0 as int) * (rhs.0 as int)) by (nonlinear_arith);
            math::lemma_pow10_positive(S as nat);
            vstd::arithmetic::div_mod::lemma_div_pos_is_pos((self.0 as int) * (rhs.0 as int), pow10(S as nat) as int);
        }
        match self.checked_mul(rhs) {
            Some(v) => v,
            None => Self(u32::MAX),
        }
    }

    /// Quotient rounded under `mode`; `None` on division by zero or overflow.
    fn checked_div_round_impl(self, rhs: Self, mode: RoundFlag) -> (r: Option<Self>)
        requires
            S <= 9,
        ensures
            rhs@ == 0 ==> r is None,
            rhs@ != 0 ==> Self::view_option(r) == fit_u32(
                div_round_scaled(self@, rhs@, S as nat, mode),
            ),
    {
        if rhs.0 == 0 {
            return None;
        }
        proof {
            lemma_u32_scaled_bound(self.0, S as nat);
        }
        let num = self.0 as u64 * const_pow10_u32(S) as u64;
        let result = div_round_u64(num, rhs.0 as u64, mode);
        let v: u32 = result.try_into().ok()?;
        Some(Self(v))
    }

    /// Quotient rounded under `mode`, for a non-zero divisor and a result in range.
    fn div_round_impl(self, rhs: Self, mode: RoundFlag) -> (r: Self)
        requires
            S <= 9,
            rhs@ != 0,
            fit_u32(div_round_scaled(self@, rhs@, S as nat, mode)) is Some,
        ensures
            r@ == div_round_scaled(self@, rhs@, S as nat, mode),
    {
        match self.checked_div_round_impl(rhs, mode) {
            Some(v) => v,
            None => vstd::pervasive::unreached(),
        }
    }

    /// Divide using nearest-even (banker's) rounding; the divisor must be non-zero and the result in range.
    pub fn div_round_nearest_even(self, rhs: Self) -> (r: Self)
        requires
            S <= 9,
            rhs@ != 0,
            fit_u32(div_round_scaled(self@, rhs@, S as nat, RoundFlag::NearestEven)) is Some,
        ensures
            r@ == div_round_scaled(self@, rhs@, S as nat, RoundFlag::NearestEven),
    {
        self.div_round_impl(rhs, RoundFlag::NearestEven)
    }

    /// Divide using nearest, ties away from zero; the divisor must be non-zero and the result in range.
    pub fn div_round_nearest(self, rhs: Self) -> (r: Self)
        requires
            S <= 9,
            rhs@ != 0,
            fit_u32(div_round_scaled(self@, rhs@, S as nat, RoundFlag::Nearest)) is Some,
        ensures
            r@ == div_round_scaled(self@, rhs@, S as nat, RoundFlag::Nearest),
    {
        self.div_round_impl(rhs, RoundFlag::Nearest)
    }

    /// Divide truncating toward zero; the divisor must be non-zero and the result in range.
    pub fn div_round_zero(self, rhs: Self) -> (r: Self)
        requires
            S <= 9,
            rhs@ != 0,
            fit_u32(div_round_scaled(self@, rhs@, S as nat, RoundFlag::Zero)) is Some,
        ensures
            r@ == div_round_scaled(self@, rhs@, S as nat, RoundFlag::Zero),
    {
        self.div_round_impl(rhs, RoundFlag::Zero)
    }

    /// Divide rounding toward positive infinity; the divisor must be non-zero and the result in range.
    pub fn div_round_ceil(self, rhs: Self) -> (r: Self)
        requires
            S <= 9,
            rhs@ != 0,
            fit_u32(div_round_scaled(self@, rhs@, S as nat, RoundFlag::Ceil)) is Some,
        ensures
            r@ == div_round_scaled(self@, rhs@, S as nat, RoundFlag::Ceil),
    {
        self.div_round_impl(rhs, RoundFlag::Ceil)
    }

    /// Divide rounding toward negative infinity; the divisor must be non-zero and the result in range.
    pub fn div_round_floor(self, rhs: Self) -> (r: Self)
        requires
            S <= 9,
            rhs@ != 0,
            fit_u32(div_round_scaled(self@, rhs@, S as nat, RoundFlag::Floor)) is Some,
        ensures
            r@ == div_round_scaled(self@, rhs@, S as nat, RoundFlag::Floor),
    {
        self.div_round_impl(rhs, RoundFlag::Floor)
    }

    /// Divide using nearest-even (banker's) rounding; `None` on division by zero or overflow.
    pub fn checked_div_round_nearest_even(self, rhs: Self) -> (r: Option<Self>)
        requires
            S <= 9,
        ensures
            rhs@ == 0 ==> r is None,
            rhs@ != 0 ==> Self::view_option(r) == fit_u32(
                div_round_scaled(self@, rhs@, S as nat, RoundFlag::NearestEven),
            ),
    {
        self.checked_div_round_impl(rhs, RoundFlag::NearestEven)
    }

    /// Divide using nearest, ties away from zero; `None` on division by zero or overflow.
    pub fn checked_div_round_nearest(self, rhs: Self) -> (r: Option<Self>)
        requires
            S <= 9,
        ensures
            rhs@ == 0 ==> r is None,
            rhs@ != 0 ==> Self::view_option(r) == fit_u32(
                div_round_scaled(self@, rhs@, S as nat, RoundFlag::Nearest),
            ),
    {
        self.checked_div_round_impl(rhs, RoundFlag::Nearest)
    }

    /// Divide truncating toward zero; `None` on division by zero or overflow.
    pub fn checked_div_round_zero(self, rhs: Self) -> (r: Option<Self>)
        requires
            S <= 9,
        ensures
            rhs@ == 0 ==> r is None,
            rhs@ != 0 ==> Self::view_option(r) == fit_u32(
                div_round_scaled(self@, rhs@, S as nat, RoundFlag::Zero),
            ),
    {
        self.checked_div_round_impl(rhs, RoundFlag::Zero)
    }

    /// Divide rounding toward positive infinity; `None` on division by zero or overflow.
    pub fn checked_div_round_ceil(self, rhs: Self) -> (r: Option<Self>)
        requires
            S <= 9,
        ensures
            rhs@ == 0 ==> r is None,
            rhs@ != 0 ==> Self::view_option(r) == fit_u32(
                div_round_scaled(self@, rhs@, S as nat, RoundFlag::Ceil),
            ),
    {
        self.checked_div_round_impl(rhs, RoundFlag::Ceil)
    }

    /// Divide rounding toward negative infinity; `None` on division by zero or overflow.
    pub fn checked_div_round_floor(self, rhs: Self) -> (r: Option<Self>)
        requires
            S <= 9,
        ensures
            rhs@ == 0 ==> r is None,
            rhs@ != 0 ==> Self::view_option(r) == fit_u32(
                div_round_scaled(self@, rhs@, S as nat, RoundFlag::Floor),
            ),
    {
        self.checked_div_round_impl(rhs, RoundFlag::Floor)
    }

    /// Lossless rescale to scale `OUT`: `None` if fractional digits would be
    /// lost or on overflow.
    pub fn rescale_into<const OUT: u32>(self) -> (r: Option<UDecimal32<OUT>>)
        requires
            OUT > S ==> OUT - S <= 9,
            OUT < S ==> S - OUT <= 9,
        ensures
            UDecimal32::<OUT>::view_option(r) == (if rescale_is_exact(self@, S as nat, OUT as nat) {
                fit_u32(rescale_exact(self@, S as nat, OUT as nat))
            } else {
                None
            }),
    {
        if OUT > S {
            let factor = const_pow10_u32(OUT - S);
            match self.0.checked_mul(factor) {
                Some(v) => Some(UDecimal32::from_raw(v)),
                None => None,
            }
        } else if OUT < S {
            let factor = const_pow10_u32(S - OUT);
            proof {
                math::lemma_pow10_positive((S - OUT) as nat);
            }
            if !self.0.is_multiple_of(factor) {
                None
            } else {
                Some(UDecimal32::from_raw(self.0 / factor))
            }
        } else {
            proof {
                let p = pow10((OUT - S) as nat);
                assert((OUT - S) as nat == 0);
                assert(p == 1);
                assert(self@ * p == self@) by (nonlinear_arith) requires p == 1;
            }
            Some(UDecimal32::from_raw(self.0))
        }
    }

    /// Rescale to scale `OUT` rounding under `mode` when digits are dropped;
    /// `None` only on overflow.
    fn rescale_round_into_impl<const OUT: u32>(self, mode: RoundFlag) -> (r: Option<UDecimal32<OUT>>)
        requires
            OUT > S ==> OUT - S <= 9,
            OUT < S ==> S - OUT <= 9,
        ensures
            UDecimal32::<OUT>::view_option(r) == fit_u32(rescale_round(self@, S as nat, OUT as nat, mode)),
    {
        if OUT > S {
            let factor = const_pow10_u32(OUT - S);
            match self.0.checked_mul(factor) {
                Some(v) => Some(UDecimal32::from_raw(v)),
                None => None,
            }
        } else if OUT < S {
            let factor = const_pow10_u32(S - OUT) as u64;
            proof {
                math::lemma_pow10_positive((S - OUT) as nat);
            }
            let result = div_round_u64(self.0 as u64, factor, mode);
            match u32::try_from(result) {
                Ok(v) => Some(UDecimal32::from_raw(v)),
                Err(_) => None,
            }
        } else {
            proof {
                let p = pow10((OUT - S) as nat);
                assert((OUT - S) as nat == 0);
                assert(p == 1);
                assert(self@ * p == self@) by (nonlinear_arith) requires p == 1;
            }
            Some(UDecimal32::from_raw(self.0))
        }
    }

    /// Rescale to scale `OUT` using nearest-even (banker's) rounding; `None` only on overflow.
    pub fn rescale_round_into_nearest_even<const OUT: u32>(self) -> (r: Option<UDecimal32<OUT>>)
        requires
            OUT > S ==> OUT - S <= 9,
            OUT < S ==> S - OUT <= 9,
        ensures
            UDecimal32::<OUT>::view_option(r) == fit_u32(
                rescale_round(self@, S as nat, OUT as nat, RoundFlag::NearestEven),
            ),
    {
        self.rescale_round_into_impl::<OUT>(RoundFlag::NearestEven)
    }

    /// Rescale to scale `OUT` using nearest, ties away from zero; `None` only on overflow.
    pub fn rescale_round_into_nearest<const OUT: u32>(self) -> (r: Option<UDecimal32<OUT>>)
        requires
            OUT > S ==> OUT - S <= 9,
            OUT < S ==> S - OUT <= 9,
        ensures
            UDecimal32::<OUT>::view_option(r) == fit_u32(
                rescale_round(self@, S as nat, OUT as nat, RoundFlag::Nearest),
            ),
    {
        self.rescale_round_into_impl::<OUT>(RoundFlag::Nearest)
    }

    /// Rescale to scale `OUT` truncating toward zero; `None` only on overflow.
    pub fn rescale_round_into_zero<const OUT: u32>(self) -> (r: Option<UDecimal32<OUT>>)
        requires
            OUT > S ==> OUT - S <= 9,
            OUT < S ==> S - OUT <= 9,
        ensures
            UDecimal32::<OUT>::view_option(r) == fit_u32(
                rescale_round(self@, S as nat, OUT as nat, RoundFlag::Zero),
            ),
    {
        self.rescale_round_into_impl::<OUT>(RoundFlag::Zero)
    }

    /// Rescale to scale `OUT` rounding toward positive infinity; `None` only on overflow.
    pub fn rescale_round_into_ceil<const OUT: u32>(self) -> (r: Option<UDecimal32<OUT>>)
        requires
            OUT > S ==> OUT - S <= 9,
            OUT < S ==> S - OUT <= 9,
        ensures
            UDecimal32::<OUT>::view_option(r) == fit_u32(
                rescale_round(self@, S as nat, OUT as nat, RoundFlag::Ceil),
            ),
    {
        self.rescale_round_into_impl::<OUT>(RoundFlag::Ceil)
    }

    /// Rescale to scale `OUT` rounding toward negative infinity; `None` only on overflow.
    pub fn rescale_round_into_floor<const OUT: u32>(self) -> (r: Option<UDecimal32<OUT>>)
        requires
            OUT > S ==> OUT - S <= 9,
            OUT < S ==> S - OUT <= 9,
        ensures
            UDecimal32::<OUT>::view_option(r) == fit_u32(
                rescale_round(self@, S as nat, OUT as nat, RoundFlag::Floor),
            ),
    {
        self.rescale_round_into_impl::<OUT>(RoundFlag::Floor)
    }

    /// Decimal text with the fraction zero-padded to exactly `S` digits
    /// (`"1.50"`, `"0.00"`, `"42"` at scale 0).
    pub fn to_string(&self) -> (text: String)
        requires
            S <= 9,
        ensures
            text@ == padded_decimal_text(self@ as nat, S as nat),
    {
        let mut out = String::new();
        if S == 0 {
            text::append_nat(&mut out, self.0 as u64);
            return out;
        }
        let divisor = const_pow10_u32(S);
        proof {
            math::lemma_pow10_positive(S as nat);
            reveal_strlit(".");
        }
        let integer = self.0 / divisor;
        let frac = self.0 % divisor;
        text::append_nat(&mut out, integer as u64);
        out.append(".");
        text::append_padded(&mut out, frac as u64, S);
        proof {
            assert(out@ =~= padded_decimal_text(self@ as nat, S as nat));
        }
        out
    }
}

impl<const S: u32> Decimal32<S> {
    /// Convert to `UDecimal32<S>`; `None` for negative values.
    pub fn as_unsigned(self) -> (r: Option<UDecimal32<S>>)
        ensures
            UDecimal32::<S>::view_option(r) == fit_u32(self@),
    {
        match u32::try_from(self.raw()) {
            Ok(v) => Some(UDecimal32::from_raw(v)),
            Err(_) => None,
        }
    }
}

impl<const S: u32> core::ops::Add for UDecimal32<S> {
    type Output = Self;

    /// Sum; the caller guarantees it fits.
    fn add(self, rhs: Self) -> (r: Self)
        ensures
            r@ == self@ + rhs@,
    {
        Self(self.0 + rhs.0)
    }
}

impl<const S: u32> vstd::std_specs::ops::AddSpecImpl for UDecimal32<S> {
    open spec fn obeys_add_spec() -> bool {
        true
    }

    open spec fn add_req(self, rhs: Self) -> bool {
        fit_u32(self@ + rhs@) is Some
    }

    closed spec fn add_spec(self, rhs: Self) -> Self {
        Self((self.0 + rhs.0) as u32)
    }
}

/// Subtraction returns `None` instead of underflowing.
impl<const S: u32> core::ops::Sub for UDecimal32<S> {
    type Output = Option<Self>;

    fn sub(self, rhs: Self) -> (r: Option<Self>)
        ensures
            Self::view_option(r) == fit_u32(self@ - rhs@),
    {
        self.checked_sub(rhs)
    }
}

impl<const S: u32> vstd::std_specs::ops::SubSpecImpl for UDecimal32<S> {
    open spec fn obeys_sub_spec() -> bool {
        true
    }

    open spec fn sub_req(self, rhs: Self) -> bool {
        true
    }

    closed spec fn sub_spec(self, rhs: Self) -> Option<Self> {
        if self.0 >= rhs.0 {
            Some(Self((self.0 - rhs.0) as u32))
        } else {
            None
        }
    }
}

impl<const S: u32> core::ops::Mul for UDecimal32<S> {
    type Output = Self;

    /// Product truncated at scale `S`; the caller guarantees it fits.
    fn mul(self, rhs: Self) -> (r: Self)
        ensures
            r@ == mul_scaled(self@, rhs@, S as nat),
    {
        match self.checked_mul(rhs) {
            Some(v) => v,
            None => vstd::pervasive::unreached(),
        }
    }
}

impl<const S: u32> vstd::std_specs::ops::MulSpecImpl for UDecimal32<S> {
    open spec fn obeys_mul_spec() -> bool {
        true
    }

    open spec fn mul_req(self, rhs: Self) -> bool {
        S <= 9 && fit_u32(mul_scaled(self@, rhs@, S as nat)) is Some
    }

    closed spec fn mul_spec(self, rhs: Self) -> Self {
        Self(mul_scaled(self@, rhs@, S as nat) as u32)
    }
}

impl<const S: u32> core::ops::Div for UDecimal32<S> {
    type Output = Self;

    /// Quotient truncated at scale `S`; the caller guarantees a non-zero
    /// divisor and a result in range.
    fn div(self, rhs: Self) -> (r: Self)
        ensures
            r@ == div_scaled(self@, rhs@, S as nat),
    {
        match self.checked_div(rhs) {
            Some(v) => v,
            None => vstd::pervasive::unreached(),
        }
    }
}

impl<const S: u32> vstd::std_specs::ops::DivSpecImpl for UDecimal32<S> {
    open spec fn obeys_div_spec() -> bool {
        true
    }

    open spec fn div_req(self, rhs: Self) -> bool {
        S <= 9 && rhs@ != 0 && fit_u32(div_scaled(self@, rhs@, S as nat)) is Some
    }

    closed spec fn div_spec(self, rhs: Self) -> Self {
        Self(div_scaled(self@, rhs@, S as nat) as u32)
    }
}

impl<const S: u32> UDecimal32<S> {
    /// Debug text `UDecimal32<S>(raw)`, e.g. `"UDecimal32<4>(12345)"`.
    pub fn to_debug_string(&self) -> (text: String)
        ensures
            text@ == "UDecimal32<"@ + text::nat_text(S as nat) + ">("@ + text::int_text(self@) + ")"@,
    {
        let mut out = String::from_str("UDecimal32<");
        text::append_nat(&mut out, S as u64);
        out.append(">(");
        text::append_int(&mut out, self.0 as i64);
        out.append(")");
        out
    }
}

impl<const S: u32> core::str::FromStr for UDecimal32<S> {
    type Err = ParseError;

    fn from_str(s: &str) -> (r: Result<Self, ParseError>)
        ensures
            Self::view_result(r) == crate::grammar::parse_unsigned(
                s.spec_bytes(),
                S as nat,
                u32::MAX as nat,
            ),
    {
        Self::from_slice(s.as_bytes())
    }
}

} // verus!

verus! {

/// Converting to the other signedness and back gives back the value it started from
/// whenever the first conversion succeeds: `as_signed` succeeds exactly for
/// raw values up to `i32::MAX`, and `as_unsigned` of its result succeeds.
pub proof fn law_signedness_round_trip<const S: u32>(u: UDecimal32<S>, d: Decimal32<S>)
    ensures
        fit_i32(u@) is Some ==> fit_u32(fit_i32(u@)->0) == Some(u@),
        fit_u32(d@) is Some ==> fit_i32(fit_u32(d@)->0) == Some(d@),
{
    u.lemma_view_bounds();
    d.lemma_view_bounds();
}

} // verus!
