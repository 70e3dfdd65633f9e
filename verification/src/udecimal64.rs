//! `UDecimal64<S>`: the 64-bit unsigned sibling of `UDecimal32<S>`, with
//! `u128` intermediates; the target of `UDecimal32::widen` and the source of
//! `narrow`.
use vstd::prelude::*;
use vstd::string::*;

use crate::udecimal32::{fit_u32, UDecimal32};
use crate::math::{self, div_round_scaled, div_scaled, fit, mul_scaled, pow10, rescale_exact, rescale_is_exact, rescale_round};
use crate::rounding::div_round_u128;
use crate::text::{self, padded_decimal_text};
use crate::RoundFlag;

verus! {

/// `10^s` as a `u64` (`s <= 18`).
fn const_pow10_u64(s: u32) -> (r: u64)
    requires
        s <= 18,
    ensures
        r == pow10(s as nat),
{
    let mut result: u64 = 1;
    let mut i: u32 = 0;
    while i < s
        invariant
            i <= s <= 18,
            result == pow10(i as nat),
        decreases s - i,
    {
        proof {
            math::lemma_pow10_monotone((i + 1) as nat, 18);
            math::lemma_pow10_values();
            assert(pow10((i + 1) as nat) == 10 * pow10(i as nat));
        }
        result = result * 10;
        i += 1;
    }
    result
}

/// Fixed-scale 64-bit unsigned decimal: the raw `u64` is the value times `10^S`.
#[derive(Clone, Copy, Debug, Eq, Ord, Hash)]
pub struct UDecimal64<const S: u32>(u64);

impl<const S: u32> View for UDecimal64<S> {
    type V = int;

    /// The raw integer: the mathematical value multiplied by `10^S`.
    closed spec fn view(&self) -> int {
        self.0 as int
    }
}

/// `x` if it fits a `u64`.
pub open spec fn fit_u64(x: int) -> Option<int> {
    fit(x, 0, u64::MAX as int)
}

/// `a * 10^s < 2^124` for a `u64` and `s <= 18`.
proof fn lemma_u64_scaled_bound(a: u64, s: nat)
    requires
        s <= 18,
    ensures
        0 <= (a as int) * (pow10(s) as int) < 0x1000_0000_0000_0000_0000_0000_0000_0000,
{
    math::lemma_pow10_monotone(s, 18);
    math::lemma_pow10_values();
    math::lemma_pow10_positive(s);
    let p = pow10(s) as int;
    assert(0 <= (a as int) * p < 0x1000_0000_0000_0000_0000_0000_0000_0000) by (nonlinear_arith)
        requires
            0 <= a <= 0xffff_ffff_ffff_ffff,
            1 <= p <= 1_000_000_000_000_000_000,
    ;
}

impl<const S: u32> UDecimal64<S> {
    /// The raw values of an optional decimal.
    pub open spec fn view_option(r: Option<Self>) -> Option<int> {
        match r {
            Some(v) => Some(v@),
            None => None,
        }
    }

    /// Largest representable value (`u64::MAX` raw).
    pub fn max_value() -> (d: Self)
        ensures
            d@ == u64::MAX,
    {
        Self(u64::MAX)
    }

    /// Wrap a raw `u64` without any scaling.
    pub fn from_raw(raw: u64) -> (d: Self)
        ensures
            d@ == raw,
    {
        Self(raw)
    }

    /// The raw `u64` storage value (the mathematical value times `10^S`).
    pub fn raw(self) -> (r: u64)
        ensures
            r == self@,
    {
        self.0
    }

    /// Difference; `None` on underflow.
    pub fn checked_sub(self, rhs: Self) -> (r: Option<Self>)
        ensures
            Self::view_option(r) == fit_u64(self@ - rhs@),
    {
        match self.0.checked_sub(rhs.0) {
            Some(v) => Some(Self(v)),
            None => None,
        }
    }

    /// Product, truncated at scale `S`; `None` on overflow.
    pub fn checked_mul(self, rhs: Self) -> (r: Option<Self>)
        requires
            S <= 18,
        ensures
            Self::view_option(r) == fit_u64(mul_scaled(self@, rhs@, S as nat)),
    {
        proof {
            assert((self.0 as int) * (rhs.0 as int) <= 0xffff_ffff_ffff_ffff * 0xffff_ffff_ffff_ffff)
                by (nonlinear_arith)
                requires self.0 <= 0xffff_ffff_ffff_ffff, rhs.0 <= 0xffff_ffff_ffff_ffff;
            assert(0 <= (self.0 as int) * (rhs.0 as int)) by (nonlinear_arith);
            math::lemma_pow10_positive(S as nat);
        }
        let product = self.0 as u128 * rhs.0 as u128;
        let result = product / const_pow10_u64(S) as u128;
        let v: u64 = result.try_into().ok()?;
        Some(Self(v))
    }

    /// Quotient, truncated at scale `S`; `None` on division by zero or overflow.
    pub fn checked_div(self, rhs: Self) -> (r: Option<Self>)
        requires
            S <= 18,
        ensures
            rhs@ == 0 ==> r is None,
            rhs@ != 0 ==> Self::view_option(r) == fit_u64(div_scaled(self@, rhs@, S as nat)),
    {
        if rhs.0 == 0 {
            return None;
        }
        proof {
            lemma_u64_scaled_bound(self.0, S as nat);
        }
        let num = self.0 as u128 * const_pow10_u64(S) as u128;
        let result = num / rhs.0 as u128;
        let v: u64 = result.try_into().ok()?;
        Some(Self(v))
    }

    /// Quotient rounded under `mode`; `None` on division by zero or overflow.
    fn checked_div_round_impl(self, rhs: Self, mode: RoundFlag) -> (r: Option<Self>)
        requires
            S <= 18,
        ensures
            rhs@ == 0 ==> r is None,
            rhs@ != 0 ==> Self::view_option(r) == fit_u64(
                div_round_scaled(self@, rhs@, S as nat, mode),
            ),
    {
        if rhs.0 == 0 {
            return None;
        }
        proof {
            lemma_u64_scaled_bound(self.0, S as nat);
        }
        let num = self.0 as u128 * const_pow10_u64(S) as u128;
        let result = div_round_u128(num, rhs.0 as u128, mode);
        let v: u64 = result.try_into().ok()?;
        Some(Self(v))
    }

    /// Divide using nearest-even (banker's) rounding; `None` on division by zero or overflow.
    pub fn checked_div_round_nearest_even(self, rhs: Self) -> (r: Option<Self>)
        requires
            S <= 18,
        ensures
            rhs@ == 0 ==> r is None,
            rhs@ != 0 ==> Self::view_option(r) == fit_u64(
                div_round_scaled(self@, rhs@, S as nat, RoundFlag::NearestEven),
            ),
    {
        self.checked_div_round_impl(rhs, RoundFlag::NearestEven)
    }

    /// Divide using nearest, ties away from zero; `None` on division by zero or overflow.
    pub fn checked_div_round_nearest(self, rhs: Self) -> (r: Option<Self>)
        requires
            S <= 18,
        ensures
            rhs@ == 0 ==> r is None,
            rhs@ != 0 ==> Self::view_option(r) == fit_u64(
                div_round_scaled(self@, rhs@, S as nat, RoundFlag::Nearest),
            ),
    {
        self.checked_div_round_impl(rhs, RoundFlag::Nearest)
    }

    /// Divide truncating toward zero; `None` on division by zero or overflow.
    pub fn checked_div_round_zero(self, rhs: Self) -> (r: Option<Self>)
        requires
            S <= 18,
        ensures
            rhs@ == 0 ==> r is None,
            rhs@ != 0 ==> Self::view_option(r) == fit_u64(
                div_round_scaled(self@, rhs@, S as nat, RoundFlag::Zero),
            ),
    {
        self.checked_div_round_impl(rhs, RoundFlag::Zero)
    }

    /// Divide rounding toward positive infinity; `None` on division by zero or overflow.
    pub fn checked_div_round_ceil(self, rhs: Self) -> (r: Option<Self>)
        requires
            S <= 18,
        ensures
            rhs@ == 0 ==> r is None,
            rhs@ != 0 ==> Self::view_option(r) == fit_u64(
                div_round_scaled(self@, rhs@, S as nat, RoundFlag::Ceil),
            ),
    {
        self.checked_div_round_impl(rhs, RoundFlag::Ceil)
    }

    /// Divide rounding toward negative infinity; `None` on division by zero or overflow.
    pub fn checked_div_round_floor(self, rhs: Self) -> (r: Option<Self>)
        requires
            S <= 18,
        ensures
            rhs@ == 0 ==> r is None,
            rhs@ != 0 ==> Self::view_option(r) == fit_u64(
                div_round_scaled(self@, rhs@, S as nat, RoundFlag::Floor),
            ),
    {
        self.checked_div_round_impl(rhs, RoundFlag::Floor)
    }

    /// Lossless rescale to scale `OUT`: `None` if fractional digits would be
    /// lost or on overflow.
    pub fn rescale_into<const OUT: u32>(self) -> (r: Option<UDecimal64<OUT>>)
        requires
            OUT > S ==> OUT - S <= 18,
            OUT < S ==> S - OUT <= 18,
        ensures
            UDecimal64::<OUT>::view_option(r) == (if rescale_is_exact(self@, S as nat, OUT as nat) {
                fit_u64(rescale_exact(self@, S as nat, OUT as nat))
            } else {
                None
            }),
    {
        if OUT > S {
            let factor = const_pow10_u64(OUT - S);
            match self.0.checked_mul(factor) {
                Some(v) => Some(UDecimal64::from_raw(v)),
                None => None,
            }
        } else if OUT < S {
            let factor = const_pow10_u64(S - OUT);
            proof {
                math::lemma_pow10_positive((S - OUT) as nat);
            }
            if !self.0.is_multiple_of(factor) {
                None
            } else {
                Some(UDecimal64::from_raw(self.0 / factor))
            }
        } else {
            proof {
                let p = pow10((OUT - S) as nat);
                assert((OUT - S) as nat == 0);
                assert(p == 1);
                assert(self@ * p == self@) by (nonlinear_arith) requires p == 1;
            }
            Some(UDecimal64::from_raw(self.0))
        }
    }

    /// Rescale to scale `OUT` rounding under `mode` when digits are dropped;
    /// `None` only on overflow.
    fn rescale_round_into_impl<const OUT: u32>(self, mode: RoundFlag) -> (r: Option<UDecimal64<OUT>>)
        requires
            OUT > S ==> OUT - S <= 18,
            OUT < S ==> S - OUT <= 18,
        ensures
            UDecimal64::<OUT>::view_option(r) == fit_u64(rescale_round(self@, S as nat, OUT as nat, mode)),
    {
        if OUT > S {
            let factor = const_pow10_u64(OUT - S);
            match self.0.checked_mul(factor) {
                Some(v) => Some(UDecimal64::from_raw(v)),
                None => None,
            }
        } else if OUT < S {
            let factor = const_pow10_u64(S - OUT) as u128;
            proof {
                math::lemma_pow10_positive((S - OUT) as nat);
            }
            let result = div_round_u128(self.0 as u128, factor, mode);
            match u64::try_from(result) {
                Ok(v) => Some(UDecimal64::from_raw(v)),
                Err(_) => None,
            }
        } else {
            proof {
                let p = pow10((OUT - S) as nat);
                assert((OUT - S) as nat == 0);
                assert(p == 1);
                assert(self@ * p == self@) by (nonlinear_arith) requires p == 1;
            }
            Some(UDecimal64::from_raw(self.0))
        }
    }

    /// Rescale to scale `OUT` using nearest-even (banker's) rounding; `None` only on overflow.
    pub fn rescale_round_into_nearest_even<const OUT: u32>(self) -> (r: Option<UDecimal64<OUT>>)
        requires
            OUT > S ==> OUT - S <= 18,
            OUT < S ==> S - OUT <= 18,
        ensures
            UDecimal64::<OUT>::view_option(r) == fit_u64(
                rescale_round(self@, S as nat, OUT as nat, RoundFlag::NearestEven),
            ),
    {
        self.rescale_round_into_impl::<OUT>(RoundFlag::NearestEven)
    }

    /// Rescale to scale `OUT` using nearest, ties away from zero; `None` only on overflow.
    pub fn rescale_round_into_nearest<const OUT: u32>(self) -> (r: Option<UDecimal64<OUT>>)
        requires
            OUT > S ==> OUT - S <= 18,
            OUT < S ==> S - OUT <= 18,
        ensures
            UDecimal64::<OUT>::view_option(r) == fit_u64(
                rescale_round(self@, S as nat, OUT as nat, RoundFlag::Nearest),
            ),
    {
        self.rescale_round_into_impl::<OUT>(RoundFlag::Nearest)
    }

    /// Rescale to scale `OUT` truncating toward zero; `None` only on overflow.
    pub fn rescale_round_into_zero<const OUT: u32>(self) -> (r: Option<UDecimal64<OUT>>)
        requires
            OUT > S ==> OUT - S <= 18,
            OUT < S ==> S - OUT <= 18,
        ensures
            UDecimal64::<OUT>::view_option(r) == fit_u64(
                rescale_round(self@, S as nat, OUT as nat, RoundFlag::Zero),
            ),
    {
        self.rescale_round_into_impl::<OUT>(RoundFlag::Zero)
    }

    /// Rescale to scale `OUT` rounding toward positive infinity; `None` only on overflow.
    pub fn rescale_round_into_ceil<const OUT: u32>(self) -> (r: Option<UDecimal64<OUT>>)
        requires
            OUT > S ==> OUT - S <= 18,
            OUT < S ==> S - OUT <= 18,
        ensures
            UDecimal64::<OUT>::view_option(r) == fit_u64(
                rescale_round(self@, S as nat, OUT as nat, RoundFlag::Ceil),
            ),
    {
        self.rescale_round_into_impl::<OUT>(RoundFlag::Ceil)
    }

    /// Rescale to scale `OUT` rounding toward negative infinity; `None` only on overflow.
    pub fn rescale_round_into_floor<const OUT: u32>(self) -> (r: Option<UDecimal64<OUT>>)
        requires
            OUT > S ==> OUT - S <= 18,
            OUT < S ==> S - OUT <= 18,
        ensures
            UDecimal64::<OUT>::view_option(r) == fit_u64(
                rescale_round(self@, S as nat, OUT as nat, RoundFlag::Floor),
            ),
    {
        self.rescale_round_into_impl::<OUT>(RoundFlag::Floor)
    }

    /// Decimal text with the fraction zero-padded to exactly `S` digits
    /// (`"1.50"`, `"0.00"`, `"42"` at scale 0).
    pub fn to_string(&self) -> (text: String)
        requires
            S <= 18,
        ensures
            text@ == padded_decimal_text(self@ as nat, S as nat),
    {
        let mut out = String::new();
        if S == 0 {
            text::append_nat(&mut out, self.0);
            return out;
        }
        let divisor = const_pow10_u64(S);
        proof {
            math::lemma_pow10_positive(S as nat);
            reveal_strlit(".");
        }
        let integer = self.0 / divisor;
        let frac = self.0 % divisor;
        text::append_nat(&mut out, integer);
        out.append(".");
        text::append_padded(&mut out, frac, S);
        proof {
            assert(out@ =~= padded_decimal_text(self@ as nat, S as nat));
        }
        out
    }
}

impl<const S: u32> UDecimal64<S> {
    /// Narrow to `UDecimal32<S>`; `None` when the raw value exceeds `u32::MAX`.
    /// Only scales that `UDecimal32` supports (`S <= 9`) are allowed.
    pub fn narrow(self) -> (r: Option<UDecimal32<S>>)
        requires
            S <= 9,
        ensures
            UDecimal32::<S>::view_option(r) == fit_u32(self@),
    {
        match u32::try_from(self.0) {
            Ok(v) => Some(UDecimal32::from_raw(v)),
            Err(_) => None,
        }
    }
}

impl<const S: u32> UDecimal32<S> {
    /// Widen to `UDecimal64<S>`; always lossless.
    pub fn widen(self) -> (r: UDecimal64<S>)
        ensures
            r@ == self@,
    {
        UDecimal64::from_raw(self.raw() as u64)
    }
}

impl<const S: u32> From<UDecimal32<S>> for UDecimal64<S> {
    fn from(d: UDecimal32<S>) -> (r: Self)
        ensures
            r@ == d@,
    {
        d.widen()
    }
}

impl<const S: u32> vstd::std_specs::convert::FromSpecImpl<UDecimal32<S>> for UDecimal64<S> {
    open spec fn obeys_from_spec() -> bool {
        true
    }

    closed spec fn from_spec(v: UDecimal32<S>) -> Self {
        Self(v@ as u64)
    }
}

} // verus!

verus! {

/// Widening is lossless and narrowing undoes it: a widened value narrows back
/// to itself, and a 64-bit value that narrows at all widens back to itself.
pub proof fn law_widen_narrow_round_trip<const S: u32>(d: UDecimal32<S>, w: UDecimal64<S>)
    ensures
        fit_u32(d@) == Some(d@),
        fit_u32(w@) is Some ==> fit_u32(w@) == Some(w@),
{
    d.lemma_view_bounds();
}

/// A 64-bit raw result narrowed to 32 bits, as `narrow` does it.
pub open spec fn narrowed_unsigned(r: Option<int>) -> Option<int> {
    match r {
        Some(x) => fit_u32(x),
        None => None,
    }
}

/// On `UDecimal32` operands each 32-bit operation returns what the same
/// `UDecimal64` operation returns on the widened operands (`widen` keeps the
/// raw value), narrowed: the 32-bit result exists exactly when the 64-bit one
/// exists and fits 32 bits, and then the two are equal. This covers
/// `checked_sub`, `checked_mul`, `checked_div`, every `checked_div_round_*`,
/// `rescale_into` and every `rescale_round_into_*`.
pub proof fn law_agrees_with_wide_sibling<const S: u32>(
    a: UDecimal32<S>,
    b: UDecimal32<S>,
    out: nat,
    mode: RoundFlag,
)
    ensures
        fit_u32(a@ - b@) == narrowed_unsigned(fit_u64(a@ - b@)),
        fit_u32(mul_scaled(a@, b@, S as nat)) == narrowed_unsigned(fit_u64(mul_scaled(a@, b@, S as nat))),
        fit_u32(div_scaled(a@, b@, S as nat)) == narrowed_unsigned(fit_u64(div_scaled(a@, b@, S as nat))),
        fit_u32(div_round_scaled(a@, b@, S as nat, mode)) == narrowed_unsigned(
            fit_u64(div_round_scaled(a@, b@, S as nat, mode)),
        ),
        fit_u32(rescale_exact(a@, S as nat, out)) == narrowed_unsigned(
            fit_u64(rescale_exact(a@, S as nat, out)),
        ),
        fit_u32(rescale_round(a@, S as nat, out, mode)) == narrowed_unsigned(
            fit_u64(rescale_round(a@, S as nat, out, mode)),
        ),
{
}

} // verus!
