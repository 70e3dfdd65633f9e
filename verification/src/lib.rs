//! Fixed-scale 32-bit decimals whose arithmetic, parsing and formatting are
//! specified over mathematical integers and proved by Verus.
//!
//! `Decimal32<S>` stores an `i32` and `UDecimal32<S>` a `u32`; the raw integer is
//! the mathematical value multiplied by `10^S`. `Decimal64<S>` / `UDecimal64<S>`
//! are their 64-bit siblings, reached by `widen()` and left by `narrow()`.
use vstd::prelude::*;

pub mod decimal32;
pub mod decimal64;
pub mod grammar;
pub mod math;
pub mod message;
pub mod order;
pub mod parse32;
pub mod parse_unsigned32;
pub mod round_trip;
pub mod rounding;
pub mod text;
pub mod udecimal32;
pub mod udecimal64;

pub use decimal32::Decimal32;
pub use decimal64::Decimal64;
pub use udecimal32::UDecimal32;
pub use udecimal64::UDecimal64;

verus! {

/// Rounding mode applied when a quotient is not exact.
#[derive(Clone, Copy, Debug, PartialEq, Eq, Structural)]
pub enum RoundFlag {
    /// Truncate toward zero (same as integer division).
    Zero,
    /// Round to nearest, ties go to the even neighbour (banker's rounding).
    NearestEven,
    /// Round to nearest, ties go away from zero.
    Nearest,
    /// Round toward positive infinity.
    Ceil,
    /// Round toward negative infinity.
    Floor,
}

/// Why a decimal string was rejected.
#[derive(Clone, Copy, Debug, PartialEq, Eq, Structural)]
pub enum ParseError {
    /// Input was empty, or contained only a sign or a bare dot.
    Empty,
    /// A byte that is not a digit, sign, or dot was encountered.
    InvalidChar { byte: u8, pos: usize },
    /// The accumulated value exceeded the storage range of the target type at this scale.
    Overflow,
    /// Nonzero value combined with a negative exponent so extreme that no
    /// representable non-zero value exists.
    Underflow,
    /// Reserved for a strict-mode parse; never produced (extra digits are truncated).
    TooManyFractional { got: u32, max: u32 },
}

} // verus!
