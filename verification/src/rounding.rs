//! Rounding integer division on the widened intermediates, proved equal to
//! the mathematical `round_div`.
use vstd::prelude::*;

use crate::math::{self, abs, floor_div, floor_rem, round_div, trunc_div, trunc_rem};
use crate::RoundFlag;

verus! {

/// Relates the truncating quotient/remainder pair to the floor quotient and
/// remainder that `round_div` is defined by.
pub proof fn lemma_floor_from_trunc(n: int, d: int)
    requires
        d != 0,
    ensures
        trunc_rem(n, d) == 0 ==> floor_div(n, d) == trunc_div(n, d) && floor_rem(n, d) == 0,
        trunc_rem(n, d) != 0 && (trunc_rem(n, d) > 0) == (d > 0) ==> floor_div(n, d) == trunc_div(
            n,
            d,
        ) && floor_rem(n, d) == abs(trunc_rem(n, d)),
        trunc_rem(n, d) != 0 && (trunc_rem(n, d) > 0) != (d > 0) ==> floor_div(n, d) == trunc_div(
            n,
            d,
        ) - 1 && floor_rem(n, d) == abs(d) - abs(trunc_rem(n, d)),
{
    let q = trunc_div(n, d);
    let r = trunc_rem(n, d);
    math::lemma_trunc_div_rem(n, d);
    let ad = abs(d);
    let nn = if d > 0 { n } else { -n };
    // nn == q * ad + sign(d) * r
    assert(nn == ad * q + (if d > 0 { r } else { -r })) by (nonlinear_arith)
        requires
            q * d + r == n,
            nn == (if d > 0 { n } else { -n }),
            ad == abs(d),
            d != 0,
    ;
    if r == 0 {
        math::lemma_floor_unique(n, d, q, 0);
    } else if (r > 0) == (d > 0) {
        math::lemma_floor_unique(n, d, q, abs(r));
    } else {
        assert(nn == ad * (q - 1) + (ad - abs(r))) by (nonlinear_arith)
            requires
                nn == ad * q + (if d > 0 { r } else { -r }),
                (r > 0) != (d > 0),
                r != 0,
        ;
        math::lemma_floor_unique(n, d, q - 1, ad - abs(r));
    }
}

/// Signed rounding division: `num / den` rounded under `mode`.
pub fn div_round_i64(num: i64, den: i64, mode: RoundFlag) -> (res: i64)
    requires
        den != 0,
        !(num == i64::MIN && den == -1),
    ensures
        res == round_div(num as int, den as int, mode),
{
    let q = num / den;
    let r = num % den;
    proof {
        math::lemma_trunc_div_rem(num as int, den as int);
        lemma_floor_from_trunc(num as int, den as int);
        assert(q == trunc_div(num as int, den as int));
        assert(r == trunc_rem(num as int, den as int));
    }
    if r == 0 {
        return q;
    }
    proof {
        // A non-zero remainder needs |den| >= 2, so |q| <= |num| / 2.
        assert(abs(den as int) >= 2);
        assert(abs(q as int) <= abs(num as int) / 2) by {
            vstd::arithmetic::div_mod::lemma_div_is_ordered_by_denominator(
                abs(num as int),
                2,
                abs(den as int),
            );
        }
    }
    let same_sign = (r > 0) == (den > 0);
    match mode {
        RoundFlag::Zero => q,
        RoundFlag::Ceil => {
            if same_sign {
                q + 1
            } else {
                q
            }
        },
        RoundFlag::Floor => {
            if !same_sign {
                q - 1
            } else {
                q
            }
        },
        RoundFlag::Nearest => {
            let abs_2r: u64 = unsigned_magnitude(r) * 2;
            let abs_d: u64 = unsigned_magnitude(den);
            if abs_2r >= abs_d {
                if same_sign {
                    q + 1
                } else {
                    q - 1
                }
            } else {
                q
            }
        },
        RoundFlag::NearestEven => {
            let abs_2r: u64 = unsigned_magnitude(r) * 2;
            let abs_d: u64 = unsigned_magnitude(den);
            if abs_2r > abs_d {
                if same_sign {
                    q + 1
                } else {
                    q - 1
                }
            } else if abs_2r == abs_d {
                if q % 2 != 0 {
                    if same_sign {
                        q + 1
                    } else {
                        q - 1
                    }
                } else {
                    q
                }
            } else {
                q
            }
        },
    }
}

/// `|x|` as an unsigned integer (defined for every `i64`, `i64::MIN` included).
fn unsigned_magnitude(x: i64) -> (m: u64)
    ensures
        m == abs(x as int),
{
    if x < 0 {
        (-(x as i128)) as u64
    } else {
        x as u64
    }
}

/// Unsigned rounding division: `num / den` rounded under `mode`.
pub fn div_round_u64(num: u64, den: u64, mode: RoundFlag) -> (res: u64)
    requires
        den != 0,
        den <= u32::MAX,
    ensures
        res == round_div(num as int, den as int, mode),
{
    let q = num / den;
    let r = num % den;
    proof {
        lemma_floor_from_trunc(num as int, den as int);
        math::lemma_trunc_div_rem(num as int, den as int);
        assert(q == trunc_div(num as int, den as int));
        assert(r == trunc_rem(num as int, den as int));
    }
    if r == 0 {
        return q;
    }
    proof {
        assert(den >= 2);
        assert(q <= num / 2) by {
            vstd::arithmetic::div_mod::lemma_div_is_ordered_by_denominator(
                num as int,
                2,
                den as int,
            );
        }
    }
    match mode {
        RoundFlag::Zero => q,
        RoundFlag::Ceil => q + 1,
        RoundFlag::Floor => q,
        RoundFlag::Nearest => {
            if r * 2 >= den {
                q + 1
            } else {
                q
            }
        },
        RoundFlag::NearestEven => {
            let r2 = r * 2;
            if r2 > den {
                q + 1
            } else if r2 == den {
                if !q.is_multiple_of(2) {
                    q + 1
                } else {
                    q
                }
            } else {
                q
            }
        },
    }
}


/// Signed rounding division: `num / den` rounded under `mode`.
pub fn div_round_i128(num: i128, den: i128, mode: RoundFlag) -> (res: i128)
    requires
        den != 0,
        !(num == i128::MIN && den == -1),
    ensures
        res == round_div(num as int, den as int, mode),
{
    let q = num / den;
    let r = num % den;
    proof {
        math::lemma_trunc_div_rem(num as int, den as int);
        lemma_floor_from_trunc(num as int, den as int);
        assert(q == trunc_div(num as int, den as int));
        assert(r == trunc_rem(num as int, den as int));
    }
    if r == 0 {
        return q;
    }
    proof {
        // A non-zero remainder needs |den| >= 2, so |q| <= |num| / 2.
        assert(abs(den as int) >= 2);
        assert(abs(q as int) <= abs(num as int) / 2) by {
            vstd::arithmetic::div_mod::lemma_div_is_ordered_by_denominator(
                abs(num as int),
                2,
                abs(den as int),
            );
        }
    }
    let same_sign = (r > 0) == (den > 0);
    match mode {
        RoundFlag::Zero => q,
        RoundFlag::Ceil => {
            if same_sign {
                q + 1
            } else {
                q
            }
        },
        RoundFlag::Floor => {
            if !same_sign {
                q - 1
            } else {
                q
            }
        },
        RoundFlag::Nearest => {
            let abs_2r: u128 = unsigned_magnitude_128(r) * 2;
            let abs_d: u128 = unsigned_magnitude_128(den);
            if abs_2r >= abs_d {
                if same_sign {
                    q + 1
                } else {
                    q - 1
                }
            } else {
                q
            }
        },
        RoundFlag::NearestEven => {
            let abs_2r: u128 = unsigned_magnitude_128(r) * 2;
            let abs_d: u128 = unsigned_magnitude_128(den);
            if abs_2r > abs_d {
                if same_sign {
                    q + 1
                } else {
                    q - 1
                }
            } else if abs_2r == abs_d {
                if q % 2 != 0 {
                    if same_sign {
                        q + 1
                    } else {
                        q - 1
                    }
                } else {
                    q
                }
            } else {
                q
            }
        },
    }
}

/// `|x|` as an unsigned integer (defined for every `i128`, `i128::MIN` included).
fn unsigned_magnitude_128(x: i128) -> (m: u128)
    ensures
        m == abs(x as int),
{
    if x < 0 {
        (-(x + 1)) as u128 + 1
    } else {
        x as u128
    }
}

/// Unsigned rounding division: `num / den` rounded under `mode`.
pub fn div_round_u128(num: u128, den: u128, mode: RoundFlag) -> (res: u128)
    requires
        den != 0,
        den <= u64::MAX,
    ensures
        res == round_div(num as int, den as int, mode),
{
    let q = num / den;
    let r = num % den;
    proof {
        lemma_floor_from_trunc(num as int, den as int);
        math::lemma_trunc_div_rem(num as int, den as int);
        assert(q == trunc_div(num as int, den as int));
        assert(r == trunc_rem(num as int, den as int));
    }
    if r == 0 {
        return q;
    }
    proof {
        assert(den >= 2);
        assert(q <= num / 2) by {
            vstd::arithmetic::div_mod::lemma_div_is_ordered_by_denominator(
                num as int,
                2,
                den as int,
            );
        }
    }
    match mode {
        RoundFlag::Zero => q,
        RoundFlag::Ceil => q + 1,
        RoundFlag::Floor => q,
        RoundFlag::Nearest => {
            if r * 2 >= den {
                q + 1
            } else {
                q
            }
        },
        RoundFlag::NearestEven => {
            let r2 = r * 2;
            if r2 > den {
                q + 1
            } else if r2 == den {
                if !q.is_multiple_of(2) {
                    q + 1
                } else {
                    q
                }
            } else {
                q
            }
        },
    }
}

} // verus!
