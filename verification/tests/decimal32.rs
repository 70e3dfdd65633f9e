use scaled_int::{Decimal32, Decimal64};

#[test]
fn decimal32_one_raw_equals_pow10() {
    assert_eq!(Decimal32::<4>::one().raw(), 10_000);
}

#[test]
fn decimal32_one_at_max_scale() {
    assert_eq!(Decimal32::<9>::one().raw(), 1_000_000_000);
}

#[test]
fn max_min_raw() {
    assert_eq!(Decimal32::<4>::max_value().raw(), i32::MAX);
    assert_eq!(Decimal32::<4>::min_value().raw(), i32::MIN);
}

#[test]
fn decimal32_size_is_four_bytes() {
    assert_eq!(core::mem::size_of::<Decimal32<4>>(), 4);
    assert_eq!(core::mem::size_of::<Option<Decimal32<4>>>(), 8);
}

#[test]
fn negative_less_than_zero() {
    assert!(Decimal32::<2>::from_raw(-100) < Decimal32::<2>::from_raw(0));
}

#[test]
fn decimal32_display_basic() {
    assert_eq!(Decimal32::<2>::from_raw(123).to_string(), "1.23");
}

#[test]
fn decimal32_display_zero_scale() {
    assert_eq!(Decimal32::<0>::from_raw(42).to_string(), "42");
    assert_eq!(Decimal32::<0>::from_raw(-42).to_string(), "-42");
}

#[test]
fn decimal32_display_zero() {
    assert_eq!(Decimal32::<2>::from_raw(0).to_string(), "0");
}

#[test]
fn display_negative() {
    assert_eq!(Decimal32::<2>::from_raw(-100).to_string(), "-1");
}

#[test]
fn display_negative_fraction_less_than_one() {
    assert_eq!(Decimal32::<4>::from_raw(-5000).to_string(), "-0.5");
}

#[test]
fn display_truncates_trailing_zeros() {
    assert_eq!(Decimal32::<4>::from_raw(1200).to_string(), "0.12");
    assert_eq!(Decimal32::<4>::from_raw(1020).to_string(), "0.102");
}

#[test]
fn decimal32_display_fractional_padding() {
    assert_eq!(Decimal32::<4>::from_raw(1234567).to_string(), "123.4567");
}

#[test]
fn display_min_does_not_overflow() {
    // unsigned_abs() handles i32::MIN correctly
    assert_eq!(Decimal32::<2>::min_value().to_string(), "-21474836.48");
}

#[test]
fn display_max_scale() {
    assert_eq!(Decimal32::<9>::max_value().to_string(), "2.147483647");
}

#[test]
fn decimal32_debug_format() {
    assert_eq!(Decimal32::<4>::from_raw(12345).to_debug_string(), "Decimal32<4>(12345)");
}

#[test]
fn decimal32_widen_preserves_raw() {
    assert_eq!(Decimal32::<4>::from_raw(12345).widen(), Decimal64::<4>::from_raw(12345));
    assert_eq!(Decimal32::<4>::from_raw(-12345).widen(), Decimal64::<4>::from_raw(-12345));
    assert_eq!(Decimal32::<4>::min_value().widen().raw(), i32::MIN as i64);
}

#[test]
fn decimal32_widen_via_from() {
    let d: Decimal64<2> = Decimal32::<2>::from_raw(-100).into();
    assert_eq!(d.raw(), -100);
}

#[test]
fn decimal32_narrow_in_range_succeeds() {
    assert_eq!(Decimal64::<4>::from_raw(12345).narrow(), Some(Decimal32::<4>::from_raw(12345)));
    assert_eq!(Decimal64::<4>::from_raw(-12345).narrow(), Some(Decimal32::<4>::from_raw(-12345)));
    assert_eq!(Decimal64::<4>::from_raw(i32::MAX as i64).narrow(), Some(Decimal32::<4>::max_value()));
    assert_eq!(Decimal64::<4>::from_raw(i32::MIN as i64).narrow(), Some(Decimal32::<4>::min_value()));
}

#[test]
fn decimal32_narrow_out_of_range_returns_none() {
    assert_eq!(Decimal64::<4>::from_raw(i32::MAX as i64 + 1).narrow(), None);
    assert_eq!(Decimal64::<4>::from_raw(i32::MIN as i64 - 1).narrow(), None);
    assert_eq!(Decimal64::<4>::max_value().narrow(), None);
}

#[test]
fn decimal32_widen_narrow_round_trip() {
    let d = Decimal32::<9>::from_raw(-1_234_567_890);
    assert_eq!(d.widen().narrow(), Some(d));
}

#[test]
fn decimal32_add_basic() {
    assert_eq!(Decimal32::<2>::from_raw(100) + Decimal32::<2>::from_raw(50), Decimal32::<2>::from_raw(150));
}

#[test]
fn sub_basic() {
    assert_eq!(Decimal32::<2>::from_raw(100) - Decimal32::<2>::from_raw(150), Decimal32::<2>::from_raw(-50));
}

#[test]
fn neg_basic() {
    assert_eq!(-Decimal32::<2>::from_raw(100), Decimal32::<2>::from_raw(-100));
}

#[test]
fn decimal32_checked_add_overflow_returns_none() {
    assert_eq!(Decimal32::<2>::max_value().checked_add(Decimal32::<2>::from_raw(1)), None);
}

#[test]
fn checked_sub_overflow_returns_none() {
    assert_eq!(Decimal32::<2>::min_value().checked_sub(Decimal32::<2>::from_raw(1)), None);
}

#[test]
fn decimal32_saturating_add_clamps_to_max() {
    assert_eq!(
        Decimal32::<2>::max_value().saturating_add(Decimal32::<2>::from_raw(1)),
        Decimal32::<2>::max_value()
    );
}

#[test]
fn saturating_sub_clamps_to_min() {
    assert_eq!(
        Decimal32::<2>::min_value().saturating_sub(Decimal32::<2>::from_raw(1)),
        Decimal32::<2>::min_value()
    );
}

#[test]
fn decimal32_mul_same_scale() {
    // 1.0000 × 2.0000 = 2.0000  (raw: 10_000 * 20_000 / 10_000 = 20_000)
    assert_eq!(
        Decimal32::<4>::from_raw(10_000) * Decimal32::<4>::from_raw(20_000),
        Decimal32::<4>::from_raw(20_000)
    );
}

#[test]
fn mul_intermediate_exceeds_i32() {
    // 1000.00 × 1000.00 = 1000000.00; raw product 10^10 overflows i32 but not i64
    assert_eq!(
        Decimal32::<2>::from_raw(100_000) * Decimal32::<2>::from_raw(100_000),
        Decimal32::<2>::from_raw(100_000_000)
    );
}

#[test]
fn mul_max_times_max_at_scale_9_is_none() {
    // 2.147483647² ≈ 4.61 > 2.147483647 → overflow; the i64 product itself is fine
    assert_eq!(Decimal32::<9>::max_value().checked_mul(Decimal32::<9>::max_value()), None);
}

#[test]
fn mul_min_times_min_is_none() {
    // (-2^31)² = 2^62 fits i64; result at scale 0 still overflows i32
    assert_eq!(Decimal32::<0>::min_value().checked_mul(Decimal32::<0>::min_value()), None);
}

#[test]
fn mul_negative() {
    // -1.50 × 2.00 = -3.00
    assert_eq!(Decimal32::<2>::from_raw(-150) * Decimal32::<2>::from_raw(200), Decimal32::<2>::from_raw(-300));
}

#[test]
fn mul_truncates_toward_zero() {
    // 0.05 × 0.05 = 0.0025 → truncates to 0.00 for both signs
    assert_eq!(Decimal32::<2>::from_raw(5) * Decimal32::<2>::from_raw(5), Decimal32::<2>::from_raw(0));
    assert_eq!(Decimal32::<2>::from_raw(-5) * Decimal32::<2>::from_raw(5), Decimal32::<2>::from_raw(0));
}

#[test]
fn mul_checked_overflow_returns_none() {
    assert_eq!(Decimal32::<4>::max_value().checked_mul(Decimal32::<4>::from_raw(20_000)), None);
}

#[test]
fn saturating_mul_clamps() {
    assert_eq!(
        Decimal32::<4>::max_value().saturating_mul(Decimal32::<4>::from_raw(20_000)),
        Decimal32::<4>::max_value()
    );
    assert_eq!(
        Decimal32::<4>::max_value().saturating_mul(Decimal32::<4>::from_raw(-20_000)),
        Decimal32::<4>::min_value()
    );
}

#[test]
fn decimal32_div_same_scale() {
    // 3.0000 / 2.0000 = 1.5000  (raw: 30_000 * 10_000 / 20_000 = 15_000)
    assert_eq!(
        Decimal32::<4>::from_raw(30_000) / Decimal32::<4>::from_raw(20_000),
        Decimal32::<4>::from_raw(15_000)
    );
}

#[test]
fn div_intermediate_exceeds_i32_at_scale_9() {
    // 1.000000000 / 0.500000000 = 2.000000000; scaled dividend 10^18 needs i64
    assert_eq!(
        Decimal32::<9>::from_raw(1_000_000_000) / Decimal32::<9>::from_raw(500_000_000),
        Decimal32::<9>::from_raw(2_000_000_000)
    );
}

#[test]
fn decimal32_div_truncates_toward_zero() {
    // 0.10 / 0.03 = 3.333…  raw: (10 * 100) / 3 = 333
    assert_eq!(Decimal32::<2>::from_raw(10) / Decimal32::<2>::from_raw(3), Decimal32::<2>::from_raw(333));
}

#[test]
fn div_truncates_negative_toward_zero() {
    // -0.10 / 0.03 = -3.333…  raw: (-10 * 100) / 3 = -333
    assert_eq!(Decimal32::<2>::from_raw(-10) / Decimal32::<2>::from_raw(3), Decimal32::<2>::from_raw(-333));
}

#[test]
fn decimal32_checked_div_by_zero_returns_none() {
    assert_eq!(Decimal32::<2>::from_raw(100).checked_div(Decimal32::<2>::from_raw(0)), None);
}

#[test]
fn decimal32_checked_div_overflow_returns_none() {
    // MAX / 0.01 at scale 2 = MAX * 100 → overflow
    assert_eq!(Decimal32::<2>::max_value().checked_div(Decimal32::<2>::from_raw(1)), None);
}

#[test]
fn decimal32_div_round_nearest() {
    // 1.0 / 3.0 at scale 2: 33.33… → Nearest = 33
    assert_eq!(
        Decimal32::<2>::from_raw(100).div_round_nearest(Decimal32::<2>::from_raw(300)),
        Decimal32::<2>::from_raw(33)
    );
}

#[test]
fn decimal32_div_round_nearest_vs_nearest_even_on_tie() {
    // 0.01 / 0.08 at scale 2: (1 * 100) / 8 = 12.5 → Nearest = 13; NearestEven = 12
    assert_eq!(Decimal32::<2>::from_raw(1).div_round_nearest(Decimal32::<2>::from_raw(8)), Decimal32::<2>::from_raw(13));
    assert_eq!(Decimal32::<2>::from_raw(1).div_round_nearest_even(Decimal32::<2>::from_raw(8)), Decimal32::<2>::from_raw(12));
    assert_eq!(Decimal32::<2>::from_raw(-1).div_round_nearest(Decimal32::<2>::from_raw(8)), Decimal32::<2>::from_raw(-13));
    assert_eq!(Decimal32::<2>::from_raw(-1).div_round_nearest_even(Decimal32::<2>::from_raw(8)), Decimal32::<2>::from_raw(-12));
    // 0.03 / 0.08: 300 / 8 = 37.5 → NearestEven = 38 (37 is odd)
    assert_eq!(Decimal32::<2>::from_raw(3).div_round_nearest_even(Decimal32::<2>::from_raw(8)), Decimal32::<2>::from_raw(38));
}

#[test]
fn div_round_ceil() {
    // 1.0 / 3.0 at scale 2: 33.33… → ceil = 34
    assert_eq!(Decimal32::<2>::from_raw(100).div_round_ceil(Decimal32::<2>::from_raw(300)), Decimal32::<2>::from_raw(34));
    // -1.0 / 3.0: -33.33… → ceil = -33
    assert_eq!(Decimal32::<2>::from_raw(-100).div_round_ceil(Decimal32::<2>::from_raw(300)), Decimal32::<2>::from_raw(-33));
}

#[test]
fn div_round_floor() {
    // -1.0 / 3.0 at scale 2: -33.33… → floor = -34
    assert_eq!(Decimal32::<2>::from_raw(-100).div_round_floor(Decimal32::<2>::from_raw(300)), Decimal32::<2>::from_raw(-34));
    // 1.0 / -3.0: -33.33… → floor = -34 (negative divisor path)
    assert_eq!(Decimal32::<2>::from_raw(100).div_round_floor(Decimal32::<2>::from_raw(-300)), Decimal32::<2>::from_raw(-34));
}

#[test]
fn div_round_zero_matches_div() {
    assert_eq!(
        Decimal32::<2>::from_raw(-100).div_round_zero(Decimal32::<2>::from_raw(300)),
        Decimal32::<2>::from_raw(-100) / Decimal32::<2>::from_raw(300)
    );
}

#[test]
fn decimal32_div_round_exact_is_untouched_by_mode() {
    // 0.05 / 0.10 at scale 2: (5 * 100) / 10 = 50 exactly
    let (a, b) = (Decimal32::<2>::from_raw(5), Decimal32::<2>::from_raw(10));
    assert_eq!(a.div_round_nearest_even(b), Decimal32::<2>::from_raw(50));
    assert_eq!(a.div_round_nearest(b), Decimal32::<2>::from_raw(50));
    assert_eq!(a.div_round_zero(b), Decimal32::<2>::from_raw(50));
    assert_eq!(a.div_round_ceil(b), Decimal32::<2>::from_raw(50));
    assert_eq!(a.div_round_floor(b), Decimal32::<2>::from_raw(50));
}

#[test]
fn decimal32_checked_div_round_by_zero_returns_none() {
    let (a, z) = (Decimal32::<2>::from_raw(100), Decimal32::<2>::from_raw(0));
    assert_eq!(a.checked_div_round_nearest_even(z), None);
    assert_eq!(a.checked_div_round_nearest(z), None);
    assert_eq!(a.checked_div_round_zero(z), None);
    assert_eq!(a.checked_div_round_ceil(z), None);
    assert_eq!(a.checked_div_round_floor(z), None);
}

#[test]
fn checked_div_round_overflow_returns_none() {
    assert_eq!(Decimal32::<2>::max_value().checked_div_round_nearest(Decimal32::<2>::from_raw(1)), None);
}

#[test]
fn decimal32_rescale_into_upscale() {
    // 1.23 at scale 2 → scale 6: raw 1_230_000
    let result: Option<Decimal32<6>> = Decimal32::<2>::from_raw(123).rescale_into();
    assert_eq!(result, Some(Decimal32::<6>::from_raw(1_230_000)));
}

#[test]
fn decimal32_rescale_into_upscale_overflow_returns_none() {
    // 2_000_000_000 at scale 0 → scale 1 needs 2×10^10, overflow
    let result: Option<Decimal32<1>> = Decimal32::<0>::from_raw(2_000_000_000).rescale_into();
    assert_eq!(result, None);
}

#[test]
fn decimal32_rescale_into_downscale_lossy_returns_none() {
    // 1.23 cannot be represented exactly at scale 1
    let result: Option<Decimal32<1>> = Decimal32::<2>::from_raw(123).rescale_into();
    assert_eq!(result, None);
}

#[test]
fn decimal32_rescale_into_downscale_exact() {
    // 1.20 (raw 120 at scale 2) → scale 1: raw 12 = 1.2 (exact)
    let result: Option<Decimal32<1>> = Decimal32::<2>::from_raw(120).rescale_into();
    assert_eq!(result, Some(Decimal32::<1>::from_raw(12)));
    let result: Option<Decimal32<1>> = Decimal32::<2>::from_raw(-120).rescale_into();
    assert_eq!(result, Some(Decimal32::<1>::from_raw(-12)));
}

#[test]
fn decimal32_rescale_round_into_downscale() {
    // 1.23 at scale 2 → scale 1 with Nearest: 1.2 (raw 12)
    assert_eq!(
        Decimal32::<2>::from_raw(123).rescale_round_into_nearest::<1>(),
        Some(Decimal32::<1>::from_raw(12))
    );
    // 1.25 → 1.3 (raw 13)
    assert_eq!(
        Decimal32::<2>::from_raw(125).rescale_round_into_nearest::<1>(),
        Some(Decimal32::<1>::from_raw(13))
    );
    // 1.25 → NearestEven → 1.2 (12 is even)
    assert_eq!(
        Decimal32::<2>::from_raw(125).rescale_round_into_nearest_even::<1>(),
        Some(Decimal32::<1>::from_raw(12))
    );
    // truncate / ceil / floor on 1.23
    assert_eq!(Decimal32::<2>::from_raw(123).rescale_round_into_zero::<1>(), Some(Decimal32::<1>::from_raw(12)));
    assert_eq!(Decimal32::<2>::from_raw(123).rescale_round_into_ceil::<1>(), Some(Decimal32::<1>::from_raw(13)));
    assert_eq!(Decimal32::<2>::from_raw(-123).rescale_round_into_floor::<1>(), Some(Decimal32::<1>::from_raw(-13)));
}

#[test]
fn rescale_round_into_min_to_scale_0() {
    // MIN at scale 9 → scale 0 with floor: -2.147483648 → -3
    assert_eq!(
        Decimal32::<9>::min_value().rescale_round_into_floor::<0>(),
        Some(Decimal32::<0>::from_raw(-3))
    );
}

#[test]
fn rescale_round_into_upscale_overflow_returns_none() {
    assert_eq!(Decimal32::<0>::from_raw(2_000_000_000).rescale_round_into_nearest::<1>(), None);
}

#[test]
fn decimal32_rescale_same_scale_is_identity() {
    let d = Decimal32::<4>::from_raw(12345);
    let result: Option<Decimal32<4>> = d.rescale_into();
    assert_eq!(result, Some(d));
}

#[test]
fn arithmetic_agrees_with_decimal64_when_in_range() {
    // For inputs in i32 range, Decimal32 must produce exactly what Decimal64 produces,
    // narrowed (only the intermediate width differs).
    let mut seed: u64 = 0x1234_5678_9abc_def0;
    for _ in 0..5_000 {
        seed = seed
            .wrapping_mul(6364136223846793005)
            .wrapping_add(1442695040888963407);
        let a = (seed >> 32) as i32;
        seed = seed
            .wrapping_mul(6364136223846793005)
            .wrapping_add(1442695040888963407);
        // keep divisors small-ish so quotients frequently fit
        let b = ((seed >> 40) as i32) | 1;

        let a32 = Decimal32::<4>::from_raw(a);
        let b32 = Decimal32::<4>::from_raw(b);
        let a64 = a32.widen();
        let b64 = b32.widen();

        assert_eq!(a32.checked_mul(b32), a64.checked_mul(b64).and_then(Decimal64::narrow));
        assert_eq!(a32.checked_div(b32), a64.checked_div(b64).and_then(Decimal64::narrow));
        // 64-bit saturating_mul never saturates for i32 inputs; clamp its result to i32
        let sat64 = a64.saturating_mul(b64).raw().clamp(i32::MIN as i64, i32::MAX as i64);
        assert_eq!(a32.saturating_mul(b32).raw() as i64, sat64);

        assert_eq!(
            a32.checked_div_round_nearest_even(b32),
            a64.checked_div_round_nearest_even(b64).and_then(Decimal64::narrow)
        );
        assert_eq!(
            a32.checked_div_round_nearest(b32),
            a64.checked_div_round_nearest(b64).and_then(Decimal64::narrow)
        );
        assert_eq!(
            a32.checked_div_round_zero(b32),
            a64.checked_div_round_zero(b64).and_then(Decimal64::narrow)
        );
        assert_eq!(
            a32.checked_div_round_ceil(b32),
            a64.checked_div_round_ceil(b64).and_then(Decimal64::narrow)
        );
        assert_eq!(
            a32.checked_div_round_floor(b32),
            a64.checked_div_round_floor(b64).and_then(Decimal64::narrow)
        );

        assert_eq!(
            a32.rescale_round_into_nearest_even::<1>(),
            a64.rescale_round_into_nearest_even::<1>().and_then(Decimal64::narrow)
        );
        assert_eq!(
            a32.rescale_round_into_nearest::<1>(),
            a64.rescale_round_into_nearest::<1>().and_then(Decimal64::narrow)
        );
        assert_eq!(
            a32.rescale_round_into_zero::<1>(),
            a64.rescale_round_into_zero::<1>().and_then(Decimal64::narrow)
        );
        assert_eq!(
            a32.rescale_round_into_ceil::<1>(),
            a64.rescale_round_into_ceil::<1>().and_then(Decimal64::narrow)
        );
        assert_eq!(
            a32.rescale_round_into_floor::<1>(),
            a64.rescale_round_into_floor::<1>().and_then(Decimal64::narrow)
        );
        assert_eq!(a32.rescale_into::<1>(), a64.rescale_into::<1>().and_then(Decimal64::narrow));

        assert_eq!(a32.to_string(), a64.to_string());
    }
}
