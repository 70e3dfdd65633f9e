use scaled_int::{Decimal32, ParseError, UDecimal32, UDecimal64};

#[test]
fn udecimal32_one_raw_equals_pow10() {
    assert_eq!(UDecimal32::<4>::one().raw(), 10_000);
}

#[test]
fn udecimal32_one_at_max_scale() {
    assert_eq!(UDecimal32::<9>::one().raw(), 1_000_000_000);
}

#[test]
fn max_raw_is_u32_max() {
    assert_eq!(UDecimal32::<4>::max_value().raw(), u32::MAX);
}

#[test]
fn zero_raw_is_zero() {
    assert_eq!(UDecimal32::<4>::zero().raw(), 0);
}

#[test]
fn udecimal32_size_is_four_bytes() {
    assert_eq!(core::mem::size_of::<UDecimal32<4>>(), 4);
}

#[test]
fn udecimal32_parse_zero() {
    let d: UDecimal32<4> = "0".parse().unwrap();
    assert_eq!(d, UDecimal32::zero());
}

#[test]
fn udecimal32_parse_basic_fractional() {
    let d: UDecimal32<4> = "1.2345".parse().unwrap();
    assert_eq!(d.raw(), 12345);
}

#[test]
fn udecimal32_parse_truncation() {
    let d: UDecimal32<4> = "1.23456".parse().unwrap();
    assert_eq!(d.raw(), 12345);
}

#[test]
fn udecimal32_parse_from_slice() {
    let d = UDecimal32::<4>::from_slice(b"123.4567").unwrap();
    assert_eq!(d.raw(), 1_234_567);
}

#[test]
fn parse_plus_sign_rejected() {
    let r: Result<UDecimal32<2>, _> = "+1.00".parse();
    assert_eq!(r, Err(ParseError::InvalidChar { byte: b'+', pos: 0 }));
}

#[test]
fn parse_minus_sign_rejected() {
    let r: Result<UDecimal32<2>, _> = "-1.00".parse();
    assert_eq!(r, Err(ParseError::InvalidChar { byte: b'-', pos: 0 }));
}

#[test]
fn parse_minus_zero_rejected() {
    let r: Result<UDecimal32<2>, _> = "-0".parse();
    assert_eq!(r, Err(ParseError::InvalidChar { byte: b'-', pos: 0 }));
}

#[test]
fn udecimal32_parse_empty() {
    let r: Result<UDecimal32<2>, _> = "".parse();
    assert_eq!(r, Err(ParseError::Empty));
}

#[test]
fn udecimal32_parse_overflow_many_digits() {
    let r: Result<UDecimal32<2>, _> = "99999999999".parse();
    assert_eq!(r, Err(ParseError::Overflow));
}

#[test]
fn parse_u32_max_boundary() {
    // 42949672.95 at scale 2 == u32::MAX raw
    let d: UDecimal32<2> = "42949672.95".parse().unwrap();
    assert_eq!(d, UDecimal32::max_value());
    let r: Result<UDecimal32<2>, _> = "42949672.96".parse();
    assert_eq!(r, Err(ParseError::Overflow));
}

#[test]
fn parse_above_i32_max_succeeds() {
    // 3 billion fits u32 but not i32
    let d: UDecimal32<0> = "3000000000".parse().unwrap();
    assert_eq!(d.raw(), 3_000_000_000);
    assert_eq!(d.as_signed(), None);
}

#[test]
fn udecimal32_parse_scale_padding_overflow() {
    // "5" fits u32 but 5 * 10^9 does not
    let r: Result<UDecimal32<9>, _> = "5".parse();
    assert_eq!(r, Err(ParseError::Overflow));
    let d: UDecimal32<9> = "4".parse().unwrap();
    assert_eq!(d.raw(), 4_000_000_000);
}

#[test]
fn udecimal32_parse_dot_only_is_empty() {
    let r: Result<UDecimal32<2>, _> = ".".parse();
    assert_eq!(r, Err(ParseError::Empty));
}

#[test]
fn udecimal32_parse_leading_dot() {
    let d: UDecimal32<4> = ".5".parse().unwrap();
    assert_eq!(d.raw(), 5000);
}

#[test]
fn udecimal32_parse_trailing_dot() {
    let d: UDecimal32<4> = "5.".parse().unwrap();
    assert_eq!(d.raw(), 50000);
}

#[test]
fn udecimal32_parse_scientific_notation_rejected() {
    let r: Result<UDecimal32<2>, _> = "1e5".parse();
    assert!(matches!(r, Err(ParseError::InvalidChar { .. })));
}

#[test]
fn parse_round_trip() {
    let mut seed: u64 = 0xdeadbeef_cafebabe;
    for _ in 0..10_000 {
        seed = seed
            .wrapping_mul(6364136223846793005)
            .wrapping_add(1442695040888963407);
        let raw = (seed >> 32) as u32;
        let d = UDecimal32::<4>::from_raw(raw);
        let s = d.to_string();
        let parsed: UDecimal32<4> = s
            .parse()
            .unwrap_or_else(|e| panic!("round-trip parse failed: raw={raw}, s={s:?}, err={e:?}"));
        assert_eq!(parsed, d, "round-trip mismatch: raw={raw}, s={s:?}");
    }
}

#[test]
fn udecimal32_display_basic() {
    assert_eq!(UDecimal32::<2>::from_raw(123).to_string(), "1.23");
}

#[test]
fn udecimal32_display_zero_scale() {
    assert_eq!(UDecimal32::<0>::from_raw(42).to_string(), "42");
}

#[test]
fn udecimal32_display_zero() {
    assert_eq!(UDecimal32::<2>::from_raw(0).to_string(), "0.00");
}

#[test]
fn udecimal32_display_fractional_padding() {
    assert_eq!(UDecimal32::<4>::from_raw(1234567).to_string(), "123.4567");
    assert_eq!(UDecimal32::<4>::from_raw(1200).to_string(), "0.1200");
}

#[test]
fn display_max() {
    assert_eq!(UDecimal32::<2>::max_value().to_string(), "42949672.95");
    assert_eq!(UDecimal32::<9>::max_value().to_string(), "4.294967295");
}

#[test]
fn udecimal32_debug_format() {
    assert_eq!(UDecimal32::<4>::from_raw(12345).to_debug_string(), "UDecimal32<4>(12345)");
}

#[test]
fn as_signed_small_succeeds() {
    assert_eq!(UDecimal32::<4>::from_raw(10_000).as_signed(), Some(Decimal32::<4>::from_raw(10_000)));
}

#[test]
fn as_signed_i32_max_succeeds() {
    assert_eq!(UDecimal32::<4>::from_raw(i32::MAX as u32).as_signed(), Some(Decimal32::<4>::max_value()));
}

#[test]
fn as_signed_above_i32_max_returns_none() {
    assert_eq!(UDecimal32::<4>::from_raw(i32::MAX as u32 + 1).as_signed(), None);
}

#[test]
fn as_unsigned_nonneg_succeeds() {
    assert_eq!(Decimal32::<4>::from_raw(12345).as_unsigned(), Some(UDecimal32::<4>::from_raw(12345)));
    assert_eq!(Decimal32::<4>::from_raw(0).as_unsigned(), Some(UDecimal32::<4>::zero()));
}

#[test]
fn as_unsigned_negative_returns_none() {
    assert_eq!(Decimal32::<4>::from_raw(-1).as_unsigned(), None);
}

#[test]
fn udecimal32_widen_preserves_raw() {
    assert_eq!(UDecimal32::<4>::from_raw(12345).widen(), UDecimal64::<4>::from_raw(12345));
    assert_eq!(UDecimal32::<4>::max_value().widen().raw(), u32::MAX as u64);
}

#[test]
fn udecimal32_widen_via_from() {
    let d: UDecimal64<2> = UDecimal32::<2>::from_raw(100).into();
    assert_eq!(d.raw(), 100);
}

#[test]
fn udecimal32_narrow_in_range_succeeds() {
    assert_eq!(UDecimal64::<4>::from_raw(12345).narrow(), Some(UDecimal32::<4>::from_raw(12345)));
    assert_eq!(UDecimal64::<4>::from_raw(u32::MAX as u64).narrow(), Some(UDecimal32::<4>::max_value()));
}

#[test]
fn udecimal32_narrow_out_of_range_returns_none() {
    assert_eq!(UDecimal64::<4>::from_raw(u32::MAX as u64 + 1).narrow(), None);
    assert_eq!(UDecimal64::<4>::max_value().narrow(), None);
}

#[test]
fn udecimal32_widen_narrow_round_trip() {
    let d = UDecimal32::<9>::from_raw(4_000_000_000);
    assert_eq!(d.widen().narrow(), Some(d));
}

#[test]
fn udecimal32_add_basic() {
    assert_eq!(UDecimal32::<2>::from_raw(100) + UDecimal32::<2>::from_raw(50), UDecimal32::<2>::from_raw(150));
}

#[test]
fn udecimal32_checked_add_overflow_returns_none() {
    assert_eq!(UDecimal32::<2>::max_value().checked_add(UDecimal32::<2>::from_raw(1)), None);
}

#[test]
fn udecimal32_saturating_add_clamps_to_max() {
    assert_eq!(
        UDecimal32::<2>::max_value().saturating_add(UDecimal32::<2>::from_raw(1)),
        UDecimal32::<2>::max_value()
    );
}

#[test]
fn sub_exact() {
    assert_eq!(UDecimal32::<2>::from_raw(150) - UDecimal32::<2>::from_raw(50), Some(UDecimal32::<2>::from_raw(100)));
}

#[test]
fn sub_underflow_returns_none() {
    assert_eq!(UDecimal32::<2>::from_raw(50) - UDecimal32::<2>::from_raw(100), None);
}

#[test]
fn saturating_sub_underflow_clamps_to_zero() {
    assert_eq!(
        UDecimal32::<2>::zero().saturating_sub(UDecimal32::<2>::one()),
        UDecimal32::<2>::zero()
    );
}

#[test]
fn checked_sub_underflow_returns_none() {
    assert_eq!(UDecimal32::<4>::from_raw(5).checked_sub(UDecimal32::<4>::from_raw(10)), None);
}

#[test]
fn udecimal32_mul_same_scale() {
    // 1.0000 × 2.0000 = 2.0000  (raw: 10_000 * 20_000 / 10_000 = 20_000)
    assert_eq!(
        UDecimal32::<4>::from_raw(10_000) * UDecimal32::<4>::from_raw(20_000),
        UDecimal32::<4>::from_raw(20_000)
    );
}

#[test]
fn mul_intermediate_exceeds_u32() {
    // 1000.00 × 1000.00 = 1000000.00; raw product 10^10 overflows u32 but not u64
    assert_eq!(
        UDecimal32::<2>::from_raw(100_000) * UDecimal32::<2>::from_raw(100_000),
        UDecimal32::<2>::from_raw(100_000_000)
    );
}

#[test]
fn mul_max_times_max_is_none() {
    // (u32::MAX)² fits u64; result at scale 0 overflows u32
    assert_eq!(UDecimal32::<0>::max_value().checked_mul(UDecimal32::<0>::max_value()), None);
    // at scale 9: 4.29² ≈ 18.4 > 4.29 → None
    assert_eq!(UDecimal32::<9>::max_value().checked_mul(UDecimal32::<9>::max_value()), None);
}

#[test]
fn mul_max_times_one_is_max() {
    assert_eq!(UDecimal32::<9>::max_value() * UDecimal32::<9>::one(), UDecimal32::<9>::max_value());
}

#[test]
fn checked_mul_overflow_returns_none() {
    assert_eq!(UDecimal32::<4>::max_value().checked_mul(UDecimal32::<4>::from_raw(20_000)), None);
}

#[test]
fn saturating_mul_clamps_to_max() {
    assert_eq!(
        UDecimal32::<4>::max_value().saturating_mul(UDecimal32::<4>::from_raw(20_000)),
        UDecimal32::<4>::max_value()
    );
}

#[test]
fn udecimal32_div_same_scale() {
    // 3.0000 / 2.0000 = 1.5000  (raw: 30_000 * 10_000 / 20_000 = 15_000)
    assert_eq!(
        UDecimal32::<4>::from_raw(30_000) / UDecimal32::<4>::from_raw(20_000),
        UDecimal32::<4>::from_raw(15_000)
    );
}

#[test]
fn div_intermediate_exceeds_u32_at_scale_9() {
    // 4.000000000 / 1.000000000: scaled dividend 4×10^18 needs u64
    assert_eq!(
        UDecimal32::<9>::from_raw(4_000_000_000) / UDecimal32::<9>::one(),
        UDecimal32::<9>::from_raw(4_000_000_000)
    );
}

#[test]
fn udecimal32_div_truncates_toward_zero() {
    // 1.00 / 3.00 = 0.33…  raw: (100 * 100) / 300 = 33
    assert_eq!(UDecimal32::<2>::from_raw(100) / UDecimal32::<2>::from_raw(300), UDecimal32::<2>::from_raw(33));
    // 0.10 / 0.03: raw (10 * 100) / 3 = 333
    assert_eq!(UDecimal32::<2>::from_raw(10) / UDecimal32::<2>::from_raw(3), UDecimal32::<2>::from_raw(333));
}

#[test]
fn udecimal32_checked_div_by_zero_returns_none() {
    assert_eq!(UDecimal32::<2>::from_raw(100).checked_div(UDecimal32::<2>::from_raw(0)), None);
}

#[test]
fn udecimal32_checked_div_overflow_returns_none() {
    // MAX / 0.01 at scale 2 = MAX * 100 → overflow
    assert_eq!(UDecimal32::<2>::max_value().checked_div(UDecimal32::<2>::from_raw(1)), None);
}

#[test]
fn div_round_ceil_and_floor() {
    // 1.00 / 3.00: 33.33… → ceil = 34, floor = 33 (same as trunc for positives)
    assert_eq!(UDecimal32::<2>::from_raw(100).div_round_ceil(UDecimal32::<2>::from_raw(300)), UDecimal32::<2>::from_raw(34));
    assert_eq!(UDecimal32::<2>::from_raw(100).div_round_floor(UDecimal32::<2>::from_raw(300)), UDecimal32::<2>::from_raw(33));
    assert_eq!(UDecimal32::<2>::from_raw(100).div_round_zero(UDecimal32::<2>::from_raw(300)), UDecimal32::<2>::from_raw(33));
}

#[test]
fn udecimal32_div_round_nearest() {
    // 1.00 / 3.00 at scale 2: 33.33… → Nearest = 33
    assert_eq!(UDecimal32::<2>::from_raw(100).div_round_nearest(UDecimal32::<2>::from_raw(300)), UDecimal32::<2>::from_raw(33));
}

#[test]
fn udecimal32_div_round_nearest_vs_nearest_even_on_tie() {
    // 0.01 / 0.08 at scale 2: 100 / 8 = 12.5 → Nearest = 13; NearestEven = 12
    assert_eq!(UDecimal32::<2>::from_raw(1).div_round_nearest(UDecimal32::<2>::from_raw(8)), UDecimal32::<2>::from_raw(13));
    assert_eq!(UDecimal32::<2>::from_raw(1).div_round_nearest_even(UDecimal32::<2>::from_raw(8)), UDecimal32::<2>::from_raw(12));
    // 0.03 / 0.08: 300 / 8 = 37.5 → NearestEven = 38 (37 is odd)
    assert_eq!(UDecimal32::<2>::from_raw(3).div_round_nearest_even(UDecimal32::<2>::from_raw(8)), UDecimal32::<2>::from_raw(38));
}

#[test]
fn udecimal32_div_round_exact_is_untouched_by_mode() {
    // 3 / 2 at scale 2: (300 * 100) / 200 = 150 exactly
    let (a, b) = (UDecimal32::<2>::from_raw(300), UDecimal32::<2>::from_raw(200));
    assert_eq!(a.div_round_nearest_even(b), UDecimal32::<2>::from_raw(150));
    assert_eq!(a.div_round_nearest(b), UDecimal32::<2>::from_raw(150));
    assert_eq!(a.div_round_zero(b), UDecimal32::<2>::from_raw(150));
    assert_eq!(a.div_round_ceil(b), UDecimal32::<2>::from_raw(150));
    assert_eq!(a.div_round_floor(b), UDecimal32::<2>::from_raw(150));
}

#[test]
fn udecimal32_checked_div_round_by_zero_returns_none() {
    let (a, z) = (UDecimal32::<2>::from_raw(100), UDecimal32::<2>::from_raw(0));
    assert_eq!(a.checked_div_round_nearest_even(z), None);
    assert_eq!(a.checked_div_round_nearest(z), None);
    assert_eq!(a.checked_div_round_zero(z), None);
    assert_eq!(a.checked_div_round_ceil(z), None);
    assert_eq!(a.checked_div_round_floor(z), None);
}

#[test]
fn udecimal32_rescale_into_upscale() {
    // 1.23 at scale 2 → scale 6: raw 1_230_000
    let result: Option<UDecimal32<6>> = UDecimal32::<2>::from_raw(123).rescale_into();
    assert_eq!(result, Some(UDecimal32::<6>::from_raw(1_230_000)));
}

#[test]
fn udecimal32_rescale_into_upscale_overflow_returns_none() {
    let result: Option<UDecimal32<1>> = UDecimal32::<0>::from_raw(1_000_000_000).rescale_into();
    assert_eq!(result, None);
}

#[test]
fn udecimal32_rescale_into_downscale_exact() {
    // 1.20 (raw 120 at scale 2) → scale 1: raw 12
    let result: Option<UDecimal32<1>> = UDecimal32::<2>::from_raw(120).rescale_into();
    assert_eq!(result, Some(UDecimal32::<1>::from_raw(12)));
}

#[test]
fn udecimal32_rescale_into_downscale_lossy_returns_none() {
    // 1.23 cannot be represented exactly at scale 1
    let result: Option<UDecimal32<1>> = UDecimal32::<2>::from_raw(123).rescale_into();
    assert_eq!(result, None);
}

#[test]
fn udecimal32_rescale_same_scale_is_identity() {
    let d = UDecimal32::<4>::from_raw(12345);
    let result: Option<UDecimal32<4>> = d.rescale_into();
    assert_eq!(result, Some(d));
}

#[test]
fn udecimal32_rescale_round_into_downscale() {
    // 1.25 at scale 2 → scale 1: Nearest 1.3 (raw 13); NearestEven 1.2 (raw 12)
    assert_eq!(UDecimal32::<2>::from_raw(125).rescale_round_into_nearest::<1>(), Some(UDecimal32::<1>::from_raw(13)));
    assert_eq!(UDecimal32::<2>::from_raw(125).rescale_round_into_nearest_even::<1>(), Some(UDecimal32::<1>::from_raw(12)));
    // 1.23 → truncate 1.2, ceil 1.3, floor 1.2
    assert_eq!(UDecimal32::<2>::from_raw(123).rescale_round_into_zero::<1>(), Some(UDecimal32::<1>::from_raw(12)));
    assert_eq!(UDecimal32::<2>::from_raw(123).rescale_round_into_ceil::<1>(), Some(UDecimal32::<1>::from_raw(13)));
    assert_eq!(UDecimal32::<2>::from_raw(123).rescale_round_into_floor::<1>(), Some(UDecimal32::<1>::from_raw(12)));
}

#[test]
fn rescale_round_into_max_to_scale_0() {
    // MAX at scale 9 = 4.294967295 → scale 0 with ceil: 5
    assert_eq!(UDecimal32::<9>::max_value().rescale_round_into_ceil::<0>(), Some(UDecimal32::<0>::from_raw(5)));
}

#[test]
fn ordering_is_numeric() {
    assert!(UDecimal32::<4>::from_raw(100) < UDecimal32::<4>::from_raw(200));
    assert!(UDecimal32::<4>::from_raw(0) < UDecimal32::<4>::from_raw(1));
    assert_eq!(UDecimal32::<4>::from_raw(50), UDecimal32::<4>::from_raw(50));
}

#[test]
fn arithmetic_agrees_with_udecimal64_when_in_range() {
    let mut seed: u64 = 0x0f1e_2d3c_4b5a_6978;
    for _ in 0..5_000 {
        seed = seed
            .wrapping_mul(6364136223846793005)
            .wrapping_add(1442695040888963407);
        let a = (seed >> 32) as u32;
        seed = seed
            .wrapping_mul(6364136223846793005)
            .wrapping_add(1442695040888963407);
        let b = ((seed >> 40) as u32) | 1;

        let a32 = UDecimal32::<4>::from_raw(a);
        let b32 = UDecimal32::<4>::from_raw(b);
        let a64 = a32.widen();
        let b64 = b32.widen();

        assert_eq!(a32.checked_mul(b32), a64.checked_mul(b64).and_then(UDecimal64::narrow));
        assert_eq!(a32.checked_div(b32), a64.checked_div(b64).and_then(UDecimal64::narrow));
        assert_eq!(a32.checked_sub(b32), a64.checked_sub(b64).and_then(UDecimal64::narrow));

        assert_eq!(
            a32.checked_div_round_nearest_even(b32),
            a64.checked_div_round_nearest_even(b64).and_then(UDecimal64::narrow)
        );
        assert_eq!(
            a32.checked_div_round_nearest(b32),
            a64.checked_div_round_nearest(b64).and_then(UDecimal64::narrow)
        );
        assert_eq!(
            a32.checked_div_round_zero(b32),
            a64.checked_div_round_zero(b64).and_then(UDecimal64::narrow)
        );
        assert_eq!(
            a32.checked_div_round_ceil(b32),
            a64.checked_div_round_ceil(b64).and_then(UDecimal64::narrow)
        );
        assert_eq!(
            a32.checked_div_round_floor(b32),
            a64.checked_div_round_floor(b64).and_then(UDecimal64::narrow)
        );

        assert_eq!(
            a32.rescale_round_into_nearest_even::<1>(),
            a64.rescale_round_into_nearest_even::<1>().and_then(UDecimal64::narrow)
        );
        assert_eq!(
            a32.rescale_round_into_nearest::<1>(),
            a64.rescale_round_into_nearest::<1>().and_then(UDecimal64::narrow)
        );
        assert_eq!(
            a32.rescale_round_into_ceil::<1>(),
            a64.rescale_round_into_ceil::<1>().and_then(UDecimal64::narrow)
        );
        assert_eq!(a32.rescale_into::<1>(), a64.rescale_into::<1>().and_then(UDecimal64::narrow));

        assert_eq!(a32.to_string(), a64.to_string());
    }
}
