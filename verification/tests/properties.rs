use scaled_int::{Decimal32, Decimal64, ParseError, UDecimal32, UDecimal64};

#[test]
fn signed_text_round_trip_edges() {
    for raw in [0, 1, -1, 9, -9, 10, -10, 99, -99, 100, -100, 1234, -1234, i32::MAX, i32::MIN + 1] {
        let d = Decimal32::<2>::from_raw(raw);
        let back: Decimal32<2> = d.to_string().parse().unwrap();
        assert_eq!(back, d);
        let d9 = Decimal32::<9>::from_raw(raw);
        let back9: Decimal32<9> = d9.to_string().parse().unwrap();
        assert_eq!(back9, d9);
        let d0 = Decimal32::<0>::from_raw(raw);
        let back0: Decimal32<0> = d0.to_string().parse().unwrap();
        assert_eq!(back0, d0);
    }
}

#[test]
fn signed_min_text_does_not_parse_back() {
    let text = Decimal32::<2>::min_value().to_string();
    assert_eq!(text, "-21474836.48");
    assert_eq!(text.parse::<Decimal32<2>>(), Err(ParseError::Overflow));
}

#[test]
fn unsigned_text_round_trip_edges() {
    for raw in [0u32, 1, 9, 10, 100, 12345, u32::MAX] {
        let d = UDecimal32::<3>::from_raw(raw);
        let back: UDecimal32<3> = d.to_string().parse().unwrap();
        assert_eq!(back, d);
        let d0 = UDecimal32::<0>::from_raw(raw);
        let back0: UDecimal32<0> = d0.to_string().parse().unwrap();
        assert_eq!(back0, d0);
    }
}

#[test]
fn parse_sign_only_and_dots() {
    assert_eq!("-".parse::<Decimal32<2>>(), Err(ParseError::Empty));
    assert_eq!("+".parse::<Decimal32<2>>(), Err(ParseError::Empty));
    assert_eq!("-.".parse::<Decimal32<2>>(), Err(ParseError::Empty));
    assert_eq!("-.5".parse::<Decimal32<2>>().unwrap().raw(), -50);
    assert_eq!("-0".parse::<Decimal32<2>>().unwrap().raw(), 0);
    assert_eq!(
        "1..2".parse::<Decimal32<2>>(),
        Err(ParseError::InvalidChar { byte: b'.', pos: 2 })
    );
    assert_eq!(
        "1.2.3".parse::<UDecimal32<4>>(),
        Err(ParseError::InvalidChar { byte: b'.', pos: 3 })
    );
    assert_eq!(
        "--1".parse::<Decimal32<2>>(),
        Err(ParseError::InvalidChar { byte: b'-', pos: 1 })
    );
}

#[test]
fn parse_non_ascii_reports_first_byte() {
    assert_eq!(
        "1\u{e9}".parse::<Decimal32<2>>(),
        Err(ParseError::InvalidChar { byte: 0xc3, pos: 1 })
    );
}

#[test]
fn parse_overflow_before_later_invalid_byte() {
    // the accumulator overflows before the scanner reaches the 'x'
    assert_eq!("99999999999x".parse::<Decimal32<0>>(), Err(ParseError::Overflow));
    // the invalid byte comes first here
    assert_eq!(
        "9x99999999999".parse::<Decimal32<0>>(),
        Err(ParseError::InvalidChar { byte: b'x', pos: 1 })
    );
}

#[test]
fn parse_drops_extra_fraction_digits_even_when_large() {
    let a: Decimal32<2> = "1.239999999999999999".parse().unwrap();
    let b: Decimal32<2> = "1.23".parse().unwrap();
    assert_eq!(a, b);
    let c: UDecimal32<0> = "7.99".parse().unwrap();
    assert_eq!(c.raw(), 7);
}

#[test]
fn rescale_round_trip_law() {
    let d = Decimal32::<2>::from_raw(-123);
    let up: Decimal32<6> = d.rescale_into().unwrap();
    assert_eq!(up.raw(), -1_230_000);
    let back: Decimal32<2> = up.rescale_into().unwrap();
    assert_eq!(back, d);
    let u = UDecimal32::<3>::from_raw(4500);
    let down: UDecimal32<1> = u.rescale_into().unwrap();
    assert_eq!(down.raw(), 45);
    let again: UDecimal32<3> = down.rescale_into().unwrap();
    assert_eq!(again, u);
}

#[test]
fn rescale_round_negative_ties() {
    let d = Decimal32::<2>::from_raw(-125);
    assert_eq!(d.rescale_round_into_nearest::<1>(), Some(Decimal32::<1>::from_raw(-13)));
    assert_eq!(d.rescale_round_into_nearest_even::<1>(), Some(Decimal32::<1>::from_raw(-12)));
    assert_eq!(d.rescale_round_into_zero::<1>(), Some(Decimal32::<1>::from_raw(-12)));
    assert_eq!(d.rescale_round_into_ceil::<1>(), Some(Decimal32::<1>::from_raw(-12)));
    assert_eq!(d.rescale_round_into_floor::<1>(), Some(Decimal32::<1>::from_raw(-13)));
}

#[test]
fn div_round_negative_divisor() {
    // 1.00 / -3.00 = -0.333... at scale 2
    let (a, b) = (Decimal32::<2>::from_raw(100), Decimal32::<2>::from_raw(-300));
    assert_eq!(a.div_round_zero(b).raw(), -33);
    assert_eq!(a.div_round_ceil(b).raw(), -33);
    assert_eq!(a.div_round_floor(b).raw(), -34);
    assert_eq!(a.div_round_nearest(b).raw(), -33);
    assert_eq!(a.div_round_nearest_even(b).raw(), -33);
    // -0.01 / -0.08 = 0.125 -> tie at scale 2 on 12.5
    let (c, e) = (Decimal32::<2>::from_raw(-1), Decimal32::<2>::from_raw(-8));
    assert_eq!(c.div_round_nearest(e).raw(), 13);
    assert_eq!(c.div_round_nearest_even(e).raw(), 12);
}

#[test]
fn div_round_zero_equals_checked_div_law() {
    for (a, b) in [(7, 2), (-7, 2), (7, -2), (-7, -2), (123456, 789), (-1, 3)] {
        let x = Decimal32::<3>::from_raw(a);
        let y = Decimal32::<3>::from_raw(b);
        assert_eq!(x.checked_div_round_zero(y), x.checked_div(y));
        let ux = UDecimal32::<3>::from_raw(a.unsigned_abs());
        let uy = UDecimal32::<3>::from_raw(b.unsigned_abs());
        assert_eq!(ux.checked_div_round_zero(uy), ux.checked_div(uy));
        assert_eq!(ux.checked_div_round_floor(uy), ux.checked_div(uy));
    }
}

#[test]
fn signedness_round_trip_law() {
    let u = UDecimal32::<2>::from_raw(12345);
    assert_eq!(u.as_signed().and_then(Decimal32::as_unsigned), Some(u));
    let d = Decimal32::<2>::from_raw(777);
    assert_eq!(d.as_unsigned().and_then(UDecimal32::as_signed), Some(d));
    assert_eq!(UDecimal32::<2>::max_value().as_signed(), None);
}

#[test]
fn saturating_sub_unsigned_and_signed() {
    assert_eq!(UDecimal32::<2>::from_raw(5).saturating_sub(UDecimal32::<2>::from_raw(9)).raw(), 0);
    assert_eq!(UDecimal32::<2>::from_raw(9).saturating_sub(UDecimal32::<2>::from_raw(5)).raw(), 4);
    assert_eq!(
        Decimal32::<2>::max_value().saturating_sub(Decimal32::<2>::from_raw(-1)),
        Decimal32::<2>::max_value()
    );
    assert_eq!(
        Decimal32::<2>::min_value().saturating_add(Decimal32::<2>::from_raw(-1)),
        Decimal32::<2>::min_value()
    );
}

#[test]
fn saturating_mul_exact_value() {
    // 1.50 * -2.25 = -3.375 -> truncates to -3.37
    let r = Decimal32::<2>::from_raw(150).saturating_mul(Decimal32::<2>::from_raw(-225));
    assert_eq!(r.raw(), -337);
    let u = UDecimal32::<2>::from_raw(150).saturating_mul(UDecimal32::<2>::from_raw(225));
    assert_eq!(u.raw(), 337);
}

#[test]
fn wide_types_format_like_their_siblings() {
    assert_eq!(Decimal64::<4>::from_raw(-5000).to_string(), "-0.5");
    assert_eq!(Decimal64::<0>::from_raw(i64::MIN).to_string(), "-9223372036854775808");
    assert_eq!(Decimal64::<18>::from_raw(1_000_000_000_000_000_001).to_string(), "1.000000000000000001");
    assert_eq!(UDecimal64::<2>::from_raw(5).to_string(), "0.05");
    assert_eq!(UDecimal64::<0>::from_raw(u64::MAX).to_string(), "18446744073709551615");
}

#[test]
fn wide_types_arithmetic() {
    let a = Decimal64::<18>::from_raw(i64::MAX);
    assert_eq!(a.checked_mul(a), None);
    assert_eq!(a.saturating_mul(a), Decimal64::<18>::max_value());
    let one = Decimal64::<18>::one();
    assert_eq!(a.checked_mul(one), Some(a));
    assert_eq!(a.checked_div(one), Some(a));
    let u = UDecimal64::<9>::from_raw(3_000_000_000);
    let v = UDecimal64::<9>::from_raw(2_000_000_000);
    assert_eq!(u.checked_div_round_nearest(v).map(UDecimal64::raw), Some(1_500_000_000));
    assert_eq!(v.checked_sub(u), None);
}

#[test]
fn debug_strings() {
    assert_eq!(Decimal32::<0>::from_raw(-7).to_debug_string(), "Decimal32<0>(-7)");
    assert_eq!(UDecimal32::<9>::max_value().to_debug_string(), "UDecimal32<9>(4294967295)");
}

#[test]
fn scale_accessors() {
    assert_eq!(Decimal32::<7>::scale(), 7);
    assert_eq!(UDecimal32::<3>::scale(), 3);
    assert_eq!(Decimal32::<0>::one().raw(), 1);
}

#[test]
fn comparison_follows_raw_value() {
    let (a, b) = (Decimal32::<2>::from_raw(-100), Decimal32::<2>::from_raw(0));
    assert!(a < b && b > a && a <= a && a != b && a == Decimal32::<2>::from_raw(-100));
    assert_eq!(a.partial_cmp(&b), Some(core::cmp::Ordering::Less));
    assert_eq!(a.cmp(&b), core::cmp::Ordering::Less);
    let (u, v) = (UDecimal32::<2>::from_raw(7), UDecimal32::<2>::from_raw(u32::MAX));
    assert!(u < v && v >= u && u != v);
    let (x, y) = (Decimal64::<9>::from_raw(i64::MIN), Decimal64::<9>::from_raw(-1));
    assert!(x < y && !(y < x) && x == x);
    let (p, q) = (UDecimal64::<0>::from_raw(u64::MAX), UDecimal64::<0>::from_raw(0));
    assert!(p > q && q < p && p != q);
    assert_eq!(p.partial_cmp(&p), Some(core::cmp::Ordering::Equal));
}

#[test]
fn narrow_ops_agree_with_wide_siblings() {
    let samples = [0, 1, -1, 7, -7, 125, -125, 99_999, -99_999, i32::MAX, i32::MIN, 46_341, -46_341];
    for &x in &samples {
        for &y in &samples {
            let (a, b) = (Decimal32::<3>::from_raw(x), Decimal32::<3>::from_raw(y));
            let (wa, wb) = (a.widen(), b.widen());
            assert_eq!(a.checked_mul(b), wa.checked_mul(wb).and_then(Decimal64::narrow));
            assert_eq!(a.checked_div(b), wa.checked_div(wb).and_then(Decimal64::narrow));
            assert_eq!(
                a.checked_div_round_nearest_even(b),
                wa.checked_div_round_nearest_even(wb).and_then(Decimal64::narrow)
            );
            assert_eq!(
                a.checked_div_round_floor(b),
                wa.checked_div_round_floor(wb).and_then(Decimal64::narrow)
            );
            let (u, v) = (UDecimal32::<3>::from_raw(x.unsigned_abs()), UDecimal32::<3>::from_raw(y.unsigned_abs()));
            let (wu, wv) = (u.widen(), v.widen());
            assert_eq!(u.checked_sub(v), wu.checked_sub(wv).and_then(UDecimal64::narrow));
            assert_eq!(u.checked_mul(v), wu.checked_mul(wv).and_then(UDecimal64::narrow));
            assert_eq!(
                u.checked_div_round_ceil(v),
                wu.checked_div_round_ceil(wv).and_then(UDecimal64::narrow)
            );
        }
        let a = Decimal32::<3>::from_raw(x);
        assert_eq!(a.rescale_into::<5>(), a.widen().rescale_into::<5>().and_then(Decimal64::narrow));
        assert_eq!(
            a.rescale_round_into_nearest::<1>(),
            a.widen().rescale_round_into_nearest::<1>().and_then(Decimal64::narrow)
        );
        assert_eq!(a.to_string(), a.widen().to_string());
        assert_eq!(Decimal64::from(a).narrow(), Some(a));
    }
}

#[test]
fn parse_error_messages() {
    assert_eq!(ParseError::Empty.message(), "empty or missing digits");
    assert_eq!(
        ParseError::InvalidChar { byte: b'x', pos: 3 }.message(),
        "invalid character 'x' at position 3"
    );
    assert_eq!(
        ParseError::InvalidChar { byte: b'\'', pos: 0 }.message(),
        "invalid character '\\'' at position 0"
    );
    assert_eq!(ParseError::Overflow.message(), "numeric overflow");
    assert_eq!(ParseError::Underflow.message(), "value too small to represent (underflow)");
    assert_eq!(
        ParseError::TooManyFractional { got: 12, max: 4 }.message(),
        "too many fractional digits: got 12, max 4"
    );
    let err = "1.2x".parse::<Decimal32<2>>().unwrap_err();
    assert_eq!(err.message(), "invalid character 'x' at position 3");
}

#[test]
fn invalid_char_message_composes() {
    assert_eq!(
        scaled_int::message::invalid_char_message("'\\u{0}'", 17),
        "invalid character '\\u{0}' at position 17"
    );
}

#[test]
fn invalid_char_message_printable_ascii() {
    assert_eq!(
        ParseError::InvalidChar { byte: b'e', pos: 1 }.message(),
        "invalid character 'e' at position 1"
    );
    assert_eq!(
        ParseError::InvalidChar { byte: b' ', pos: 0 }.message(),
        "invalid character ' ' at position 0"
    );
    assert_eq!(
        ParseError::InvalidChar { byte: b'"', pos: 2 }.message(),
        "invalid character '\"' at position 2"
    );
    assert_eq!("1e5".parse::<UDecimal32<2>>().unwrap_err().message(), "invalid character 'e' at position 1");
}
