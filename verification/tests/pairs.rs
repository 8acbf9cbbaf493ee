use level_preview::num::{parse_decimal_trunc, parse_i32, parse_u32, Coord};
use level_preview::pair::{get_pair, Axis, NumKind, PairError};

#[test]
fn pair_of_unsigned_returns_both_values_in_order() {
    assert_eq!(get_pair::<u32>("800, 600"), Ok((800, 600)));
}

#[test]
fn pair_of_signed_returns_both_values_in_order() {
    assert_eq!(get_pair::<i32>("-3, +7"), Ok((-3, 7)));
}

#[test]
fn pair_of_decimals_truncates_each_side() {
    assert_eq!(
        get_pair::<Coord>("12.5, 7.0"),
        Ok((Coord { trunc: 12 }, Coord { trunc: 7 }))
    );
}

#[test]
fn pair_without_separator_is_a_format_error() {
    assert_eq!(get_pair::<u32>("800"), Err(PairError::Format));
}

#[test]
fn pair_with_two_separators_is_a_format_error() {
    assert_eq!(get_pair::<u32>("1, 2, 3"), Err(PairError::Format));
}

#[test]
fn comma_without_space_is_a_format_error() {
    assert_eq!(get_pair::<u32>("1,2"), Err(PairError::Format));
}

#[test]
fn empty_string_is_a_format_error() {
    assert_eq!(get_pair::<u32>(""), Err(PairError::Format));
}

#[test]
fn bad_left_side_names_token_axis_and_kind() {
    assert_eq!(
        get_pair::<u32>("80x, 600"),
        Err(PairError::Conversion {
            axis: Axis::X,
            token: "80x".to_string(),
            kind: NumKind::Unsigned,
        })
    );
}

#[test]
fn bad_right_side_names_token_axis_and_kind() {
    assert_eq!(
        get_pair::<i32>("3, 6 0"),
        Err(PairError::Conversion {
            axis: Axis::Y,
            token: "6 0".to_string(),
            kind: NumKind::Signed,
        })
    );
}

#[test]
fn parse_u32_accepts_the_full_range() {
    assert_eq!(parse_u32("0"), Some(0));
    assert_eq!(parse_u32("4294967295"), Some(u32::MAX));
    assert_eq!(parse_u32("+10"), Some(10));
    assert_eq!(parse_u32("007"), Some(7));
}

#[test]
fn parse_u32_rejects_what_is_not_a_u32() {
    assert_eq!(parse_u32("4294967296"), None);
    assert_eq!(parse_u32("99999999999999999999"), None);
    assert_eq!(parse_u32("-1"), None);
    assert_eq!(parse_u32(""), None);
    assert_eq!(parse_u32("+"), None);
    assert_eq!(parse_u32("1.0"), None);
    assert_eq!(parse_u32(" 1"), None);
}

#[test]
fn parse_i32_accepts_the_full_range() {
    assert_eq!(parse_i32("2147483647"), Some(i32::MAX));
    assert_eq!(parse_i32("-2147483648"), Some(i32::MIN));
    assert_eq!(parse_i32("+0"), Some(0));
    assert_eq!(parse_i32("-0"), Some(0));
}

#[test]
fn parse_i32_rejects_what_is_not_an_i32() {
    assert_eq!(parse_i32("2147483648"), None);
    assert_eq!(parse_i32("-2147483649"), None);
    assert_eq!(parse_i32(""), None);
    assert_eq!(parse_i32("-"), None);
    assert_eq!(parse_i32("12a"), None);
}

#[test]
fn decimal_truncates_toward_zero() {
    assert_eq!(parse_decimal_trunc("12.9"), Some(12));
    assert_eq!(parse_decimal_trunc("-12.9"), Some(-12));
    assert_eq!(parse_decimal_trunc("-0.9"), Some(0));
    assert_eq!(parse_decimal_trunc("0.0"), Some(0));
    assert_eq!(parse_decimal_trunc("42"), Some(42));
}

#[test]
fn decimal_accepts_bare_point_forms() {
    assert_eq!(parse_decimal_trunc("5."), Some(5));
    assert_eq!(parse_decimal_trunc(".5"), Some(0));
    assert_eq!(parse_decimal_trunc("-.5"), Some(0));
}

#[test]
fn decimal_rejects_malformed_numerals() {
    assert_eq!(parse_decimal_trunc("."), None);
    assert_eq!(parse_decimal_trunc(""), None);
    assert_eq!(parse_decimal_trunc("-"), None);
    assert_eq!(parse_decimal_trunc("1.2.3"), None);
    assert_eq!(parse_decimal_trunc("1e3"), None);
    assert_eq!(parse_decimal_trunc("inf"), None);
    assert_eq!(parse_decimal_trunc("abc"), None);
}

#[test]
fn decimal_saturates_at_the_i32_range() {
    assert_eq!(parse_decimal_trunc("3000000000"), Some(i32::MAX));
    assert_eq!(parse_decimal_trunc("-3000000000"), Some(i32::MIN));
    assert_eq!(parse_decimal_trunc("2147483648"), Some(i32::MAX));
    assert_eq!(parse_decimal_trunc("-2147483648"), Some(i32::MIN));
    assert_eq!(parse_decimal_trunc("99999999999999999999.5"), Some(i32::MAX));
}
