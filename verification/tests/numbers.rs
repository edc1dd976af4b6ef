use tiled_loader::numbers::parse_cell;
use tiled_loader::numbers::parse_micro;
use tiled_loader::numbers::parse_u32;

#[test]
fn whole_numbers_scale_to_micro_units() {
    assert_eq!(parse_micro("0"), Some(0));
    assert_eq!(parse_micro("10"), Some(10_000_000));
    assert_eq!(parse_micro("16"), Some(16_000_000));
    assert_eq!(parse_micro("-2"), Some(-2_000_000));
    assert_eq!(parse_micro("999999999"), Some(999_999_999_000_000));
}

#[test]
fn fractions_are_exact_to_six_digits_and_truncated_after() {
    assert_eq!(parse_micro("1.9131"), Some(1_913_100));
    assert_eq!(parse_micro("1.8749"), Some(1_874_900));
    assert_eq!(parse_micro("0.25"), Some(250_000));
    assert_eq!(parse_micro("-2.5"), Some(-2_500_000));
    assert_eq!(parse_micro("0.123456"), Some(123_456));
    assert_eq!(parse_micro("0.1234567"), Some(123_456));
    assert_eq!(parse_micro("-0.0000009"), Some(0));
}

#[test]
fn malformed_number_tokens_are_rejected() {
    assert_eq!(parse_micro(""), None);
    assert_eq!(parse_micro("-"), None);
    assert_eq!(parse_micro("."), None);
    assert_eq!(parse_micro("1."), None);
    assert_eq!(parse_micro(".5"), None);
    assert_eq!(parse_micro("1.2.3"), None);
    assert_eq!(parse_micro("1e3"), None);
    assert_eq!(parse_micro("two"), None);
    assert_eq!(parse_micro("1 "), None);
    // beyond the supported whole-unit magnitude
    assert_eq!(parse_micro("1000000000"), None);
}

#[test]
fn unsigned_integers_fit_u32() {
    assert_eq!(parse_u32("0"), Some(0));
    assert_eq!(parse_u32("16"), Some(16));
    assert_eq!(parse_u32("4294967295"), Some(4_294_967_295));
    assert_eq!(parse_u32("4294967296"), None);
    assert_eq!(parse_u32("-1"), None);
    assert_eq!(parse_u32("1.0"), None);
    assert_eq!(parse_u32(""), None);
}

#[test]
fn cell_values_are_signed_integers() {
    assert_eq!(parse_cell("0"), Some(0));
    assert_eq!(parse_cell("5"), Some(5));
    assert_eq!(parse_cell("-3"), Some(-3));
    assert_eq!(parse_cell("2.0"), None);
    assert_eq!(parse_cell("999999999999999"), Some(999_999_999_999_999));
    assert_eq!(parse_cell("1000000000000000"), None);
}
