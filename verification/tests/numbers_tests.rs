use xnode_demo::numbers::{parse_u64, u64_to_dec};
use xnode_demo::path_safe_id;

#[test]
fn renders_zero() {
    assert_eq!(u64_to_dec(0), "0");
}

#[test]
fn renders_plain_numbers() {
    assert_eq!(u64_to_dec(7), "7");
    assert_eq!(u64_to_dec(12345), "12345");
    assert_eq!(u64_to_dec(1700000000), "1700000000");
}

#[test]
fn renders_largest_value() {
    assert_eq!(u64_to_dec(u64::MAX), "18446744073709551615");
}

#[test]
fn parses_plain_numbers() {
    assert_eq!(parse_u64("0"), Some(0));
    assert_eq!(parse_u64("123"), Some(123));
    assert_eq!(parse_u64("18446744073709551615"), Some(u64::MAX));
}

#[test]
fn parses_leading_plus() {
    assert_eq!(parse_u64("+7"), Some(7));
}

#[test]
fn rejects_empty_and_sign_only() {
    assert_eq!(parse_u64(""), None);
    assert_eq!(parse_u64("+"), None);
}

#[test]
fn rejects_non_digits() {
    assert_eq!(parse_u64("12a"), None);
    assert_eq!(parse_u64("-5"), None);
    assert_eq!(parse_u64(" 12"), None);
}

#[test]
fn rejects_too_large() {
    assert_eq!(parse_u64("18446744073709551616"), None);
    assert_eq!(parse_u64("99999999999999999999999"), None);
}

#[test]
fn round_trips_decimal() {
    for n in [0u64, 1, 9, 10, 101, 35963, u64::MAX] {
        assert_eq!(parse_u64(&u64_to_dec(n)), Some(n));
    }
}

#[test]
fn strips_path_separators() {
    assert_eq!(path_safe_id("node-a"), "node-a");
    assert_eq!(path_safe_id("../etc/passwd"), "..etcpasswd");
    assert_eq!(path_safe_id("///"), "");
    assert_eq!(path_safe_id(""), "");
}
