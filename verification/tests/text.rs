use minilang::arith::{div_i32, pow_i32, rem_i32};
use minilang::text::{bool_to_text, concat_text, i32_text, parse_i32, same_text, text_is_less};

#[test]
fn decimal_text_of_integers() {
    assert_eq!(i32_text(0), "0");
    assert_eq!(i32_text(7), "7");
    assert_eq!(i32_text(1302), "1302");
    assert_eq!(i32_text(-45), "-45");
    assert_eq!(i32_text(i32::MAX), "2147483647");
    assert_eq!(i32_text(i32::MIN), "-2147483648");
}

#[test]
fn decimal_roundtrip_on_values() {
    for n in [0, 1, -1, 9, 10, -10, 123456, i32::MAX, i32::MIN] {
        assert_eq!(parse_i32(&i32_text(n)), Some(n));
    }
}

#[test]
fn reading_integers() {
    assert_eq!(parse_i32("12"), Some(12));
    assert_eq!(parse_i32("+12"), Some(12));
    assert_eq!(parse_i32("-12"), Some(-12));
    assert_eq!(parse_i32("007"), Some(7));
    assert_eq!(parse_i32("-2147483648"), Some(i32::MIN));
    assert_eq!(parse_i32("2147483648"), None);
    assert_eq!(parse_i32("99999999999999999999"), None);
    assert_eq!(parse_i32(""), None);
    assert_eq!(parse_i32("-"), None);
    assert_eq!(parse_i32("1a"), None);
}

#[test]
fn text_equality_order_and_concatenation() {
    assert!(same_text("abc", "abc"));
    assert!(!same_text("abc", "abd"));
    assert!(!same_text("ab", "abc"));
    assert!(text_is_less("abc", "abd"));
    assert!(text_is_less("ab", "abc"));
    assert!(!text_is_less("abc", "ab"));
    assert!(!text_is_less("abc", "abc"));
    assert!(text_is_less("", "a"));
    assert_eq!(concat_text("hello", " world"), "hello world");
    assert_eq!(bool_to_text(true), "true");
    assert_eq!(bool_to_text(false), "false");
}

#[test]
fn integer_powers_and_division() {
    assert_eq!(pow_i32(2, 10), Some(1024));
    assert_eq!(pow_i32(2, 0), Some(1));
    assert_eq!(pow_i32(2, 31), None);
    assert_eq!(pow_i32(-2, 31), Some(i32::MIN));
    assert_eq!(pow_i32(-1, u32::MAX), Some(-1));
    assert_eq!(pow_i32(1, u32::MAX), Some(1));
    assert_eq!(pow_i32(0, 5), Some(0));
    assert_eq!(div_i32(7, 2), 3);
    assert_eq!(div_i32(-7, 2), -3);
    assert_eq!(div_i32(7, -2), -3);
    assert_eq!(rem_i32(-7, 2), -1);
    assert_eq!(rem_i32(7, -2), 1);
    assert_eq!(div_i32(i32::MIN, 1), i32::MIN);
}
