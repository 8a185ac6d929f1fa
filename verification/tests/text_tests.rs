use portfolio_explorer::text::div_pow10_u128;
use portfolio_explorer::text::i64_to_string;
use portfolio_explorer::text::is_float_literal;
use portfolio_explorer::text::check_metric_name;
use portfolio_explorer::text::parse_hex_u128;
use portfolio_explorer::text::parse_i64;
use portfolio_explorer::text::parse_u64;
use portfolio_explorer::text::trim;
use portfolio_explorer::text::u64_to_string;

#[test]
fn formats_unsigned_decimals() {
    assert_eq!(u64_to_string(0), "0");
    assert_eq!(u64_to_string(7), "7");
    assert_eq!(u64_to_string(12345), "12345");
    assert_eq!(u64_to_string(u64::MAX), "18446744073709551615");
}

#[test]
fn formats_signed_decimals() {
    assert_eq!(i64_to_string(0), "0");
    assert_eq!(i64_to_string(42), "42");
    assert_eq!(i64_to_string(-42), "-42");
    assert_eq!(i64_to_string(i64::MAX), "9223372036854775807");
    assert_eq!(i64_to_string(i64::MIN), "-9223372036854775808");
}

#[test]
fn parses_unsigned_decimals() {
    assert_eq!(parse_u64("12345"), Some(12345));
    assert_eq!(parse_u64("+7"), Some(7));
    assert_eq!(parse_u64("0"), Some(0));
    assert_eq!(parse_u64("18446744073709551615"), Some(u64::MAX));
    assert_eq!(parse_u64("18446744073709551616"), None);
    assert_eq!(parse_u64(""), None);
    assert_eq!(parse_u64("+"), None);
    assert_eq!(parse_u64("12a"), None);
    assert_eq!(parse_u64(" 12"), None);
    assert_eq!(parse_u64("-5"), None);
}

#[test]
fn parses_signed_decimals() {
    assert_eq!(parse_i64("-5"), Some(-5));
    assert_eq!(parse_i64("+5"), Some(5));
    assert_eq!(parse_i64("9223372036854775807"), Some(i64::MAX));
    assert_eq!(parse_i64("-9223372036854775808"), Some(i64::MIN));
    assert_eq!(parse_i64("9223372036854775808"), None);
    assert_eq!(parse_i64("-9223372036854775809"), None);
    assert_eq!(parse_i64("--5"), None);
    assert_eq!(parse_i64(""), None);
}

#[test]
fn trims_whitespace() {
    assert_eq!(trim("  12345\n"), "12345");
    assert_eq!(trim("\t 7 \r\n"), "7");
    assert_eq!(trim("abc"), "abc");
    assert_eq!(trim("   "), "");
    assert_eq!(trim(""), "");
    // the Unicode white-space characters are stripped too, as str::trim does
    assert_eq!(trim("\u{a0}42\u{2009}"), "42");
    assert_eq!(trim("\u{3000}7\u{85}"), "7");
}

#[test]
fn parses_hex_quantities() {
    assert_eq!(parse_hex_u128("0x0"), Some(0));
    assert_eq!(parse_hex_u128("0x64"), Some(100));
    assert_eq!(parse_hex_u128("0X1f"), Some(31));
    assert_eq!(parse_hex_u128("0xDEADbeef"), Some(0xdead_beef));
    assert_eq!(
        parse_hex_u128("0xffffffffffffffffffffffffffffffff"),
        Some(u128::MAX)
    );
    assert_eq!(parse_hex_u128("0x100000000000000000000000000000000"), None);
    assert_eq!(parse_hex_u128("64"), None);
    assert_eq!(parse_hex_u128("0x"), None);
    assert_eq!(parse_hex_u128("0xzz"), None);
}

#[test]
fn scales_by_powers_of_ten() {
    assert_eq!(div_pow10_u128(12345, 2), 123);
    assert_eq!(div_pow10_u128(5, 0), 5);
    assert_eq!(div_pow10_u128(999, 3), 0);
    assert_eq!(div_pow10_u128(7, 40), 0);
    assert_eq!(div_pow10_u128(u128::MAX, 38), 3);
}

#[test]
fn recognizes_float_literals() {
    assert!(is_float_literal("7"));
    assert!(is_float_literal("7.5"));
    assert!(is_float_literal("-7.5e-3"));
    assert!(is_float_literal("+1E10"));
    assert!(is_float_literal(".5"));
    assert!(is_float_literal("1."));
    assert!(is_float_literal("0.0"));
    assert!(!is_float_literal(""));
    assert!(!is_float_literal("."));
    assert!(!is_float_literal("e5"));
    assert!(!is_float_literal("--1"));
    assert!(!is_float_literal("1.2.3"));
    assert!(!is_float_literal("1e"));
    assert!(!is_float_literal("inf"));
    assert!(!is_float_literal("1 "));
}

#[test]
fn recognizes_metric_names() {
    assert!(check_metric_name("abc_1"));
    assert!(check_metric_name("a:b"));
    assert!(check_metric_name("_x"));
    assert!(check_metric_name("btc_balance_1A1zP1eP5QGefi2DMPTfTL5SLmv7DivfNa"));
    assert!(!check_metric_name("1abc"));
    assert!(!check_metric_name(""));
    assert!(!check_metric_name("a b"));
    assert!(!check_metric_name("a-b"));
}
