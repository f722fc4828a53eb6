use dosconf::num::{is_double, parse_i64};

#[test]
fn parse_i64_reads_plain_decimals() {
    assert_eq!(parse_i64("0"), Some(0));
    assert_eq!(parse_i64("42"), Some(42));
    assert_eq!(parse_i64("-42"), Some(-42));
    assert_eq!(parse_i64("+42"), Some(42));
    assert_eq!(parse_i64("007"), Some(7));
}

#[test]
fn parse_i64_handles_the_64_bit_bounds() {
    assert_eq!(parse_i64("9223372036854775807"), Some(i64::MAX));
    assert_eq!(parse_i64("-9223372036854775808"), Some(i64::MIN));
    assert_eq!(parse_i64("9223372036854775808"), None);
    assert_eq!(parse_i64("-9223372036854775809"), None);
    assert_eq!(parse_i64("99999999999999999999999999"), None);
}

#[test]
fn parse_i64_rejects_non_numbers() {
    assert_eq!(parse_i64(""), None);
    assert_eq!(parse_i64("-"), None);
    assert_eq!(parse_i64("+"), None);
    assert_eq!(parse_i64("12a"), None);
    assert_eq!(parse_i64(" 12"), None);
    assert_eq!(parse_i64("1.5"), None);
}

#[test]
fn is_double_accepts_the_literal_grammar() {
    assert!(is_double("1"));
    assert!(is_double("-1"));
    assert!(is_double("1.5"));
    assert!(is_double("1."));
    assert!(is_double(".5"));
    assert!(is_double("+.5"));
    assert!(is_double("1e5"));
    assert!(is_double("1.25e-3"));
    assert!(is_double("-2.5E-3"));
    assert!(is_double("3.E+2"));
}

#[test]
fn is_double_rejects_other_text() {
    assert!(!is_double(""));
    assert!(!is_double("."));
    assert!(!is_double("-"));
    assert!(!is_double("abc"));
    assert!(!is_double("1.2.3"));
    assert!(!is_double("1e"));
    assert!(!is_double("e5"));
    assert!(!is_double("1e5e5"));
    assert!(!is_double("1 "));
}
