use progit::num::{i64_text, parse_i64};
use progit::text::{join_strings, same_text, trim};

#[test]
fn i64_text_values() {
    assert_eq!(i64_text(0), "0");
    assert_eq!(i64_text(1700), "1700");
    assert_eq!(i64_text(-42), "-42");
    assert_eq!(i64_text(i64::MIN), i64::MIN.to_string());
    assert_eq!(i64_text(i64::MAX), i64::MAX.to_string());
}

#[test]
fn parse_i64_values() {
    assert_eq!(parse_i64("1700"), Some(1700));
    assert_eq!(parse_i64("+7"), Some(7));
    assert_eq!(parse_i64("-0"), Some(0));
    assert_eq!(parse_i64("007"), Some(7));
    assert_eq!(parse_i64("-9223372036854775808"), Some(i64::MIN));
    assert_eq!(parse_i64("9223372036854775807"), Some(i64::MAX));
    assert_eq!(parse_i64("9223372036854775808"), None);
    assert_eq!(parse_i64("-9223372036854775809"), None);
    assert_eq!(parse_i64(""), None);
    assert_eq!(parse_i64("-"), None);
    assert_eq!(parse_i64("+"), None);
    assert_eq!(parse_i64("12a"), None);
    assert_eq!(parse_i64(" 1"), None);
    assert_eq!(parse_i64("E1"), None);
}

#[test]
fn parse_back_text_of_numbers() {
    for n in [0i64, 1, -1, 9, 10, -10, 123456789, i64::MIN, i64::MAX] {
        assert_eq!(parse_i64(&i64_text(n)), Some(n));
    }
}

#[test]
fn parse_i64_agrees_with_std() {
    for s in ["", "+", "-", "0", "+0", "-12", "99999999999999999999", "1 ", "١"] {
        assert_eq!(parse_i64(s), s.parse::<i64>().ok(), "{s:?}");
    }
}

#[test]
fn trim_values() {
    assert_eq!(trim("  a b \t\n"), "a b");
    assert_eq!(trim("\u{3000}x\u{a0}"), "x");
    assert_eq!(trim("   "), "");
    assert_eq!(trim(""), "");
    for s in [" x ", "\u{85}y\u{2028}", "\u{200b}z"] {
        assert_eq!(trim(s), s.trim());
    }
}

#[test]
fn join_and_compare() {
    let v = vec!["a".to_string(), "b".to_string(), "c".to_string()];
    assert_eq!(join_strings(&v, ", "), "a, b, c");
    assert_eq!(join_strings(&Vec::new(), ", "), "");
    assert!(same_text("abc", "abc"));
    assert!(!same_text("abc", "abd"));
    assert!(!same_text("abc", "ab"));
}
