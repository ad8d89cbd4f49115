use bounded_cache::config::{parse_u16, parse_u64, parse_usize};
use bounded_cache::processor::{DataProcessor, StringProcessor};
use bounded_cache::utils::{is_palindrome, to_uppercase};

#[test]
fn uppercase_simple() {
    assert_eq!(to_uppercase("abc"), "ABC");
}

#[test]
fn uppercase_mixed() {
    assert_eq!(to_uppercase("Hello, World! 123"), "HELLO, WORLD! 123");
    assert_eq!(to_uppercase(""), "");
}

#[test]
fn palindrome_plain() {
    assert!(is_palindrome("racecar"));
    assert!(!is_palindrome("hello"));
}

#[test]
fn palindrome_ignores_case() {
    assert!(is_palindrome("Aa"));
    assert!(!is_palindrome("ab"));
}

#[test]
fn palindrome_ignores_punctuation() {
    assert!(is_palindrome("A man, a plan, a canal: Panama"));
    assert!(is_palindrome("No lemon, no melon"));
    assert!(!is_palindrome("almost a palindrome!"));
}

#[test]
fn palindrome_edge_cases() {
    assert!(is_palindrome(""));
    assert!(is_palindrome("x"));
    assert!(is_palindrome("!?,"));
}

#[test]
fn processor_prefixes_input() {
    let p = StringProcessor::new("pre: ".to_string());
    assert_eq!(p.process("data"), "pre: data");
    assert_eq!(p.process(""), "pre: ");
}

#[test]
fn processor_validates_non_empty() {
    let p = StringProcessor::new(String::new());
    assert!(p.validate("a"));
    assert!(!p.validate(""));
}

#[test]
fn parse_simple_numbers() {
    assert_eq!(parse_u64("42"), Some(42));
    assert_eq!(parse_u64("0"), Some(0));
    assert_eq!(parse_u64("007"), Some(7));
    assert_eq!(parse_u16("8080"), Some(8080));
    assert_eq!(parse_usize("10"), Some(10));
}

#[test]
fn parse_rejects_non_digits() {
    assert_eq!(parse_u64(""), None);
    assert_eq!(parse_u64("12a"), None);
    assert_eq!(parse_u64("-3"), None);
    assert_eq!(parse_u64(" 5"), None);
    assert_eq!(parse_u16("port"), None);
}

#[test]
fn parse_respects_bounds() {
    assert_eq!(parse_u16("65535"), Some(65535));
    assert_eq!(parse_u16("65536"), None);
    assert_eq!(parse_u64("18446744073709551615"), Some(u64::MAX));
    assert_eq!(parse_u64("18446744073709551616"), None);
    assert_eq!(parse_u64("99999999999999999999999999"), None);
}
