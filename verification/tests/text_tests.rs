// Texts: comparison, words, numbers and trimming.

use browser_engine::text::{
    byte_length, ends_with, parse_i64, parse_usize, split_whitespace, starts_with, str_eq,
    take_chars, trim_end_matches, trim_start_matches,
};

#[test]
fn test_str_eq() {
    assert!(str_eq("", ""));
    assert!(str_eq("grüß", "grüß"));
    assert!(!str_eq("a", "A"));
    assert!(!str_eq("ab", "abc"));
}

#[test]
fn test_split_whitespace() {
    assert_eq!(split_whitespace(""), Vec::<&str>::new());
    assert_eq!(split_whitespace(" \t\n"), Vec::<&str>::new());
    assert_eq!(split_whitespace("one"), vec!["one"]);
    assert_eq!(split_whitespace("  one two\t\tthree\n"), vec!["one", "two", "three"]);
    assert_eq!(split_whitespace("é\u{2003}ü x"), vec!["é", "ü", "x"]);
    let text = "a  bb ccc";
    assert_eq!(split_whitespace(text), text.split_whitespace().collect::<Vec<_>>());
}

#[test]
fn test_parse_usize() {
    assert_eq!(parse_usize("0"), Some(0));
    assert_eq!(parse_usize("+42"), Some(42));
    assert_eq!(parse_usize("0042"), Some(42));
    assert_eq!(parse_usize(&usize::MAX.to_string()), Some(usize::MAX));
    for text in ["", "+", "-1", "4 2", "42 ", "４２", "0x10", "1e3", "18446744073709551616"] {
        assert_eq!(parse_usize(text), None, "{:?}", text);
        assert_eq!(parse_usize(text), text.parse::<usize>().ok(), "{:?}", text);
    }
}

#[test]
fn test_parse_i64() {
    assert_eq!(parse_i64("-17"), Some(-17));
    assert_eq!(parse_i64("+17"), Some(17));
    assert_eq!(parse_i64("-0"), Some(0));
    assert_eq!(parse_i64("9223372036854775807"), Some(i64::MAX));
    assert_eq!(parse_i64("-9223372036854775807"), Some(-i64::MAX));
    for text in ["", "-", "+-1", "--1", "1.5", "9223372036854775808", "-9223372036854775808"] {
        assert_eq!(parse_i64(text), None, "{:?}", text);
    }
}

#[test]
fn test_prefix_and_suffix() {
    assert!(starts_with("/api/users", "/api"));
    assert!(starts_with("x", ""));
    assert!(!starts_with("/ap", "/api"));
    assert!(ends_with("sub.example.com", "example.com"));
    assert!(ends_with("", ""));
    assert!(!ends_with("example.org", "example.com"));
    assert!(ends_with("naïve", "ïve"));
    assert_eq!(trim_end_matches("12pxpx", "px"), "12");
    assert_eq!(trim_end_matches("12pxp", "px"), "12pxp");
    assert_eq!(trim_end_matches("px", "px"), "");
    assert_eq!(trim_end_matches("12", ""), "12");
    assert_eq!(trim_start_matches("span span 3", "span "), "3");
    assert_eq!(trim_start_matches("spa 3", "span "), "spa 3");
}

#[test]
fn test_take_chars_and_bytes() {
    assert_eq!(take_chars("héllo", 2), "hé");
    assert_eq!(take_chars("héllo", 0), "");
    assert_eq!(take_chars("héllo", 99), "héllo");
    assert_eq!(byte_length("héllo"), 6);
    assert_eq!(byte_length(""), 0);
}
