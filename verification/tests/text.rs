use package_manager::text::{
    decimal_text, find_char, has_char, hex_text, parse_decimal_u64, split_at_char,
    strip_text_prefix, text_equals, text_occurs_at, text_rsplit_once, text_split_once,
};

#[test]
fn decimal_parsing_matches_u64_from_str() {
    assert_eq!(parse_decimal_u64("0"), Some(0));
    assert_eq!(parse_decimal_u64("+42"), Some(42));
    assert_eq!(parse_decimal_u64("18446744073709551615"), Some(u64::MAX));
    assert_eq!(parse_decimal_u64("18446744073709551616"), None);
    assert_eq!(parse_decimal_u64(""), None);
    assert_eq!(parse_decimal_u64("+"), None);
    assert_eq!(parse_decimal_u64("-1"), None);
    assert_eq!(parse_decimal_u64("1a"), None);
    for text in ["7", "+9", "00012", "123456789"] {
        assert_eq!(parse_decimal_u64(text), text.parse::<u64>().ok());
    }
}

#[test]
fn decimal_and_hex_text() {
    assert_eq!(decimal_text(0), "0");
    assert_eq!(decimal_text(1907), "1907");
    assert_eq!(decimal_text(u64::MAX), u64::MAX.to_string());
    assert_eq!(hex_text(0), "0");
    assert_eq!(hex_text(255), "ff");
    assert_eq!(hex_text(0xdead_beef_0123), "deadbeef0123");
    assert_eq!(hex_text(u64::MAX), format!("{:x}", u64::MAX));
    assert_eq!(parse_decimal_u64(&decimal_text(98765)), Some(98765));
}

#[test]
fn character_search() {
    assert_eq!(find_char("a.b.c", '.', 0), Some(1));
    assert_eq!(find_char("a.b.c", '.', 2), Some(3));
    assert_eq!(find_char("a.b.c", '.', 4), None);
    assert!(has_char("x/y", '/'));
    assert!(!has_char("xy", '/'));
}

#[test]
fn splitting_matches_std() {
    assert_eq!(split_at_char("1.2.3", '.'), vec!["1", "2", "3"]);
    assert_eq!(split_at_char("", '.'), vec![""]);
    assert_eq!(split_at_char(".a.", '.'), vec!["", "a", ""]);
    assert_eq!(text_rsplit_once("a.tar.b.tar.xz", ".tar"), Some(("a.tar.b", ".xz")));
    assert_eq!(text_rsplit_once("abc", ".tar"), None);
    assert_eq!(text_split_once("key=value=x", "="), Some(("key", "value=x")));
    assert_eq!(text_split_once("key", "="), None);
    for (s, p) in [("a-b-c", "-"), ("xyz", "yz"), ("aaa", "aa")] {
        assert_eq!(text_rsplit_once(s, p), s.rsplit_once(p));
        assert_eq!(text_split_once(s, p), s.split_once(p));
    }
}

#[test]
fn prefixes_and_equality() {
    assert_eq!(strip_text_prefix("refs/tags/v1", "refs/tags/"), Some("v1"));
    assert_eq!(strip_text_prefix("refs/heads/main", "refs/tags/"), None);
    assert_eq!(strip_text_prefix("ab", "abc"), None);
    assert!(text_occurs_at("hello", "ll", 2));
    assert!(!text_occurs_at("hello", "ll", 3));
    assert!(text_equals("same", "same"));
    assert!(!text_equals("same", "sane"));
    assert!(!text_equals("same", "same!"));
}
