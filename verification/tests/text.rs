use goose::text::{
    after_last, contains, decimal_of, ends_with, join, lines, parse_number, replace,
    signed_decimal_of, sort_order, sorted_strings, split, split_once, starts_with, strip_prefix,
    text_less, trim,
};

fn all(v: &[&str]) -> Vec<String> {
    v.iter().map(|s| s.to_string()).collect()
}

#[test]
fn texts_are_searched() {
    assert!(contains("abc", "bc"));
    assert!(contains("abc", ""));
    assert!(!contains("abc", "cb"));
    assert!(starts_with("abc", "ab"));
    assert!(ends_with("abc", "bc"));
    assert_eq!(strip_prefix("abc", "a").as_deref(), Some("bc"));
    assert_eq!(strip_prefix("abc", "b"), None);
    assert_eq!(split_once("a__b__c", "__"), Some(("a".to_string(), "b__c".to_string())));
    assert_eq!(split_once("a_b", "__"), None);
    assert_eq!(after_last("a__b__c", "__"), "c");
    assert_eq!(after_last("abc", "__"), "abc");
}

#[test]
fn texts_are_replaced_and_split() {
    assert_eq!(replace("aaa", "aa", "b"), "ba");
    assert_eq!(split("a:b:", ':'), all(&["a", "b", ""]));
    assert_eq!(lines("a\r\nb\n\nc"), all(&["a", "b", "", "c"]));
    assert_eq!(lines(""), all(&[]));
    assert_eq!(join(&all(&["a", "b"]), ", "), "a, b");
    assert_eq!(trim(" \t a b \n"), "a b");
}

#[test]
fn numbers_are_written_and_read() {
    assert_eq!(decimal_of(0), "0");
    assert_eq!(decimal_of(18446744073709551615), "18446744073709551615");
    assert_eq!(signed_decimal_of(-9223372036854775808), "-9223372036854775808");
    assert_eq!(parse_number("18446744073709551615"), Some(18446744073709551615));
    assert_eq!(parse_number("18446744073709551616"), None);
    assert_eq!(parse_number("+7"), Some(7));
    assert_eq!(parse_number(""), None);
    assert_eq!(parse_number("-1"), None);
}

#[test]
fn texts_are_sorted() {
    assert!(text_less("a", "b"));
    assert!(text_less("a", "ab"));
    assert!(!text_less("a", "a"));
    assert_eq!(sort_order(&all(&["b", "a", "b"])), vec![1, 0, 2]);
    assert_eq!(sorted_strings(&all(&["b", "a", "b"])), all(&["a", "b", "b"]));
    assert_eq!(
        sorted_strings(&all(&["b", "a", "c"])),
        sorted_strings(&all(&["c", "b", "a"]))
    );
}

#[test]
fn white_space_is_a_fixed_set() {
    let listed = [
        0x09, 0x0a, 0x0b, 0x0c, 0x0d, 0x20, 0x85, 0xa0, 0x1680, 0x2000, 0x2001, 0x2002, 0x2003,
        0x2004, 0x2005, 0x2006, 0x2007, 0x2008, 0x2009, 0x200a, 0x2028, 0x2029, 0x202f, 0x205f,
        0x3000,
    ];
    for n in 0..0x11_0000u32 {
        if let Some(c) = char::from_u32(n) {
            assert_eq!(trim(&c.to_string()).is_empty(), listed.contains(&n), "{n:x}");
        }
    }
}
