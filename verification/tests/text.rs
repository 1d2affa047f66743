use wdrc::text::{
    chars_of, contains_str, parse_unsigned, push_decimal, same_strings, str_eq, str_less,
};

#[test]
fn strings_compare_by_their_bytes() {
    assert!(str_eq("", ""));
    assert!(str_eq("abc", "abc"));
    assert!(!str_eq("abc", "abd"));
    assert!(!str_eq("abc", "ab"));
    assert!(str_less("", "a"));
    assert!(!str_less("a", ""));
    assert!(!str_less("a", "a"));
    assert!(str_less("a", "b"));
    assert!(str_less("ab", "abc"));
    assert!(str_less("abc", "abd"));
    assert!(!str_less("b", "abc"));
    assert!(str_less("20240101000000", "20240101000001"));
    assert!(str_less("z", "é"));
    assert_eq!(str_less("é", "ê"), "é" < "ê");
}

#[test]
fn string_lists() {
    let list = vec!["a".to_string(), "b".to_string()];
    assert!(contains_str(&list, "b"));
    assert!(!contains_str(&list, "c"));
    assert!(same_strings(&list, &list.clone()));
    assert!(!same_strings(&list, &vec!["b".to_string(), "a".to_string()]));
    assert!(!same_strings(&list, &vec!["a".to_string()]));
}

#[test]
fn decimal_reading_and_writing() {
    let chars = chars_of("x123");
    assert_eq!(chars, vec!['x', '1', '2', '3']);
    assert_eq!(parse_unsigned(&chars, 1), Some(123));
    assert_eq!(parse_unsigned(&chars, 0), None);
    assert_eq!(parse_unsigned(&chars, 4), None);
    assert_eq!(parse_unsigned(&chars, 5), None);
    assert_eq!(parse_unsigned(&chars_of("18446744073709551615"), 0), Some(u64::MAX));
    assert_eq!(parse_unsigned(&chars_of("18446744073709551616"), 0), None);
    assert_eq!(parse_unsigned(&chars_of("000"), 0), Some(0));
    let mut out = String::from("n=");
    push_decimal(&mut out, 0);
    push_decimal(&mut out, 907);
    push_decimal(&mut out, u64::MAX);
    assert_eq!(out, "n=090718446744073709551615");
}
