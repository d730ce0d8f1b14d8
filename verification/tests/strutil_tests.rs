use web_server::{parse_i32, parse_u64, split_once, split_str, str_eq, trim, trim_char, u64_to_string};

#[test]
fn test_parse_u64_grammar() {
    assert_eq!(Some(0), parse_u64("0"));
    assert_eq!(Some(123), parse_u64("+123"));
    assert_eq!(Some(18446744073709551615), parse_u64("18446744073709551615"));
    assert_eq!(None, parse_u64("18446744073709551616"));
    assert_eq!(None, parse_u64(""));
    assert_eq!(None, parse_u64("+"));
    assert_eq!(None, parse_u64("-1"));
    assert_eq!(None, parse_u64("12a"));
}

#[test]
fn test_parse_i32_grammar() {
    assert_eq!(Some(-1), parse_i32("-1"));
    assert_eq!(Some(2147483647), parse_i32("2147483647"));
    assert_eq!(Some(-2147483648), parse_i32("-2147483648"));
    assert_eq!(None, parse_i32("2147483648"));
    assert_eq!(None, parse_i32("-2147483649"));
    assert_eq!(None, parse_i32("-+5"));
    assert_eq!(Some(5), parse_i32("+5"));
}

#[test]
fn test_u64_to_string() {
    assert_eq!("0", u64_to_string(0));
    assert_eq!("907", u64_to_string(907));
    assert_eq!("18446744073709551615", u64_to_string(18446744073709551615));
}

#[test]
fn test_trim_and_split() {
    assert_eq!("abc", trim("  abc\r\n"));
    assert_eq!("a/b", trim_char("//a/b///", '/'));
    assert_eq!(vec!["a", "", "b"], split_str("a//b", '/'));
    assert_eq!(Some(("k", "v=w")), split_once("k=v=w", '='));
    assert_eq!(None, split_once("kvw", '='));
    assert!(str_eq("x", "x"));
    assert!(!str_eq("x", "y"));
}
