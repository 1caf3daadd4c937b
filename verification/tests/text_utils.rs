use synthia::text::{
    ascii_upper, find_char, i32_to_dec, rfind_char, str_eq, trim_brackets, trim_str, u64_to_dec,
};

#[test]
fn test_str_eq_cases() {
    assert!(str_eq("", ""));
    assert!(str_eq("abc", "abc"));
    assert!(!str_eq("abc", "abd"));
    assert!(!str_eq("abc", "ab"));
    assert!(str_eq("naïve", "naïve"));
}

#[test]
fn test_decimal_rendering() {
    assert_eq!(u64_to_dec(0), "0");
    assert_eq!(u64_to_dec(7), "7");
    assert_eq!(u64_to_dec(1234567890), "1234567890");
    assert_eq!(i32_to_dec(-42), "-42");
    assert_eq!(i32_to_dec(0), "0");
    assert_eq!(i32_to_dec(i32::MIN), "-2147483648");
}

#[test]
fn test_ascii_upper() {
    assert_eq!(ascii_upper("info"), "INFO");
    assert_eq!(ascii_upper("Mixed-Case 42!"), "MIXED-CASE 42!");
    assert_eq!(ascii_upper(""), "");
    // non-ASCII characters pass through unchanged
    assert_eq!(ascii_upper("héllo"), "HéLLO");
}

#[test]
fn test_trimming() {
    assert_eq!(trim_str("  hello \t"), "hello");
    assert_eq!(trim_str("\r\n"), "");
    assert_eq!(trim_str("x"), "x");
    assert_eq!(trim_brackets("[core]"), "core");
    assert_eq!(trim_brackets("[[a]b]]"), "a]b");
    assert_eq!(trim_brackets("plain"), "plain");
}

#[test]
fn test_char_search() {
    assert_eq!(find_char("a b c", 0, ' '), Some(1));
    assert_eq!(find_char("a b c", 2, ' '), Some(3));
    assert_eq!(find_char("abc", 0, ' '), None);
    assert_eq!(rfind_char("[a][b] x", ']'), Some(5));
    assert_eq!(rfind_char("abc", ']'), None);
}
