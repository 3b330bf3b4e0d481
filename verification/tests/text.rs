use frugal::text::{
    chars_less, chars_of, decimal_string, padded_left, padded_right, replace_text, str_equal, zero_padded,
};

#[test]
fn decimal_text() {
    assert_eq!(decimal_string(0), "0");
    assert_eq!(decimal_string(-32601), "-32601");
    assert_eq!(decimal_string(i64::MIN), i64::MIN.to_string());
    assert_eq!(decimal_string(i64::MAX), i64::MAX.to_string());
    assert_eq!(zero_padded(7, 3), "007");
    assert_eq!(zero_padded(1234, 3), "1234");
}

#[test]
fn padding_and_replacing() {
    assert_eq!(padded_right("ab", 4), "ab  ");
    assert_eq!(padded_left("ab", 4), "  ab");
    assert_eq!(padded_left("abcde", 4), "abcde");
    assert_eq!(replace_text("aaa", "aa", "b"), "ba");
    assert_eq!(replace_text("x{ts}y{ts}", "{ts}", "T"), "xTyT");
}

#[test]
fn character_order() {
    assert!(chars_less(&chars_of("a"), &chars_of("b")));
    assert!(chars_less(&chars_of("ab"), &chars_of("abc")));
    assert!(!chars_less(&chars_of("abc"), &chars_of("abc")));
    assert!(chars_less(&chars_of("Z"), &chars_of("a")));
    assert!(chars_less(&chars_of("z"), &chars_of("é")));
    assert!(str_equal("é", "é"));
    assert!(!str_equal("e", "é"));
}
