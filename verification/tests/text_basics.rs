use pan_registrar::numeric::{parse_u64, push_decimal, push_signed_decimal, push_six_digits};
use pan_registrar::order::{sort_dedup, sorted_order, text_less};
use pan_registrar::text::{
    any_control, any_white_space, chars_eq, chars_of, count_of, find_char, slice_chars,
    split_chars, string_of, trim_chars, trim_str, utf8_longer_than,
};

fn cs(s: &str) -> Vec<char> {
    s.chars().collect()
}

#[test]
fn trimming_matches_str_trim() {
    for s in ["  a b  ", "\t\nx\r\n", "", "   ", "\u{3000}wide\u{a0}", "none"] {
        assert_eq!(string_of(&trim_str(s)), s.trim());
        assert_eq!(string_of(&trim_chars(&cs(s))), s.trim());
    }
}

#[test]
fn character_classes() {
    assert!(any_white_space(&cs("a b")));
    assert!(any_white_space(&cs("a\u{2003}b")));
    assert!(!any_white_space(&cs("ab")));
    assert!(any_control(&cs("a\u{0}")));
    assert!(any_control(&cs("a\u{85}")));
    assert!(!any_control(&cs("a\u{a0}")));
}

#[test]
fn searching_and_slicing() {
    let v = cs("a.b.c");
    assert_eq!(find_char(&v, '.'), Some(1));
    assert_eq!(find_char(&v, '@'), None);
    assert_eq!(count_of(&v, '.'), 2);
    assert_eq!(string_of(&slice_chars(&v, 2, 5)), "b.c");
    assert!(chars_eq(&cs("xy"), &chars_of("xy")));
    assert!(!chars_eq(&cs("xy"), &cs("xz")));
    let parts: Vec<String> = split_chars(&v, '.').iter().map(string_of).collect();
    assert_eq!(parts, vec!["a", "b", "c"]);
    let parts: Vec<String> = split_chars(&cs(""), ',').iter().map(string_of).collect();
    assert_eq!(parts, vec![""]);
}

#[test]
fn utf8_lengths() {
    assert!(!utf8_longer_than(&cs("héllo"), 6));
    assert!(utf8_longer_than(&cs("héllo"), 5));
    assert!(utf8_longer_than(&cs("😀"), 3));
}

#[test]
fn text_order_is_string_order() {
    let words = ["b", "a", "ab", "é", "Z", "", "aa"];
    for x in words {
        for y in words {
            assert_eq!(text_less(&cs(x), &cs(y)), x < y, "{x} {y}");
        }
    }
}

#[test]
fn sorting() {
    let keys = vec![cs("pear"), cs("apple"), cs("fig")];
    assert_eq!(sorted_order(&keys), vec![1, 2, 0]);
    let items = vec![cs("b"), cs("a"), cs("b"), cs("c"), cs("a")];
    let out: Vec<String> = sort_dedup(&items).iter().map(string_of).collect();
    assert_eq!(out, vec!["a", "b", "c"]);
    assert!(sort_dedup(&vec![]).is_empty());
}

#[test]
fn decimals() {
    let mut v = Vec::new();
    push_decimal(0, &mut v);
    v.push(' ');
    push_decimal(u64::MAX, &mut v);
    v.push(' ');
    push_signed_decimal(i64::MIN, &mut v);
    v.push(' ');
    push_six_digits(42, &mut v);
    assert_eq!(string_of(&v), "0 18446744073709551615 -9223372036854775808 000042");
}

#[test]
fn parsing_like_str_parse() {
    for s in ["0", "30", "+7", "007", "18446744073709551615", "18446744073709551616", "", "+", "-1", " 5", "5 ", "1_000", "٣"] {
        assert_eq!(parse_u64(s), s.parse::<u64>().ok(), "{s:?}");
    }
}
