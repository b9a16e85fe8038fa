use goodreads_sh::text::{
    chars_of, chars_equal, join_strings, parse_u32, split_chars, string_of, sub_chars, trim_chars,
    u32_to_decimal,
};

fn split(s: &str, sep: &str) -> Vec<String> {
    split_chars(&chars_of(s), &chars_of(sep)).iter().map(|p| string_of(p)).collect()
}

#[test]
fn parse_u32_reads_decimal_numbers() {
    assert_eq!(parse_u32("0"), Some(0));
    assert_eq!(parse_u32("320"), Some(320));
    assert_eq!(parse_u32("+7"), Some(7));
    assert_eq!(parse_u32("007"), Some(7));
    assert_eq!(parse_u32("4294967295"), Some(4294967295));
}

#[test]
fn parse_u32_refuses_what_is_not_a_u32() {
    assert_eq!(parse_u32(""), None);
    assert_eq!(parse_u32("+"), None);
    assert_eq!(parse_u32("-1"), None);
    assert_eq!(parse_u32("-0"), None);
    assert_eq!(parse_u32("12a"), None);
    assert_eq!(parse_u32(" 12"), None);
    assert_eq!(parse_u32("4294967296"), None);
    assert_eq!(parse_u32("99999999999999999999"), None);
    assert_eq!(parse_u32("١٢"), None);
}

#[test]
fn parse_u32_agrees_with_std() {
    for s in ["", "+", "1", "+1", "-1", "12x", "4294967295", "4294967296", "0000000000001", "+-1"] {
        assert_eq!(parse_u32(s), s.parse::<u32>().ok(), "{}", s);
    }
}

#[test]
fn decimal_form_of_numbers() {
    assert_eq!(u32_to_decimal(0), "0");
    assert_eq!(u32_to_decimal(9), "9");
    assert_eq!(u32_to_decimal(10), "10");
    assert_eq!(u32_to_decimal(4294967295), "4294967295");
    for n in [0u32, 1, 45, 100, 1234, 65536, 4294967295] {
        assert_eq!(u32_to_decimal(n), n.to_string());
        assert_eq!(parse_u32(&u32_to_decimal(n)), Some(n));
    }
}

#[test]
fn split_keeps_empty_pieces_like_str_split() {
    for (s, sep) in [("a, b, c", ", "), ("", ", "), (", ", ", "), ("a=b=c", "="), ("aaa", "aa"), ("x", "=")] {
        let expected: Vec<String> = s.split(sep).map(|p| p.to_string()).collect();
        assert_eq!(split(s, sep), expected, "{:?} by {:?}", s, sep);
    }
}

#[test]
fn join_puts_the_separator_between_items() {
    let items = vec![String::from("a=1"), String::from("b=2"), String::from("c=3")];
    assert_eq!(join_strings(&items, "&"), "a=1&b=2&c=3");
    assert_eq!(join_strings(&Vec::new(), "&"), "");
    assert_eq!(join_strings(&vec![String::from("x")], "&"), "x");
}

#[test]
fn trim_drops_unicode_whitespace_at_both_ends() {
    for s in ["  y \n", "\u{3000}y\u{85}", "y", "", "   ", " a b "] {
        assert_eq!(string_of(&trim_chars(&chars_of(s))), s.trim(), "{:?}", s);
    }
}

#[test]
fn character_helpers() {
    let v = chars_of("héllo");
    assert_eq!(v.len(), 5);
    assert_eq!(string_of(&sub_chars(&v, 1, 3)), "él");
    assert!(chars_equal(&v, &chars_of("héllo")));
    assert!(!chars_equal(&v, &chars_of("hello")));
}
