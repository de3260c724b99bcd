use highwater::text;
use highwater::text::{is_blank, parse_unsigned, split_on, trim};

#[test]
fn unsigned_numbers_parse_as_str_parse_does() {
    assert_eq!(parse_unsigned("42", u32::MAX as u64), Some(42));
    assert_eq!(parse_unsigned("+7", u32::MAX as u64), Some(7));
    assert_eq!(parse_unsigned("4294967295", u32::MAX as u64), Some(4_294_967_295));
    assert_eq!(parse_unsigned("4294967296", u32::MAX as u64), None);
    assert_eq!(parse_unsigned("", 10), None);
    assert_eq!(parse_unsigned("+", 10), None);
    assert_eq!(parse_unsigned("-1", 10), None);
    assert_eq!(parse_unsigned(" 1", 10), None);
    assert_eq!(parse_unsigned("0010", 10), Some(10));
    assert_eq!(parse_unsigned("18446744073709551615", u64::MAX), Some(u64::MAX));
    assert_eq!(parse_unsigned("18446744073709551616", u64::MAX), None);
    for text in ["0", "12", "+3", "x", "", "99999999999"] {
        assert_eq!(parse_unsigned(text, u32::MAX as u64), text.parse::<u32>().ok().map(u64::from));
    }
}

#[test]
fn splitting_keeps_empty_parts() {
    assert_eq!(split_on("a,,b", ','), vec!["a", "", "b"]);
    assert_eq!(split_on("", ','), vec![""]);
    assert_eq!(split_on(",", ','), vec!["", ""]);
    assert_eq!(split_on("é.x", '.'), vec!["é", "x"]);
}

#[test]
fn trimming_removes_unicode_white_space_at_both_ends() {
    assert_eq!(trim("  token\n"), "token");
    assert_eq!(trim("\u{3000}a b\t"), "a b");
    assert_eq!(trim("   "), "");
    assert!(is_blank(" \u{85}\u{2028}"));
    assert!(!is_blank(" x "));
    for text in ["", " a ", "\t\r\nb\u{a0}", "c"] {
        assert_eq!(trim(text), text.trim());
    }
}

#[test]
fn text_helpers_compare_and_print_exactly() {
    assert!(text::str_eq("abc", "abc"));
    assert!(!text::str_eq("abc", "abd"));
    assert!(text::bytes_eq(b"ab", b"ab"));
    assert!(!text::bytes_eq(b"ab", b"a"));
    assert!(text::char_is_white_space('\u{3000}'));
    assert!(!text::char_is_white_space('x'));
    assert_eq!(text::digit_to_char(11), 'b');
    let mut s = String::from("x");
    text::push_byte_hex(&mut s, 0x0f);
    text::push_hex_bytes(&mut s, &[0xde, 0xad]);
    text::push_radix(&mut s, 42, 5, 10);
    text::push_radix(&mut s, 255, 0, 16);
    assert_eq!(s, "x0fdead00042ff");
}
