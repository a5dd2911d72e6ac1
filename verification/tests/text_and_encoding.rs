use login_demo::encoding::{i64_to_decimal, parse_i64, push_lower_hex};
use login_demo::text::{str_eq, string_from_chars, trim_str};

fn decimal_string(n: i64) -> String {
    string_from_chars(&i64_to_decimal(n))
}

#[test]
fn trim_removes_unicode_white_space_at_both_ends() {
    assert_eq!(trim_str("  a b \t\n"), "a b");
    assert_eq!(trim_str("\u{3000}x\u{a0}"), "x");
    assert_eq!(trim_str(" \u{2028} "), "");
    assert_eq!(trim_str(""), "");
}

#[test]
fn trim_agrees_with_std_trim() {
    for s in ["", " ", "a", " a", "a ", "\u{85}mid dle\u{202f}", "\u{200b}zero-width\u{200b}"] {
        assert_eq!(trim_str(s), s.trim());
    }
}

#[test]
fn str_eq_compares_characters() {
    assert!(str_eq("access", "access"));
    assert!(!str_eq("access", "Access"));
    assert!(!str_eq("access", "acces"));
}

#[test]
fn decimal_formatting_matches_to_string() {
    for n in [0i64, 7, -42, 1234567890, i64::MAX, i64::MIN] {
        assert_eq!(decimal_string(n), n.to_string());
    }
}

#[test]
fn parse_i64_follows_std_parse() {
    assert_eq!(parse_i64("42"), Some(42));
    assert_eq!(parse_i64("+7"), Some(7));
    assert_eq!(parse_i64("-13"), Some(-13));
    assert_eq!(parse_i64("007"), Some(7));
    assert_eq!(parse_i64("-9223372036854775808"), Some(i64::MIN));
    assert_eq!(parse_i64("9223372036854775807"), Some(i64::MAX));
    assert_eq!(parse_i64("9223372036854775808"), None);
    assert_eq!(parse_i64(""), None);
    assert_eq!(parse_i64("-"), None);
    assert_eq!(parse_i64("+"), None);
    assert_eq!(parse_i64("12a"), None);
    assert_eq!(parse_i64(" 1"), None);
    for s in ["42", "+7", "-13", "", "-", "1e3", "99999999999999999999", "-0"] {
        assert_eq!(parse_i64(s), s.parse::<i64>().ok());
    }
}

#[test]
fn parse_reads_back_decimal_text() {
    for n in [0i64, 1, -1, 99, -100, i64::MAX, i64::MIN] {
        assert_eq!(parse_i64(&decimal_string(n)), Some(n));
    }
}

#[test]
fn lower_hex_writes_two_small_digits_per_byte() {
    let mut out = Vec::new();
    push_lower_hex(&[0x00, 0x0f, 0xab, 0xff], &mut out);
    assert_eq!(string_from_chars(&out), "000fabff");
}

#[test]
fn white_space_set_is_unicode_white_space() {
    for v in 0u32..=0x10FFFF {
        if let Some(c) = char::from_u32(v) {
            assert_eq!(login_demo::text::is_white_space_char(c), c.is_whitespace(), "U+{:04X}", v);
        }
    }
}

#[test]
fn ascii_lower_changes_only_capital_letters() {
    for v in 0u32..0x300 {
        let c = char::from_u32(v).unwrap();
        assert_eq!(login_demo::text::ascii_lower(c), c.to_ascii_lowercase());
    }
}
