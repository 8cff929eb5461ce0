use gtfs_coords::digits::{char_of, digit_of, is_digit_char};
use gtfs_coords::numeral::scan;
use gtfs_coords::text::{chars_of, is_space_char, text_of, trimmed};

fn chars(s: &str) -> Vec<char> {
    s.chars().collect()
}

#[test]
fn white_space_is_what_unicode_says() {
    for c in '\u{0}'..='\u{ffff}' {
        assert_eq!(is_space_char(c), c.is_whitespace(), "U+{:04X}", c as u32);
    }
    assert!(!is_space_char('\u{1f600}'));
    assert!(!is_space_char('\u{10ffff}'));
}

#[test]
fn trimming_takes_white_space_from_both_ends_only() {
    assert_eq!(trimmed(&chars("  a b \t\n")), chars("a b"));
    assert_eq!(trimmed(&chars("a")), chars("a"));
    assert_eq!(trimmed(&chars("")), chars(""));
    assert_eq!(trimmed(&chars(" \u{2003}\u{3000} ")), chars(""));
    assert_eq!(trimmed(&chars("\u{feff}x")), chars("\u{feff}x"));
    for s in ["", " ", "  x", "x  ", " x y ", "\u{a0}1\u{85}", "\u{200b}z "] {
        assert_eq!(text_of(&trimmed(&chars_of(s))), s.trim());
    }
}

#[test]
fn characters_and_text_convert_both_ways() {
    for s in ["", "abc", "45.1", "\u{e4}\u{1f600}z"] {
        assert_eq!(chars_of(s), chars(s));
        assert_eq!(text_of(&chars(s)), s);
    }
}

#[test]
fn digits_and_their_values() {
    for (value, c) in ('0'..='9').enumerate() {
        assert!(is_digit_char(c));
        assert_eq!(digit_of(c) as usize, value);
        assert_eq!(char_of(value as u8), c);
    }
    for c in ['/', ':', 'a', ' ', '\u{660}', '\u{ff11}'] {
        assert!(!is_digit_char(c));
    }
}

#[test]
fn scanning_reads_sign_digits_point_and_exponent() {
    let sc = scan(&chars("-12.345e-6")).unwrap();
    assert!(sc.negative);
    assert_eq!(sc.mantissa, chars("12345"));
    assert_eq!(sc.int_len, 2);
    assert_eq!(sc.exponent, -6);
    let sc = scan(&chars("+.5E+10")).unwrap();
    assert!(!sc.negative);
    assert_eq!(sc.mantissa, chars("5"));
    assert_eq!(sc.int_len, 0);
    assert_eq!(sc.exponent, 10);
    let sc = scan(&chars("007.")).unwrap();
    assert_eq!(sc.mantissa, chars("007"));
    assert_eq!(sc.int_len, 3);
    assert_eq!(sc.exponent, 0);
}

#[test]
fn scanning_caps_the_exponent() {
    let cap: i128 = 1_000_000_000_000_000_000_000_000_000_000;
    let sc = scan(&chars("1e999999999999999999999999999999")).unwrap();
    assert_eq!(sc.exponent, 999_999_999_999_999_999_999_999_999_999);
    let sc = scan(&chars("1e1000000000000000000000000000000")).unwrap();
    assert_eq!(sc.exponent, cap);
    let sc = scan(&chars("1e-98765432109876543210987654321098765432109876543210")).unwrap();
    assert_eq!(sc.exponent, -cap);
    let sc = scan(&chars("1e0000000000000000000000000000000000000000000000000012")).unwrap();
    assert_eq!(sc.exponent, 12);
}

#[test]
fn scanning_refuses_what_is_no_numeral() {
    for s in ["", ".", "+", "-.", "e1", "1e", "1e-", "1 ", " 1", "1..2", "1e1.5", "++1", "1f",
        "inf", "nan", "\u{661}"]
    {
        assert!(scan(&chars(s)).is_none(), "{:?}", s);
    }
}
