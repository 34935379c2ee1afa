use camhub::text::{
    bytes_less, concat3, decimal_text, header_text, parse_i64, same_text, signed_decimal_text,
    text_less, text_or, utf8_text,
};

#[test]
fn decimal_text_writes_digits() {
    assert_eq!(decimal_text(0), "0");
    assert_eq!(decimal_text(7), "7");
    assert_eq!(decimal_text(1234567890123), "1234567890123");
    assert_eq!(decimal_text(u128::MAX), u128::MAX.to_string());
}

#[test]
fn signed_decimal_text_matches_to_string() {
    assert_eq!(signed_decimal_text(-42), "-42");
    assert_eq!(signed_decimal_text(0), "0");
    assert_eq!(signed_decimal_text(i64::MIN), i64::MIN.to_string());
    assert_eq!(signed_decimal_text(i64::MAX), i64::MAX.to_string());
}

#[test]
fn parse_i64_accepts_signed_digits() {
    assert_eq!(parse_i64("42"), Some(42));
    assert_eq!(parse_i64("+7"), Some(7));
    assert_eq!(parse_i64("-15"), Some(-15));
    assert_eq!(parse_i64("007"), Some(7));
    assert_eq!(parse_i64("-9223372036854775808"), Some(i64::MIN));
    assert_eq!(parse_i64("9223372036854775807"), Some(i64::MAX));
}

#[test]
fn parse_i64_refuses_other_text() {
    for s in ["", "-", "+", "12a", " 1", "1 ", "--1", "+-1", "1_000", "9223372036854775808",
        "-9223372036854775809", "99999999999999999999999999999999999999999"] {
        assert_eq!(parse_i64(s), None, "{:?}", s);
        assert_eq!(s.parse::<i64>().ok(), None, "{:?}", s);
    }
}

#[test]
fn parse_i64_reads_back_to_string() {
    for n in [0i64, 1, -1, 17, -300, 123456789, i64::MIN, i64::MAX] {
        assert_eq!(parse_i64(&signed_decimal_text(n)), Some(n));
    }
}

#[test]
fn bytes_less_is_lexicographic() {
    assert!(bytes_less(b"abc", b"abd"));
    assert!(bytes_less(b"ab", b"abc"));
    assert!(!bytes_less(b"abc", b"ab"));
    assert!(!bytes_less(b"abc", b"abc"));
    assert!(bytes_less(b"", b"a"));
    assert!(!bytes_less(b"", b""));
}

#[test]
fn text_less_orders_like_str() {
    let pairs = [("2024-01-02", "2024-01-10"), ("b", "a"), ("é", "z"), ("z", "é"), ("", "")];
    for (a, b) in pairs {
        assert_eq!(text_less(a, b), a < b, "{:?} {:?}", a, b);
    }
}

#[test]
fn same_text_compares_contents() {
    assert!(same_text("ping", "ping"));
    assert!(!same_text("ping", "pong"));
    assert!(!same_text("ping", "pin"));
    assert!(same_text("", ""));
}

#[test]
fn utf8_text_decodes_only_utf8() {
    assert_eq!(utf8_text(b"hello"), Some("hello".to_string()));
    assert_eq!(utf8_text("h\u{e9}".as_bytes()), Some("h\u{e9}".to_string()));
    assert_eq!(utf8_text(&[0xff, 0x61]), None);
}

#[test]
fn header_text_accepts_visible_ascii() {
    assert_eq!(header_text(b"Bearer a\tb"), Some("Bearer a\tb".to_string()));
    assert_eq!(header_text(b"a\x7fb"), None);
    assert_eq!(header_text(b"a\nb"), None);
    assert_eq!(header_text("\u{e9}".as_bytes()), None);
}

#[test]
fn concat_and_default_text() {
    assert_eq!(concat3("a", "bc", "d"), "abcd");
    assert_eq!(text_or(None, "x"), "x");
    assert_eq!(text_or(Some("y".to_string()), "x"), "y");
}
