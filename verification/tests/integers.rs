use fivef::numbers::{decimal_text, parse_post_id};

#[test]
fn decimal_text_matches_display() {
    for n in [0i64, 1, 9, 10, 42, -1, -42, 1234567, i64::MAX, i64::MIN, i32::MAX as i64, i32::MIN as i64] {
        assert_eq!(decimal_text(n), n.to_string());
    }
}

#[test]
fn decimal_text_values() {
    assert_eq!(decimal_text(0), "0");
    assert_eq!(decimal_text(-9223372036854775808), "-9223372036854775808");
    assert_eq!(decimal_text(905), "905");
}

#[test]
fn parse_post_id_matches_std() {
    let cases = [
        "42", "+7", "-5", "", "-", "+", "12a", "a12", " 1", "1 ", "007", "-0",
        "9223372036854775807", "9223372036854775808", "-9223372036854775808",
        "-9223372036854775809", "99999999999999999999999", "١٢", "+-1", "--1",
    ];
    for s in cases {
        assert_eq!(parse_post_id(s), s.parse::<i64>().ok(), "input {s:?}");
    }
}

#[test]
fn parse_post_id_values() {
    assert_eq!(parse_post_id("42"), Some(42));
    assert_eq!(parse_post_id("-9223372036854775808"), Some(i64::MIN));
    assert_eq!(parse_post_id("9223372036854775808"), None);
    assert_eq!(parse_post_id(""), None);
    assert_eq!(parse_post_id("x"), None);
}

#[test]
fn post_id_round_trip() {
    for n in [0i64, 5, -5, 1000, i64::MAX, i64::MIN] {
        assert_eq!(parse_post_id(&decimal_text(n)), Some(n));
    }
}
