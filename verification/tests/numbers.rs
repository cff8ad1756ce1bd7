//! Tests of decimal rendering and parsing.

use minipl::numbers::{int_to_string, parse_i32_line};
use minipl::text::trim_newline;

fn parse(s: &str) -> Option<i32> {
    parse_i32_line(&s.to_string())
}

#[test]
fn render_zero() {
    assert_eq!(int_to_string(0), "0");
}

#[test]
fn render_positive() {
    assert_eq!(int_to_string(1234), "1234");
}

#[test]
fn render_negative() {
    assert_eq!(int_to_string(-123), "-123");
}

#[test]
fn render_extremes() {
    assert_eq!(int_to_string(i32::MAX), "2147483647");
    assert_eq!(int_to_string(i32::MIN), "-2147483648");
}

#[test]
fn parse_plain_number() {
    assert_eq!(parse("42"), Some(42));
}

#[test]
fn parse_trims_surrounding_whitespace() {
    assert_eq!(parse(" 42 \n"), Some(42));
}

#[test]
fn parse_signs() {
    assert_eq!(parse("-7"), Some(-7));
    assert_eq!(parse("+7"), Some(7));
}

#[test]
fn parse_extremes() {
    assert_eq!(parse("2147483647"), Some(i32::MAX));
    assert_eq!(parse("-2147483648"), Some(i32::MIN));
    assert_eq!(parse("2147483648"), None);
    assert_eq!(parse("-2147483649"), None);
}

#[test]
fn parse_rejects_junk() {
    assert_eq!(parse("abc"), None);
    assert_eq!(parse(""), None);
    assert_eq!(parse("4 2"), None);
    assert_eq!(parse("-"), None);
    assert_eq!(parse("12a"), None);
}

#[test]
fn parse_leading_zeros() {
    assert_eq!(parse("0042"), Some(42));
}

#[test]
fn round_trip_render_parse() {
    for v in [0, 1, -1, 99, -100, 123456789, i32::MAX, i32::MIN] {
        assert_eq!(parse(&int_to_string(v)), Some(v));
    }
}

#[test]
fn trim_newline_strips_one_line_ending() {
    let mut s = "ab\r\n".to_string();
    trim_newline(&mut s);
    assert_eq!(s, "ab");
    let mut s2 = "ab\n".to_string();
    trim_newline(&mut s2);
    assert_eq!(s2, "ab");
    let mut s3 = "ab".to_string();
    trim_newline(&mut s3);
    assert_eq!(s3, "ab");
    let mut s4 = "ab\n\n".to_string();
    trim_newline(&mut s4);
    assert_eq!(s4, "ab\n");
}
