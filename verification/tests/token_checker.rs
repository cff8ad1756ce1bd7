//! Tests of the token classification predicates.

use minipl::token_checker::{
    can_be_one_or_two_char_delimiter, is_integer, is_keyword, is_one_char_delimiter, is_operator,
    is_start_of_delimeter, is_two_char_delimiter, is_valid_identifier,
};

#[test]
fn one_char_delimiters() {
    for c in [' ', '+', '-', '*', '/', '<', '&', '!', ';'] {
        assert!(is_one_char_delimiter(&c));
    }
    assert!(!is_one_char_delimiter(&'x'));
    assert!(!is_one_char_delimiter(&':'));
}

#[test]
fn colon_opens_one_or_two_char_delimiter() {
    assert!(can_be_one_or_two_char_delimiter(&':'));
    assert!(!can_be_one_or_two_char_delimiter(&';'));
}

#[test]
fn two_char_delimiter() {
    assert!(is_two_char_delimiter(":="));
    assert!(!is_two_char_delimiter(":"));
    assert!(!is_two_char_delimiter("=="));
}

#[test]
fn start_of_delimiter() {
    assert!(is_start_of_delimeter(&':'));
    assert!(is_start_of_delimeter(&';'));
    assert!(!is_start_of_delimeter(&'a'));
}

#[test]
fn operators() {
    for c in ['+', '-', '*', '/', '<', '=', '&', '!'] {
        assert!(is_operator(&c));
    }
    assert!(!is_operator(&':'));
    assert!(!is_operator(&'a'));
}

#[test]
fn valid_identifiers() {
    assert!(is_valid_identifier("abc"));
    assert!(is_valid_identifier("x1"));
    assert!(!is_valid_identifier("9a"));
    assert!(!is_valid_identifier(":x"));
    assert!(!is_valid_identifier(""));
}

#[test]
fn keywords() {
    for kw in [
        "var", "for", "end", "in", "do", "read", "print", "int", "string", "bool", "assert",
    ] {
        assert!(is_keyword(kw));
    }
    assert!(!is_keyword("true"));
    assert!(!is_keyword("false"));
    assert!(!is_keyword("variable"));
    assert!(!is_keyword(""));
}

#[test]
fn integers() {
    assert!(is_integer("0"));
    assert!(is_integer("123"));
    assert!(!is_integer(""));
    assert!(!is_integer("12a"));
    assert!(!is_integer("-1"));
}
