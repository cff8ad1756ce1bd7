//! Tests of the lexical scanner.

use minipl::errors::LexError;
use minipl::lex::LexItem;
use minipl::lexical_scanner::Scanner;

fn scan(src: &str) -> Result<Vec<LexItem>, LexError> {
    Scanner::new(src.to_string()).scan()
}

#[test]
fn escaped_quote_stays_in_one_token() {
    let toks = scan("\"a\\\"b\"").unwrap();
    assert_eq!(toks.len(), 1);
    match &toks[0] {
        LexItem::StringLiteral(info) => {
            assert_eq!(info.text, "a\"b");
            assert_eq!(info.line_number, 1);
            assert_eq!(info.column_number, 1);
        },
        other => panic!("expected a string literal, found {:?}", other),
    }
}

#[test]
fn escaped_backslash() {
    let toks = scan("\"a\\\\b\"").unwrap();
    assert_eq!(toks.len(), 1);
    match &toks[0] {
        LexItem::StringLiteral(info) => assert_eq!(info.text, "a\\b"),
        other => panic!("expected a string literal, found {:?}", other),
    }
}

#[test]
fn unterminated_string_is_an_error() {
    assert_eq!(
        scan("\"abc"),
        Err(LexError::UnterminatedString { line: 1, column: 1 })
    );
}

#[test]
fn lone_dot_is_an_error() {
    assert_eq!(
        scan("."),
        Err(LexError::UnexpectedCharacter { line: 1, column: 1 })
    );
}

#[test]
fn token_positions_are_tracked() {
    let toks = scan("var x\nread y;").unwrap();
    match &toks[0] {
        LexItem::Var(info) => {
            assert_eq!((info.line_number, info.column_number), (1, 1));
        },
        other => panic!("expected var, found {:?}", other),
    }
    match &toks[1] {
        LexItem::Identifier(info) => {
            assert_eq!(info.text, "x");
            assert_eq!((info.line_number, info.column_number), (1, 5));
        },
        other => panic!("expected an identifier, found {:?}", other),
    }
    match &toks[2] {
        LexItem::Read(info) => {
            assert_eq!((info.line_number, info.column_number), (2, 1));
        },
        other => panic!("expected read, found {:?}", other),
    }
}

#[test]
fn number_at_end_of_input() {
    let toks = scan("123").unwrap();
    assert_eq!(toks.len(), 1);
    match &toks[0] {
        LexItem::IntegerLiteral(info) => assert_eq!(info.text, "123"),
        other => panic!("expected an integer literal, found {:?}", other),
    }
}

#[test]
fn keyword_at_end_of_input() {
    let toks = scan("bool").unwrap();
    assert_eq!(toks.len(), 1);
    assert!(matches!(toks[0], LexItem::BoolKw(_)));
}

#[test]
fn range_after_number() {
    let toks = scan("1..2").unwrap();
    assert_eq!(toks.len(), 3);
    assert!(matches!(toks[0], LexItem::IntegerLiteral(_)));
    assert!(matches!(toks[1], LexItem::Range(_)));
    assert!(matches!(toks[2], LexItem::IntegerLiteral(_)));
}

#[test]
fn assign_and_separator_disambiguated() {
    let toks = scan("x:=y:z").unwrap();
    assert_eq!(toks.len(), 5);
    assert!(matches!(toks[0], LexItem::Identifier(_)));
    assert!(matches!(toks[1], LexItem::Assign(_)));
    assert!(matches!(toks[2], LexItem::Identifier(_)));
    assert!(matches!(toks[3], LexItem::Separator(_)));
    assert!(matches!(toks[4], LexItem::Identifier(_)));
}

#[test]
fn comment_runs_to_end_of_line() {
    let toks = scan("// x := 1;\nprint").unwrap();
    assert_eq!(toks.len(), 1);
    match &toks[0] {
        LexItem::Print(info) => {
            assert_eq!((info.line_number, info.column_number), (2, 1));
        },
        other => panic!("expected print, found {:?}", other),
    }
}

#[test]
fn all_keywords_recognized() {
    let toks = scan("var for end in do read print int string bool assert true false").unwrap();
    assert_eq!(toks.len(), 13);
    assert!(matches!(toks[0], LexItem::Var(_)));
    assert!(matches!(toks[1], LexItem::For(_)));
    assert!(matches!(toks[2], LexItem::End(_)));
    assert!(matches!(toks[3], LexItem::In(_)));
    assert!(matches!(toks[4], LexItem::Do(_)));
    assert!(matches!(toks[5], LexItem::Read(_)));
    assert!(matches!(toks[6], LexItem::Print(_)));
    assert!(matches!(toks[7], LexItem::IntKw(_)));
    assert!(matches!(toks[8], LexItem::StringKw(_)));
    assert!(matches!(toks[9], LexItem::BoolKw(_)));
    assert!(matches!(toks[10], LexItem::Assert(_)));
    assert!(matches!(toks[11], LexItem::BoolTrue(_)));
    assert!(matches!(toks[12], LexItem::BoolFalse(_)));
}

#[test]
fn tabs_are_whitespace() {
    let toks = scan("var\tx").unwrap();
    assert_eq!(toks.len(), 2);
    assert!(matches!(toks[0], LexItem::Var(_)));
    match &toks[1] {
        LexItem::Identifier(info) => assert_eq!(info.text, "x"),
        other => panic!("expected an identifier, found {:?}", other),
    }
}

#[test]
fn operators_scan_one_by_one() {
    let toks = scan("+ - * / < = & ! ; ( )").unwrap();
    assert_eq!(toks.len(), 11);
    assert!(matches!(toks[0], LexItem::Plus(_)));
    assert!(matches!(toks[1], LexItem::Minus(_)));
    assert!(matches!(toks[2], LexItem::Star(_)));
    assert!(matches!(toks[3], LexItem::Slash(_)));
    assert!(matches!(toks[4], LexItem::LessThan(_)));
    assert!(matches!(toks[5], LexItem::Equal(_)));
    assert!(matches!(toks[6], LexItem::And(_)));
    assert!(matches!(toks[7], LexItem::Not(_)));
    assert!(matches!(toks[8], LexItem::StatementEnd(_)));
    assert!(matches!(toks[9], LexItem::LeftParen(_)));
    assert!(matches!(toks[10], LexItem::RightParen(_)));
}
