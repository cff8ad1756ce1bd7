//! Tests of the recursive-descent parser.

use minipl::ast::{ArenaTree, AstItem};
use minipl::errors::{ConstructKind, ParseError};
use minipl::lex::TokenKind;
use minipl::lexical_scanner::Scanner;
use minipl::syntax_parser::SyntaxParser;

fn parse(src: &str) -> Result<ArenaTree, ParseError> {
    let toks = Scanner::new(src.to_string()).scan().unwrap();
    SyntaxParser::new(toks).parse()
}

#[test]
fn empty_token_stream_parses() {
    let tree = parse("").unwrap();
    assert_eq!(tree.arena.len(), 1);
    assert!(matches!(tree.arena[0].val, AstItem::Root));
}

#[test]
fn root_is_the_last_node() {
    let tree = parse("var x:int:=1; print x;").unwrap();
    let root = tree.arena.last().unwrap();
    assert!(matches!(root.val, AstItem::Root));
    assert_eq!(root.children.len(), 2);
}

#[test]
fn children_precede_their_parent() {
    let tree = parse("var i:int; for i in 1..2 do print i; end for;").unwrap();
    for (idx, node) in tree.arena.iter().enumerate() {
        for child in &node.children {
            assert!(*child < idx);
        }
    }
}

#[test]
fn missing_separator_in_declaration() {
    assert_eq!(
        parse("var x int;"),
        Err(ParseError::ExpectedToken { expected: TokenKind::Separator, line: 1, column: 7 })
    );
}

#[test]
fn missing_statement_end() {
    assert_eq!(parse("print 1"), Err(ParseError::UnexpectedEnd));
}

#[test]
fn missing_type_name() {
    assert_eq!(
        parse("var x:print;"),
        Err(ParseError::ExpectedConstruct {
            construct: ConstructKind::TypeName,
            line: 1,
            column: 7,
        })
    );
}

#[test]
fn statement_cannot_start_with_operator() {
    assert_eq!(parse("+ 1;"), Err(ParseError::UnexpectedToken { line: 1, column: 1 }));
}

#[test]
fn operand_required_after_operator() {
    assert_eq!(
        parse("print 1+;"),
        Err(ParseError::ExpectedConstruct { construct: ConstructKind::Operand, line: 1, column: 9 })
    );
}

#[test]
fn for_control_variable_must_be_declared() {
    assert!(matches!(
        parse("for i in 1..2 do print 1; end for;"),
        Err(ParseError::UndeclaredVariable { .. })
    ));
}

#[test]
fn declaration_with_initialiser_parses() {
    let tree = parse("var x:int:=41; x := 42;").unwrap();
    let root = tree.arena.last().unwrap();
    assert_eq!(root.children.len(), 2);
    assert!(matches!(tree.arena[root.children[0]].val, AstItem::Assign));
    assert!(matches!(tree.arena[root.children[1]].val, AstItem::Assign));
}

#[test]
fn parse_read_builds_read_node() {
    let tree = parse("var x:int; read x;").unwrap();
    let root = tree.arena.last().unwrap();
    assert!(matches!(tree.arena[root.children[1]].val, AstItem::Read));
}
