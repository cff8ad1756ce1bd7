//! Tests of the interpreter driven stage by stage.

use minipl::errors::{InterpretError, RuntimeError};
use minipl::interpreter::Interpreter;
use minipl::lexical_scanner::Scanner;
use minipl::syntax_parser::SyntaxParser;

fn interpret(src: &str, input: &[&str]) -> (String, Option<InterpretError>) {
    let toks = Scanner::new(src.to_string()).scan().unwrap();
    let tree = SyntaxParser::new(toks).parse().unwrap();
    let lines: Vec<String> = input.iter().map(|s| s.to_string()).collect();
    Interpreter::new(tree).interpret(&lines)
}

#[test]
fn assignment_then_print() {
    let (out, err) = interpret("var x:int:=7; print x;", &[]);
    assert_eq!(out, "7");
    assert!(err.is_none());
}

#[test]
fn reassignment_overwrites() {
    let (out, err) = interpret("var x:int:=1; x := 2; print x;", &[]);
    assert_eq!(out, "2");
    assert!(err.is_none());
}

#[test]
fn two_reads_consume_two_lines() {
    let (out, err) = interpret("var a:int; var b:int; read a; read b; print a+b;", &["1", "2"]);
    assert_eq!(out, "3");
    assert!(err.is_none());
}

#[test]
fn exhausted_input_fails_an_int_read() {
    let (_, err) = interpret("var a:int; read a;", &[]);
    assert_eq!(err, Some(InterpretError::Runtime(RuntimeError::ReadParseFailure)));
}

#[test]
fn exhausted_input_reads_an_empty_string() {
    let (out, err) = interpret("var s:string; read s; print s; print \"!\";", &[]);
    assert_eq!(out, "!");
    assert!(err.is_none());
}

#[test]
fn loop_counter_survives_the_loop() {
    let (out, err) = interpret("var i:int; for i in 1..3 do print i; end for; print i;", &[]);
    assert_eq!(out, "1234");
    assert!(err.is_none());
}

#[test]
fn string_variables_concatenate() {
    let (out, err) = interpret(
        "var a:string:=\"x\"; var b:string; b := a+a; print b+a;",
        &[],
    );
    assert_eq!(out, "xxx");
    assert!(err.is_none());
}
