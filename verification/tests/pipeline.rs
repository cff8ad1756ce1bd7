//! End-to-end tests of the scan-parse-interpret pipeline.

use minipl::errors::{
    InterpretError, LexError, ParseError, PipelineError, RuntimeError, TypeError,
};
use minipl::lex::TokenKind;
use minipl::pipeline::run_source;

fn run(src: &str, input: &[&str]) -> (String, Option<PipelineError>) {
    let lines: Vec<String> = input.iter().map(|s| s.to_string()).collect();
    run_source(src.to_string(), &lines)
}

#[test]
fn sum_program_small() {
    let (out, err) = run("var a:int:=2;var b:int:=3;print a+b;", &[]);
    assert_eq!(out, "5");
    assert!(err.is_none());
}

#[test]
fn sum_program_larger() {
    let (out, err) = run("var a:int:=1200;var b:int:=34;print a+b;", &[]);
    assert_eq!(out, "1234");
    assert!(err.is_none());
}

#[test]
fn string_concatenation() {
    let (out, err) = run("var s:string:=\"a\"; var t:string:=\"b\"; print s+t;", &[]);
    assert_eq!(out, "ab");
    assert!(err.is_none());
}

#[test]
fn assert_true_completes() {
    let (out, err) = run("assert(true);", &[]);
    assert_eq!(out, "");
    assert!(err.is_none());
}

#[test]
fn assert_false_fails() {
    let (_, err) = run("assert(false);", &[]);
    assert_eq!(
        err,
        Some(PipelineError::Interpret(InterpretError::Runtime(RuntimeError::AssertionFailed)))
    );
}

#[test]
fn for_loop_inclusive_bounds() {
    let (out, err) = run("var i:int; for i in 1..3 do print i; end for;", &[]);
    assert_eq!(out, "123");
    assert!(err.is_none());
}

#[test]
fn for_loop_zero_iterations() {
    let (out, err) = run("var i:int; for i in 3..1 do print i; end for; print 9;", &[]);
    assert_eq!(out, "9");
    assert!(err.is_none());
}

#[test]
fn for_loop_keeps_hidden_counter() {
    // A body assignment to the control variable does not change the
    // iteration sequence: the loop rebinds the counter each round.
    let (out, err) = run("var i:int; for i in 1..3 do i := 9; print i; end for;", &[]);
    assert_eq!(out, "999");
    assert!(err.is_none());
}

#[test]
fn division_truncates() {
    let (out, err) = run("print 7/2;", &[]);
    assert_eq!(out, "3");
    assert!(err.is_none());
}

#[test]
fn division_truncates_toward_zero() {
    let (out, err) = run("var a:int:=0-7; print a/2;", &[]);
    assert_eq!(out, "-3");
    assert!(err.is_none());
}

#[test]
fn division_by_zero_is_reported() {
    let (_, err) = run("print 7/0;", &[]);
    assert_eq!(
        err,
        Some(PipelineError::Interpret(InterpretError::Runtime(RuntimeError::DivisionByZero)))
    );
}

#[test]
fn redeclaration_rejected() {
    let (_, err) = run("var x:int; var x:int;", &[]);
    assert!(matches!(
        err,
        Some(PipelineError::Parse(ParseError::RedeclaredVariable { .. }))
    ));
}

#[test]
fn undeclared_use_rejected() {
    let (_, err) = run("y := 1;", &[]);
    assert_eq!(
        err,
        Some(PipelineError::Parse(ParseError::UndeclaredVariable { line: 1, column: 1 }))
    );
}

#[test]
fn unmatched_paren_expects_closing() {
    let (_, err) = run("print (1+2;", &[]);
    assert_eq!(
        err,
        Some(PipelineError::Parse(ParseError::ExpectedToken {
            expected: TokenKind::RightParen,
            line: 1,
            column: 11,
        }))
    );
}

#[test]
fn read_into_int() {
    let (out, err) = run("var n:int; read n; print n+1;", &["41"]);
    assert_eq!(out, "42");
    assert!(err.is_none());
}

#[test]
fn read_trims_whitespace_for_int() {
    let (out, err) = run("var n:int; read n; print n;", &[" 41 \n"]);
    assert_eq!(out, "41");
    assert!(err.is_none());
}

#[test]
fn read_into_string_strips_newline() {
    let (out, err) = run("var s:string; read s; print s;", &["hi\n"]);
    assert_eq!(out, "hi");
    assert!(err.is_none());
}

#[test]
fn read_into_bool_is_an_error() {
    let (_, err) = run("var b:bool; read b;", &["x"]);
    assert_eq!(
        err,
        Some(PipelineError::Interpret(InterpretError::Runtime(RuntimeError::ReadParseFailure)))
    );
}

#[test]
fn read_parse_failure() {
    let (_, err) = run("var n:int; read n;", &["abc"]);
    assert_eq!(
        err,
        Some(PipelineError::Interpret(InterpretError::Runtime(RuntimeError::ReadParseFailure)))
    );
}

#[test]
fn null_operand_is_an_error() {
    let (_, err) = run("var x:int; print x+1;", &[]);
    assert_eq!(
        err,
        Some(PipelineError::Interpret(InterpretError::Runtime(RuntimeError::NullOperandUse)))
    );
}

#[test]
fn unassigned_variable_prints_null() {
    let (out, err) = run("var x:int; print x;", &[]);
    assert_eq!(out, "NULL");
    assert!(err.is_none());
}

#[test]
fn booleans_render_as_words() {
    let (out, err) = run("print true; print false;", &[]);
    assert_eq!(out, "truefalse");
    assert!(err.is_none());
}

#[test]
fn operand_type_mismatch() {
    let (_, err) = run("print 1+\"a\";", &[]);
    assert_eq!(
        err,
        Some(PipelineError::Interpret(InterpretError::Type(TypeError::OperandTypeMismatch)))
    );
}

#[test]
fn assert_non_boolean_condition() {
    let (_, err) = run("assert(1);", &[]);
    assert_eq!(
        err,
        Some(PipelineError::Interpret(InterpretError::Type(TypeError::NonBooleanCondition)))
    );
}

#[test]
fn non_integer_range_bound() {
    let (_, err) = run(
        "var i:int; var s:string:=\"a\"; for i in s..2 do print i; end for;",
        &[],
    );
    assert_eq!(
        err,
        Some(PipelineError::Interpret(InterpretError::Type(TypeError::NonIntegerRangeBound)))
    );
}

#[test]
fn unterminated_block() {
    let (_, err) = run("var i:int; for i in 1..2 do print i;", &[]);
    assert_eq!(err, Some(PipelineError::Parse(ParseError::UnterminatedBlock)));
}

#[test]
fn comments_are_skipped() {
    let (out, err) = run("print 1; // comment\nprint 2;", &[]);
    assert_eq!(out, "12");
    assert!(err.is_none());
}

#[test]
fn empty_program_runs() {
    let (out, err) = run("", &[]);
    assert_eq!(out, "");
    assert!(err.is_none());
}

#[test]
fn oversized_literal_is_invalid() {
    let (_, err) = run("print 9999999999;", &[]);
    assert_eq!(
        err,
        Some(PipelineError::Interpret(InterpretError::Runtime(RuntimeError::InvalidLiteral)))
    );
}

#[test]
fn addition_wraps_around() {
    let (out, err) = run("var a:int:=2147483647; print a+1;", &[]);
    assert_eq!(out, "-2147483648");
    assert!(err.is_none());
}

#[test]
fn comparison_and_logic() {
    let (out, err) = run("print 1<2; print 1=1; print true&false; print !false;", &[]);
    assert_eq!(out, "truetruefalsetrue");
    assert!(err.is_none());
}

#[test]
fn equality_requires_same_types() {
    let (_, err) = run("print 1 = true;", &[]);
    assert_eq!(
        err,
        Some(PipelineError::Interpret(InterpretError::Type(TypeError::OperandTypeMismatch)))
    );
}

#[test]
fn scan_error_reaches_the_caller() {
    let (_, err) = run("print 1.5;", &[]);
    assert_eq!(
        err,
        Some(PipelineError::Scan(LexError::UnexpectedCharacter { line: 1, column: 8 }))
    );
}

#[test]
fn output_before_fault_is_kept() {
    let (out, err) = run("print 1; print 2/0;", &[]);
    assert_eq!(out, "1");
    assert_eq!(
        err,
        Some(PipelineError::Interpret(InterpretError::Runtime(RuntimeError::DivisionByZero)))
    );
}

#[test]
fn nested_parentheses_expression() {
    let (out, err) = run("print ((1+2)*(3+4));", &[]);
    assert_eq!(out, "21");
    assert!(err.is_none());
}

#[test]
fn nested_for_loops() {
    let (out, err) = run(
        "var i:int; var j:int; for i in 1..2 do for j in 1..2 do print (i*10)+j; end for; end for;",
        &[],
    );
    assert_eq!(out, "11122122");
    assert!(err.is_none());
}
