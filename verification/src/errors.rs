//! The error taxonomy of the pipeline.
//!
//! Every stage reports the first problem it meets as a typed, recoverable
//! value; no stage aborts the process. Scan errors and parse errors carry
//! the source position they were detected at.

use vstd::prelude::*;
use crate::lex::TokenKind;

verus! {

/// An error detected while scanning source text.
#[derive(Clone, Copy, Debug, PartialEq, Eq, Structural)]
pub enum LexError {
    /// A character that can start no token, such as a lone `.`.
    UnexpectedCharacter { line: i32, column: i32 },
    /// The input ended inside a string literal, before its closing quote.
    UnterminatedString { line: i32, column: i32 },
}

/// The grammar production the parser was looking for when it failed.
#[derive(Clone, Copy, Debug, PartialEq, Eq, Structural)]
pub enum ConstructKind {
    Statement,
    Operand,
    Identifier,
    TypeName,
}

/// An error detected while parsing the token sequence.
#[derive(Clone, Copy, Debug, PartialEq, Eq, Structural)]
pub enum ParseError {
    /// A token that can start no statement, or an otherwise misplaced token.
    UnexpectedToken { line: i32, column: i32 },
    /// The token sequence ended where more tokens were required.
    UnexpectedEnd,
    /// A specific token was required and something else was found.
    ExpectedToken { expected: TokenKind, line: i32, column: i32 },
    /// A whole construct, such as an operand or a type name, was required.
    ExpectedConstruct { construct: ConstructKind, line: i32, column: i32 },
    /// An identifier was referenced before any declaration of it.
    UndeclaredVariable { line: i32, column: i32 },
    /// A `var` declaration reused an already declared name.
    RedeclaredVariable { line: i32, column: i32 },
    /// A `for` body was still open when the token sequence ended.
    UnterminatedBlock,
}

/// A typing fault detected while evaluating the tree.
#[derive(Clone, Copy, Debug, PartialEq, Eq, Structural)]
pub enum TypeError {
    /// An operator was applied to operands of the wrong or unequal types.
    OperandTypeMismatch,
    /// An `assert` condition evaluated to a non-boolean value.
    NonBooleanCondition,
    /// A `for` range bound evaluated to a non-integer value.
    NonIntegerRangeBound,
}

/// A runtime fault detected while executing the tree.
#[derive(Clone, Copy, Debug, PartialEq, Eq, Structural)]
pub enum RuntimeError {
    /// An integer division whose divisor evaluated to zero.
    DivisionByZero,
    /// A variable that has no binding in the runtime environment.
    UnboundVariable,
    /// A `read` line that does not parse into the target's declared type.
    ReadParseFailure,
    /// An `assert` condition that evaluated to `false`.
    AssertionFailed,
    /// A `NULL` operand where a concrete value is required.
    NullOperandUse,
    /// A literal whose text does not fit its declared type.
    InvalidLiteral,
}

/// Any fault the interpreter can report: a typing fault or a runtime fault.
#[derive(Clone, Copy, Debug, PartialEq, Eq, Structural)]
pub enum InterpretError {
    Type(TypeError),
    Runtime(RuntimeError),
}

/// Any fault of the whole pipeline, tagged with the stage that found it.
#[derive(Clone, Copy, Debug, PartialEq, Eq, Structural)]
pub enum PipelineError {
    Scan(LexError),
    Parse(ParseError),
    Interpret(InterpretError),
}

} // verus!
