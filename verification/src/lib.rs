//! A verified implementation of a small imperative teaching language.
//!
//! The library is a front-to-back pipeline: a lexical scanner that turns
//! source text into a token sequence, a recursive-descent parser that
//! performs static declaration checks while building an arena-allocated
//! abstract syntax tree, and a tree-walking interpreter that executes the
//! tree against a line-oriented input and produces the program's output.
//!
//! Every stage carries a full functional specification: scanning, parsing
//! and interpretation are each proved equal to a mathematical description
//! of the stage, so the pipeline's behaviour is pinned down end to end.

pub mod ast;
pub mod errors;
pub mod interpreter;
pub mod lex;
pub mod lexical_scanner;
pub mod numbers;
pub mod pipeline;
pub mod semantics;
pub mod syntax_parser;
pub mod text;
pub mod token_checker;
