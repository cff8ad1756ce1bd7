//! Token types produced by the lexical scanner.

use vstd::prelude::*;

verus! {

/// The classification of a token, independent of its text and position.
#[derive(Clone, Copy, Debug, PartialEq, Eq, Structural)]
pub enum TokenKind {
    LeftParen,
    RightParen,
    Plus,
    Minus,
    Slash,
    Star,
    LessThan,
    And,
    Not,
    StatementEnd,
    Equal,
    Separator,
    Range,
    Assign,
    StringLiteral,
    IntegerLiteral,
    Var,
    For,
    End,
    In,
    Do,
    Read,
    Print,
    IntKw,
    StringKw,
    BoolKw,
    Assert,
    BoolTrue,
    BoolFalse,
    Identifier,
}

/// The text and source position attached to a token. Lines are 1-based;
/// the column is the 1-based position of the token's first character.
#[derive(Clone, Debug, PartialEq)]
pub struct LexItemInfo {
    pub text: String,
    pub line_number: i32,
    pub column_number: i32,
}

/// A lexical token: one variant per kind, each carrying its text and position.
#[derive(Clone, Debug, PartialEq)]
pub enum LexItem {
    LeftParen(LexItemInfo),
    RightParen(LexItemInfo),
    Plus(LexItemInfo),
    Minus(LexItemInfo),
    Slash(LexItemInfo),
    Star(LexItemInfo),
    LessThan(LexItemInfo),
    And(LexItemInfo),
    Not(LexItemInfo),
    StatementEnd(LexItemInfo),
    Equal(LexItemInfo),
    Separator(LexItemInfo),
    Range(LexItemInfo),
    Assign(LexItemInfo),
    StringLiteral(LexItemInfo),
    IntegerLiteral(LexItemInfo),
    Var(LexItemInfo),
    For(LexItemInfo),
    End(LexItemInfo),
    In(LexItemInfo),
    Do(LexItemInfo),
    Read(LexItemInfo),
    Print(LexItemInfo),
    IntKw(LexItemInfo),
    StringKw(LexItemInfo),
    BoolKw(LexItemInfo),
    Assert(LexItemInfo),
    BoolTrue(LexItemInfo),
    BoolFalse(LexItemInfo),
    Identifier(LexItemInfo),
}

/// The mathematical model of a token: kind, text as a character sequence,
/// and the 1-based line and column of its first character.
pub ghost struct TokenS {
    pub kind: TokenKind,
    pub text: Seq<char>,
    pub line: int,
    pub col: int,
}

impl LexItem {
    /// The payload shared by every variant.
    pub open spec fn info_spec(&self) -> LexItemInfo {
        match self {
            LexItem::LeftParen(i) => *i,
            LexItem::RightParen(i) => *i,
            LexItem::Plus(i) => *i,
            LexItem::Minus(i) => *i,
            LexItem::Slash(i) => *i,
            LexItem::Star(i) => *i,
            LexItem::LessThan(i) => *i,
            LexItem::And(i) => *i,
            LexItem::Not(i) => *i,
            LexItem::StatementEnd(i) => *i,
            LexItem::Equal(i) => *i,
            LexItem::Separator(i) => *i,
            LexItem::Range(i) => *i,
            LexItem::Assign(i) => *i,
            LexItem::StringLiteral(i) => *i,
            LexItem::IntegerLiteral(i) => *i,
            LexItem::Var(i) => *i,
            LexItem::For(i) => *i,
            LexItem::End(i) => *i,
            LexItem::In(i) => *i,
            LexItem::Do(i) => *i,
            LexItem::Read(i) => *i,
            LexItem::Print(i) => *i,
            LexItem::IntKw(i) => *i,
            LexItem::StringKw(i) => *i,
            LexItem::BoolKw(i) => *i,
            LexItem::Assert(i) => *i,
            LexItem::BoolTrue(i) => *i,
            LexItem::BoolFalse(i) => *i,
            LexItem::Identifier(i) => *i,
        }
    }

    /// The kind of this token.
    pub open spec fn kind_spec(&self) -> TokenKind {
        match self {
            LexItem::LeftParen(_) => TokenKind::LeftParen,
            LexItem::RightParen(_) => TokenKind::RightParen,
            LexItem::Plus(_) => TokenKind::Plus,
            LexItem::Minus(_) => TokenKind::Minus,
            LexItem::Slash(_) => TokenKind::Slash,
            LexItem::Star(_) => TokenKind::Star,
            LexItem::LessThan(_) => TokenKind::LessThan,
            LexItem::And(_) => TokenKind::And,
            LexItem::Not(_) => TokenKind::Not,
            LexItem::StatementEnd(_) => TokenKind::StatementEnd,
            LexItem::Equal(_) => TokenKind::Equal,
            LexItem::Separator(_) => TokenKind::Separator,
            LexItem::Range(_) => TokenKind::Range,
            LexItem::Assign(_) => TokenKind::Assign,
            LexItem::StringLiteral(_) => TokenKind::StringLiteral,
            LexItem::IntegerLiteral(_) => TokenKind::IntegerLiteral,
            LexItem::Var(_) => TokenKind::Var,
            LexItem::For(_) => TokenKind::For,
            LexItem::End(_) => TokenKind::End,
            LexItem::In(_) => TokenKind::In,
            LexItem::Do(_) => TokenKind::Do,
            LexItem::Read(_) => TokenKind::Read,
            LexItem::Print(_) => TokenKind::Print,
            LexItem::IntKw(_) => TokenKind::IntKw,
            LexItem::StringKw(_) => TokenKind::StringKw,
            LexItem::BoolKw(_) => TokenKind::BoolKw,
            LexItem::Assert(_) => TokenKind::Assert,
            LexItem::BoolTrue(_) => TokenKind::BoolTrue,
            LexItem::BoolFalse(_) => TokenKind::BoolFalse,
            LexItem::Identifier(_) => TokenKind::Identifier,
        }
    }

    /// Returns the payload of this token.
    pub fn info(&self) -> (r: &LexItemInfo)
        ensures
            *r == self.info_spec(),
    {
        match self {
            LexItem::LeftParen(i) => i,
            LexItem::RightParen(i) => i,
            LexItem::Plus(i) => i,
            LexItem::Minus(i) => i,
            LexItem::Slash(i) => i,
            LexItem::Star(i) => i,
            LexItem::LessThan(i) => i,
            LexItem::And(i) => i,
            LexItem::Not(i) => i,
            LexItem::StatementEnd(i) => i,
            LexItem::Equal(i) => i,
            LexItem::Separator(i) => i,
            LexItem::Range(i) => i,
            LexItem::Assign(i) => i,
            LexItem::StringLiteral(i) => i,
            LexItem::IntegerLiteral(i) => i,
            LexItem::Var(i) => i,
            LexItem::For(i) => i,
            LexItem::End(i) => i,
            LexItem::In(i) => i,
            LexItem::Do(i) => i,
            LexItem::Read(i) => i,
            LexItem::Print(i) => i,
            LexItem::IntKw(i) => i,
            LexItem::StringKw(i) => i,
            LexItem::BoolKw(i) => i,
            LexItem::Assert(i) => i,
            LexItem::BoolTrue(i) => i,
            LexItem::BoolFalse(i) => i,
            LexItem::Identifier(i) => i,
        }
    }

    /// Returns the kind of this token.
    pub fn kind(&self) -> (k: TokenKind)
        ensures
            k == self.kind_spec(),
    {
        match self {
            LexItem::LeftParen(_) => TokenKind::LeftParen,
            LexItem::RightParen(_) => TokenKind::RightParen,
            LexItem::Plus(_) => TokenKind::Plus,
            LexItem::Minus(_) => TokenKind::Minus,
            LexItem::Slash(_) => TokenKind::Slash,
            LexItem::Star(_) => TokenKind::Star,
            LexItem::LessThan(_) => TokenKind::LessThan,
            LexItem::And(_) => TokenKind::And,
            LexItem::Not(_) => TokenKind::Not,
            LexItem::StatementEnd(_) => TokenKind::StatementEnd,
            LexItem::Equal(_) => TokenKind::Equal,
            LexItem::Separator(_) => TokenKind::Separator,
            LexItem::Range(_) => TokenKind::Range,
            LexItem::Assign(_) => TokenKind::Assign,
            LexItem::StringLiteral(_) => TokenKind::StringLiteral,
            LexItem::IntegerLiteral(_) => TokenKind::IntegerLiteral,
            LexItem::Var(_) => TokenKind::Var,
            LexItem::For(_) => TokenKind::For,
            LexItem::End(_) => TokenKind::End,
            LexItem::In(_) => TokenKind::In,
            LexItem::Do(_) => TokenKind::Do,
            LexItem::Read(_) => TokenKind::Read,
            LexItem::Print(_) => TokenKind::Print,
            LexItem::IntKw(_) => TokenKind::IntKw,
            LexItem::StringKw(_) => TokenKind::StringKw,
            LexItem::BoolKw(_) => TokenKind::BoolKw,
            LexItem::Assert(_) => TokenKind::Assert,
            LexItem::BoolTrue(_) => TokenKind::BoolTrue,
            LexItem::BoolFalse(_) => TokenKind::BoolFalse,
            LexItem::Identifier(_) => TokenKind::Identifier,
        }
    }

    /// Builds the token of the given kind around the given payload.
    pub fn make(kind: TokenKind, info: LexItemInfo) -> (t: LexItem)
        ensures
            t.kind_spec() == kind,
            t.info_spec() == info,
    {
        match kind {
            TokenKind::LeftParen => LexItem::LeftParen(info),
            TokenKind::RightParen => LexItem::RightParen(info),
            TokenKind::Plus => LexItem::Plus(info),
            TokenKind::Minus => LexItem::Minus(info),
            TokenKind::Slash => LexItem::Slash(info),
            TokenKind::Star => LexItem::Star(info),
            TokenKind::LessThan => LexItem::LessThan(info),
            TokenKind::And => LexItem::And(info),
            TokenKind::Not => LexItem::Not(info),
            TokenKind::StatementEnd => LexItem::StatementEnd(info),
            TokenKind::Equal => LexItem::Equal(info),
            TokenKind::Separator => LexItem::Separator(info),
            TokenKind::Range => LexItem::Range(info),
            TokenKind::Assign => LexItem::Assign(info),
            TokenKind::StringLiteral => LexItem::StringLiteral(info),
            TokenKind::IntegerLiteral => LexItem::IntegerLiteral(info),
            TokenKind::Var => LexItem::Var(info),
            TokenKind::For => LexItem::For(info),
            TokenKind::End => LexItem::End(info),
            TokenKind::In => LexItem::In(info),
            TokenKind::Do => LexItem::Do(info),
            TokenKind::Read => LexItem::Read(info),
            TokenKind::Print => LexItem::Print(info),
            TokenKind::IntKw => LexItem::IntKw(info),
            TokenKind::StringKw => LexItem::StringKw(info),
            TokenKind::BoolKw => LexItem::BoolKw(info),
            TokenKind::Assert => LexItem::Assert(info),
            TokenKind::BoolTrue => LexItem::BoolTrue(info),
            TokenKind::BoolFalse => LexItem::BoolFalse(info),
            TokenKind::Identifier => LexItem::Identifier(info),
        }
    }
}

impl View for LexItem {
    type V = TokenS;

    open spec fn view(&self) -> TokenS {
        TokenS {
            kind: self.kind_spec(),
            text: self.info_spec().text@,
            line: self.info_spec().line_number as int,
            col: self.info_spec().column_number as int,
        }
    }
}

} // verus!
