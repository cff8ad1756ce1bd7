//! The recursive-descent parser: token sequence to arena tree, with
//! static declaration checks.
//!
//! The mathematical model (`p_program` and its productions) parses the
//! token views directly into the mathematical tree, threading the
//! declaration table; the executable parser builds the same tree in its
//! arena and is proved equal to the model, production by production.

use vstd::prelude::*;
use vstd::string::*;
use crate::ast::{
    ArenaTree, AstItem, BinOpType, ConstS, ConstantInfo, ExprS, Node, ProgramS, SourceInfo, StmtS,
    VarS, VariableInfo, VariableType, expr_of, prog_of, range_of, stmt_of, stmts_of,
};
use crate::errors::{ConstructKind, ParseError};
use crate::lex::{LexItem, TokenKind, TokenS};
use crate::lexical_scanner::lex_views;

verus! {

/// The tokens left from position `i`, floored at zero so it can serve
/// as a termination measure everywhere.
pub open spec fn rem_toks(n: int, i: int) -> int {
    if i <= n {
        n - i
    } else {
        0
    }
}

/// The source position of the token at `i`, as error fields.
pub open spec fn pos_line(toks: Seq<TokenS>, i: int) -> i32 {
    toks[i].line as i32
}

/// The source position of the token at `i`, as error fields.
pub open spec fn pos_col(toks: Seq<TokenS>, i: int) -> i32 {
    toks[i].col as i32
}

/// Demands the token kind `k` at position `i`: `None` when it stands
/// there, otherwise the error to report.
pub open spec fn expect_spec(toks: Seq<TokenS>, i: int, k: TokenKind) -> Option<ParseError> {
    if i >= toks.len() {
        Some(ParseError::UnexpectedEnd)
    } else if toks[i].kind != k {
        Some(
            ParseError::ExpectedToken {
                expected: k,
                line: pos_line(toks, i),
                column: pos_col(toks, i),
            },
        )
    } else {
        None
    }
}

/// The binary operator a token kind stands for, if any.
pub open spec fn binop_of(k: TokenKind) -> Option<BinOpType> {
    match k {
        TokenKind::Plus => Some(BinOpType::Plus),
        TokenKind::Minus => Some(BinOpType::Minus),
        TokenKind::Star => Some(BinOpType::Multiply),
        TokenKind::Slash => Some(BinOpType::Divide),
        TokenKind::LessThan => Some(BinOpType::LessThan),
        TokenKind::Equal => Some(BinOpType::Equal),
        TokenKind::And => Some(BinOpType::And),
        _ => None,
    }
}

/// An operand: a literal, a declared variable, or a parenthesised
/// expression.
pub open spec fn p_opnd(toks: Seq<TokenS>, i: int, vars: Map<Seq<char>, VarS>) -> Result<
    (ExprS, int),
    ParseError,
>
    decreases rem_toks(toks.len() as int, i), 0int,
{
    if i >= toks.len() {
        Err(ParseError::UnexpectedEnd)
    } else {
        let t = toks[i];
        match t.kind {
            TokenKind::IntegerLiteral => Ok(
                (
                    ExprS::Constant(
                        ConstS {
                            text: t.text,
                            ty: VariableType::Int,
                            line: t.line,
                            col: t.col,
                        },
                    ),
                    i + 1,
                ),
            ),
            TokenKind::StringLiteral => Ok(
                (
                    ExprS::Constant(
                        ConstS {
                            text: t.text,
                            ty: VariableType::Str,
                            line: t.line,
                            col: t.col,
                        },
                    ),
                    i + 1,
                ),
            ),
            TokenKind::BoolTrue => Ok(
                (
                    ExprS::Constant(
                        ConstS {
                            text: t.text,
                            ty: VariableType::Bool,
                            line: t.line,
                            col: t.col,
                        },
                    ),
                    i + 1,
                ),
            ),
            TokenKind::BoolFalse => Ok(
                (
                    ExprS::Constant(
                        ConstS {
                            text: t.text,
                            ty: VariableType::Bool,
                            line: t.line,
                            col: t.col,
                        },
                    ),
                    i + 1,
                ),
            ),
            TokenKind::Identifier => if vars.contains_key(t.text) {
                Ok((ExprS::Variable(vars[t.text]), i + 1))
            } else {
                Err(
                    ParseError::UndeclaredVariable {
                        line: pos_line(toks, i),
                        column: pos_col(toks, i),
                    },
                )
            },
            TokenKind::LeftParen => match p_expr(toks, i + 1, vars) {
                Ok((e, j)) => match expect_spec(toks, j, TokenKind::RightParen) {
                    None => Ok((e, j + 1)),
                    Some(err) => Err(err),
                },
                Err(err) => Err(err),
            },
            _ => Err(
                ParseError::ExpectedConstruct {
                    construct: ConstructKind::Operand,
                    line: pos_line(toks, i),
                    column: pos_col(toks, i),
                },
            ),
        }
    }
}

/// An expression: an optional negation, an operand, and at most one
/// binary operator with a second operand; nesting needs parentheses.
pub open spec fn p_expr(toks: Seq<TokenS>, i: int, vars: Map<Seq<char>, VarS>) -> Result<
    (ExprS, int),
    ParseError,
>
    decreases rem_toks(toks.len() as int, i), 1int,
{
    if i >= toks.len() {
        Err(ParseError::UnexpectedEnd)
    } else {
        let has_not = toks[i].kind == TokenKind::Not;
        let k = if has_not {
            i + 1
        } else {
            i
        };
        match p_opnd(toks, k, vars) {
            Err(err) => Err(err),
            Ok((e1, j)) => {
                let e1w = if has_not {
                    ExprS::NotOp(Box::new(e1))
                } else {
                    e1
                };
                if j < toks.len() && j >= i && binop_of(toks[j].kind) is Some {
                    match p_opnd(toks, j + 1, vars) {
                        Ok((e2, j2)) => Ok(
                            (
                                ExprS::Binary(
                                    binop_of(toks[j].kind).unwrap(),
                                    Box::new(e1w),
                                    Box::new(e2),
                                ),
                                j2,
                            ),
                        ),
                        Err(err) => Err(err),
                    }
                } else {
                    Ok((e1w, j))
                }
            },
        }
    }
}

/// A `var` declaration, entered after its `var` keyword: a fresh name,
/// a type, and an optional initialising expression.
pub open spec fn p_var_decl(toks: Seq<TokenS>, i: int, vars: Map<Seq<char>, VarS>) -> Result<
    (StmtS, int, Map<Seq<char>, VarS>),
    ParseError,
>
    decreases rem_toks(toks.len() as int, i), 2int,
{
    if i >= toks.len() {
        Err(ParseError::UnexpectedEnd)
    } else if toks[i].kind != TokenKind::Identifier {
        Err(
            ParseError::ExpectedConstruct {
                construct: ConstructKind::Identifier,
                line: pos_line(toks, i),
                column: pos_col(toks, i),
            },
        )
    } else if vars.contains_key(toks[i].text) {
        Err(ParseError::RedeclaredVariable { line: pos_line(toks, i), column: pos_col(toks, i) })
    } else {
        match expect_spec(toks, i + 1, TokenKind::Separator) {
            Some(err) => Err(err),
            None => {
                if i + 2 >= toks.len() {
                    Err(ParseError::UnexpectedEnd)
                } else {
                    let tyk = toks[i + 2].kind;
                    if tyk == TokenKind::IntKw || tyk == TokenKind::StringKw || tyk
                        == TokenKind::BoolKw {
                        let ty = if tyk == TokenKind::IntKw {
                            VariableType::Int
                        } else if tyk == TokenKind::StringKw {
                            VariableType::Str
                        } else {
                            VariableType::Bool
                        };
                        let decl = VarS {
                            name: toks[i].text,
                            ty: ty,
                            line: toks[i].line,
                            col: toks[i].col,
                        };
                        let vars2 = vars.insert(decl.name, decl);
                        if i + 3 >= toks.len() {
                            Err(ParseError::UnexpectedEnd)
                        } else if toks[i + 3].kind == TokenKind::StatementEnd {
                            Ok((StmtS::Assign { target: decl, value: None }, i + 4, vars2))
                        } else if toks[i + 3].kind == TokenKind::Assign {
                            match p_expr(toks, i + 4, vars2) {
                                Ok((e, j)) => match expect_spec(toks, j, TokenKind::StatementEnd) {
                                    None => Ok(
                                        (
                                            StmtS::Assign { target: decl, value: Some(e) },
                                            j + 1,
                                            vars2,
                                        ),
                                    ),
                                    Some(err) => Err(err),
                                },
                                Err(err) => Err(err),
                            }
                        } else {
                            Err(
                                ParseError::UnexpectedToken {
                                    line: pos_line(toks, i + 3),
                                    column: pos_col(toks, i + 3),
                                },
                            )
                        }
                    } else {
                        Err(
                            ParseError::ExpectedConstruct {
                                construct: ConstructKind::TypeName,
                                line: pos_line(toks, i + 2),
                                column: pos_col(toks, i + 2),
                            },
                        )
                    }
                }
            },
        }
    }
}

/// An assignment to an already declared variable, entered at its
/// identifier.
pub open spec fn p_assign_stmt(toks: Seq<TokenS>, i: int, vars: Map<Seq<char>, VarS>) -> Result<
    (StmtS, int, Map<Seq<char>, VarS>),
    ParseError,
>
    decreases rem_toks(toks.len() as int, i), 2int,
{
    if i >= toks.len() {
        Err(ParseError::UnexpectedEnd)
    } else if !vars.contains_key(toks[i].text) {
        Err(ParseError::UndeclaredVariable { line: pos_line(toks, i), column: pos_col(toks, i) })
    } else {
        let decl = vars[toks[i].text];
        match expect_spec(toks, i + 1, TokenKind::Assign) {
            Some(err) => Err(err),
            None => match p_expr(toks, i + 2, vars) {
                Ok((e, j)) => match expect_spec(toks, j, TokenKind::StatementEnd) {
                    None => Ok((StmtS::Assign { target: decl, value: Some(e) }, j + 1, vars)),
                    Some(err) => Err(err),
                },
                Err(err) => Err(err),
            },
        }
    }
}

/// A `read` statement, entered after its keyword: a declared target
/// variable and the statement terminator.
pub open spec fn p_read(toks: Seq<TokenS>, i: int, vars: Map<Seq<char>, VarS>) -> Result<
    (StmtS, int, Map<Seq<char>, VarS>),
    ParseError,
>
    decreases rem_toks(toks.len() as int, i), 2int,
{
    if i >= toks.len() {
        Err(ParseError::UnexpectedEnd)
    } else if toks[i].kind != TokenKind::Identifier {
        Err(
            ParseError::ExpectedConstruct {
                construct: ConstructKind::Identifier,
                line: pos_line(toks, i),
                column: pos_col(toks, i),
            },
        )
    } else if !vars.contains_key(toks[i].text) {
        Err(ParseError::UndeclaredVariable { line: pos_line(toks, i), column: pos_col(toks, i) })
    } else {
        match expect_spec(toks, i + 1, TokenKind::StatementEnd) {
            None => Ok((StmtS::Read { target: vars[toks[i].text] }, i + 2, vars)),
            Some(err) => Err(err),
        }
    }
}

/// A `print` statement, entered after its keyword: an expression and
/// the statement terminator.
pub open spec fn p_print(toks: Seq<TokenS>, i: int, vars: Map<Seq<char>, VarS>) -> Result<
    (StmtS, int, Map<Seq<char>, VarS>),
    ParseError,
>
    decreases rem_toks(toks.len() as int, i), 2int,
{
    match p_expr(toks, i, vars) {
        Ok((e, j)) => match expect_spec(toks, j, TokenKind::StatementEnd) {
            None => Ok((StmtS::Print(e), j + 1, vars)),
            Some(err) => Err(err),
        },
        Err(err) => Err(err),
    }
}

/// An `assert` statement, entered after its keyword: a parenthesised
/// condition and the statement terminator.
pub open spec fn p_assert(toks: Seq<TokenS>, i: int, vars: Map<Seq<char>, VarS>) -> Result<
    (StmtS, int, Map<Seq<char>, VarS>),
    ParseError,
>
    decreases rem_toks(toks.len() as int, i), 2int,
{
    match expect_spec(toks, i, TokenKind::LeftParen) {
        Some(err) => Err(err),
        None => match p_expr(toks, i + 1, vars) {
            Ok((e, j)) => match expect_spec(toks, j, TokenKind::RightParen) {
                Some(err) => Err(err),
                None => match expect_spec(toks, j + 1, TokenKind::StatementEnd) {
                    None => Ok((StmtS::Assert(e), j + 2, vars)),
                    Some(err) => Err(err),
                },
            },
            Err(err) => Err(err),
        },
    }
}

/// A `for` loop, entered after its keyword: a declared control
/// variable, the inclusive range, and a body closed by `end for ;`.
pub open spec fn p_for(toks: Seq<TokenS>, i: int, vars: Map<Seq<char>, VarS>) -> Result<
    (StmtS, int, Map<Seq<char>, VarS>),
    ParseError,
>
    decreases rem_toks(toks.len() as int, i), 2int,
{
    if i >= toks.len() {
        Err(ParseError::UnexpectedEnd)
    } else if toks[i].kind != TokenKind::Identifier {
        Err(
            ParseError::ExpectedConstruct {
                construct: ConstructKind::Identifier,
                line: pos_line(toks, i),
                column: pos_col(toks, i),
            },
        )
    } else if !vars.contains_key(toks[i].text) {
        Err(ParseError::UndeclaredVariable { line: pos_line(toks, i), column: pos_col(toks, i) })
    } else {
        let control = vars[toks[i].text];
        match expect_spec(toks, i + 1, TokenKind::In) {
            Some(err) => Err(err),
            None => match p_expr(toks, i + 2, vars) {
                Err(err) => Err(err),
                Ok((lo, j)) => if j < i {
                    Err(ParseError::UnexpectedEnd)
                } else {
                    match expect_spec(toks, j, TokenKind::Range) {
                        Some(err) => Err(err),
                        None => match p_expr(toks, j + 1, vars) {
                            Err(err) => Err(err),
                            Ok((hi, j2)) => if j2 < i {
                                Err(ParseError::UnexpectedEnd)
                            } else {
                                match expect_spec(toks, j2, TokenKind::Do) {
                                    Some(err) => Err(err),
                                    None => match p_block(toks, j2 + 1, vars) {
                                        Ok((body, j3, vars2)) => Ok(
                                            (
                                                StmtS::For {
                                                    control: control,
                                                    lo: lo,
                                                    hi: hi,
                                                    body: body,
                                                },
                                                j3,
                                                vars2,
                                            ),
                                        ),
                                        Err(err) => Err(err),
                                    },
                                }
                            },
                        },
                    }
                },
            },
        }
    }
}

/// One statement, dispatched on its first token.
pub open spec fn p_stmt(toks: Seq<TokenS>, i: int, vars: Map<Seq<char>, VarS>) -> Result<
    (StmtS, int, Map<Seq<char>, VarS>),
    ParseError,
>
    decreases rem_toks(toks.len() as int, i), 3int,
{
    if i >= toks.len() {
        Err(ParseError::UnexpectedEnd)
    } else {
        match toks[i].kind {
            TokenKind::Var => p_var_decl(toks, i + 1, vars),
            TokenKind::Identifier => p_assign_stmt(toks, i, vars),
            TokenKind::Read => p_read(toks, i + 1, vars),
            TokenKind::Print => p_print(toks, i + 1, vars),
            TokenKind::Assert => p_assert(toks, i + 1, vars),
            TokenKind::For => p_for(toks, i + 1, vars),
            _ => Err(
                ParseError::UnexpectedToken { line: pos_line(toks, i), column: pos_col(toks, i) },
            ),
        }
    }
}

/// A `for` body: statements accumulated until `end for ;`; a body still
/// open at the end of the tokens is unterminated.
pub open spec fn p_block(toks: Seq<TokenS>, i: int, vars: Map<Seq<char>, VarS>) -> Result<
    (Seq<StmtS>, int, Map<Seq<char>, VarS>),
    ParseError,
>
    decreases rem_toks(toks.len() as int, i), 4int,
{
    if i >= toks.len() {
        Err(ParseError::UnterminatedBlock)
    } else if toks[i].kind == TokenKind::End {
        match expect_spec(toks, i + 1, TokenKind::For) {
            Some(err) => Err(err),
            None => match expect_spec(toks, i + 2, TokenKind::StatementEnd) {
                Some(err) => Err(err),
                None => Ok((Seq::empty(), i + 3, vars)),
            },
        }
    } else {
        match p_stmt(toks, i, vars) {
            Err(err) => Err(err),
            Ok((s, j, vars2)) => if j <= i {
                Err(ParseError::UnterminatedBlock)
            } else {
                match p_block(toks, j, vars2) {
                    Ok((rest, j2, vars3)) => Ok((seq![s] + rest, j2, vars3)),
                    Err(err) => Err(err),
                }
            },
        }
    }
}

/// The top-level statement sequence: statements until the tokens end.
pub open spec fn p_stmts(toks: Seq<TokenS>, i: int, vars: Map<Seq<char>, VarS>) -> Result<
    (Seq<StmtS>, Map<Seq<char>, VarS>),
    ParseError,
>
    decreases rem_toks(toks.len() as int, i),
{
    if i >= toks.len() {
        Ok((Seq::empty(), vars))
    } else {
        match p_stmt(toks, i, vars) {
            Err(err) => Err(err),
            Ok((s, j, vars2)) => if j <= i {
                Err(ParseError::UnexpectedEnd)
            } else {
                match p_stmts(toks, j, vars2) {
                    Ok((rest, varsf)) => Ok((seq![s] + rest, varsf)),
                    Err(err) => Err(err),
                }
            },
        }
    }
}

/// A whole program, parsed from an empty declaration table.
pub open spec fn p_program(toks: Seq<TokenS>) -> Result<ProgramS, ParseError> {
    match p_stmts(toks, 0, Map::empty()) {
        Ok((ss, _vars)) => Ok(ProgramS { stmts: ss }),
        Err(err) => Err(err),
    }
}

/// Prepending no statements changes nothing.
proof fn lemma_prepend_block_empty(r: Result<(Seq<StmtS>, int, Map<Seq<char>, VarS>), ParseError>)
    ensures
        prepend_block(Seq::empty(), r) == r,
{
    match r {
        Ok((rest, _j, _vf)) => {
            assert(Seq::<StmtS>::empty() + rest =~= rest);
        },
        Err(_) => {},
    }
}

/// Prepending no statements changes nothing.
proof fn lemma_prepend_stmts_empty(r: Result<(Seq<StmtS>, Map<Seq<char>, VarS>), ParseError>)
    ensures
        prepend_stmts(Seq::empty(), r) == r,
{
    match r {
        Ok((rest, _vf)) => {
            assert(Seq::<StmtS>::empty() + rest =~= rest);
        },
        Err(_) => {},
    }
}

/// Statements already parsed, prepended to the rest of a block parse.
pub open spec fn prepend_block(
    ss: Seq<StmtS>,
    r: Result<(Seq<StmtS>, int, Map<Seq<char>, VarS>), ParseError>,
) -> Result<(Seq<StmtS>, int, Map<Seq<char>, VarS>), ParseError> {
    match r {
        Ok((rest, j, vf)) => Ok((ss + rest, j, vf)),
        Err(err) => Err(err),
    }
}

/// Statements already parsed, prepended to the rest of a program parse.
pub open spec fn prepend_stmts(
    ss: Seq<StmtS>,
    r: Result<(Seq<StmtS>, Map<Seq<char>, VarS>), ParseError>,
) -> Result<(Seq<StmtS>, Map<Seq<char>, VarS>), ParseError> {
    match r {
        Ok((rest, vf)) => Ok((ss + rest, vf)),
        Err(err) => Err(err),
    }
}

// ---------------------------------------------------------------------------
// The declaration table.
// ---------------------------------------------------------------------------

/// The map described by a declaration list: later entries win, though
/// the parser never declares a name twice.
pub open spec fn decl_map(s: Seq<VariableInfo>) -> Map<Seq<char>, VarS>
    decreases s.len(),
{
    if s.len() == 0 {
        Map::empty()
    } else {
        decl_map(s.drop_last()).insert(s.last().name@, crate::ast::var_s(s.last()))
    }
}

/// The parse-time declaration table: name to declared type and
/// declaration site.
pub struct DeclTable {
    entries: Vec<VariableInfo>,
}

impl View for DeclTable {
    type V = Map<Seq<char>, VarS>;

    closed spec fn view(&self) -> Map<Seq<char>, VarS> {
        decl_map(self.entries@)
    }
}

impl DeclTable {
    /// An empty table.
    pub fn new() -> (r: DeclTable)
        ensures
            r@ == Map::<Seq<char>, VarS>::empty(),
    {
        DeclTable { entries: Vec::new() }
    }

    /// The declaration of `name`, if any.
    pub fn lookup(&self, name: &String) -> (r: Option<VariableInfo>)
        ensures
            match r {
                Some(vi) => self@.contains_key(name@) && crate::ast::var_s(vi) == self@[name@],
                None => !self@.contains_key(name@),
            },
    {
        let n = self.entries.len();
        proof {
            assert(self.entries@.subrange(0, n as int) =~= self.entries@);
        }
        let mut k: usize = n;
        while k > 0
            invariant
                k <= n,
                n == self.entries@.len(),
                decl_map(self.entries@).contains_key(name@) == decl_map(
                    self.entries@.subrange(0, k as int),
                ).contains_key(name@),
                decl_map(self.entries@).contains_key(name@) ==> decl_map(self.entries@)[name@]
                    == decl_map(self.entries@.subrange(0, k as int))[name@],
            decreases k,
        {
            let i = k - 1;
            let ghost p = self.entries@.subrange(0, k as int);
            proof {
                assert(p.last() == self.entries@[i as int]);
                assert(p.drop_last() =~= self.entries@.subrange(0, k as int - 1));
            }
            if crate::text::string_eq_str(&self.entries[i].name, name.as_str()) {
                return Some(self.entries[i].duplicate());
            }
            k = i;
        }
        proof {
            assert(self.entries@.subrange(0, 0) =~= Seq::<VariableInfo>::empty());
        }
        None
    }

    /// Whether `name` is declared.
    pub fn contains(&self, name: &String) -> (r: bool)
        ensures
            r == self@.contains_key(name@),
    {
        match self.lookup(name) {
            Some(_) => true,
            None => false,
        }
    }

    /// Records a fresh declaration.
    pub fn insert(&mut self, vi: VariableInfo)
        ensures
            final(self)@ == old(self)@.insert(vi.name@, crate::ast::var_s(vi)),
    {
        self.entries.push(vi);
        proof {
            assert(self.entries@.drop_last() =~= old(self).entries@);
        }
    }
}

// ---------------------------------------------------------------------------
// The executable parser.
// ---------------------------------------------------------------------------

/// The executable form of `binop_of`.
fn binop_of_exec(k: TokenKind) -> (r: Option<BinOpType>)
    ensures
        r == binop_of(k),
{
    match k {
        TokenKind::Plus => Some(BinOpType::Plus),
        TokenKind::Minus => Some(BinOpType::Minus),
        TokenKind::Star => Some(BinOpType::Multiply),
        TokenKind::Slash => Some(BinOpType::Divide),
        TokenKind::LessThan => Some(BinOpType::LessThan),
        TokenKind::Equal => Some(BinOpType::Equal),
        TokenKind::And => Some(BinOpType::And),
        _ => None,
    }
}

/// The recursive-descent parser: the tokens it reads, the declaration
/// table it checks against, and the arena it builds into.
pub struct SyntaxParser {
    tokens: Vec<LexItem>,
    variables: DeclTable,
    ast: ArenaTree,
}

impl SyntaxParser {
    /// The views of the tokens this parser reads.
    pub closed spec fn toks(&self) -> Seq<TokenS> {
        lex_views(self.tokens@)
    }

    /// The current declaration table.
    pub closed spec fn vars(&self) -> Map<Seq<char>, VarS> {
        self.variables@
    }

    /// The arena built so far.
    pub closed spec fn nodes(&self) -> Seq<Node> {
        self.ast.arena@
    }

    /// A parser over the given tokens, with an empty table and an empty
    /// arena.
    pub fn new(tokens: Vec<LexItem>) -> (r: SyntaxParser)
        ensures
            r.toks() == lex_views(tokens@),
            r.vars() == Map::<Seq<char>, VarS>::empty(),
            r.nodes().len() == 0,
    {
        SyntaxParser { tokens, variables: DeclTable::new(), ast: ArenaTree { arena: Vec::new() } }
    }

    /// Appends one node and returns its handle.
    fn push_node(&mut self, item: AstItem, children: Vec<usize>) -> (h: usize)
        ensures
            final(self).tokens == old(self).tokens,
            final(self).variables == old(self).variables,
            final(self).nodes() == old(self).nodes().push(Node { val: item, children: children }),
            h as int == old(self).nodes().len(),
            old(self).nodes().is_prefix_of(final(self).nodes()),
    {
        let h = self.ast.arena.len();
        self.ast.arena.push(Node { val: item, children });
        proof {
            assert(self.ast.arena@.subrange(0, old(self).ast.arena@.len() as int) =~= old(
                self,
            ).ast.arena@);
        }
        h
    }

    /// Demands the token kind `k` at position `i`.
    fn expect(&self, i: usize, k: TokenKind) -> (r: Result<(), ParseError>)
        ensures
            match r {
                Ok(_) => expect_spec(self.toks(), i as int, k) is None && (i as int)
                    < self.toks().len() && self.toks()[i as int].kind == k,
                Err(e) => expect_spec(self.toks(), i as int, k) == Some(e),
            },
    {
        proof {
            if (i as int) < self.tokens@.len() {
                assert(self.toks()[i as int] == self.tokens@[i as int]@);
            }
        }
        if i >= self.tokens.len() {
            Err(ParseError::UnexpectedEnd)
        } else {
            let t = &self.tokens[i];
            if t.kind() == k {
                Ok(())
            } else {
                let info = t.info();
                Err(
                    ParseError::ExpectedToken {
                        expected: k,
                        line: info.line_number,
                        column: info.column_number,
                    },
                )
            }
        }
    }

    /// Parses an operand at `i`: the new node's handle and the next
    /// position.
    fn parse_opnd(&mut self, i: usize) -> (r: Result<(usize, usize), ParseError>)
        ensures
            final(self).tokens == old(self).tokens,
            final(self).variables == old(self).variables,
            old(self).nodes().is_prefix_of(final(self).nodes()),
            match r {
                Ok(p) => (p.0 as int) < final(self).nodes().len() && expr_of(
                    final(self).nodes(),
                    p.0 as int,
                ) is Some && p_opnd(old(self).toks(), i as int, old(self).vars()) == Ok::<
                    (ExprS, int),
                    ParseError,
                >((expr_of(final(self).nodes(), p.0 as int).unwrap(), p.1 as int)),
                Err(e) => p_opnd(old(self).toks(), i as int, old(self).vars()) == Err::<
                    (ExprS, int),
                    ParseError,
                >(e),
            },
        decreases rem_toks(self.tokens@.len() as int, i as int), 0int,
    {
        proof {
            if (i as int) < self.tokens@.len() {
                assert(self.toks()[i as int] == self.tokens@[i as int]@);
            }
        }
        if i >= self.tokens.len() {
            return Err(ParseError::UnexpectedEnd);
        }
        let kind = self.tokens[i].kind();
        match kind {
            TokenKind::IntegerLiteral => {
                let (txt, ln, cl) = {
                    let info = self.tokens[i].info();
                    (info.text.clone(), info.line_number, info.column_number)
                };
                let h = self.push_node(
                    AstItem::Constant(
                        ConstantInfo {
                            value: txt,
                            const_type: VariableType::Int,
                            source_info: SourceInfo { line: ln, column: cl },
                        },
                    ),
                    Vec::new(),
                );
                Ok((h, i + 1))
            },
            TokenKind::StringLiteral => {
                let (txt, ln, cl) = {
                    let info = self.tokens[i].info();
                    (info.text.clone(), info.line_number, info.column_number)
                };
                let h = self.push_node(
                    AstItem::Constant(
                        ConstantInfo {
                            value: txt,
                            const_type: VariableType::Str,
                            source_info: SourceInfo { line: ln, column: cl },
                        },
                    ),
                    Vec::new(),
                );
                Ok((h, i + 1))
            },
            TokenKind::BoolTrue => {
                let (txt, ln, cl) = {
                    let info = self.tokens[i].info();
                    (info.text.clone(), info.line_number, info.column_number)
                };
                let h = self.push_node(
                    AstItem::Constant(
                        ConstantInfo {
                            value: txt,
                            const_type: VariableType::Bool,
                            source_info: SourceInfo { line: ln, column: cl },
                        },
                    ),
                    Vec::new(),
                );
                Ok((h, i + 1))
            },
            TokenKind::BoolFalse => {
                let (txt, ln, cl) = {
                    let info = self.tokens[i].info();
                    (info.text.clone(), info.line_number, info.column_number)
                };
                let h = self.push_node(
                    AstItem::Constant(
                        ConstantInfo {
                            value: txt,
                            const_type: VariableType::Bool,
                            source_info: SourceInfo { line: ln, column: cl },
                        },
                    ),
                    Vec::new(),
                );
                Ok((h, i + 1))
            },
            TokenKind::Identifier => {
                let name = self.tokens[i].info().text.clone();
                match self.variables.lookup(&name) {
                    Some(vi) => {
                        let h = self.push_node(AstItem::Variable(vi), Vec::new());
                        Ok((h, i + 1))
                    },
                    None => {
                        let info = self.tokens[i].info();
                        Err(
                            ParseError::UndeclaredVariable {
                                line: info.line_number,
                                column: info.column_number,
                            },
                        )
                    },
                }
            },
            TokenKind::LeftParen => {
                match self.parse_expr(i + 1) {
                    Ok((c, j)) => match self.expect(j, TokenKind::RightParen) {
                        Ok(_) => Ok((c, j + 1)),
                        Err(e) => Err(e),
                    },
                    Err(e) => Err(e),
                }
            },
            _ => {
                let info = self.tokens[i].info();
                Err(
                    ParseError::ExpectedConstruct {
                        construct: ConstructKind::Operand,
                        line: info.line_number,
                        column: info.column_number,
                    },
                )
            },
        }
    }

    /// Parses an expression at `i`: the new node's handle and the next
    /// position.
    fn parse_expr(&mut self, i: usize) -> (r: Result<(usize, usize), ParseError>)
        ensures
            final(self).tokens == old(self).tokens,
            final(self).variables == old(self).variables,
            old(self).nodes().is_prefix_of(final(self).nodes()),
            match r {
                Ok(p) => (p.0 as int) < final(self).nodes().len() && expr_of(
                    final(self).nodes(),
                    p.0 as int,
                ) is Some && p_expr(old(self).toks(), i as int, old(self).vars()) == Ok::<
                    (ExprS, int),
                    ParseError,
                >((expr_of(final(self).nodes(), p.0 as int).unwrap(), p.1 as int)),
                Err(e) => p_expr(old(self).toks(), i as int, old(self).vars()) == Err::<
                    (ExprS, int),
                    ParseError,
                >(e),
            },
        decreases rem_toks(self.tokens@.len() as int, i as int), 1int,
    {
        proof {
            if (i as int) < self.tokens@.len() {
                assert(self.toks()[i as int] == self.tokens@[i as int]@);
            }
        }
        if i >= self.tokens.len() {
            return Err(ParseError::UnexpectedEnd);
        }
        let has_not = self.tokens[i].kind() == TokenKind::Not;
        let k = if has_not {
            i + 1
        } else {
            i
        };
        match self.parse_opnd(k) {
            Err(e) => Err(e),
            Ok((c1, j)) => {
                let ghost n1 = self.nodes();
                let e1h = if has_not {
                    let mut ch: Vec<usize> = Vec::new();
                    ch.push(c1);
                    let h = self.push_node(AstItem::Not, ch);
                    proof {
                        crate::ast::lemma_expr_of_grow(n1, self.nodes(), c1 as int);
                    }
                    h
                } else {
                    c1
                };
                let ghost n2 = self.nodes();
                proof {
                    crate::ast::lemma_prefix_trans(old(self).nodes(), n1, n2);
                    if (j as int) < self.tokens@.len() {
                        assert(self.toks()[j as int] == self.tokens@[j as int]@);
                    }
                }
                if j < self.tokens.len() && j >= i {
                    match binop_of_exec(self.tokens[j].kind()) {
                        Some(op) => {
                            match self.parse_opnd(j + 1) {
                                Ok((c2, j2)) => {
                                    proof {
                                        crate::ast::lemma_expr_of_grow(
                                            n2,
                                            self.nodes(),
                                            e1h as int,
                                        );
                                    }
                                    let ghost n3 = self.nodes();
                                    let mut ch: Vec<usize> = Vec::new();
                                    ch.push(e1h);
                                    ch.push(c2);
                                    let bh = self.push_node(AstItem::BinOp(op), ch);
                                    proof {
                                        crate::ast::lemma_expr_of_grow(
                                            n3,
                                            self.nodes(),
                                            e1h as int,
                                        );
                                        crate::ast::lemma_expr_of_grow(n3, self.nodes(), c2 as int);
                                        crate::ast::lemma_prefix_trans(
                                            old(self).nodes(),
                                            n2,
                                            n3,
                                        );
                                        crate::ast::lemma_prefix_trans(
                                            old(self).nodes(),
                                            n3,
                                            self.nodes(),
                                        );
                                    }
                                    Ok((bh, j2))
                                },
                                Err(e) => Err(e),
                            }
                        },
                        None => Ok((e1h, j)),
                    }
                } else {
                    Ok((e1h, j))
                }
            },
        }
    }

    /// Builds an assignment node: a `Variable` child for the target and,
    /// when present, the already-built value expression.
    fn make_assigment_node_constant(&mut self, info: VariableInfo, value_child: Option<usize>) -> (h:
        usize)
        requires
            match value_child {
                Some(c) => (c as int) < old(self).nodes().len() && expr_of(
                    old(self).nodes(),
                    c as int,
                ) is Some,
                None => true,
            },
        ensures
            final(self).tokens == old(self).tokens,
            final(self).variables == old(self).variables,
            old(self).nodes().is_prefix_of(final(self).nodes()),
            (h as int) < final(self).nodes().len(),
            stmt_of(final(self).nodes(), h as int) == Some(
                StmtS::Assign {
                    target: crate::ast::var_s(info),
                    value: match value_child {
                        Some(c) => Some(expr_of(old(self).nodes(), c as int).unwrap()),
                        None => None,
                    },
                },
            ),
    {
        let ghost n0 = self.nodes();
        let vnode = self.push_node(AstItem::Variable(info), Vec::new());
        let ghost n1 = self.nodes();
        proof {
            if let Some(c) = value_child {
                crate::ast::lemma_expr_of_grow(n0, n1, c as int);
            }
        }
        let h = match value_child {
            Some(c) => {
                let mut ch: Vec<usize> = Vec::new();
                ch.push(vnode);
                ch.push(c);
                self.push_node(AstItem::Assign, ch)
            },
            None => {
                let mut ch: Vec<usize> = Vec::new();
                ch.push(vnode);
                self.push_node(AstItem::Assign, ch)
            },
        };
        proof {
            crate::ast::lemma_prefix_trans(n0, n1, self.nodes());
            if let Some(c) = value_child {
                crate::ast::lemma_expr_of_grow(n1, self.nodes(), c as int);
            }
        }
        h
    }

    /// Parses a `var` declaration, entered after its keyword.
    fn parse_declaration(&mut self, i: usize) -> (r: Result<(usize, usize), ParseError>)
        ensures
            final(self).toks() == old(self).toks(),
            old(self).nodes().is_prefix_of(final(self).nodes()),
            match r {
                Ok(p) => (p.0 as int) < final(self).nodes().len() && stmt_of(
                    final(self).nodes(),
                    p.0 as int,
                ) is Some && p_var_decl(old(self).toks(), i as int, old(self).vars()) == Ok::<
                    (StmtS, int, Map<Seq<char>, VarS>),
                    ParseError,
                >((stmt_of(final(self).nodes(), p.0 as int).unwrap(), p.1 as int, final(self).vars())),
                Err(e) => p_var_decl(old(self).toks(), i as int, old(self).vars()) == Err::<
                    (StmtS, int, Map<Seq<char>, VarS>),
                    ParseError,
                >(e),
            },
    {
        proof {
            if (i as int) < self.tokens@.len() {
                assert(self.toks()[i as int] == self.tokens@[i as int]@);
            }
        }
        if i >= self.tokens.len() {
            return Err(ParseError::UnexpectedEnd);
        }
        if !matches!(self.tokens[i].kind(), TokenKind::Identifier) {
            let info = self.tokens[i].info();
            return Err(
                ParseError::ExpectedConstruct {
                    construct: ConstructKind::Identifier,
                    line: info.line_number,
                    column: info.column_number,
                },
            );
        }
        let (name, ln, cl) = {
            let info = self.tokens[i].info();
            (info.text.clone(), info.line_number, info.column_number)
        };
        if self.variables.contains(&name) {
            return Err(ParseError::RedeclaredVariable { line: ln, column: cl });
        }
        match self.expect(i + 1, TokenKind::Separator) {
            Err(e) => {
                return Err(e);
            },
            Ok(_) => {},
        }
        if i + 2 >= self.tokens.len() {
            return Err(ParseError::UnexpectedEnd);
        }
        proof {
            assert(self.toks()[i as int + 2] == self.tokens@[i as int + 2]@);
        }
        let tyk = self.tokens[i + 2].kind();
        let ty = match tyk {
            TokenKind::IntKw => VariableType::Int,
            TokenKind::StringKw => VariableType::Str,
            TokenKind::BoolKw => VariableType::Bool,
            _ => {
                let info = self.tokens[i + 2].info();
                return Err(
                    ParseError::ExpectedConstruct {
                        construct: ConstructKind::TypeName,
                        line: info.line_number,
                        column: info.column_number,
                    },
                );
            },
        };
        let vi = VariableInfo {
            name,
            var_type: ty,
            source_info: SourceInfo { line: ln, column: cl },
        };
        self.variables.insert(vi.duplicate());
        if i + 3 >= self.tokens.len() {
            return Err(ParseError::UnexpectedEnd);
        }
        proof {
            assert(self.toks()[i as int + 3] == self.tokens@[i as int + 3]@);
        }
        let k3 = self.tokens[i + 3].kind();
        if k3 == TokenKind::StatementEnd {
            let h = self.make_assigment_node_constant(vi, None);
            Ok((h, i + 4))
        } else if k3 == TokenKind::Assign {
            match self.parse_expr(i + 4) {
                Ok((c, j)) => match self.expect(j, TokenKind::StatementEnd) {
                    Ok(_) => {
                        let h = self.make_assigment_node_constant(vi, Some(c));
                        Ok((h, j + 1))
                    },
                    Err(e) => Err(e),
                },
                Err(e) => Err(e),
            }
        } else {
            let info = self.tokens[i + 3].info();
            Err(
                ParseError::UnexpectedToken {
                    line: info.line_number,
                    column: info.column_number,
                },
            )
        }
    }

    /// Parses an assignment to a declared variable, entered at its
    /// identifier.
    fn parse_assigment(&mut self, i: usize) -> (r: Result<(usize, usize), ParseError>)
        ensures
            final(self).toks() == old(self).toks(),
            old(self).nodes().is_prefix_of(final(self).nodes()),
            match r {
                Ok(p) => (p.0 as int) < final(self).nodes().len() && stmt_of(
                    final(self).nodes(),
                    p.0 as int,
                ) is Some && p_assign_stmt(old(self).toks(), i as int, old(self).vars()) == Ok::<
                    (StmtS, int, Map<Seq<char>, VarS>),
                    ParseError,
                >((stmt_of(final(self).nodes(), p.0 as int).unwrap(), p.1 as int, final(self).vars())),
                Err(e) => p_assign_stmt(old(self).toks(), i as int, old(self).vars()) == Err::<
                    (StmtS, int, Map<Seq<char>, VarS>),
                    ParseError,
                >(e),
            },
    {
        proof {
            if (i as int) < self.tokens@.len() {
                assert(self.toks()[i as int] == self.tokens@[i as int]@);
            }
        }
        if i >= self.tokens.len() {
            return Err(ParseError::UnexpectedEnd);
        }
        let name = self.tokens[i].info().text.clone();
        match self.variables.lookup(&name) {
            None => {
                let info = self.tokens[i].info();
                Err(
                    ParseError::UndeclaredVariable {
                        line: info.line_number,
                        column: info.column_number,
                    },
                )
            },
            Some(vi) => {
                match self.expect(i + 1, TokenKind::Assign) {
                    Err(e) => {
                        return Err(e);
                    },
                    Ok(_) => {},
                }
                match self.parse_expr(i + 2) {
                    Err(e) => Err(e),
                    Ok((c, j)) => match self.expect(j, TokenKind::StatementEnd) {
                        Err(e) => Err(e),
                        Ok(_) => {
                            let h = self.make_assigment_node_constant(vi, Some(c));
                            Ok((h, j + 1))
                        },
                    },
                }
            },
        }
    }

    /// Parses a `read` statement, entered after its keyword.
    pub fn parse_read(&mut self, i: usize) -> (r: Result<(usize, usize), ParseError>)
        ensures
            final(self).toks() == old(self).toks(),
            old(self).nodes().is_prefix_of(final(self).nodes()),
            match r {
                Ok(p) => (p.0 as int) < final(self).nodes().len() && stmt_of(
                    final(self).nodes(),
                    p.0 as int,
                ) is Some && p_read(old(self).toks(), i as int, old(self).vars()) == Ok::<
                    (StmtS, int, Map<Seq<char>, VarS>),
                    ParseError,
                >((stmt_of(final(self).nodes(), p.0 as int).unwrap(), p.1 as int, final(self).vars())),
                Err(e) => p_read(old(self).toks(), i as int, old(self).vars()) == Err::<
                    (StmtS, int, Map<Seq<char>, VarS>),
                    ParseError,
                >(e),
            },
    {
        proof {
            if (i as int) < self.tokens@.len() {
                assert(self.toks()[i as int] == self.tokens@[i as int]@);
            }
        }
        if i >= self.tokens.len() {
            return Err(ParseError::UnexpectedEnd);
        }
        if !matches!(self.tokens[i].kind(), TokenKind::Identifier) {
            let info = self.tokens[i].info();
            return Err(
                ParseError::ExpectedConstruct {
                    construct: ConstructKind::Identifier,
                    line: info.line_number,
                    column: info.column_number,
                },
            );
        }
        let name = self.tokens[i].info().text.clone();
        match self.variables.lookup(&name) {
            None => {
                let info = self.tokens[i].info();
                Err(
                    ParseError::UndeclaredVariable {
                        line: info.line_number,
                        column: info.column_number,
                    },
                )
            },
            Some(vi) => {
                match self.expect(i + 1, TokenKind::StatementEnd) {
                    Err(e) => {
                        return Err(e);
                    },
                    Ok(_) => {},
                }
                let vnode = self.push_node(AstItem::Variable(vi), Vec::new());
                let mut ch: Vec<usize> = Vec::new();
                ch.push(vnode);
                let rn = self.push_node(AstItem::Read, ch);
                Ok((rn, i + 2))
            },
        }
    }

    /// Parses a `print` statement, entered after its keyword.
    fn parse_print(&mut self, i: usize) -> (r: Result<(usize, usize), ParseError>)
        ensures
            final(self).toks() == old(self).toks(),
            old(self).nodes().is_prefix_of(final(self).nodes()),
            match r {
                Ok(p) => (p.0 as int) < final(self).nodes().len() && stmt_of(
                    final(self).nodes(),
                    p.0 as int,
                ) is Some && p_print(old(self).toks(), i as int, old(self).vars()) == Ok::<
                    (StmtS, int, Map<Seq<char>, VarS>),
                    ParseError,
                >((stmt_of(final(self).nodes(), p.0 as int).unwrap(), p.1 as int, final(self).vars())),
                Err(e) => p_print(old(self).toks(), i as int, old(self).vars()) == Err::<
                    (StmtS, int, Map<Seq<char>, VarS>),
                    ParseError,
                >(e),
            },
    {
        let n = self.tokens.len();
        proof {
            assert(n as int == self.toks().len());
        }
        match self.parse_expr(i) {
            Err(e) => Err(e),
            Ok((c, j)) => match self.expect(j, TokenKind::StatementEnd) {
                Err(e) => Err(e),
                Ok(_) => {
                    proof {
                        assert(j < n);
                    }
                    let ghost n1 = self.nodes();
                    let mut ch: Vec<usize> = Vec::new();
                    ch.push(c);
                    let pn = self.push_node(AstItem::Print, ch);
                    proof {
                        crate::ast::lemma_expr_of_grow(n1, self.nodes(), c as int);
                        crate::ast::lemma_prefix_trans(old(self).nodes(), n1, self.nodes());
                    }
                    Ok((pn, j + 1))
                },
            },
        }
    }

    /// Parses an `assert` statement, entered after its keyword.
    fn parse_assert(&mut self, i: usize) -> (r: Result<(usize, usize), ParseError>)
        ensures
            final(self).toks() == old(self).toks(),
            old(self).nodes().is_prefix_of(final(self).nodes()),
            match r {
                Ok(p) => (p.0 as int) < final(self).nodes().len() && stmt_of(
                    final(self).nodes(),
                    p.0 as int,
                ) is Some && p_assert(old(self).toks(), i as int, old(self).vars()) == Ok::<
                    (StmtS, int, Map<Seq<char>, VarS>),
                    ParseError,
                >((stmt_of(final(self).nodes(), p.0 as int).unwrap(), p.1 as int, final(self).vars())),
                Err(e) => p_assert(old(self).toks(), i as int, old(self).vars()) == Err::<
                    (StmtS, int, Map<Seq<char>, VarS>),
                    ParseError,
                >(e),
            },
    {
        match self.expect(i, TokenKind::LeftParen) {
            Err(e) => {
                return Err(e);
            },
            Ok(_) => {},
        }
        let n = self.tokens.len();
        proof {
            assert(n as int == self.toks().len());
            assert(i < n);
        }
        match self.parse_expr(i + 1) {
            Err(e) => Err(e),
            Ok((c, j)) => match self.expect(j, TokenKind::RightParen) {
                Err(e) => Err(e),
                Ok(_) => {
                    proof {
                        assert(j < n);
                    }
                    match self.expect(j + 1, TokenKind::StatementEnd) {
                    Err(e) => Err(e),
                    Ok(_) => {
                        let ghost n1 = self.nodes();
                        let mut ch: Vec<usize> = Vec::new();
                        ch.push(c);
                        let an = self.push_node(AstItem::Assert, ch);
                        proof {
                            crate::ast::lemma_expr_of_grow(n1, self.nodes(), c as int);
                            crate::ast::lemma_prefix_trans(old(self).nodes(), n1, self.nodes());
                        }
                        Ok((an, j + 2))
                    },
                }
                },
            },
        }
    }

    /// Parses a `for` loop, entered after its keyword.
    pub fn parse_for(&mut self, i: usize) -> (r: Result<(usize, usize), ParseError>)
        ensures
            final(self).toks() == old(self).toks(),
            old(self).nodes().is_prefix_of(final(self).nodes()),
            match r {
                Ok(p) => (p.0 as int) < final(self).nodes().len() && stmt_of(
                    final(self).nodes(),
                    p.0 as int,
                ) is Some && p_for(old(self).toks(), i as int, old(self).vars()) == Ok::<
                    (StmtS, int, Map<Seq<char>, VarS>),
                    ParseError,
                >((stmt_of(final(self).nodes(), p.0 as int).unwrap(), p.1 as int, final(self).vars())),
                Err(e) => p_for(old(self).toks(), i as int, old(self).vars()) == Err::<
                    (StmtS, int, Map<Seq<char>, VarS>),
                    ParseError,
                >(e),
            },
        decreases rem_toks(self.toks().len() as int, i as int), 2int,
    {
        let n = self.tokens.len();
        proof {
            assert(n as int == self.toks().len());
            if (i as int) < self.tokens@.len() {
                assert(self.toks()[i as int] == self.tokens@[i as int]@);
            }
        }
        if i >= n {
            return Err(ParseError::UnexpectedEnd);
        }
        if !matches!(self.tokens[i].kind(), TokenKind::Identifier) {
            let info = self.tokens[i].info();
            return Err(
                ParseError::ExpectedConstruct {
                    construct: ConstructKind::Identifier,
                    line: info.line_number,
                    column: info.column_number,
                },
            );
        }
        let name = self.tokens[i].info().text.clone();
        let vi = match self.variables.lookup(&name) {
            None => {
                let info = self.tokens[i].info();
                return Err(
                    ParseError::UndeclaredVariable {
                        line: info.line_number,
                        column: info.column_number,
                    },
                );
            },
            Some(vi) => vi,
        };
        match self.expect(i + 1, TokenKind::In) {
            Err(e) => {
                return Err(e);
            },
            Ok(_) => {},
        }
        let (lo_c, j) = match self.parse_expr(i + 2) {
            Err(e) => {
                return Err(e);
            },
            Ok(p) => p,
        };
        if j < i {
            return Err(ParseError::UnexpectedEnd);
        }
        match self.expect(j, TokenKind::Range) {
            Err(e) => {
                return Err(e);
            },
            Ok(_) => {},
        }
        proof {
            assert(j < n);
        }
        let ghost n1 = self.nodes();
        let (hi_c, j2) = match self.parse_expr(j + 1) {
            Err(e) => {
                return Err(e);
            },
            Ok(p) => p,
        };
        proof {
            crate::ast::lemma_expr_of_grow(n1, self.nodes(), lo_c as int);
        }
        if j2 < i {
            return Err(ParseError::UnexpectedEnd);
        }
        match self.expect(j2, TokenKind::Do) {
            Err(e) => {
                return Err(e);
            },
            Ok(_) => {},
        }
        proof {
            assert(j2 < n);
        }
        let ghost n2 = self.nodes();
        let (bh, j3) = match self.parse_block(j2 + 1) {
            Err(e) => {
                return Err(e);
            },
            Ok(p) => p,
        };
        proof {
            crate::ast::lemma_expr_of_grow(n2, self.nodes(), lo_c as int);
            crate::ast::lemma_expr_of_grow(n2, self.nodes(), hi_c as int);
        }
        let ghost n3 = self.nodes();
        let ghost body = stmts_of(n3, n3[bh as int].children@, bh as int).unwrap();
        let vnode = self.push_node(AstItem::Variable(vi), Vec::new());
        let mut rch: Vec<usize> = Vec::new();
        rch.push(lo_c);
        rch.push(hi_c);
        let rnode = self.push_node(AstItem::Range, rch);
        proof {
            crate::ast::lemma_expr_of_grow(n3, self.nodes().drop_last(), lo_c as int);
        }
        let mut fch: Vec<usize> = Vec::new();
        fch.push(vnode);
        fch.push(rnode);
        fch.push(bh);
        let fnode = self.push_node(AstItem::For, fch);
        proof {
            let nf = self.nodes();
            assert(n3.is_prefix_of(nf)) by {
                assert(n3 =~= nf.subrange(0, n3.len() as int));
            }
            crate::ast::lemma_expr_of_grow(n3, nf, lo_c as int);
            crate::ast::lemma_expr_of_grow(n3, nf, hi_c as int);
            crate::ast::lemma_stmts_of_grow(n3, nf, n3[bh as int].children@, bh as int);
            assert(nf[bh as int] == n3[bh as int]);
            assert(nf[vnode as int].val == AstItem::Variable(vi));
            assert(range_of(nf, rnode as int) == Some(
                (expr_of(nf, lo_c as int).unwrap(), expr_of(nf, hi_c as int).unwrap()),
            ));
            assert(old(self).nodes().is_prefix_of(nf)) by {
                assert(old(self).nodes() =~= nf.subrange(0, old(self).nodes().len() as int));
            }
        }
        Ok((fnode, j3))
    }

    /// Parses one statement, dispatched on its first token.
    fn parse_stmt(&mut self, i: usize) -> (r: Result<(usize, usize), ParseError>)
        ensures
            final(self).toks() == old(self).toks(),
            old(self).nodes().is_prefix_of(final(self).nodes()),
            match r {
                Ok(p) => (p.0 as int) < final(self).nodes().len() && stmt_of(
                    final(self).nodes(),
                    p.0 as int,
                ) is Some && p_stmt(old(self).toks(), i as int, old(self).vars()) == Ok::<
                    (StmtS, int, Map<Seq<char>, VarS>),
                    ParseError,
                >((stmt_of(final(self).nodes(), p.0 as int).unwrap(), p.1 as int, final(self).vars())),
                Err(e) => p_stmt(old(self).toks(), i as int, old(self).vars()) == Err::<
                    (StmtS, int, Map<Seq<char>, VarS>),
                    ParseError,
                >(e),
            },
        decreases rem_toks(self.toks().len() as int, i as int), 3int,
    {
        let n = self.tokens.len();
        proof {
            assert(n as int == self.toks().len());
            if (i as int) < self.tokens@.len() {
                assert(self.toks()[i as int] == self.tokens@[i as int]@);
            }
        }
        if i >= n {
            return Err(ParseError::UnexpectedEnd);
        }
        match self.tokens[i].kind() {
            TokenKind::Var => self.parse_declaration(i + 1),
            TokenKind::Identifier => self.parse_assigment(i),
            TokenKind::Read => self.parse_read(i + 1),
            TokenKind::Print => self.parse_print(i + 1),
            TokenKind::Assert => self.parse_assert(i + 1),
            TokenKind::For => self.parse_for(i + 1),
            _ => {
                let info = self.tokens[i].info();
                Err(
                    ParseError::UnexpectedToken {
                        line: info.line_number,
                        column: info.column_number,
                    },
                )
            },
        }
    }

    /// Parses a `for` body: statements until `end for ;`, gathered under
    /// one `Block` node.
    fn parse_block(&mut self, i: usize) -> (r: Result<(usize, usize), ParseError>)
        ensures
            final(self).toks() == old(self).toks(),
            old(self).nodes().is_prefix_of(final(self).nodes()),
            match r {
                Ok(p) => (p.0 as int) < final(self).nodes().len() && final(self).nodes()[p.0 as int].val
                    is Block && stmts_of(
                    final(self).nodes(),
                    final(self).nodes()[p.0 as int].children@,
                    p.0 as int,
                ) is Some && p_block(old(self).toks(), i as int, old(self).vars()) == Ok::<
                    (Seq<StmtS>, int, Map<Seq<char>, VarS>),
                    ParseError,
                >(
                    (
                        stmts_of(
                            final(self).nodes(),
                            final(self).nodes()[p.0 as int].children@,
                            p.0 as int,
                        ).unwrap(),
                        p.1 as int,
                        final(self).vars(),
                    ),
                ),
                Err(e) => p_block(old(self).toks(), i as int, old(self).vars()) == Err::<
                    (Seq<StmtS>, int, Map<Seq<char>, VarS>),
                    ParseError,
                >(e),
            },
        decreases rem_toks(self.toks().len() as int, i as int), 4int,
    {
        proof {
            lemma_prepend_block_empty(p_block(old(self).toks(), i as int, old(self).vars()));
            assert(stmts_of(self.nodes(), Seq::<usize>::empty(), self.nodes().len() as int)
                == Some(Seq::<StmtS>::empty()));
        }
        let mut children: Vec<usize> = Vec::new();
        let ghost mut done: Seq<StmtS> = Seq::empty();
        let mut cur = i;
        loop
            invariant
                self.toks() == old(self).toks(),
                old(self).nodes().is_prefix_of(self.nodes()),
                i <= cur,
                stmts_of(self.nodes(), children@, self.nodes().len() as int) == Some(done),
                prepend_block(done, p_block(old(self).toks(), cur as int, self.vars()))
                    == p_block(old(self).toks(), i as int, old(self).vars()),
            decreases rem_toks(old(self).toks().len() as int, cur as int),
        {
            let n = self.tokens.len();
            proof {
                assert(n as int == self.toks().len());
                if (cur as int) < self.tokens@.len() {
                    assert(self.toks()[cur as int] == self.tokens@[cur as int]@);
                }
            }
            if cur >= n {
                return Err(ParseError::UnterminatedBlock);
            }
            if matches!(self.tokens[cur].kind(), TokenKind::End) {
                match self.expect(cur + 1, TokenKind::For) {
                    Err(e) => {
                        return Err(e);
                    },
                    Ok(_) => {},
                }
                match self.expect(cur + 2, TokenKind::StatementEnd) {
                    Err(e) => {
                        return Err(e);
                    },
                    Ok(_) => {},
                }
                proof {
                    assert(cur + 2 < n);
                    assert(done + Seq::<StmtS>::empty() =~= done);
                }
                let ghost nb = self.nodes();
                let ghost chs = children@;
                let bh = self.push_node(AstItem::Block, children);
                proof {
                    crate::ast::lemma_stmts_of_grow(nb, self.nodes(), chs, nb.len() as int);
                    crate::ast::lemma_prefix_trans(old(self).nodes(), nb, self.nodes());
                }
                return Ok((bh, cur + 3));
            }
            let ghost vpre = self.vars();
            let ghost npre = self.nodes();
            let stepped = match self.parse_stmt(cur) {
                Err(e) => {
                    return Err(e);
                },
                Ok(p) => p,
            };
            let (h, j) = stepped;
            if j <= cur {
                return Err(ParseError::UnterminatedBlock);
            }
            proof {
                let s = stmt_of(self.nodes(), h as int).unwrap();
                crate::ast::lemma_stmts_of_grow(
                    npre,
                    self.nodes(),
                    children@,
                    npre.len() as int,
                );
                crate::ast::lemma_stmts_of_bound(
                    self.nodes(),
                    children@,
                    npre.len() as int,
                    self.nodes().len() as int,
                );
                crate::ast::lemma_stmts_of_push(
                    self.nodes(),
                    children@,
                    self.nodes().len() as int,
                    h,
                );
                crate::ast::lemma_prefix_trans(old(self).nodes(), npre, self.nodes());
                assert(prepend_block(done, p_block(old(self).toks(), cur as int, vpre))
                    == prepend_block(done.push(s), p_block(old(self).toks(), j as int, self.vars())))
                    by {
                    match p_block(old(self).toks(), j as int, self.vars()) {
                        Ok((rest, _j2, _vf)) => {
                            assert(done + (seq![s] + rest) =~= done.push(s) + rest);
                        },
                        Err(_) => {},
                    }
                }
                done = done.push(s);
            }
            children.push(h);
            cur = j;
        }
    }

    /// Parses the whole token sequence: the completed tree, or the
    /// first parse error. The parser must be fresh from `new`.
    pub fn parse(&mut self) -> (r: Result<ArenaTree, ParseError>)
        requires
            old(self).nodes().len() == 0,
            old(self).vars() == Map::<Seq<char>, VarS>::empty(),
        ensures
            match r {
                Ok(t) => p_program(old(self).toks()) is Ok && prog_of(t.arena@) == Some(
                    p_program(old(self).toks()).unwrap(),
                ),
                Err(e) => p_program(old(self).toks()) == Err::<ProgramS, ParseError>(e),
            },
    {
        proof {
            lemma_prepend_stmts_empty(
                p_stmts(old(self).toks(), 0, Map::<Seq<char>, VarS>::empty()),
            );
            assert(stmts_of(self.nodes(), Seq::<usize>::empty(), self.nodes().len() as int)
                == Some(Seq::<StmtS>::empty()));
        }
        let mut children: Vec<usize> = Vec::new();
        let ghost mut done: Seq<StmtS> = Seq::empty();
        let mut cur: usize = 0;
        while cur < self.tokens.len()
            invariant
                self.toks() == old(self).toks(),
                stmts_of(self.nodes(), children@, self.nodes().len() as int) == Some(done),
                prepend_stmts(done, p_stmts(old(self).toks(), cur as int, self.vars()))
                    == p_stmts(old(self).toks(), 0, Map::<Seq<char>, VarS>::empty()),
            decreases rem_toks(old(self).toks().len() as int, cur as int),
        {
            let n = self.tokens.len();
            proof {
                assert(n as int == self.toks().len());
            }
            let ghost vpre = self.vars();
            let ghost npre = self.nodes();
            let stepped = match self.parse_stmt(cur) {
                Err(e) => {
                    return Err(e);
                },
                Ok(p) => p,
            };
            let (h, j) = stepped;
            if j <= cur {
                return Err(ParseError::UnexpectedEnd);
            }
            proof {
                let s = stmt_of(self.nodes(), h as int).unwrap();
                crate::ast::lemma_stmts_of_grow(
                    npre,
                    self.nodes(),
                    children@,
                    npre.len() as int,
                );
                crate::ast::lemma_stmts_of_bound(
                    self.nodes(),
                    children@,
                    npre.len() as int,
                    self.nodes().len() as int,
                );
                crate::ast::lemma_stmts_of_push(
                    self.nodes(),
                    children@,
                    self.nodes().len() as int,
                    h,
                );
                assert(prepend_stmts(done, p_stmts(old(self).toks(), cur as int, vpre))
                    == prepend_stmts(
                    done.push(s),
                    p_stmts(old(self).toks(), j as int, self.vars()),
                )) by {
                    match p_stmts(old(self).toks(), j as int, self.vars()) {
                        Ok((rest, _vf)) => {
                            assert(done + (seq![s] + rest) =~= done.push(s) + rest);
                        },
                        Err(_) => {},
                    }
                }
                done = done.push(s);
            }
            children.push(h);
            cur = j;
        }
        proof {
            assert(cur as int >= self.toks().len());
            assert(p_stmts(old(self).toks(), cur as int, self.vars()) == Ok::<
                (Seq<StmtS>, Map<Seq<char>, VarS>),
                ParseError,
            >((Seq::empty(), self.vars())));
            assert(done + Seq::<StmtS>::empty() =~= done);
            assert(p_stmts(old(self).toks(), 0, Map::<Seq<char>, VarS>::empty()) == Ok::<
                (Seq<StmtS>, Map<Seq<char>, VarS>),
                ParseError,
            >((done, self.vars())));
            assert(p_program(old(self).toks()) == Ok::<ProgramS, ParseError>(
                ProgramS { stmts: done },
            ));
        }
        let ghost nb = self.nodes();
        let ghost chs = children@;
        let root = self.push_node(AstItem::Root, children);
        proof {
            crate::ast::lemma_stmts_of_grow(nb, self.nodes(), chs, nb.len() as int);
            let nodes = self.nodes();
            assert(nodes.len() == nb.len() + 1);
            assert(nodes[nodes.len() - 1].val is Root);
            assert(nodes[nodes.len() - 1].children@ == chs);
            assert(stmts_of(nodes, chs, nodes.len() - 1) == Some(done));
            assert(prog_of(nodes) == Some(ProgramS { stmts: done }));
        }
        let mut result = ArenaTree { arena: Vec::new() };
        core::mem::swap(&mut result, &mut self.ast);
        Ok(result)
    }
}

} // verus!
