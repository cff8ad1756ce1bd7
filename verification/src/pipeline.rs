//! The whole pipeline in one verified call: scan, parse, interpret.

use vstd::prelude::*;
use crate::ast::{BinOpType, ConstS, ExprS, ProgramS, StmtS, VarS, VariableType};
use crate::errors::PipelineError;
use crate::interpreter::Interpreter;
use crate::lex::{TokenKind, TokenS};
use crate::lexical_scanner::{
    ScanStep, Scanner, lemma_digits_end_value, lemma_word_end_value, scan_from, scan_spec,
    scan_step,
};
use crate::numbers::{int_chars, lemma_parse_u_chars, lemma_u_chars_digits, u_chars};
use crate::semantics::{
    BindingS, RunR, StateS, ValueS, const_value, eval_expr, lemma_wrap_i32_id, run_program,
    run_stmt, run_stmts_from, step_ok,
};
use crate::syntax_parser::{
    p_expr, p_opnd, p_print, p_program, p_stmt, p_stmts, p_var_decl, SyntaxParser,
};

verus! {

/// What running source text against input lines yields: the output text
/// and the first fault of any stage, if one stopped the run.
pub open spec fn pipeline_spec(src: Seq<char>, input: Seq<Seq<char>>) -> (Seq<char>, Option<
    PipelineError,
>) {
    match scan_spec(src) {
        Err(e) => (Seq::empty(), Some(PipelineError::Scan(e))),
        Ok(ts) => match p_program(ts) {
            Err(e) => (Seq::empty(), Some(PipelineError::Parse(e))),
            Ok(p) => {
                let rr = run_program(p, input);
                (
                    rr.state.out,
                    match rr.err {
                        Some(e) => Some(PipelineError::Interpret(e)),
                        None => None,
                    },
                )
            },
        },
    }
}

/// Scans, parses and interprets `source` against the given input lines:
/// the program's whole output, and the first fault of any stage. Output
/// printed before a fault is kept.
pub fn run_source(source: String, input: &Vec<String>) -> (r: (String, Option<PipelineError>))
    requires
        source@.len() < 0x7FFF_FFFF,
    ensures
        ({
            let (out, err) = pipeline_spec(source@, input.deep_view());
            r.0@ == out && r.1 == err
        }),
{
    let scanner = Scanner::new(source);
    let toks = match scanner.scan() {
        Err(e) => {
            return (String::new(), Some(PipelineError::Scan(e)));
        },
        Ok(t) => t,
    };
    let mut parser = SyntaxParser::new(toks);
    let tree = match parser.parse() {
        Err(e) => {
            return (String::new(), Some(PipelineError::Parse(e)));
        },
        Ok(t) => t,
    };
    let mut interp = Interpreter::new(tree);
    let (out, err) = interp.interpret(input);
    (
        out,
        match err {
            Some(e) => Some(PipelineError::Interpret(e)),
            None => None,
        },
    )
}

// ---------------------------------------------------------------------------
// The addition program: for every pair of non-negative 32-bit values,
// the pipeline prints exactly the decimal text of their sum.
// ---------------------------------------------------------------------------

/// The characters `var a:int:=`.
pub open spec fn lit_var_a() -> Seq<char> {
    seq!['v', 'a', 'r', ' ', 'a', ':', 'i', 'n', 't', ':', '=']
}

/// The characters `;var b:int:=`.
pub open spec fn lit_mid() -> Seq<char> {
    seq![';', 'v', 'a', 'r', ' ', 'b', ':', 'i', 'n', 't', ':', '=']
}

/// The characters `;print a+b;`.
pub open spec fn lit_tail() -> Seq<char> {
    seq![';', 'p', 'r', 'i', 'n', 't', ' ', 'a', '+', 'b', ';']
}

/// The source text `var a:int:=X;var b:int:=Y;print a+b;` with the
/// decimal digits of `x` and `y` written in.
pub open spec fn sum_program_src(x: int, y: int) -> Seq<char> {
    lit_var_a() + u_chars(x as nat) + lit_mid() + u_chars(y as nat) + lit_tail()
}

/// Indexing a five-part concatenation, region by region.
proof fn lemma_concat5_index(
    a: Seq<char>,
    b: Seq<char>,
    c: Seq<char>,
    d: Seq<char>,
    e: Seq<char>,
    i: int,
)
    requires
        0 <= i < a.len() + b.len() + c.len() + d.len() + e.len(),
    ensures
        (a + b + c + d + e)[i] == (if i < a.len() {
            a[i]
        } else if i < a.len() + b.len() {
            b[i - a.len()]
        } else if i < a.len() + b.len() + c.len() {
            c[i - a.len() - b.len()]
        } else if i < a.len() + b.len() + c.len() + d.len() {
            d[i - a.len() - b.len() - c.len()]
        } else {
            e[i - a.len() - b.len() - c.len() - d.len()]
        }),
{
}

/// The token sequence of the addition program.
spec fn sum_program_tokens(x: int, y: int) -> Seq<TokenS> {
    let xd = u_chars(x as nat);
    let yd = u_chars(y as nat);
    let lx = xd.len() as int;
    let ly = yd.len() as int;
    seq![
        TokenS { kind: TokenKind::Var, text: seq!['v', 'a', 'r'], line: 1, col: 1 },
        TokenS { kind: TokenKind::Identifier, text: seq!['a'], line: 1, col: 5 },
        TokenS { kind: TokenKind::Separator, text: seq![':'], line: 1, col: 6 },
        TokenS { kind: TokenKind::IntKw, text: seq!['i', 'n', 't'], line: 1, col: 7 },
        TokenS { kind: TokenKind::Assign, text: seq![':', '='], line: 1, col: 10 },
        TokenS { kind: TokenKind::IntegerLiteral, text: xd, line: 1, col: 12 },
        TokenS { kind: TokenKind::StatementEnd, text: seq![';'], line: 1, col: 12 + lx },
        TokenS { kind: TokenKind::Var, text: seq!['v', 'a', 'r'], line: 1, col: 13 + lx },
        TokenS { kind: TokenKind::Identifier, text: seq!['b'], line: 1, col: 17 + lx },
        TokenS { kind: TokenKind::Separator, text: seq![':'], line: 1, col: 18 + lx },
        TokenS { kind: TokenKind::IntKw, text: seq!['i', 'n', 't'], line: 1, col: 19 + lx },
        TokenS { kind: TokenKind::Assign, text: seq![':', '='], line: 1, col: 22 + lx },
        TokenS { kind: TokenKind::IntegerLiteral, text: yd, line: 1, col: 24 + lx },
        TokenS { kind: TokenKind::StatementEnd, text: seq![';'], line: 1, col: 24 + lx + ly },
        TokenS {
            kind: TokenKind::Print,
            text: seq!['p', 'r', 'i', 'n', 't'],
            line: 1,
            col: 25 + lx + ly,
        },
        TokenS { kind: TokenKind::Identifier, text: seq!['a'], line: 1, col: 31 + lx + ly },
        TokenS { kind: TokenKind::Plus, text: seq!['+'], line: 1, col: 32 + lx + ly },
        TokenS { kind: TokenKind::Identifier, text: seq!['b'], line: 1, col: 33 + lx + ly },
        TokenS { kind: TokenKind::StatementEnd, text: seq![';'], line: 1, col: 34 + lx + ly },
    ]
}

/// The declaration record of `a` in the addition program.
spec fn sum_decl_a() -> VarS {
    VarS { name: seq!['a'], ty: VariableType::Int, line: 1, col: 5 }
}

/// The declaration record of `b` in the addition program.
spec fn sum_decl_b(x: int) -> VarS {
    VarS {
        name: seq!['b'],
        ty: VariableType::Int,
        line: 1,
        col: 17 + u_chars(x as nat).len() as int,
    }
}

/// The mathematical tree of the addition program.
spec fn sum_program_tree(x: int, y: int) -> ProgramS {
    let xd = u_chars(x as nat);
    let yd = u_chars(y as nat);
    let lx = xd.len() as int;
    let ly = yd.len() as int;
    ProgramS {
        stmts: seq![
            StmtS::Assign {
                target: sum_decl_a(),
                value: Some(
                    ExprS::Constant(ConstS { text: xd, ty: VariableType::Int, line: 1, col: 12 }),
                ),
            },
            StmtS::Assign {
                target: sum_decl_b(x),
                value: Some(
                    ExprS::Constant(
                        ConstS { text: yd, ty: VariableType::Int, line: 1, col: 24 + lx },
                    ),
                ),
            },
            StmtS::Print(
                ExprS::Binary(
                    BinOpType::Plus,
                    Box::new(ExprS::Variable(sum_decl_a())),
                    Box::new(ExprS::Variable(sum_decl_b(x))),
                ),
            ),
        ],
    }
}

/// The common setting of the scan lemmas: the source text, its region
/// boundaries, and the character facts each region gives.
#[verifier::rlimit(60)]
proof fn lemma_sum_src_chars(x: int, y: int)
    requires
        0 <= x <= 0x7FFF_FFFF,
        0 <= y <= 0x7FFF_FFFF,
    ensures
        ({
            let s = sum_program_src(x, y);
            let lx = u_chars(x as nat).len() as int;
            let ly = u_chars(y as nat).len() as int;
            &&& s.len() == 34 + lx + ly
            &&& lx >= 1
            &&& ly >= 1
            &&& forall|i: int|
                0 <= i < 11 ==> #[trigger] s[i] == lit_var_a()[i]
            &&& forall|i: int|
                11 <= i < 11 + lx ==> #[trigger] s[i] == u_chars(x as nat)[i - 11]
            &&& forall|i: int|
                11 + lx <= i < 23 + lx ==> #[trigger] s[i] == lit_mid()[i - 11 - lx]
            &&& forall|i: int|
                23 + lx <= i < 23 + lx + ly ==> #[trigger] s[i] == u_chars(y as nat)[i - 23 - lx]
            &&& forall|i: int|
                23 + lx + ly <= i < 34 + lx + ly ==> #[trigger] s[i] == lit_tail()[i - 23 - lx
                    - ly]
            &&& forall|i: int|
                11 <= i < 11 + lx ==> !crate::lexical_scanner::is_word_terminator(#[trigger] s[i])
                    && crate::numbers::is_digit(s[i])
            &&& forall|i: int|
                23 + lx <= i < 23 + lx + ly ==> !crate::lexical_scanner::is_word_terminator(
                    #[trigger] s[i],
                ) && crate::numbers::is_digit(s[i])
        }),
{
    let av = lit_var_a();
    let xd = u_chars(x as nat);
    let bv = lit_mid();
    let yd = u_chars(y as nat);
    let cv = lit_tail();
    let s = sum_program_src(x, y);
    let lx = xd.len() as int;
    let ly = yd.len() as int;
    lemma_u_chars_digits(x as nat);
    lemma_u_chars_digits(y as nat);
    assert forall|i: int| 0 <= i < 34 + lx + ly implies #[trigger] s[i] == (if i < 11 {
        av[i]
    } else if i < 11 + lx {
        xd[i - 11]
    } else if i < 23 + lx {
        bv[i - 11 - lx]
    } else if i < 23 + lx + ly {
        yd[i - 23 - lx]
    } else {
        cv[i - 23 - lx - ly]
    }) by {
        lemma_concat5_index(av, xd, bv, yd, cv, i);
    }
    assert forall|i: int| 11 <= i < 11 + lx implies !crate::lexical_scanner::is_word_terminator(
        #[trigger] s[i],
    ) && crate::numbers::is_digit(s[i]) by {
        assert(s[i] == xd[i - 11]);
        assert(crate::numbers::is_digit(xd[i - 11]));
    }
    assert forall|i: int|
        23 + lx <= i < 23 + lx + ly implies !crate::lexical_scanner::is_word_terminator(
        #[trigger] s[i],
    ) && crate::numbers::is_digit(s[i]) by {
        assert(s[i] == yd[i - 23 - lx]);
        assert(crate::numbers::is_digit(yd[i - 23 - lx]));
    }
}

/// Scanning the tail `;print a+b;` of the addition program.
#[verifier::rlimit(100)]
proof fn lemma_scan_sum_tail(x: int, y: int)
    requires
        0 <= x <= 0x7FFF_FFFF,
        0 <= y <= 0x7FFF_FFFF,
    ensures
        ({
            let s = sum_program_src(x, y);
            let lx = u_chars(x as nat).len() as int;
            let ly = u_chars(y as nat).len() as int;
            scan_from(s, 23 + lx + ly, 1, 23 + lx + ly) == Ok::<
                Seq<TokenS>,
                crate::errors::LexError,
            >(sum_program_tokens(x, y).subrange(13, 19))
        }),
{
    lemma_sum_src_chars(x, y);
    let s = sum_program_src(x, y);
    let lx = u_chars(x as nat).len() as int;
    let ly = u_chars(y as nat).len() as int;
    let nn = 34 + lx + ly;
    let toks = sum_program_tokens(x, y);
    assert(scan_from(s, nn, 1, 34 + lx + ly) == Ok::<Seq<TokenS>, crate::errors::LexError>(
        Seq::empty(),
    ));
    assert(s[33 + lx + ly] == ';');
    assert(scan_step(s, 33 + lx + ly, 1, 33 + lx + ly) == ScanStep::Tok {
        t: toks[18],
        nxt: nn,
        ln: 1,
        cl: 34 + lx + ly,
    });
    let r18 = seq![toks[18]] + Seq::<TokenS>::empty();
    assert(scan_from(s, 33 + lx + ly, 1, 33 + lx + ly) == Ok::<
        Seq<TokenS>,
        crate::errors::LexError,
    >(r18));
    assert(s[32 + lx + ly] == 'b');
    lemma_word_end_value(s, 33 + lx + ly, 33 + lx + ly);
    assert(s.subrange(32 + lx + ly, 33 + lx + ly) =~= seq!['b']);
    assert(crate::lexical_scanner::word_kind(seq!['b']) == TokenKind::Identifier);
    assert(scan_step(s, 32 + lx + ly, 1, 32 + lx + ly) == ScanStep::Tok {
        t: toks[17],
        nxt: 33 + lx + ly,
        ln: 1,
        cl: 33 + lx + ly,
    });
    let r17 = seq![toks[17]] + r18;
    assert(scan_from(s, 32 + lx + ly, 1, 32 + lx + ly) == Ok::<
        Seq<TokenS>,
        crate::errors::LexError,
    >(r17));
    assert(s[31 + lx + ly] == '+');
    assert(scan_step(s, 31 + lx + ly, 1, 31 + lx + ly) == ScanStep::Tok {
        t: toks[16],
        nxt: 32 + lx + ly,
        ln: 1,
        cl: 32 + lx + ly,
    });
    let r16 = seq![toks[16]] + r17;
    assert(scan_from(s, 31 + lx + ly, 1, 31 + lx + ly) == Ok::<
        Seq<TokenS>,
        crate::errors::LexError,
    >(r16));
    assert(s[30 + lx + ly] == 'a');
    lemma_word_end_value(s, 31 + lx + ly, 31 + lx + ly);
    assert(s.subrange(30 + lx + ly, 31 + lx + ly) =~= seq!['a']);
    assert(crate::lexical_scanner::word_kind(seq!['a']) == TokenKind::Identifier);
    assert(scan_step(s, 30 + lx + ly, 1, 30 + lx + ly) == ScanStep::Tok {
        t: toks[15],
        nxt: 31 + lx + ly,
        ln: 1,
        cl: 31 + lx + ly,
    });
    let r15 = seq![toks[15]] + r16;
    assert(scan_from(s, 30 + lx + ly, 1, 30 + lx + ly) == Ok::<
        Seq<TokenS>,
        crate::errors::LexError,
    >(r15));
    assert(s[29 + lx + ly] == ' ');
    assert(scan_from(s, 29 + lx + ly, 1, 29 + lx + ly) == Ok::<
        Seq<TokenS>,
        crate::errors::LexError,
    >(r15));
    assert(s[24 + lx + ly] == 'p');
    assert(s[25 + lx + ly] == 'r' && s[26 + lx + ly] == 'i' && s[27 + lx + ly] == 'n' && s[28 + lx
        + ly] == 't');
    lemma_word_end_value(s, 25 + lx + ly, 29 + lx + ly);
    assert(s.subrange(24 + lx + ly, 29 + lx + ly) =~= seq!['p', 'r', 'i', 'n', 't']);
    assert(crate::lexical_scanner::word_kind(seq!['p', 'r', 'i', 'n', 't']) == TokenKind::Print);
    assert(scan_step(s, 24 + lx + ly, 1, 24 + lx + ly) == ScanStep::Tok {
        t: toks[14],
        nxt: 29 + lx + ly,
        ln: 1,
        cl: 29 + lx + ly,
    });
    let r14 = seq![toks[14]] + r15;
    assert(scan_from(s, 24 + lx + ly, 1, 24 + lx + ly) == Ok::<
        Seq<TokenS>,
        crate::errors::LexError,
    >(r14));
    assert(s[23 + lx + ly] == ';');
    assert(scan_step(s, 23 + lx + ly, 1, 23 + lx + ly) == ScanStep::Tok {
        t: toks[13],
        nxt: 24 + lx + ly,
        ln: 1,
        cl: 24 + lx + ly,
    });
    let r13 = seq![toks[13]] + r14;
    assert(scan_from(s, 23 + lx + ly, 1, 23 + lx + ly) == Ok::<
        Seq<TokenS>,
        crate::errors::LexError,
    >(r13));
    assert(r13 =~= toks.subrange(13, 19));
}

/// Scanning the middle `;var b:int:=Y` of the addition program.
#[verifier::rlimit(100)]
proof fn lemma_scan_sum_mid(x: int, y: int)
    requires
        0 <= x <= 0x7FFF_FFFF,
        0 <= y <= 0x7FFF_FFFF,
    ensures
        ({
            let s = sum_program_src(x, y);
            let lx = u_chars(x as nat).len() as int;
            scan_from(s, 11 + lx, 1, 11 + lx) == Ok::<Seq<TokenS>, crate::errors::LexError>(
                sum_program_tokens(x, y).subrange(6, 19),
            )
        }),
{
    lemma_sum_src_chars(x, y);
    lemma_scan_sum_tail(x, y);
    let s = sum_program_src(x, y);
    let lx = u_chars(x as nat).len() as int;
    let ly = u_chars(y as nat).len() as int;
    let toks = sum_program_tokens(x, y);
    let r13 = toks.subrange(13, 19);
    assert(crate::numbers::is_digit(s[23 + lx]));
    lemma_digits_end_value(s, 24 + lx, 23 + lx + ly);
    assert(s.subrange(23 + lx, 23 + lx + ly) =~= u_chars(y as nat));
    assert(scan_step(s, 23 + lx, 1, 23 + lx) == ScanStep::Tok {
        t: toks[12],
        nxt: 23 + lx + ly,
        ln: 1,
        cl: 23 + lx + ly,
    });
    let r12 = seq![toks[12]] + r13;
    assert(scan_from(s, 23 + lx, 1, 23 + lx) == Ok::<Seq<TokenS>, crate::errors::LexError>(r12));
    assert(s[21 + lx] == ':' && s[22 + lx] == '=');
    assert(scan_step(s, 21 + lx, 1, 21 + lx) == ScanStep::Tok {
        t: toks[11],
        nxt: 23 + lx,
        ln: 1,
        cl: 23 + lx,
    });
    let r11 = seq![toks[11]] + r12;
    assert(scan_from(s, 21 + lx, 1, 21 + lx) == Ok::<Seq<TokenS>, crate::errors::LexError>(r11));
    assert(s[18 + lx] == 'i' && s[19 + lx] == 'n' && s[20 + lx] == 't');
    lemma_word_end_value(s, 19 + lx, 21 + lx);
    assert(s.subrange(18 + lx, 21 + lx) =~= seq!['i', 'n', 't']);
    assert(seq!['i', 'n', 't'] != seq!['v', 'a', 'r']) by {
        assert(seq!['i', 'n', 't'][0] == 'i');
        assert(seq!['v', 'a', 'r'][0] == 'v');
    }
    assert(seq!['i', 'n', 't'] != seq!['f', 'o', 'r']) by {
        assert(seq!['i', 'n', 't'][0] == 'i');
        assert(seq!['f', 'o', 'r'][0] == 'f');
    }
    assert(seq!['i', 'n', 't'] != seq!['e', 'n', 'd']) by {
        assert(seq!['i', 'n', 't'][0] == 'i');
        assert(seq!['e', 'n', 'd'][0] == 'e');
    }
    assert(crate::lexical_scanner::word_kind(seq!['i', 'n', 't']) == TokenKind::IntKw);
    assert(scan_step(s, 18 + lx, 1, 18 + lx) == ScanStep::Tok {
        t: toks[10],
        nxt: 21 + lx,
        ln: 1,
        cl: 21 + lx,
    });
    let r10 = seq![toks[10]] + r11;
    assert(scan_from(s, 18 + lx, 1, 18 + lx) == Ok::<Seq<TokenS>, crate::errors::LexError>(r10));
    assert(s[17 + lx] == ':' && s[18 + lx] != '=');
    assert(scan_step(s, 17 + lx, 1, 17 + lx) == ScanStep::Tok {
        t: toks[9],
        nxt: 18 + lx,
        ln: 1,
        cl: 18 + lx,
    });
    let r9 = seq![toks[9]] + r10;
    assert(scan_from(s, 17 + lx, 1, 17 + lx) == Ok::<Seq<TokenS>, crate::errors::LexError>(r9));
    assert(s[16 + lx] == 'b');
    lemma_word_end_value(s, 17 + lx, 17 + lx);
    assert(s.subrange(16 + lx, 17 + lx) =~= seq!['b']);
    assert(crate::lexical_scanner::word_kind(seq!['b']) == TokenKind::Identifier);
    assert(scan_step(s, 16 + lx, 1, 16 + lx) == ScanStep::Tok {
        t: toks[8],
        nxt: 17 + lx,
        ln: 1,
        cl: 17 + lx,
    });
    let r8 = seq![toks[8]] + r9;
    assert(scan_from(s, 16 + lx, 1, 16 + lx) == Ok::<Seq<TokenS>, crate::errors::LexError>(r8));
    assert(s[15 + lx] == ' ');
    assert(scan_from(s, 15 + lx, 1, 15 + lx) == Ok::<Seq<TokenS>, crate::errors::LexError>(r8));
    assert(s[12 + lx] == 'v' && s[13 + lx] == 'a' && s[14 + lx] == 'r');
    lemma_word_end_value(s, 13 + lx, 15 + lx);
    assert(s.subrange(12 + lx, 15 + lx) =~= seq!['v', 'a', 'r']);
    assert(crate::lexical_scanner::word_kind(seq!['v', 'a', 'r']) == TokenKind::Var);
    assert(scan_step(s, 12 + lx, 1, 12 + lx) == ScanStep::Tok {
        t: toks[7],
        nxt: 15 + lx,
        ln: 1,
        cl: 15 + lx,
    });
    let r7 = seq![toks[7]] + r8;
    assert(scan_from(s, 12 + lx, 1, 12 + lx) == Ok::<Seq<TokenS>, crate::errors::LexError>(r7));
    assert(s[11 + lx] == ';');
    assert(scan_step(s, 11 + lx, 1, 11 + lx) == ScanStep::Tok {
        t: toks[6],
        nxt: 12 + lx,
        ln: 1,
        cl: 12 + lx,
    });
    let r6 = seq![toks[6]] + r7;
    assert(scan_from(s, 11 + lx, 1, 11 + lx) == Ok::<Seq<TokenS>, crate::errors::LexError>(r6));
    assert(r6 =~= toks.subrange(6, 19));
}

/// Scanning the addition program yields its nineteen tokens.
#[verifier::rlimit(100)]
proof fn lemma_scan_sum_program(x: int, y: int)
    requires
        0 <= x <= 0x7FFF_FFFF,
        0 <= y <= 0x7FFF_FFFF,
    ensures
        scan_spec(sum_program_src(x, y)) == Ok::<Seq<TokenS>, crate::errors::LexError>(
            sum_program_tokens(x, y),
        ),
{
    lemma_sum_src_chars(x, y);
    lemma_scan_sum_mid(x, y);
    let s = sum_program_src(x, y);
    let lx = u_chars(x as nat).len() as int;
    let ly = u_chars(y as nat).len() as int;
    let toks = sum_program_tokens(x, y);
    let r6 = toks.subrange(6, 19);
    assert(crate::numbers::is_digit(s[11]));
    lemma_digits_end_value(s, 12, 11 + lx);
    assert(s.subrange(11, 11 + lx) =~= u_chars(x as nat));
    assert(scan_step(s, 11, 1, 11) == ScanStep::Tok {
        t: toks[5],
        nxt: 11 + lx,
        ln: 1,
        cl: 11 + lx,
    });
    let r5 = seq![toks[5]] + r6;
    assert(scan_from(s, 11, 1, 11) == Ok::<Seq<TokenS>, crate::errors::LexError>(r5));
    assert(s[9] == ':' && s[10] == '=');
    assert(scan_step(s, 9, 1, 9) == ScanStep::Tok { t: toks[4], nxt: 11, ln: 1, cl: 11 });
    let r4 = seq![toks[4]] + r5;
    assert(scan_from(s, 9, 1, 9) == Ok::<Seq<TokenS>, crate::errors::LexError>(r4));
    assert(s[6] == 'i' && s[7] == 'n' && s[8] == 't');
    lemma_word_end_value(s, 7, 9);
    assert(s.subrange(6, 9) =~= seq!['i', 'n', 't']);
    assert(seq!['i', 'n', 't'] != seq!['v', 'a', 'r']) by {
        assert(seq!['i', 'n', 't'][0] == 'i');
        assert(seq!['v', 'a', 'r'][0] == 'v');
    }
    assert(seq!['i', 'n', 't'] != seq!['f', 'o', 'r']) by {
        assert(seq!['i', 'n', 't'][0] == 'i');
        assert(seq!['f', 'o', 'r'][0] == 'f');
    }
    assert(seq!['i', 'n', 't'] != seq!['e', 'n', 'd']) by {
        assert(seq!['i', 'n', 't'][0] == 'i');
        assert(seq!['e', 'n', 'd'][0] == 'e');
    }
    assert(crate::lexical_scanner::word_kind(seq!['i', 'n', 't']) == TokenKind::IntKw);
    assert(scan_step(s, 6, 1, 6) == ScanStep::Tok { t: toks[3], nxt: 9, ln: 1, cl: 9 });
    let r3 = seq![toks[3]] + r4;
    assert(scan_from(s, 6, 1, 6) == Ok::<Seq<TokenS>, crate::errors::LexError>(r3));
    assert(s[5] == ':' && s[6] != '=');
    assert(scan_step(s, 5, 1, 5) == ScanStep::Tok { t: toks[2], nxt: 6, ln: 1, cl: 6 });
    let r2 = seq![toks[2]] + r3;
    assert(scan_from(s, 5, 1, 5) == Ok::<Seq<TokenS>, crate::errors::LexError>(r2));
    assert(s[4] == 'a');
    lemma_word_end_value(s, 5, 5);
    assert(s.subrange(4, 5) =~= seq!['a']);
    assert(crate::lexical_scanner::word_kind(seq!['a']) == TokenKind::Identifier);
    assert(scan_step(s, 4, 1, 4) == ScanStep::Tok { t: toks[1], nxt: 5, ln: 1, cl: 5 });
    let r1 = seq![toks[1]] + r2;
    assert(scan_from(s, 4, 1, 4) == Ok::<Seq<TokenS>, crate::errors::LexError>(r1));
    assert(s[3] == ' ');
    assert(scan_from(s, 3, 1, 3) == Ok::<Seq<TokenS>, crate::errors::LexError>(r1));
    assert(s[0] == 'v' && s[1] == 'a' && s[2] == 'r');
    lemma_word_end_value(s, 1, 3);
    assert(s.subrange(0, 3) =~= seq!['v', 'a', 'r']);
    assert(crate::lexical_scanner::word_kind(seq!['v', 'a', 'r']) == TokenKind::Var);
    assert(scan_step(s, 0, 1, 0) == ScanStep::Tok { t: toks[0], nxt: 3, ln: 1, cl: 3 });
    let r0 = seq![toks[0]] + r1;
    assert(scan_from(s, 0, 1, 0) == Ok::<Seq<TokenS>, crate::errors::LexError>(r0));
    assert(r0 =~= toks);
}

/// Parsing the addition program's tokens yields its tree.
proof fn lemma_parse_sum_program(x: int, y: int)
    requires
        0 <= x <= 0x7FFF_FFFF,
        0 <= y <= 0x7FFF_FFFF,
    ensures
        p_program(sum_program_tokens(x, y)) == Ok::<ProgramS, crate::errors::ParseError>(
            sum_program_tree(x, y),
        ),
{
    let toks = sum_program_tokens(x, y);
    let xd = u_chars(x as nat);
    let yd = u_chars(y as nat);
    let lx = xd.len() as int;
    let ly = yd.len() as int;
    let v0 = Map::<Seq<char>, VarS>::empty();
    let da = sum_decl_a();
    let db = sum_decl_b(x);
    let v1 = v0.insert(seq!['a'], da);
    let v2 = v1.insert(seq!['b'], db);
    assert(seq!['a'] != seq!['b']) by {
        assert(seq!['a'][0] == 'a');
        assert(seq!['b'][0] == 'b');
    }
    let cx = ExprS::Constant(ConstS { text: xd, ty: VariableType::Int, line: 1, col: 12 });
    let cy = ExprS::Constant(ConstS { text: yd, ty: VariableType::Int, line: 1, col: 24 + lx });
    let stmt_a = StmtS::Assign { target: da, value: Some(cx) };
    let stmt_b = StmtS::Assign { target: db, value: Some(cy) };
    let sum = ExprS::Binary(
        BinOpType::Plus,
        Box::new(ExprS::Variable(da)),
        Box::new(ExprS::Variable(db)),
    );
    let stmt_p = StmtS::Print(sum);
    // first declaration
    assert(p_opnd(toks, 5, v1) == Ok::<(ExprS, int), crate::errors::ParseError>((cx, 6)));
    assert(p_expr(toks, 5, v1) == Ok::<(ExprS, int), crate::errors::ParseError>((cx, 6)));
    assert(p_var_decl(toks, 1, v0) == Ok::<
        (StmtS, int, Map<Seq<char>, VarS>),
        crate::errors::ParseError,
    >((stmt_a, 7, v1)));
    assert(p_stmt(toks, 0, v0) == Ok::<
        (StmtS, int, Map<Seq<char>, VarS>),
        crate::errors::ParseError,
    >((stmt_a, 7, v1)));
    // second declaration
    assert(p_opnd(toks, 12, v2) == Ok::<(ExprS, int), crate::errors::ParseError>((cy, 13)));
    assert(p_expr(toks, 12, v2) == Ok::<(ExprS, int), crate::errors::ParseError>((cy, 13)));
    assert(p_var_decl(toks, 8, v1) == Ok::<
        (StmtS, int, Map<Seq<char>, VarS>),
        crate::errors::ParseError,
    >((stmt_b, 14, v2)));
    assert(p_stmt(toks, 7, v1) == Ok::<
        (StmtS, int, Map<Seq<char>, VarS>),
        crate::errors::ParseError,
    >((stmt_b, 14, v2)));
    // the print statement
    assert(p_opnd(toks, 15, v2) == Ok::<(ExprS, int), crate::errors::ParseError>(
        (ExprS::Variable(da), 16),
    ));
    assert(p_opnd(toks, 17, v2) == Ok::<(ExprS, int), crate::errors::ParseError>(
        (ExprS::Variable(db), 18),
    ));
    assert(p_expr(toks, 15, v2) == Ok::<(ExprS, int), crate::errors::ParseError>((sum, 18)));
    assert(p_print(toks, 15, v2) == Ok::<
        (StmtS, int, Map<Seq<char>, VarS>),
        crate::errors::ParseError,
    >((stmt_p, 19, v2)));
    assert(p_stmt(toks, 14, v2) == Ok::<
        (StmtS, int, Map<Seq<char>, VarS>),
        crate::errors::ParseError,
    >((stmt_p, 19, v2)));
    // the statement list
    assert(p_stmts(toks, 19, v2) == Ok::<
        (Seq<StmtS>, Map<Seq<char>, VarS>),
        crate::errors::ParseError,
    >((Seq::empty(), v2)));
    assert(p_stmts(toks, 14, v2) == Ok::<
        (Seq<StmtS>, Map<Seq<char>, VarS>),
        crate::errors::ParseError,
    >((seq![stmt_p] + Seq::<StmtS>::empty(), v2)));
    assert(p_stmts(toks, 7, v1) == Ok::<
        (Seq<StmtS>, Map<Seq<char>, VarS>),
        crate::errors::ParseError,
    >((seq![stmt_b] + (seq![stmt_p] + Seq::<StmtS>::empty()), v2)));
    assert(p_stmts(toks, 0, v0) == Ok::<
        (Seq<StmtS>, Map<Seq<char>, VarS>),
        crate::errors::ParseError,
    >((seq![stmt_a] + (seq![stmt_b] + (seq![stmt_p] + Seq::<StmtS>::empty())), v2)));
    assert(seq![stmt_a] + (seq![stmt_b] + (seq![stmt_p] + Seq::<StmtS>::empty())) =~= seq![
        stmt_a,
        stmt_b,
        stmt_p,
    ]);
}

/// Running the addition program's tree prints the decimal sum.
proof fn lemma_run_sum_program(x: int, y: int)
    requires
        0 <= x,
        0 <= y,
        x + y <= 0x7FFF_FFFF,
    ensures
        run_program(sum_program_tree(x, y), Seq::empty()) == (RunR {
            state: StateS {
                env: Map::<Seq<char>, BindingS>::empty().insert(
                    seq!['a'],
                    BindingS { ty: VariableType::Int, val: ValueS::IntV(x) },
                ).insert(seq!['b'], BindingS { ty: VariableType::Int, val: ValueS::IntV(y) }),
                out: int_chars(x + y),
                input: Seq::empty(),
            },
            err: None::<crate::errors::InterpretError>,
        }),
{
    let p = sum_program_tree(x, y);
    let xd = u_chars(x as nat);
    let yd = u_chars(y as nat);
    lemma_parse_u_chars(x as nat);
    lemma_parse_u_chars(y as nat);
    assert(seq!['a'] != seq!['b']) by {
        assert(seq!['a'][0] == 'a');
        assert(seq!['b'][0] == 'b');
    }
    let st0 = StateS {
        env: Map::<Seq<char>, BindingS>::empty(),
        out: Seq::empty(),
        input: Seq::empty(),
    };
    let ea = Map::<Seq<char>, BindingS>::empty().insert(
        seq!['a'],
        BindingS { ty: VariableType::Int, val: ValueS::IntV(x) },
    );
    let eb = ea.insert(seq!['b'], BindingS { ty: VariableType::Int, val: ValueS::IntV(y) });
    let st1 = StateS { env: ea, ..st0 };
    let st2 = StateS { env: eb, ..st1 };
    assert(const_value(ConstS { text: xd, ty: VariableType::Int, line: 1, col: 12 }) == Ok::<
        ValueS,
        crate::errors::InterpretError,
    >(ValueS::IntV(x)));
    assert(run_stmt(p.stmts[0], st0) == step_ok(st1));
    assert(run_stmt(p.stmts[1], st1) == step_ok(st2));
    lemma_wrap_i32_id(x + y);
    assert(eval_expr(ExprS::Variable(sum_decl_a()), eb) == Ok::<
        ValueS,
        crate::errors::InterpretError,
    >(ValueS::IntV(x)));
    assert(eval_expr(ExprS::Variable(sum_decl_b(x)), eb) == Ok::<
        ValueS,
        crate::errors::InterpretError,
    >(ValueS::IntV(y)));
    assert(eval_expr(
        ExprS::Binary(
            BinOpType::Plus,
            Box::new(ExprS::Variable(sum_decl_a())),
            Box::new(ExprS::Variable(sum_decl_b(x))),
        ),
        eb,
    ) == Ok::<ValueS, crate::errors::InterpretError>(ValueS::IntV(x + y)));
    let st3 = StateS { out: Seq::empty() + int_chars(x + y), ..st2 };
    assert(run_stmt(p.stmts[2], st2) == step_ok(st3));
    assert(run_stmts_from(p.stmts, 3, st3) == step_ok(st3));
    assert(run_stmts_from(p.stmts, 2, st2) == step_ok(st3));
    assert(run_stmts_from(p.stmts, 1, st1) == step_ok(st3));
    assert(run_stmts_from(p.stmts, 0, st0) == step_ok(st3));
    assert(Seq::empty() + int_chars(x + y) =~= int_chars(x + y));
    assert(st3 == StateS { env: eb, out: int_chars(x + y), input: Seq::<Seq<char>>::empty() });
}

/// For all non-negative `x` and `y` whose sum fits 32 signed bits, the
/// program `var a:int:=X;var b:int:=Y;print a+b;` — with the decimal
/// digits of `x` and `y` written in — runs without input, faults
/// nowhere, and prints exactly the decimal text of `x + y`.
pub proof fn lemma_sum_program(x: int, y: int)
    requires
        0 <= x,
        0 <= y,
        x + y <= 0x7FFF_FFFF,
    ensures
        pipeline_spec(sum_program_src(x, y), Seq::empty()) == (
            int_chars(x + y),
            None::<PipelineError>,
        ),
{
    lemma_scan_sum_program(x, y);
    lemma_parse_sum_program(x, y);
    lemma_run_sum_program(x, y);
}

} // verus!
