//! The lexical scanner: source text to token sequence.
//!
//! The mathematical model processes the text one token at a time:
//! `scan_step` consumes one token, comment or whitespace run starting at a
//! position, and `scan_from` folds the steps into the token sequence or
//! the first scan error. The executable scanner is proved equal to it.

use vstd::prelude::*;
use vstd::string::*;
use crate::errors::LexError;
use crate::lex::{LexItem, LexItemInfo, TokenKind, TokenS};
use crate::numbers::{is_digit, is_digit_exec};
use crate::text::{chars_of, string_eq_str, string_from_range, string_of_char};

verus! {

/// The characters that form a complete token by themselves.
pub open spec fn is_single_char_token(c: char) -> bool {
    c == '+' || c == '-' || c == '*' || c == '<' || c == '&' || c == '!' || c == ';' || c == '('
        || c == ')' || c == '='
}

/// The token kind of a single-character token.
pub open spec fn single_char_kind(c: char) -> TokenKind {
    if c == '+' {
        TokenKind::Plus
    } else if c == '-' {
        TokenKind::Minus
    } else if c == '*' {
        TokenKind::Star
    } else if c == '<' {
        TokenKind::LessThan
    } else if c == '&' {
        TokenKind::And
    } else if c == '!' {
        TokenKind::Not
    } else if c == ';' {
        TokenKind::StatementEnd
    } else if c == '(' {
        TokenKind::LeftParen
    } else if c == ')' {
        TokenKind::RightParen
    } else {
        TokenKind::Equal
    }
}

/// The characters that end an identifier or keyword run.
pub open spec fn is_word_terminator(c: char) -> bool {
    c == ' ' || c == '\n' || c == '\r' || c == '\t' || c == '+' || c == '-' || c == '*' || c == '/'
        || c == '<' || c == '&' || c == '!' || c == ';' || c == ':' || c == '.' || c == '(' || c
        == ')' || c == '=' || c == '"'
}

/// The keyword or identifier kind of a scanned word.
pub open spec fn word_kind(w: Seq<char>) -> TokenKind {
    if w == seq!['v', 'a', 'r'] {
        TokenKind::Var
    } else if w == seq!['f', 'o', 'r'] {
        TokenKind::For
    } else if w == seq!['e', 'n', 'd'] {
        TokenKind::End
    } else if w == seq!['i', 'n'] {
        TokenKind::In
    } else if w == seq!['d', 'o'] {
        TokenKind::Do
    } else if w == seq!['r', 'e', 'a', 'd'] {
        TokenKind::Read
    } else if w == seq!['p', 'r', 'i', 'n', 't'] {
        TokenKind::Print
    } else if w == seq!['i', 'n', 't'] {
        TokenKind::IntKw
    } else if w == seq!['s', 't', 'r', 'i', 'n', 'g'] {
        TokenKind::StringKw
    } else if w == seq!['b', 'o', 'o', 'l'] {
        TokenKind::BoolKw
    } else if w == seq!['a', 's', 's', 'e', 'r', 't'] {
        TokenKind::Assert
    } else if w == seq!['t', 'r', 'u', 'e'] {
        TokenKind::BoolTrue
    } else if w == seq!['f', 'a', 'l', 's', 'e'] {
        TokenKind::BoolFalse
    } else {
        TokenKind::Identifier
    }
}

/// The first position at or after `j` that does not hold a digit.
pub open spec fn digits_end(s: Seq<char>, j: int) -> int
    decreases s.len() - j,
{
    if 0 <= j < s.len() && is_digit(s[j]) {
        digits_end(s, j + 1)
    } else {
        j
    }
}

/// The first position at or after `j` that ends a word.
pub open spec fn word_end(s: Seq<char>, j: int) -> int
    decreases s.len() - j,
{
    if 0 <= j < s.len() && !is_word_terminator(s[j]) {
        word_end(s, j + 1)
    } else {
        j
    }
}

/// The position of the newline that ends a comment opened before `j`, or
/// the end of the text.
pub open spec fn comment_end(s: Seq<char>, j: int) -> int
    decreases s.len() - j,
{
    if 0 <= j < s.len() && s[j] != '\n' {
        comment_end(s, j + 1)
    } else {
        j
    }
}

/// The body of a string literal, scanned from `j` with the text read so
/// far: `\\` and `\"` stand for one escaped character, any other
/// backslash pair is kept as it stands, and a text that ends before the
/// closing quote is no literal at all.
pub open spec fn str_scan(s: Seq<char>, j: int, acc: Seq<char>) -> Option<(Seq<char>, int)>
    decreases s.len() - j,
{
    if !(0 <= j < s.len()) {
        None
    } else if s[j] == '"' {
        Some((acc, j + 1))
    } else if s[j] == '\\' {
        if j + 1 < s.len() {
            if s[j + 1] == '\\' {
                str_scan(s, j + 2, acc.push('\\'))
            } else if s[j + 1] == '"' {
                str_scan(s, j + 2, acc.push('"'))
            } else {
                str_scan(s, j + 2, acc.push('\\').push(s[j + 1]))
            }
        } else {
            None
        }
    } else {
        str_scan(s, j + 1, acc.push(s[j]))
    }
}

/// One scanner step: the token it emits, the skip it makes, or the error
/// it stops with; `nxt`, `ln` and `cl` are the position, line and column
/// counter after the step.
pub ghost enum ScanStep {
    Tok { t: TokenS, nxt: int, ln: int, cl: int },
    Skip { nxt: int, ln: int, cl: int },
    Fail { e: LexError },
}

/// The scanner's move at position `i`. The column counter `col` counts
/// the characters already consumed on the current line, so the next
/// character stands at column `col + 1`.
pub open spec fn scan_step(s: Seq<char>, i: int, line: int, col: int) -> ScanStep {
    let c = s[i];
    if c == ' ' || c == '\r' || c == '\t' {
        ScanStep::Skip { nxt: i + 1, ln: line, cl: col + 1 }
    } else if c == '\n' {
        ScanStep::Skip { nxt: i + 1, ln: line + 1, cl: 0 }
    } else if is_single_char_token(c) {
        ScanStep::Tok {
            t: TokenS { kind: single_char_kind(c), text: seq![c], line: line, col: col + 1 },
            nxt: i + 1,
            ln: line,
            cl: col + 1,
        }
    } else if c == ':' {
        if i + 1 < s.len() && s[i + 1] == '=' {
            ScanStep::Tok {
                t: TokenS { kind: TokenKind::Assign, text: seq![':', '='], line: line, col: col + 1 },
                nxt: i + 2,
                ln: line,
                cl: col + 2,
            }
        } else {
            ScanStep::Tok {
                t: TokenS { kind: TokenKind::Separator, text: seq![':'], line: line, col: col + 1 },
                nxt: i + 1,
                ln: line,
                cl: col + 1,
            }
        }
    } else if c == '.' {
        if i + 1 < s.len() && s[i + 1] == '.' {
            ScanStep::Tok {
                t: TokenS { kind: TokenKind::Range, text: seq!['.', '.'], line: line, col: col + 1 },
                nxt: i + 2,
                ln: line,
                cl: col + 2,
            }
        } else {
            ScanStep::Fail {
                e: LexError::UnexpectedCharacter { line: line as i32, column: (col + 1) as i32 },
            }
        }
    } else if c == '/' {
        if i + 1 < s.len() && s[i + 1] == '/' {
            let ce = comment_end(s, i + 2);
            if ce < s.len() {
                ScanStep::Skip { nxt: ce + 1, ln: line + 1, cl: 0 }
            } else {
                ScanStep::Skip { nxt: s.len() as int, ln: line, cl: col }
            }
        } else {
            ScanStep::Tok {
                t: TokenS { kind: TokenKind::Slash, text: seq!['/'], line: line, col: col + 1 },
                nxt: i + 1,
                ln: line,
                cl: col + 1,
            }
        }
    } else if is_digit(c) {
        let e = digits_end(s, i + 1);
        ScanStep::Tok {
            t: TokenS {
                kind: TokenKind::IntegerLiteral,
                text: s.subrange(i, e),
                line: line,
                col: col + 1,
            },
            nxt: e,
            ln: line,
            cl: col + (e - i),
        }
    } else if c == '"' {
        match str_scan(s, i + 1, Seq::empty()) {
            Some(p) => ScanStep::Tok {
                t: TokenS { kind: TokenKind::StringLiteral, text: p.0, line: line, col: col + 1 },
                nxt: p.1,
                ln: line,
                cl: col + (p.1 - i),
            },
            None => ScanStep::Fail {
                e: LexError::UnterminatedString { line: line as i32, column: (col + 1) as i32 },
            },
        }
    } else {
        let e = word_end(s, i + 1);
        ScanStep::Tok {
            t: TokenS {
                kind: word_kind(s.subrange(i, e)),
                text: s.subrange(i, e),
                line: line,
                col: col + 1,
            },
            nxt: e,
            ln: line,
            cl: col + (e - i),
        }
    }
}

/// Bounds of `digits_end`: it stays inside the text, moves forward, and
/// marks exactly the maximal digit run.
pub proof fn lemma_digits_end(s: Seq<char>, j: int)
    requires
        0 <= j <= s.len(),
    ensures
        j <= digits_end(s, j) <= s.len(),
        forall|k: int| j <= k < digits_end(s, j) ==> is_digit(s[k]),
        digits_end(s, j) < s.len() ==> !is_digit(s[digits_end(s, j)]),
    decreases s.len() - j,
{
    if j < s.len() && is_digit(s[j]) {
        lemma_digits_end(s, j + 1);
    }
}

/// Bounds of `word_end`: it stays inside the text, moves forward, and
/// marks exactly the maximal word run.
pub proof fn lemma_word_end(s: Seq<char>, j: int)
    requires
        0 <= j <= s.len(),
    ensures
        j <= word_end(s, j) <= s.len(),
        forall|k: int| j <= k < word_end(s, j) ==> !is_word_terminator(s[k]),
        word_end(s, j) < s.len() ==> is_word_terminator(s[word_end(s, j)]),
    decreases s.len() - j,
{
    if j < s.len() && !is_word_terminator(s[j]) {
        lemma_word_end(s, j + 1);
    }
}

/// The exact value of `digits_end`: it stops at the first non-digit.
pub proof fn lemma_digits_end_value(s: Seq<char>, j: int, e: int)
    requires
        0 <= j <= e <= s.len(),
        forall|k: int| j <= k < e ==> is_digit(s[k]),
        e == s.len() || !is_digit(s[e]),
    ensures
        digits_end(s, j) == e,
    decreases e - j,
{
    if j < e {
        lemma_digits_end_value(s, j + 1, e);
    }
}

/// The exact value of `word_end`: it stops at the first terminator.
pub proof fn lemma_word_end_value(s: Seq<char>, j: int, e: int)
    requires
        0 <= j <= e <= s.len(),
        forall|k: int| j <= k < e ==> !is_word_terminator(s[k]),
        e == s.len() || is_word_terminator(s[e]),
    ensures
        word_end(s, j) == e,
    decreases e - j,
{
    if j < e {
        lemma_word_end_value(s, j + 1, e);
    }
}

/// Bounds of `comment_end`.
pub proof fn lemma_comment_end(s: Seq<char>, j: int)
    requires
        0 <= j <= s.len(),
    ensures
        j <= comment_end(s, j) <= s.len(),
        comment_end(s, j) < s.len() ==> s[comment_end(s, j)] == '\n',
    decreases s.len() - j,
{
    if j < s.len() && s[j] != '\n' {
        lemma_comment_end(s, j + 1);
    }
}

/// Bounds of `str_scan`: a found literal ends after its opening
/// position, inside the text.
pub proof fn lemma_str_scan(s: Seq<char>, j: int, acc: Seq<char>)
    requires
        0 <= j,
    ensures
        match str_scan(s, j, acc) {
            Some(p) => j < p.1 <= s.len(),
            None => true,
        },
    decreases s.len() - j,
{
    if 0 <= j < s.len() {
        if s[j] == '"' {
        } else if s[j] == '\\' {
            if j + 1 < s.len() {
                if s[j + 1] == '\\' {
                    lemma_str_scan(s, j + 2, acc.push('\\'));
                } else if s[j + 1] == '"' {
                    lemma_str_scan(s, j + 2, acc.push('"'));
                } else {
                    lemma_str_scan(s, j + 2, acc.push('\\').push(s[j + 1]));
                }
            }
        } else {
            lemma_str_scan(s, j + 1, acc.push(s[j]));
        }
    }
}

/// Every scanner step moves forward and stays inside the text.
pub proof fn lemma_scan_step_advances(s: Seq<char>, i: int, line: int, col: int)
    requires
        0 <= i < s.len(),
    ensures
        match scan_step(s, i, line, col) {
            ScanStep::Tok { nxt, .. } => i < nxt <= s.len(),
            ScanStep::Skip { nxt, .. } => i < nxt <= s.len(),
            ScanStep::Fail { .. } => true,
        },
{
    let c = s[i];
    if c == ' ' || c == '\r' || c == '\t' || c == '\n' || is_single_char_token(c) || c == ':'
        || c == '.' {
    } else if c == '/' {
        if i + 1 < s.len() && s[i + 1] == '/' {
            lemma_comment_end(s, i + 2);
        }
    } else if is_digit(c) {
        lemma_digits_end(s, i + 1);
    } else if c == '"' {
        lemma_str_scan(s, i + 1, Seq::empty());
    } else {
        lemma_word_end(s, i + 1);
    }
}

/// The token sequence from position `i` on, or the first scan error.
pub open spec fn scan_from(s: Seq<char>, i: int, line: int, col: int) -> Result<
    Seq<TokenS>,
    LexError,
>
    decreases s.len() - i,
    when 0 <= i
    via scan_from_dec
{
    if i >= s.len() {
        Ok(Seq::empty())
    } else {
        match scan_step(s, i, line, col) {
            ScanStep::Fail { e } => Err(e),
            ScanStep::Skip { nxt, ln, cl } => scan_from(s, nxt, ln, cl),
            ScanStep::Tok { t, nxt, ln, cl } => match scan_from(s, nxt, ln, cl) {
                Ok(ts) => Ok(seq![t] + ts),
                Err(e) => Err(e),
            },
        }
    }
}

#[via_fn]
proof fn scan_from_dec(s: Seq<char>, i: int, line: int, col: int) {
    if 0 <= i < s.len() {
        lemma_scan_step_advances(s, i, line, col);
    }
}

/// The token sequence of a whole text: scanning from the start, line 1,
/// nothing yet consumed on the line.
pub open spec fn scan_spec(s: Seq<char>) -> Result<Seq<TokenS>, LexError> {
    scan_from(s, 0, 1, 0)
}

/// The views of a token vector.
pub open spec fn lex_views(ts: Seq<LexItem>) -> Seq<TokenS> {
    ts.map_values(|t: LexItem| t@)
}

/// Tokens already emitted, prepended to the rest of a scan.
pub open spec fn prepend_tokens(ts: Seq<TokenS>, r: Result<Seq<TokenS>, LexError>) -> Result<
    Seq<TokenS>,
    LexError,
> {
    match r {
        Ok(more) => Ok(ts + more),
        Err(e) => Err(e),
    }
}

// ---------------------------------------------------------------------------
// The executable scanner.
// ---------------------------------------------------------------------------

/// Executable form of `digits_end`.
fn digits_end_exec(v: &Vec<char>, j0: usize) -> (r: usize)
    requires
        j0 <= v@.len(),
    ensures
        r as int == digits_end(v@, j0 as int),
        j0 <= r <= v@.len(),
{
    proof {
        lemma_digits_end(v@, j0 as int);
    }
    let mut j = j0;
    while j < v.len() && is_digit_exec(v[j])
        invariant
            j0 <= j <= v@.len(),
            digits_end(v@, j0 as int) == digits_end(v@, j as int),
        decreases v@.len() - j,
    {
        j = j + 1;
    }
    j
}

/// Executable form of `word_end`.
fn word_end_exec(v: &Vec<char>, j0: usize) -> (r: usize)
    requires
        j0 <= v@.len(),
    ensures
        r as int == word_end(v@, j0 as int),
        j0 <= r <= v@.len(),
{
    proof {
        lemma_word_end(v@, j0 as int);
    }
    let mut j = j0;
    while j < v.len() && !is_word_terminator_exec(v[j])
        invariant
            j0 <= j <= v@.len(),
            word_end(v@, j0 as int) == word_end(v@, j as int),
        decreases v@.len() - j,
    {
        j = j + 1;
    }
    j
}

/// Executable form of `comment_end`.
fn comment_end_exec(v: &Vec<char>, j0: usize) -> (r: usize)
    requires
        j0 <= v@.len(),
    ensures
        r as int == comment_end(v@, j0 as int),
        j0 <= r <= v@.len(),
{
    proof {
        lemma_comment_end(v@, j0 as int);
    }
    let mut j = j0;
    while j < v.len() && v[j] != '\n'
        invariant
            j0 <= j <= v@.len(),
            comment_end(v@, j0 as int) == comment_end(v@, j as int),
        decreases v@.len() - j,
    {
        j = j + 1;
    }
    j
}

/// Executable form of `is_word_terminator`.
fn is_word_terminator_exec(c: char) -> (r: bool)
    ensures
        r == is_word_terminator(c),
{
    c == ' ' || c == '\n' || c == '\r' || c == '\t' || c == '+' || c == '-' || c == '*' || c == '/'
        || c == '<' || c == '&' || c == '!' || c == ';' || c == ':' || c == '.' || c == '(' || c
        == ')' || c == '=' || c == '"'
}

/// Executable form of `is_single_char_token`.
fn is_single_char_token_exec(c: char) -> (r: bool)
    ensures
        r == is_single_char_token(c),
{
    c == '+' || c == '-' || c == '*' || c == '<' || c == '&' || c == '!' || c == ';' || c == '('
        || c == ')' || c == '='
}

/// Executable form of `single_char_kind`.
fn single_char_kind_exec(c: char) -> (k: TokenKind)
    ensures
        k == single_char_kind(c),
{
    if c == '+' {
        TokenKind::Plus
    } else if c == '-' {
        TokenKind::Minus
    } else if c == '*' {
        TokenKind::Star
    } else if c == '<' {
        TokenKind::LessThan
    } else if c == '&' {
        TokenKind::And
    } else if c == '!' {
        TokenKind::Not
    } else if c == ';' {
        TokenKind::StatementEnd
    } else if c == '(' {
        TokenKind::LeftParen
    } else if c == ')' {
        TokenKind::RightParen
    } else {
        TokenKind::Equal
    }
}

/// Executable form of `word_kind`.
fn word_kind_exec(w: &String) -> (k: TokenKind)
    ensures
        k == word_kind(w@),
{
    proof {
        reveal_strlit("var");
        reveal_strlit("for");
        reveal_strlit("end");
        reveal_strlit("in");
        reveal_strlit("do");
        reveal_strlit("read");
        reveal_strlit("print");
        reveal_strlit("int");
        reveal_strlit("string");
        reveal_strlit("bool");
        reveal_strlit("assert");
        reveal_strlit("true");
        reveal_strlit("false");
        assert("var"@ =~= seq!['v', 'a', 'r']);
        assert("for"@ =~= seq!['f', 'o', 'r']);
        assert("end"@ =~= seq!['e', 'n', 'd']);
        assert("in"@ =~= seq!['i', 'n']);
        assert("do"@ =~= seq!['d', 'o']);
        assert("read"@ =~= seq!['r', 'e', 'a', 'd']);
        assert("print"@ =~= seq!['p', 'r', 'i', 'n', 't']);
        assert("int"@ =~= seq!['i', 'n', 't']);
        assert("string"@ =~= seq!['s', 't', 'r', 'i', 'n', 'g']);
        assert("bool"@ =~= seq!['b', 'o', 'o', 'l']);
        assert("assert"@ =~= seq!['a', 's', 's', 'e', 'r', 't']);
        assert("true"@ =~= seq!['t', 'r', 'u', 'e']);
        assert("false"@ =~= seq!['f', 'a', 'l', 's', 'e']);
    }
    if string_eq_str(w, "var") {
        TokenKind::Var
    } else if string_eq_str(w, "for") {
        TokenKind::For
    } else if string_eq_str(w, "end") {
        TokenKind::End
    } else if string_eq_str(w, "in") {
        TokenKind::In
    } else if string_eq_str(w, "do") {
        TokenKind::Do
    } else if string_eq_str(w, "read") {
        TokenKind::Read
    } else if string_eq_str(w, "print") {
        TokenKind::Print
    } else if string_eq_str(w, "int") {
        TokenKind::IntKw
    } else if string_eq_str(w, "string") {
        TokenKind::StringKw
    } else if string_eq_str(w, "bool") {
        TokenKind::BoolKw
    } else if string_eq_str(w, "assert") {
        TokenKind::Assert
    } else if string_eq_str(w, "true") {
        TokenKind::BoolTrue
    } else if string_eq_str(w, "false") {
        TokenKind::BoolFalse
    } else {
        TokenKind::Identifier
    }
}

/// Executable form of `str_scan`, started on an empty accumulator.
fn str_scan_exec(v: &Vec<char>, j0: usize) -> (r: Option<(String, usize)>)
    requires
        j0 <= v@.len(),
    ensures
        match r {
            Some(p) => str_scan(v@, j0 as int, Seq::empty()) == Some((p.0@, p.1 as int)) && j0
                < p.1 <= v@.len(),
            None => str_scan(v@, j0 as int, Seq::empty()) is None,
        },
{
    let mut acc = String::new();
    let mut j = j0;
    while j < v.len()
        invariant
            j0 <= j <= v@.len(),
            str_scan(v@, j0 as int, Seq::empty()) == str_scan(v@, j as int, acc@),
        decreases v@.len() - j,
    {
        let c = v[j];
        if c == '"' {
            return Some((acc, j + 1));
        }
        if c == '\\' {
            if j + 1 < v.len() {
                let c2 = v[j + 1];
                if c2 == '\\' {
                    acc.push('\\');
                } else if c2 == '"' {
                    acc.push('"');
                } else {
                    acc.push('\\');
                    acc.push(c2);
                }
                j = j + 2;
            } else {
                return None;
            }
        } else {
            acc.push(c);
            j = j + 1;
        }
    }
    None
}

/// The scanner: it owns the source text and turns it into tokens.
pub struct Scanner {
    program: String,
}

impl Scanner {
    /// The source text this scanner reads.
    pub closed spec fn source(&self) -> Seq<char> {
        self.program@
    }

    /// A scanner over the given source text.
    pub fn new(program: String) -> (r: Scanner)
        ensures
            r.source() == program@,
    {
        Scanner { program }
    }

    /// Scans the whole text: the token sequence of the model, or its
    /// first scan error. The length bound keeps line and column counters
    /// inside 32 bits.
    pub fn scan(&self) -> (r: Result<Vec<LexItem>, LexError>)
        requires
            self.source().len() < 0x7FFF_FFFF,
        ensures
            match r {
                Ok(toks) => scan_spec(self.source()) == Ok::<Seq<TokenS>, LexError>(
                    lex_views(toks@),
                ),
                Err(e) => scan_spec(self.source()) == Err::<Seq<TokenS>, LexError>(e),
            },
    {
        let cs = chars_of(self.program.as_str());
        let n = cs.len();
        let mut result: Vec<LexItem> = Vec::new();
        let mut i: usize = 0;
        let mut line: i32 = 1;
        let mut col: i32 = 0;
        proof {
            assert(lex_views(result@) =~= Seq::<TokenS>::empty());
            assert(prepend_tokens(lex_views(result@), scan_from(cs@, 0, 1, 0)) == scan_spec(
                self.source(),
            ));
        }
        while i < n
            invariant
                i <= n,
                n == cs@.len(),
                cs@ == self.source(),
                n < 0x7FFF_FFFF,
                1 <= line as int <= i as int + 1,
                0 <= col as int <= i as int,
                prepend_tokens(lex_views(result@), scan_from(cs@, i as int, line as int, col as int))
                    == scan_spec(self.source()),
            decreases n - i,
        {
            let ghost stepped = scan_step(cs@, i as int, line as int, col as int);
            proof {
                lemma_scan_step_advances(cs@, i as int, line as int, col as int);
            }
            let c = cs[i];
            if c == ' ' || c == '\r' || c == '\t' {
                i = i + 1;
                col = col + 1;
            } else if c == '\n' {
                i = i + 1;
                line = line + 1;
                col = 0;
            } else if is_single_char_token_exec(c) {
                let kind = single_char_kind_exec(c);
                let text = string_of_char(c);
                let tok = LexItem::make(
                    kind,
                    LexItemInfo { text, line_number: line, column_number: col + 1 },
                );
                proof {
                    step_push(stepped, tok, result@, lex_views(result@));
                }
                result.push(tok);
                i = i + 1;
                col = col + 1;
            } else if c == ':' {
                if i + 1 < n && cs[i + 1] == '=' {
                    let mut text = string_of_char(':');
                    text.push('=');
                    proof {
                        assert(text@ =~= seq![':', '=']);
                    }
                    let tok = LexItem::make(
                        TokenKind::Assign,
                        LexItemInfo { text, line_number: line, column_number: col + 1 },
                    );
                    proof {
                        step_push(stepped, tok, result@, lex_views(result@));
                    }
                    result.push(tok);
                    i = i + 2;
                    col = col + 2;
                } else {
                    let text = string_of_char(':');
                    let tok = LexItem::make(
                        TokenKind::Separator,
                        LexItemInfo { text, line_number: line, column_number: col + 1 },
                    );
                    proof {
                        step_push(stepped, tok, result@, lex_views(result@));
                    }
                    result.push(tok);
                    i = i + 1;
                    col = col + 1;
                }
            } else if c == '.' {
                if i + 1 < n && cs[i + 1] == '.' {
                    let mut text = string_of_char('.');
                    text.push('.');
                    proof {
                        assert(text@ =~= seq!['.', '.']);
                    }
                    let tok = LexItem::make(
                        TokenKind::Range,
                        LexItemInfo { text, line_number: line, column_number: col + 1 },
                    );
                    proof {
                        step_push(stepped, tok, result@, lex_views(result@));
                    }
                    result.push(tok);
                    i = i + 2;
                    col = col + 2;
                } else {
                    return Err(LexError::UnexpectedCharacter { line, column: col + 1 });
                }
            } else if c == '/' {
                if i + 1 < n && cs[i + 1] == '/' {
                    let ce = comment_end_exec(&cs, i + 2);
                    if ce < n {
                        i = ce + 1;
                        line = line + 1;
                        col = 0;
                    } else {
                        i = n;
                    }
                } else {
                    let text = string_of_char('/');
                    let tok = LexItem::make(
                        TokenKind::Slash,
                        LexItemInfo { text, line_number: line, column_number: col + 1 },
                    );
                    proof {
                        step_push(stepped, tok, result@, lex_views(result@));
                    }
                    result.push(tok);
                    i = i + 1;
                    col = col + 1;
                }
            } else if is_digit_exec(c) {
                let e = digits_end_exec(&cs, i + 1);
                let text = string_from_range(&cs, i, e);
                let tok = LexItem::make(
                    TokenKind::IntegerLiteral,
                    LexItemInfo { text, line_number: line, column_number: col + 1 },
                );
                proof {
                    step_push(stepped, tok, result@, lex_views(result@));
                }
                result.push(tok);
                col = col + ((e - i) as i32);
                i = e;
            } else if c == '"' {
                match str_scan_exec(&cs, i + 1) {
                    Some(p) => {
                        let (text, nx) = p;
                        let tok = LexItem::make(
                            TokenKind::StringLiteral,
                            LexItemInfo { text, line_number: line, column_number: col + 1 },
                        );
                        proof {
                            step_push(stepped, tok, result@, lex_views(result@));
                        }
                        result.push(tok);
                        col = col + ((nx - i) as i32);
                        i = nx;
                    },
                    None => {
                        return Err(LexError::UnterminatedString { line, column: col + 1 });
                    },
                }
            } else {
                let e = word_end_exec(&cs, i + 1);
                let text = string_from_range(&cs, i, e);
                let kind = word_kind_exec(&text);
                let tok = LexItem::make(
                    kind,
                    LexItemInfo { text, line_number: line, column_number: col + 1 },
                );
                proof {
                    step_push(stepped, tok, result@, lex_views(result@));
                }
                result.push(tok);
                col = col + ((e - i) as i32);
                i = e;
            }
        }
        proof {
            assert(scan_from(cs@, i as int, line as int, col as int) == Ok::<
                Seq<TokenS>,
                LexError,
            >(Seq::empty()));
            assert(lex_views(result@) + Seq::<TokenS>::empty() =~= lex_views(result@));
        }
        Ok(result)
    }
}

/// Pushing the token a step emits keeps the invariant between what was
/// emitted and what remains to scan.
proof fn step_push(stepped: ScanStep, tok: LexItem, toks: Seq<LexItem>, views: Seq<TokenS>)
    requires
        stepped matches ScanStep::Tok { t, .. } && t == tok@,
        views == lex_views(toks),
    ensures
        lex_views(toks.push(tok)) =~= views.push(tok@),
        forall|rest: Seq<TokenS>|
            (seq![tok@] + rest).len() >= 0 ==> views + (seq![tok@] + rest) =~= lex_views(
                toks.push(tok),
            ) + rest,
{
    assert(lex_views(toks.push(tok)) =~= views.push(tok@));
    assert forall|rest: Seq<TokenS>|
        (seq![tok@] + rest).len() >= 0 implies views + (seq![tok@] + rest) =~= lex_views(
        toks.push(tok),
    ) + rest by {
        assert(views + (seq![tok@] + rest) =~= views.push(tok@) + rest);
    }
}

} // verus!
