//! Character and word classification predicates for scanned text.

use vstd::prelude::*;
use vstd::string::*;
use crate::numbers::{all_digits, is_digit, is_digit_exec};
use crate::text::{chars_of, str_eq};

verus! {

/// Whether `ch` alone separates tokens.
pub open spec fn one_char_delimiter(c: char) -> bool {
    c == ' ' || c == '+' || c == '-' || c == '*' || c == '/' || c == '<' || c == '&' || c == '!'
        || c == ';'
}

/// Whether `ch` can open either a one- or a two-character delimiter.
pub open spec fn one_or_two_char_delimiter(c: char) -> bool {
    c == ':'
}

/// Whether `c` opens any delimiter.
pub open spec fn start_of_delimiter(c: char) -> bool {
    one_char_delimiter(c) || one_or_two_char_delimiter(c)
}

/// Whether `c` is an operator character.
pub open spec fn operator_char(c: char) -> bool {
    c == '+' || c == '-' || c == '*' || c == '/' || c == '<' || c == '=' || c == '&' || c == '!'
}

/// Whether `s` can stand as an identifier: it is non-empty and starts
/// with neither a digit nor a delimiter.
pub open spec fn valid_identifier(s: Seq<char>) -> bool {
    s.len() > 0 && !is_digit(s[0]) && !start_of_delimiter(s[0])
}

/// Whether `s` is one of the language's statement keywords.
pub open spec fn keyword(s: Seq<char>) -> bool {
    s == seq!['v', 'a', 'r'] || s == seq!['f', 'o', 'r'] || s == seq!['e', 'n', 'd'] || s == seq![
        'i',
        'n',
    ] || s == seq!['d', 'o'] || s == seq!['r', 'e', 'a', 'd'] || s == seq![
        'p',
        'r',
        'i',
        'n',
        't',
    ] || s == seq!['i', 'n', 't'] || s == seq!['s', 't', 'r', 'i', 'n', 'g'] || s == seq![
        'b',
        'o',
        'o',
        'l',
    ] || s == seq!['a', 's', 's', 'e', 'r', 't']
}

/// Whether `ch` alone separates tokens.
pub fn is_one_char_delimiter(ch: &char) -> (r: bool)
    ensures
        r == one_char_delimiter(*ch),
{
    let c = *ch;
    c == ' ' || c == '+' || c == '-' || c == '*' || c == '/' || c == '<' || c == '&' || c == '!'
        || c == ';'
}

/// Whether `ch` can open either a one- or a two-character delimiter.
pub fn can_be_one_or_two_char_delimiter(ch: &char) -> (r: bool)
    ensures
        r == one_or_two_char_delimiter(*ch),
{
    *ch == ':'
}

/// Whether `st` is a two-character delimiter.
pub fn is_two_char_delimiter(st: &str) -> (r: bool)
    ensures
        r == (st@ == seq![':', '=']),
{
    proof {
        reveal_strlit(":=");
        assert(":="@ =~= seq![':', '=']);
    }
    str_eq(st, ":=")
}

/// Whether `ch` opens any delimiter.
pub fn is_start_of_delimeter(ch: &char) -> (r: bool)
    ensures
        r == start_of_delimiter(*ch),
{
    is_one_char_delimiter(ch) || can_be_one_or_two_char_delimiter(ch)
}

/// Whether `ch` is an operator character.
pub fn is_operator(ch: &char) -> (r: bool)
    ensures
        r == operator_char(*ch),
{
    let c = *ch;
    c == '+' || c == '-' || c == '*' || c == '/' || c == '<' || c == '=' || c == '&' || c == '!'
}

/// Whether `st` can stand as an identifier.
pub fn is_valid_identifier(st: &str) -> (r: bool)
    ensures
        r == valid_identifier(st@),
{
    let n = st.unicode_len();
    if n == 0 {
        return false;
    }
    let c = st.get_char(0);
    !is_digit_exec(c) && !is_start_of_delimeter(&c)
}

/// Whether `st` is one of the language's statement keywords.
pub fn is_keyword(st: &str) -> (r: bool)
    ensures
        r == keyword(st@),
{
    proof {
        reveal_strlit("var");
        reveal_strlit("for");
        reveal_strlit("end");
        reveal_strlit("in");
        reveal_strlit("do");
        reveal_strlit("read");
        reveal_strlit("print");
        reveal_strlit("int");
        reveal_strlit("string");
        reveal_strlit("bool");
        reveal_strlit("assert");
        assert("var"@ =~= seq!['v', 'a', 'r']);
        assert("for"@ =~= seq!['f', 'o', 'r']);
        assert("end"@ =~= seq!['e', 'n', 'd']);
        assert("in"@ =~= seq!['i', 'n']);
        assert("do"@ =~= seq!['d', 'o']);
        assert("read"@ =~= seq!['r', 'e', 'a', 'd']);
        assert("print"@ =~= seq!['p', 'r', 'i', 'n', 't']);
        assert("int"@ =~= seq!['i', 'n', 't']);
        assert("string"@ =~= seq!['s', 't', 'r', 'i', 'n', 'g']);
        assert("bool"@ =~= seq!['b', 'o', 'o', 'l']);
        assert("assert"@ =~= seq!['a', 's', 's', 'e', 'r', 't']);
    }
    str_eq(st, "var") || str_eq(st, "for") || str_eq(st, "end") || str_eq(st, "in") || str_eq(
        st,
        "do",
    ) || str_eq(st, "read") || str_eq(st, "print") || str_eq(st, "int") || str_eq(st, "string")
        || str_eq(st, "bool") || str_eq(st, "assert")
}

/// Whether `st` is a non-empty run of decimal digits.
pub fn is_integer(st: &str) -> (r: bool)
    ensures
        r == (st@.len() > 0 && all_digits(st@)),
{
    let cs = chars_of(st);
    if cs.len() == 0 {
        return false;
    }
    let mut i: usize = 0;
    while i < cs.len()
        invariant
            i <= cs@.len(),
            cs@ == st@,
            forall|j: int| 0 <= j < i ==> is_digit(st@[j]),
        decreases cs@.len() - i,
    {
        if !is_digit_exec(cs[i]) {
            return false;
        }
        i = i + 1;
    }
    true
}

} // verus!
