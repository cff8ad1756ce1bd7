//! Decimal text: rendering integers and parsing integer literals and
//! `read` input, with the round-trip laws between the two.

use vstd::prelude::*;
use vstd::string::*;

verus! {

/// Whether `c` is a decimal digit.
pub open spec fn is_digit(c: char) -> bool {
    48 <= c as int <= 57
}

/// The numeric value of the digit `c`.
pub open spec fn digit_val(c: char) -> int {
    c as int - 48
}

/// Whether every character of `s` is a decimal digit.
pub open spec fn all_digits(s: Seq<char>) -> bool {
    forall|i: int| 0 <= i < s.len() ==> is_digit(s[i])
}

/// The value of the digit run `s`, most significant digit first.
pub open spec fn digits_val(s: Seq<char>) -> int
    decreases s.len(),
{
    if s.len() == 0 {
        0
    } else {
        digits_val(s.drop_last()) * 10 + digit_val(s[s.len() - 1])
    }
}

/// The value of an optionally signed digit run, as written by `read`
/// input: `["+"|"-"] digit+`, with no bound on its size.
pub open spec fn parse_int_spec(s: Seq<char>) -> Option<int> {
    if s.len() > 0 && (s[0] == '-' || s[0] == '+') {
        let d = s.subrange(1, s.len() as int);
        if d.len() > 0 && all_digits(d) {
            if s[0] == '-' {
                Some(-digits_val(d))
            } else {
                Some(digits_val(d))
            }
        } else {
            None
        }
    } else if s.len() > 0 && all_digits(s) {
        Some(digits_val(s))
    } else {
        None
    }
}

/// `parse_int_spec`, restricted to values that fit a 32-bit signed
/// integer; anything outside that range fails to parse.
pub open spec fn parse_i32_spec(s: Seq<char>) -> Option<int> {
    match parse_int_spec(s) {
        Some(v) => if -0x8000_0000 <= v <= 0x7FFF_FFFF {
            Some(v)
        } else {
            None
        },
        None => None,
    }
}

/// The digit character for the value `d`.
pub open spec fn digit_char(d: int) -> char {
    if d == 0 {
        '0'
    } else if d == 1 {
        '1'
    } else if d == 2 {
        '2'
    } else if d == 3 {
        '3'
    } else if d == 4 {
        '4'
    } else if d == 5 {
        '5'
    } else if d == 6 {
        '6'
    } else if d == 7 {
        '7'
    } else if d == 8 {
        '8'
    } else {
        '9'
    }
}

/// The decimal digits of the non-negative integer `n`.
pub open spec fn u_chars(n: nat) -> Seq<char>
    decreases n,
{
    if n < 10 {
        seq![digit_char(n as int)]
    } else {
        u_chars(n / 10).push(digit_char(n as int % 10))
    }
}

/// The decimal text of the integer `v`, with a leading minus sign when
/// `v` is negative.
pub open spec fn int_chars(v: int) -> Seq<char> {
    if v < 0 {
        seq!['-'] + u_chars((-v) as nat)
    } else {
        u_chars(v as nat)
    }
}

/// The digits of `n` are digits, and there is at least one of them.
pub proof fn lemma_u_chars_digits(n: nat)
    ensures
        u_chars(n).len() >= 1,
        all_digits(u_chars(n)),
    decreases n,
{
    if n >= 10 {
        lemma_u_chars_digits(n / 10);
        assert forall|i: int| 0 <= i < u_chars(n).len() implies is_digit(u_chars(n)[i]) by {
            if i < u_chars(n / 10).len() {
                assert(u_chars(n)[i] == u_chars(n / 10)[i]);
            }
        }
    }
}

/// Reading back the digits of `n` gives `n`.
pub proof fn lemma_digits_val_u_chars(n: nat)
    ensures
        digits_val(u_chars(n)) == n,
    decreases n,
{
    if n < 10 {
        assert(u_chars(n).drop_last() =~= Seq::<char>::empty());
        assert(digits_val(Seq::<char>::empty()) == 0);
        assert(digit_val(digit_char(n as int)) == n);
    } else {
        lemma_digits_val_u_chars(n / 10);
        assert(u_chars(n).drop_last() =~= u_chars(n / 10));
        assert(digit_val(digit_char(n as int % 10)) == n as int % 10);
        assert(n == (n / 10) * 10 + n % 10) by (nonlinear_arith);
    }
}

/// Parsing the rendered text of `v` gives back `v`.
pub proof fn lemma_parse_int_chars(v: int)
    ensures
        parse_int_spec(int_chars(v)) == Some(v),
{
    if v < 0 {
        let s = int_chars(v);
        lemma_u_chars_digits((-v) as nat);
        lemma_digits_val_u_chars((-v) as nat);
        assert(s[0] == '-');
        assert(s.subrange(1, s.len() as int) =~= u_chars((-v) as nat));
    } else {
        lemma_u_chars_digits(v as nat);
        lemma_digits_val_u_chars(v as nat);
        let s = int_chars(v);
        assert(s[0] != '-' && s[0] != '+') by {
            assert(is_digit(s[0]));
        }
    }
}

/// Parsing the plain digits of a non-negative value in range gives that
/// value back.
pub proof fn lemma_parse_u_chars(n: nat)
    requires
        n <= 0x7FFF_FFFF,
    ensures
        parse_i32_spec(u_chars(n)) == Some(n as int),
{
    let s = u_chars(n);
    lemma_u_chars_digits(n);
    lemma_digits_val_u_chars(n);
    assert(is_digit(s[0]));
    assert(s[0] != '-' && s[0] != '+');
}

/// A digit run's value is never negative.
pub proof fn lemma_digits_val_nonneg(s: Seq<char>)
    requires
        all_digits(s),
    ensures
        digits_val(s) >= 0,
    decreases s.len(),
{
    if s.len() > 0 {
        assert(all_digits(s.drop_last())) by {
            assert(forall|i: int|
                0 <= i < s.len() - 1 ==> s.drop_last()[i] == s[i]);
        }
        lemma_digits_val_nonneg(s.drop_last());
    }
}

/// A prefix of a digit run is worth no more than the whole run.
pub proof fn lemma_digits_val_prefix_le(s: Seq<char>, k: int)
    requires
        all_digits(s),
        0 <= k <= s.len(),
    ensures
        0 <= digits_val(s.subrange(0, k)) <= digits_val(s),
    decreases s.len(),
{
    if k == s.len() {
        assert(s.subrange(0, k) =~= s);
        lemma_digits_val_nonneg(s);
    } else {
        assert(all_digits(s.drop_last())) by {
            assert(forall|i: int|
                0 <= i < s.len() - 1 ==> s.drop_last()[i] == s[i]);
        }
        lemma_digits_val_prefix_le(s.drop_last(), k);
        assert(s.drop_last().subrange(0, k) =~= s.subrange(0, k));
        lemma_digits_val_nonneg(s.drop_last());
    }
}

/// Executable form of `is_digit`.
pub fn is_digit_exec(c: char) -> (r: bool)
    ensures
        r == is_digit(c),
{
    '0' <= c && c <= '9'
}

/// Executable form of `digit_char`.
fn digit_char_exec(d: u32) -> (c: char)
    requires
        d < 10,
    ensures
        c == digit_char(d as int),
{
    if d == 0 {
        '0'
    } else if d == 1 {
        '1'
    } else if d == 2 {
        '2'
    } else if d == 3 {
        '3'
    } else if d == 4 {
        '4'
    } else if d == 5 {
        '5'
    } else if d == 6 {
        '6'
    } else if d == 7 {
        '7'
    } else if d == 8 {
        '8'
    } else {
        '9'
    }
}

/// The decimal text of the non-negative integer `n`.
fn u32_to_string(n: u32) -> (r: String)
    ensures
        r@ == u_chars(n as nat),
    decreases n,
{
    if n < 10 {
        crate::text::string_of_char(digit_char_exec(n))
    } else {
        let mut s = u32_to_string(n / 10);
        s.push(digit_char_exec(n % 10));
        s
    }
}

/// The decimal text of `v`: digits with a leading minus sign when `v` is
/// negative.
pub fn int_to_string(v: i32) -> (r: String)
    ensures
        r@ == int_chars(v as int),
{
    if v < 0 {
        let mag: u32 = (-(v as i64)) as u32;
        let mut s = crate::text::string_of_char('-');
        let digits = u32_to_string(mag);
        s.append(digits.as_str());
        proof {
            assert(s@ =~= seq!['-'] + u_chars(mag as nat));
        }
        s
    } else {
        u32_to_string(v as u32)
    }
}

/// Parses the characters `v[lo .. hi]` as an optionally signed decimal
/// number that fits a 32-bit signed integer.
pub fn parse_i32_range(v: &Vec<char>, lo: usize, hi: usize) -> (r: Option<i32>)
    requires
        lo <= hi <= v@.len(),
    ensures
        match r {
            Some(x) => parse_i32_spec(v@.subrange(lo as int, hi as int)) == Some(x as int),
            None => parse_i32_spec(v@.subrange(lo as int, hi as int)) is None,
        },
{
    let ghost s = v@.subrange(lo as int, hi as int);
    if lo == hi {
        return None;
    }
    let c0 = v[lo];
    let neg = c0 == '-';
    let dstart = if c0 == '-' || c0 == '+' {
        lo + 1
    } else {
        lo
    };
    let ghost d = v@.subrange(dstart as int, hi as int);
    proof {
        assert(s[0] == v@[lo as int]);
        if dstart > lo {
            assert(s.subrange(1, s.len() as int) =~= d);
        } else {
            assert(s =~= d);
        }
        assert(v@.subrange(dstart as int, dstart as int) =~= Seq::<char>::empty());
        assert(digits_val(Seq::<char>::empty()) == 0);
    }
    if dstart == hi {
        // A sign with no digits after it.
        return None;
    }
    let mut acc: u64 = 0;
    let mut i = dstart;
    while i < hi
        invariant
            lo <= dstart <= i <= hi <= v@.len(),
            lo < hi,
            s == v@.subrange(lo as int, hi as int),
            d == v@.subrange(dstart as int, hi as int),
            neg == (s[0] == '-'),
            (s[0] == '-' || s[0] == '+') ==> dstart == lo + 1 && s.subrange(1, s.len() as int)
                == d,
            !(s[0] == '-' || s[0] == '+') ==> dstart == lo && s == d,
            acc as int == digits_val(v@.subrange(dstart as int, i as int)),
            acc <= 0x8000_0000,
            forall|j: int| dstart <= j < i ==> is_digit(v@[j]),
        decreases hi - i,
    {
        let c = v[i];
        if !is_digit_exec(c) {
            proof {
                assert(d[i - dstart] == v@[i as int]);
                assert(!all_digits(d));
            }
            return None;
        }
        let dv: u64 = (c as u32 as u64) - 48;
        acc = acc * 10 + dv;
        i = i + 1;
        proof {
            let p = v@.subrange(dstart as int, i as int);
            assert(p.drop_last() =~= v@.subrange(dstart as int, i as int - 1));
            assert(p[p.len() - 1] == v@[i as int - 1]);
        }
        if acc > 0x8000_0000 {
            proof {
                let p = v@.subrange(dstart as int, i as int);
                assert(acc as int == digits_val(p));
                assert(s[0] == v@[lo as int]);
                if all_digits(d) {
                    lemma_digits_val_prefix_le(d, i as int - dstart as int);
                    assert(d.subrange(0, i as int - dstart as int) =~= p);
                    assert(digits_val(d) >= acc as int);
                    if s[0] == '-' {
                        assert(parse_int_spec(s) == Some(-digits_val(d)));
                    } else if s[0] == '+' {
                        assert(parse_int_spec(s) == Some(digits_val(d)));
                    } else {
                        assert(s == d);
                        assert(parse_int_spec(s) == Some(digits_val(d)));
                    }
                } else {
                    if s[0] != '-' && s[0] != '+' {
                        assert(s == d);
                    }
                }
            }
            return None;
        }
    }
    proof {
        assert(v@.subrange(dstart as int, i as int) =~= d);
        assert(acc as int == digits_val(d));
        assert(all_digits(d));
        assert(s[0] == v@[lo as int]);
        if s[0] == '-' {
            assert(parse_int_spec(s) == Some(-digits_val(d)));
        } else if s[0] == '+' {
            assert(parse_int_spec(s) == Some(digits_val(d)));
        } else {
            assert(s == d);
            assert(parse_int_spec(s) == Some(digits_val(d)));
        }
    }
    if neg {
        let m: i64 = -(acc as i64);
        Some(m as i32)
    } else {
        if acc > 0x7FFF_FFFF {
            return None;
        }
        Some(acc as i32)
    }
}

/// Parses a whole line of `read` input as a 32-bit integer, after
/// trimming surrounding whitespace.
pub fn parse_i32_line(line: &String) -> (r: Option<i32>)
    ensures
        match r {
            Some(x) => parse_i32_spec(crate::text::trim_spec(line@)) == Some(x as int),
            None => parse_i32_spec(crate::text::trim_spec(line@)) is None,
        },
{
    let cs = crate::text::chars_of(line.as_str());
    let (lo, hi) = crate::text::trim_bounds(&cs);
    parse_i32_range(&cs, lo, hi)
}

} // verus!
