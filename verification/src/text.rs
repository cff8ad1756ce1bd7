//! Verified utilities on strings: character access, substring building,
//! whitespace trimming, and newline stripping.

use vstd::prelude::*;
use vstd::string::*;

verus! {

/// Relies on `String::push` from std: it appends exactly the given
/// character at the end of the string.
pub assume_specification[ String::push ](s: &mut String, ch: char)
    ensures
        final(s)@ == old(s)@.push(ch),
;

/// The characters of `s`, as a vector.
pub fn chars_of(s: &str) -> (r: Vec<char>)
    ensures
        r@ == s@,
{
    let n = s.unicode_len();
    let mut v: Vec<char> = Vec::new();
    let mut i: usize = 0;
    while i < n
        invariant
            i <= n,
            n == s@.len(),
            v@ == s@.subrange(0, i as int),
        decreases n - i,
    {
        let c = s.get_char(i);
        v.push(c);
        i = i + 1;
        proof {
            assert(v@ =~= s@.subrange(0, i as int));
        }
    }
    proof {
        assert(v@ =~= s@);
    }
    v
}

/// The string holding the characters `v[from .. to]`.
pub fn string_from_range(v: &Vec<char>, from: usize, to: usize) -> (r: String)
    requires
        from <= to <= v@.len(),
    ensures
        r@ == v@.subrange(from as int, to as int),
{
    let mut s = String::new();
    proof {
        assert(s@ =~= v@.subrange(from as int, from as int));
    }
    let mut i = from;
    while i < to
        invariant
            from <= i <= to <= v@.len(),
            s@ == v@.subrange(from as int, i as int),
        decreases to - i,
    {
        s.push(v[i]);
        i = i + 1;
        proof {
            assert(s@ =~= v@.subrange(from as int, i as int));
        }
    }
    s
}

/// The string holding exactly the one character `c`.
pub fn string_of_char(c: char) -> (r: String)
    ensures
        r@ == seq![c],
{
    let mut s = String::new();
    s.push(c);
    proof {
        assert(s@ =~= seq![c]);
    }
    s
}

/// Whether `s` holds exactly the characters of `t`.
pub fn string_eq_str(s: &String, t: &str) -> (r: bool)
    ensures
        r == (s@ == t@),
{
    let u = String::from_str(t);
    *s == u
}

/// Whether two string slices hold the same characters.
pub fn str_eq(a: &str, b: &str) -> (r: bool)
    ensures
        r == (a@ == b@),
{
    let ax = String::from_str(a);
    let bx = String::from_str(b);
    ax == bx
}

/// Whitespace for the purposes of `read` input trimming.
pub open spec fn is_space(c: char) -> bool {
    c == ' ' || c == '\t' || c == '\r' || c == '\n'
}

/// `s` with its leading whitespace removed.
pub open spec fn trim_front(s: Seq<char>) -> Seq<char>
    decreases s.len(),
{
    if s.len() > 0 && is_space(s[0]) {
        trim_front(s.drop_first())
    } else {
        s
    }
}

/// `s` with its trailing whitespace removed.
pub open spec fn trim_back(s: Seq<char>) -> Seq<char>
    decreases s.len(),
{
    if s.len() > 0 && is_space(s[s.len() - 1]) {
        trim_back(s.drop_last())
    } else {
        s
    }
}

/// `s` with whitespace removed from both ends.
pub open spec fn trim_spec(s: Seq<char>) -> Seq<char> {
    trim_back(trim_front(s))
}

/// A line with one trailing newline removed, together with a carriage
/// return standing directly before that newline.
pub open spec fn trim_newline_spec(s: Seq<char>) -> Seq<char> {
    if s.len() > 0 && s[s.len() - 1] == '\n' {
        let t = s.drop_last();
        if t.len() > 0 && t[t.len() - 1] == '\r' {
            t.drop_last()
        } else {
            t
        }
    } else {
        s
    }
}

/// Removes one trailing newline, and a carriage return directly before
/// it, in place.
pub fn trim_newline(s: &mut String)
    ensures
        final(s)@ == trim_newline_spec(old(s)@),
{
    let n = s.as_str().unicode_len();
    if n > 0 && s.as_str().get_char(n - 1) == '\n' {
        let end = if n >= 2 && s.as_str().get_char(n - 2) == '\r' {
            proof {
                assert(old(s)@.drop_last() =~= old(s)@.subrange(0, old(s)@.len() - 1));
                assert(old(s)@.drop_last().drop_last() =~= old(s)@.subrange(
                    0,
                    old(s)@.len() - 2,
                ));
            }
            n - 2
        } else {
            proof {
                assert(old(s)@.drop_last() =~= old(s)@.subrange(0, old(s)@.len() - 1));
            }
            n - 1
        };
        let t = String::from_str(s.as_str().substring_char(0, end));
        *s = t;
    }
}

/// The bounds of `trim_spec` inside the original sequence: trimming `v`
/// keeps exactly the characters `v[lo .. hi]`.
pub fn trim_bounds(v: &Vec<char>) -> (r: (usize, usize))
    ensures
        r.0 <= r.1 <= v@.len(),
        trim_spec(v@) == v@.subrange(r.0 as int, r.1 as int),
{
    let n = v.len();
    proof {
        assert(v@.subrange(0, n as int) =~= v@);
    }
    let mut lo: usize = 0;
    while lo < n && is_space_exec(v[lo])
        invariant
            lo <= n,
            n == v@.len(),
            trim_front(v@) == trim_front(v@.subrange(lo as int, n as int)),
        decreases n - lo,
    {
        proof {
            assert(v@.subrange(lo as int, n as int).drop_first() =~= v@.subrange(
                lo as int + 1,
                n as int,
            ));
        }
        lo = lo + 1;
    }
    proof {
        assert(trim_front(v@) == v@.subrange(lo as int, n as int));
    }
    let ghost t = v@.subrange(lo as int, n as int);
    proof {
        assert(t.subrange(0, n as int - lo as int) =~= t);
    }
    let mut hi: usize = n;
    while hi > lo && is_space_exec(v[hi - 1])
        invariant
            lo <= hi <= n,
            n == v@.len(),
            trim_front(v@) == t,
            t == v@.subrange(lo as int, n as int),
            trim_back(t) == trim_back(t.subrange(0, hi as int - lo as int)),
        decreases hi,
    {
        proof {
            let u = t.subrange(0, hi as int - lo as int);
            assert(u[u.len() - 1] == v@[hi as int - 1]);
            assert(u.drop_last() =~= t.subrange(0, hi as int - 1 - lo as int));
        }
        hi = hi - 1;
    }
    proof {
        let u = t.subrange(0, hi as int - lo as int);
        if hi > lo {
            assert(u[u.len() - 1] == v@[hi as int - 1]);
        }
        assert(trim_back(u) == u);
        assert(u =~= v@.subrange(lo as int, hi as int));
    }
    (lo, hi)
}

/// Executable form of `is_space`.
pub fn is_space_exec(c: char) -> (r: bool)
    ensures
        r == is_space(c),
{
    c == ' ' || c == '\t' || c == '\r' || c == '\n'
}

} // verus!
