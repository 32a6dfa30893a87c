//! File arguments of the extract command: `path`, `path:line` or
//! `path:start-end`.

use vstd::prelude::*;
use crate::extract::LineRequest;
use crate::text::{chars_of, string_of, slice_chars};

verus! {

/// The value of decimal digits, or `None` if `s` is empty or holds another character.
pub open spec fn digits_value(s: Seq<char>) -> Option<int>
    decreases s.len(),
{
    if s.len() == 0 {
        None
    } else if !('0' <= s.last() && s.last() <= '9') {
        None
    } else if s.len() == 1 {
        Some(s.last() as int - '0' as int)
    } else {
        match digits_value(s.drop_last()) {
            Some(v) => Some(10 * v + (s.last() as int - '0' as int)),
            None => None,
        }
    }
}

/// A line number written as `s`: decimal digits whose value fits a `usize`.
pub open spec fn line_number(s: Seq<char>) -> Option<usize> {
    match digits_value(s) {
        Some(v) => if v <= usize::MAX { Some(v as usize) } else { None },
        None => None,
    }
}

/// Position of the last `c` in the first `n` characters of `s`.
pub open spec fn last_of(s: Seq<char>, c: char, n: int) -> Option<int>
    decreases n,
{
    if n <= 0 || n > s.len() {
        None
    } else if s[n - 1] == c {
        Some(n - 1)
    } else {
        last_of(s, c, n - 1)
    }
}

/// What a file argument asks for: after its last `:`, a line number gives
/// that line, and two numbers joined by `-` give that range; anything else
/// names the whole file.
pub open spec fn file_spec(s: Seq<char>) -> (Seq<char>, LineRequest) {
    match last_of(s, ':', s.len() as int) {
        Some(c) => {
            let tail = s.subrange(c + 1, s.len() as int);
            match line_number(tail) {
                Some(n) => (s.subrange(0, c), LineRequest::Line { line: n }),
                None => match last_of(tail, '-', tail.len() as int) {
                    Some(d) => match (line_number(tail.subrange(0, d)), line_number(tail.subrange(d + 1, tail.len() as int))) {
                        (Some(a), Some(b)) => (s.subrange(0, c), LineRequest::Range { start: a, end: b }),
                        _ => (s, LineRequest::WholeFile),
                    },
                    None => (s, LineRequest::WholeFile),
                },
            }
        },
        None => (s, LineRequest::WholeFile),
    }
}

/// The value of the decimal digits `v`, if they fit a `usize`.
fn parse_number(v: &Vec<char>) -> (r: Option<usize>)
    ensures
        r == line_number(v@),
{
    if v.len() == 0 {
        return None;
    }
    let mut acc: usize = 0;
    let mut i: usize = 0;
    while i < v.len()
        invariant
            0 < v@.len(),
            i <= v@.len(),
            i > 0 ==> digits_value(v@.subrange(0, i as int)) == Some(acc as int),
            i == 0 ==> acc == 0,
        decreases v@.len() - i,
    {
        let c = v[i];
        assert(v@.subrange(0, i + 1).drop_last() =~= v@.subrange(0, i as int));
        assert(v@.subrange(0, i + 1).last() == c);
        if !('0' <= c && c <= '9') {
            proof {
                lemma_digits_bad(v@, i as int);
            }
            return None;
        }
        let d = (c as u32 - '0' as u32) as usize;
        if acc > (usize::MAX - d) / 10 {
            proof {
                lemma_digits_big(v@, i as int, acc as int, d as int);
            }
            return None;
        }
        acc = acc * 10 + d;
        i = i + 1;
    }
    assert(v@.subrange(0, v@.len() as int) =~= v@);
    Some(acc)
}

proof fn lemma_digits_bad(s: Seq<char>, i: int)
    requires
        0 <= i < s.len(),
        !('0' <= s[i] && s[i] <= '9'),
    ensures
        digits_value(s) is None,
    decreases s.len() - i,
{
    if i < s.len() - 1 {
        lemma_digits_bad(s.drop_last(), i);
    }
}

proof fn lemma_digits_nonneg(s: Seq<char>)
    ensures
        digits_value(s) matches Some(v) ==> v >= 0,
    decreases s.len(),
{
    if s.len() > 1 {
        lemma_digits_nonneg(s.drop_last());
    }
}

proof fn lemma_digits_grow(s: Seq<char>, i: int)
    requires
        0 < i <= s.len(),
        digits_value(s) is Some,
    ensures
        digits_value(s.subrange(0, i)) is Some,
        digits_value(s).unwrap() >= digits_value(s.subrange(0, i)).unwrap(),
    decreases s.len() - i,
{
    if i < s.len() {
        assert(s.drop_last().subrange(0, i) =~= s.subrange(0, i));
        lemma_digits_grow(s.drop_last(), i);
        lemma_digits_nonneg(s.drop_last());
        if s.len() > 1 {
            assert(digits_value(s.drop_last()) is Some);
        }
    } else {
        assert(s.subrange(0, i) =~= s);
    }
}

proof fn lemma_digits_big(s: Seq<char>, i: int, acc: int, d: int)
    requires
        0 <= i < s.len(),
        i > 0 ==> digits_value(s.subrange(0, i)) == Some(acc),
        i == 0 ==> acc == 0,
        '0' <= s[i] && s[i] <= '9',
        d == s[i] as int - '0' as int,
        acc > (usize::MAX - d) / 10,
    ensures
        line_number(s) is None,
{
    assert(s.subrange(0, i + 1).drop_last() =~= s.subrange(0, i));
    if i == 0 {
        assert(acc == 0);
    }
    let v1 = digits_value(s.subrange(0, i + 1));
    assert(v1 == Some(10 * acc + d)) by {
        if i == 0 {
            assert(s.subrange(0, 1).len() == 1);
        }
    }
    assert(10 * acc + d > usize::MAX);
    if digits_value(s) is Some {
        lemma_digits_grow(s, i + 1);
    }
}

/// Splits a file argument into its path and the lines it asks for.
pub fn parse_file_spec(arg: &str) -> (r: (String, LineRequest))
    ensures
        (r.0@, r.1) == file_spec(arg@),
{
    let v = chars_of(arg);
    let n = v.len();
    let mut c: usize = n;
    while c > 0 && v[c - 1] != ':'
        invariant
            c <= n == v@.len(),
            last_of(v@, ':', n as int) == last_of(v@, ':', c as int),
        decreases c,
    {
        c = c - 1;
    }
    if c == 0 {
        return (String::from_str(arg), LineRequest::WholeFile);
    }
    let tail = slice_chars(&v, c, n);
    let path = string_of(&slice_chars(&v, 0, c - 1));
    match parse_number(&tail) {
        Some(line) => (path, LineRequest::Line { line }),
        None => {
            let m = tail.len();
            let mut d: usize = m;
            while d > 0 && tail[d - 1] != '-'
                invariant
                    d <= m == tail@.len(),
                    last_of(tail@, '-', m as int) == last_of(tail@, '-', d as int),
                decreases d,
            {
                d = d - 1;
            }
            if d == 0 {
                return (String::from_str(arg), LineRequest::WholeFile);
            }
            let a = parse_number(&slice_chars(&tail, 0, d - 1));
            let b = parse_number(&slice_chars(&tail, d, m));
            match (a, b) {
                (Some(start), Some(end)) => (path, LineRequest::Range { start, end }),
                _ => (String::from_str(arg), LineRequest::WholeFile),
            }
        },
    }
}

} // verus!

verus! {

/// Position of the first `c` in `s` at or after `i`.
pub open spec fn first_of(s: Seq<char>, c: char, i: int) -> Option<int>
    decreases s.len() - i,
{
    if i < 0 || i >= s.len() {
        None
    } else if s[i] == c {
        Some(i)
    } else {
        first_of(s, c, i + 1)
    }
}

/// A `path#symbol` argument split at its first `#`; `None` without one.
pub fn split_symbol(arg: &str) -> (r: Option<(String, String)>)
    ensures
        r matches Some(p) ==> first_of(arg@, '#', 0) matches Some(k) && p.0@ == arg@.subrange(0, k) && p.1@
            == arg@.subrange(k + 1, arg@.len() as int),
        r is None ==> first_of(arg@, '#', 0) is None,
{
    let v = chars_of(arg);
    let n = v.len();
    let mut i: usize = 0;
    while i < n
        invariant
            v@ == arg@,
            n == v@.len(),
            i <= n,
            first_of(v@, '#', 0) == first_of(v@, '#', i as int),
        decreases n - i,
    {
        if v[i] == '#' {
            let path = string_of(&slice_chars(&v, 0, i));
            let sym = string_of(&slice_chars(&v, i + 1, n));
            return Some((path, sym));
        }
        i = i + 1;
    }
    None
}

} // verus!
