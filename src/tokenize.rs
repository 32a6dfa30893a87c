//! The tokenizer: splits text into lowercase terms at non-alphanumeric
//! characters, at lower-to-upper case changes and between letters and digits.
//! Only ASCII letters and digits form terms; any other character separates them.

use vstd::prelude::*;
use crate::text::{chars_of, string_of};

verus! {

/// An ASCII lowercase letter.
pub open spec fn is_lower(c: char) -> bool {
    'a' <= c && c <= 'z'
}

/// An ASCII uppercase letter.
pub open spec fn is_upper(c: char) -> bool {
    'A' <= c && c <= 'Z'
}

/// An ASCII digit.
pub open spec fn is_digit(c: char) -> bool {
    '0' <= c && c <= '9'
}

/// An ASCII letter.
pub open spec fn is_letter(c: char) -> bool {
    is_lower(c) || is_upper(c)
}

/// A character that belongs to a term.
pub open spec fn is_word(c: char) -> bool {
    is_letter(c) || is_digit(c)
}

/// A term ends between `prev` and `c`: a lowercase letter followed by an
/// uppercase one, or a change between letters and digits.
pub open spec fn boundary(prev: char, c: char) -> bool {
    (is_lower(prev) && is_upper(c)) || (is_letter(prev) && is_digit(c)) || (is_digit(prev) && is_letter(c))
}

/// `c` in lowercase (ASCII letters only).
pub open spec fn lower(c: char) -> char {
    if c == 'A' {
        'a'
    } else if c == 'B' {
        'b'
    } else if c == 'C' {
        'c'
    } else if c == 'D' {
        'd'
    } else if c == 'E' {
        'e'
    } else if c == 'F' {
        'f'
    } else if c == 'G' {
        'g'
    } else if c == 'H' {
        'h'
    } else if c == 'I' {
        'i'
    } else if c == 'J' {
        'j'
    } else if c == 'K' {
        'k'
    } else if c == 'L' {
        'l'
    } else if c == 'M' {
        'm'
    } else if c == 'N' {
        'n'
    } else if c == 'O' {
        'o'
    } else if c == 'P' {
        'p'
    } else if c == 'Q' {
        'q'
    } else if c == 'R' {
        'r'
    } else if c == 'S' {
        's'
    } else if c == 'T' {
        't'
    } else if c == 'U' {
        'u'
    } else if c == 'V' {
        'v'
    } else if c == 'W' {
        'w'
    } else if c == 'X' {
        'x'
    } else if c == 'Y' {
        'y'
    } else if c == 'Z' {
        'z'
    } else {
        c
    }
}

pub(crate) fn lower_char(c: char) -> (r: char)
    ensures
        r == lower(c),
{
    if c == 'A' {
        'a'
    } else if c == 'B' {
        'b'
    } else if c == 'C' {
        'c'
    } else if c == 'D' {
        'd'
    } else if c == 'E' {
        'e'
    } else if c == 'F' {
        'f'
    } else if c == 'G' {
        'g'
    } else if c == 'H' {
        'h'
    } else if c == 'I' {
        'i'
    } else if c == 'J' {
        'j'
    } else if c == 'K' {
        'k'
    } else if c == 'L' {
        'l'
    } else if c == 'M' {
        'm'
    } else if c == 'N' {
        'n'
    } else if c == 'O' {
        'o'
    } else if c == 'P' {
        'p'
    } else if c == 'Q' {
        'q'
    } else if c == 'R' {
        'r'
    } else if c == 'S' {
        's'
    } else if c == 'T' {
        't'
    } else if c == 'U' {
        'u'
    } else if c == 'V' {
        'v'
    } else if c == 'W' {
        'w'
    } else if c == 'X' {
        'x'
    } else if c == 'Y' {
        'y'
    } else if c == 'Z' {
        'z'
    } else {
        c
    }
}

/// The tokenizer's state: finished terms, the term being read, and the last character.
pub struct TokState {
    pub done: Seq<Seq<char>>,
    pub cur: Seq<char>,
    pub prev: char,
}

/// `done` with `cur` appended when `cur` is not empty.
pub open spec fn flush(done: Seq<Seq<char>>, cur: Seq<char>) -> Seq<Seq<char>> {
    if cur.len() > 0 {
        done.push(cur)
    } else {
        done
    }
}

/// The state after reading `c`.
pub open spec fn step(st: TokState, c: char) -> TokState {
    if !is_word(c) {
        TokState { done: flush(st.done, st.cur), cur: Seq::empty(), prev: c }
    } else if st.cur.len() > 0 && boundary(st.prev, c) {
        TokState { done: st.done.push(st.cur), cur: seq![lower(c)], prev: c }
    } else {
        TokState { done: st.done, cur: st.cur.push(lower(c)), prev: c }
    }
}

/// The state after reading all of `s`.
pub open spec fn run(st: TokState, s: Seq<char>) -> TokState
    decreases s.len(),
{
    if s.len() == 0 {
        st
    } else {
        step(run(st, s.drop_last()), s.last())
    }
}

/// The starting state.
pub open spec fn start_state() -> TokState {
    TokState { done: Seq::empty(), cur: Seq::empty(), prev: ' ' }
}

/// The terms of `s`.
pub open spec fn tokens_spec(s: Seq<char>) -> Seq<Seq<char>> {
    let st = run(start_state(), s);
    flush(st.done, st.cur)
}

/// The view of a list of strings.
pub open spec fn strings_view(v: Seq<String>) -> Seq<Seq<char>> {
    v.map_values(|x: String| x@)
}

/// The terms of `text`, in order.
pub fn tokenize(text: &str) -> (r: Vec<String>)
    ensures
        strings_view(r@) == tokens_spec(text@),
{
    let v = chars_of(text);
    let mut out: Vec<String> = Vec::new();
    let mut cur: Vec<char> = Vec::new();
    let mut prev: char = ' ';
    let mut i: usize = 0;
    assert(strings_view(out@) =~= Seq::<Seq<char>>::empty());
    assert(cur@ =~= Seq::<char>::empty());
    assert(v@.subrange(0, 0) =~= Seq::<char>::empty());
    while i < v.len()
        invariant
            v@ == text@,
            i <= v@.len(),
            run(start_state(), v@.subrange(0, i as int)) == (TokState { done: strings_view(out@), cur: cur@, prev }),
        decreases v@.len() - i,
    {
        let c = v[i];
        assert(v@.subrange(0, i + 1).drop_last() =~= v@.subrange(0, i as int));
        let word = ('a' <= c && c <= 'z') || ('A' <= c && c <= 'Z') || ('0' <= c && c <= '9');
        if !word {
            if cur.len() > 0 {
                out.push(string_of(&cur));
            }
            cur = Vec::new();
        } else {
            let lp = 'a' <= prev && prev <= 'z';
            let up = 'A' <= prev && prev <= 'Z';
            let dp = '0' <= prev && prev <= '9';
            let lc = 'a' <= c && c <= 'z';
            let uc = 'A' <= c && c <= 'Z';
            let dc = '0' <= c && c <= '9';
            let bnd = (lp && uc) || ((lp || up) && dc) || (dp && (lc || uc));
            if cur.len() > 0 && bnd {
                out.push(string_of(&cur));
                cur = Vec::new();
            }
            cur.push(lower_char(c));
        }
        prev = c;
        i = i + 1;
        proof {
            assert(strings_view(out@) =~= run(start_state(), v@.subrange(0, i as int)).done);
            assert(cur@ =~= run(start_state(), v@.subrange(0, i as int)).cur);
        }
    }
    assert(v@.subrange(0, v@.len() as int) =~= v@);
    if cur.len() > 0 {
        out.push(string_of(&cur));
    }
    assert(strings_view(out@) =~= tokens_spec(text@));
    out
}

/// Terms joined with one space between each two.
pub open spec fn join_spec(ts: Seq<Seq<char>>) -> Seq<char>
    decreases ts.len(),
{
    if ts.len() == 0 {
        Seq::empty()
    } else if ts.len() == 1 {
        ts[0]
    } else {
        join_spec(ts.drop_last()) + seq![' '] + ts.last()
    }
}

/// A term as the tokenizer emits it: not empty, lowercase letters and
/// digits only, with no boundary inside.
pub open spec fn clean(t: Seq<char>) -> bool {
    &&& t.len() > 0
    &&& forall|i: int| 0 <= i < t.len() ==> is_lower(#[trigger] t[i]) || is_digit(t[i])
    &&& forall|i: int| 0 <= i < t.len() - 1 ==> !boundary(#[trigger] t[i], t[i + 1])
}

proof fn lemma_run_concat(st: TokState, a: Seq<char>, b: Seq<char>)
    ensures
        run(st, a + b) == run(run(st, a), b),
    decreases b.len(),
{
    if b.len() == 0 {
        assert(a + b =~= a);
    } else {
        lemma_run_concat(st, a, b.drop_last());
        assert((a + b).drop_last() =~= a + b.drop_last());
    }
}

proof fn lemma_lower_id(c: char)
    requires
        is_lower(c) || is_digit(c),
    ensures
        lower(c) == c,
{
}

proof fn lemma_run_clean(done: Seq<Seq<char>>, p: char, t: Seq<char>)
    requires
        clean(t),
    ensures
        run(TokState { done, cur: Seq::empty(), prev: p }, t) == (TokState { done, cur: t, prev: t.last() }),
    decreases t.len(),
{
    let st = TokState { done, cur: Seq::empty(), prev: p };
    let c = t.last();
    assert(is_lower(t[t.len() - 1]) || is_digit(t[t.len() - 1]));
    lemma_lower_id(c);
    assert(run(st, t) == step(run(st, t.drop_last()), c));
    if t.len() == 1 {
        assert(t.drop_last() =~= Seq::<char>::empty());
        assert(run(st, t.drop_last()) == st);
        assert(seq![lower(c)] =~= t);
    } else {
        let u = t.drop_last();
        assert forall|i: int| 0 <= i < u.len() implies is_lower(#[trigger] u[i]) || is_digit(u[i]) by {
            assert(u[i] == t[i]);
        }
        assert forall|i: int| 0 <= i < u.len() - 1 implies !boundary(#[trigger] u[i], u[i + 1]) by {
            assert(u[i] == t[i] && u[i + 1] == t[i + 1]);
        }
        lemma_run_clean(done, p, u);
        assert(!boundary(t[t.len() - 2], t[t.len() - 1]));
        assert(u.last() == t[t.len() - 2]);
        assert(u.push(lower(c)) =~= t);
    }
}

proof fn lemma_run_join(ts: Seq<Seq<char>>, p: char)
    requires
        ts.len() > 0,
        forall|k: int| 0 <= k < ts.len() ==> clean(#[trigger] ts[k]),
    ensures
        run(TokState { done: Seq::empty(), cur: Seq::empty(), prev: p }, join_spec(ts)) == (TokState {
            done: ts.drop_last(),
            cur: ts.last(),
            prev: ts.last().last(),
        }),
    decreases ts.len(),
{
    let st = TokState { done: Seq::empty(), cur: Seq::empty(), prev: p };
    if ts.len() == 1 {
        assert(clean(ts[0]));
        lemma_run_clean(Seq::empty(), p, ts[0]);
        assert(ts.drop_last() =~= Seq::<Seq<char>>::empty());
    } else {
        let us = ts.drop_last();
        assert forall|k: int| 0 <= k < us.len() implies clean(#[trigger] us[k]) by {
            assert(us[k] == ts[k]);
        }
        lemma_run_join(us, p);
        let t = ts.last();
        assert(clean(ts[ts.len() - 1]));
        lemma_run_concat(st, join_spec(us) + seq![' '], t);
        lemma_run_concat(st, join_spec(us), seq![' ']);
        let mid = run(st, join_spec(us));
        assert(seq![' '].drop_last() =~= Seq::<char>::empty());
        assert(run(mid, Seq::<char>::empty()) == mid);
        assert(seq![' '].last() == ' ');
        assert(run(mid, seq![' ']) == step(run(mid, seq![' '].drop_last()), ' '));
        assert(run(mid, seq![' ']) == step(mid, ' '));
        assert(clean(us.last()));
        assert(us.drop_last().push(us.last()) =~= us);
        lemma_run_clean(us, ' ', t);
    }
}

proof fn lemma_flush_run_wf(s: Seq<char>)
    ensures
        ({
            let st = run(start_state(), s);
            &&& forall|k: int| 0 <= k < st.done.len() ==> clean(#[trigger] st.done[k])
            &&& st.cur.len() > 0 ==> clean(st.cur) && st.cur.last() == lower(st.prev) && is_word(st.prev)
        }),
    decreases s.len(),
{
    if s.len() > 0 {
        lemma_flush_run_wf(s.drop_last());
        let st0 = run(start_state(), s.drop_last());
        let c = s.last();
        let st = step(st0, c);
        if !is_word(c) {
            assert forall|k: int| 0 <= k < st.done.len() implies clean(#[trigger] st.done[k]) by {
                if k < st0.done.len() {
                    assert(st.done[k] == st0.done[k]);
                }
            }
        } else if st0.cur.len() > 0 && boundary(st0.prev, c) {
            assert forall|k: int| 0 <= k < st.done.len() implies clean(#[trigger] st.done[k]) by {
                if k < st0.done.len() {
                    assert(st.done[k] == st0.done[k]);
                }
            }
            assert(seq![lower(c)][0] == lower(c));
        } else {
            let n = st0.cur;
            let m = st.cur;
            assert(m == n.push(lower(c)));
            assert forall|i: int| 0 <= i < m.len() implies is_lower(#[trigger] m[i]) || is_digit(m[i]) by {
                if i < n.len() {
                    assert(m[i] == n[i]);
                }
            }
            assert forall|i: int| 0 <= i < m.len() - 1 implies !boundary(#[trigger] m[i], m[i + 1]) by {
                if i < n.len() - 1 {
                    assert(m[i] == n[i] && m[i + 1] == n[i + 1]);
                } else {
                    assert(m[i] == n.last() && m[i + 1] == lower(c));
                }
            }
        }
    }
}

/// Tokenizing the terms of a text, joined by spaces, gives back the same terms.
pub proof fn lemma_tokenize_idempotent(s: Seq<char>)
    ensures
        tokens_spec(join_spec(tokens_spec(s))) == tokens_spec(s),
{
    let ts = tokens_spec(s);
    lemma_flush_run_wf(s);
    let st = run(start_state(), s);
    assert forall|k: int| 0 <= k < ts.len() implies clean(#[trigger] ts[k]) by {
        if k < st.done.len() {
            assert(ts[k] == st.done[k]);
        }
    }
    if ts.len() == 0 {
        assert(join_spec(ts) =~= Seq::<char>::empty());
        assert(tokens_spec(Seq::<char>::empty()) =~= Seq::<Seq<char>>::empty());
    } else {
        lemma_run_join(ts, ' ');
        assert(ts.last().len() > 0);
        assert(ts.drop_last().push(ts.last()) =~= ts);
    }
}

/// A word of the fixed English stopword list.
pub open spec fn is_stopword(t: Seq<char>) -> bool {
    t == "a"@ || t == "an"@ || t == "the"@ || t == "is"@ || t == "are"@ || t == "was"@ || t == "were"@ || t == "be"@ || t == "been"@ || t == "and"@ || t == "or"@ || t == "of"@ || t == "to"@ || t == "in"@ || t == "on"@ || t == "for"@ || t == "with"@ || t == "at"@ || t == "by"@ || t == "it"@ || t == "this"@ || t == "that"@ || t == "as"@ || t == "from"@
}

fn stopword(s: &str) -> (r: bool)
    ensures
        r == is_stopword(s@),
{
    crate::text::str_eq(s, "a") || crate::text::str_eq(s, "an") || crate::text::str_eq(s, "the") || crate::text::str_eq(s, "is") || crate::text::str_eq(s, "are") || crate::text::str_eq(s, "was") || crate::text::str_eq(s, "were") || crate::text::str_eq(s, "be") || crate::text::str_eq(s, "been") || crate::text::str_eq(s, "and") || crate::text::str_eq(s, "or") || crate::text::str_eq(s, "of") || crate::text::str_eq(s, "to") || crate::text::str_eq(s, "in") || crate::text::str_eq(s, "on") || crate::text::str_eq(s, "for") || crate::text::str_eq(s, "with") || crate::text::str_eq(s, "at") || crate::text::str_eq(s, "by") || crate::text::str_eq(s, "it") || crate::text::str_eq(s, "this") || crate::text::str_eq(s, "that") || crate::text::str_eq(s, "as") || crate::text::str_eq(s, "from")
}

/// Drops the stopwords from `terms`, keeping the order of the rest.
pub fn remove_stopwords(terms: Vec<String>) -> (r: Vec<String>)
    ensures
        r@ == crate::blocks::filter_marked(
            terms@,
            Seq::new(terms@.len(), |i: int| !is_stopword(terms@[i]@)),
            terms@.len() as nat,
        ),
{
    let mut keep: Vec<bool> = Vec::new();
    let mut i: usize = 0;
    while i < terms.len()
        invariant
            i <= terms@.len(),
            keep@.len() == i,
            forall|k: int| 0 <= k < i ==> keep@[k] == !is_stopword(terms@[k]@),
        decreases terms@.len() - i,
    {
        keep.push(!stopword(terms[i].as_str()));
        i = i + 1;
    }
    assert(keep@ =~= Seq::new(terms@.len(), |k: int| !is_stopword(terms@[k]@)));
    crate::blocks::keep_marked(terms, &keep)
}

/// The file name of a path without its extension.
pub open spec fn file_stem_spec(p: Seq<char>) -> Seq<char> {
    let name = crate::outline::file_name_spec(p);
    match crate::outline::last_dot(name, name.len() as int) {
        Some(d) => if d > 0 { name.subrange(0, d) } else { name },
        None => name,
    }
}

/// The terms of `text` followed by the terms of the file name of `path`
/// (without its extension), so that file names count as content.
pub fn tokenize_with_filename(text: &str, path: &str) -> (r: Vec<String>)
    ensures
        strings_view(r@) == tokens_spec(text@) + tokens_spec(file_stem_spec(path@)),
{
    let mut out = tokenize(text);
    let stem = crate::outline::file_stem(path);
    let more = tokenize(stem.as_str());
    let ghost a = strings_view(out@);
    let ghost b = strings_view(more@);
    let mut rest = more;
    let n = rest.len();
    let mut i: usize = 0;
    while i < n
        invariant
            n == b.len(),
            i <= n,
            rest@.len() == n - i,
            strings_view(rest@) == b.subrange(i as int, n as int),
            strings_view(out@) == a + b.subrange(0, i as int),
        decreases n - i,
    {
        let ghost prev = rest@;
        let t = rest.remove(0);
        assert(strings_view(prev)[0] == prev[0]@);
        assert(t == prev[0]);
        assert(strings_view(prev)[0] == b.subrange(i as int, n as int)[0]);
        assert(t@ == b[i as int]);
        let ghost before = strings_view(out@);
        out.push(t);
        assert(strings_view(out@) =~= before.push(b[i as int]));
        i = i + 1;
        assert(strings_view(out@) =~= a + b.subrange(0, i as int));
        assert forall|j: int| 0 <= j < rest@.len() implies strings_view(rest@)[j] == b.subrange(i as int, n as int)[j] by {
            assert(rest@[j] == prev[j + 1]);
            assert(strings_view(prev)[j + 1] == b.subrange(i - 1, n as int)[j + 1]);
        }
        assert(strings_view(rest@) =~= b.subrange(i as int, n as int));
    }
    assert(b.subrange(0, n as int) =~= b);
    out
}

} // verus!

