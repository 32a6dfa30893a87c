//! Compilation of a query string into a plan: operators, negation, phrases,
//! and filter hints (`ext:`, `file:`, `dir:`, `type:`, `lang:`).

use vstd::prelude::*;
use crate::lexer::{LexKind, Lexeme, LexView, SyntaxError, lex_views};
use crate::tokenize::{lower, lower_char};
use crate::text::{chars_of, string_of, slice_chars};
use vstd::utf8::encode_utf8;

verus! {

/// What a lexeme means in a query.
#[derive(Clone, Copy, Debug, PartialEq, Eq, Structural)]
pub enum ItemKind {
    Term,
    Phrase,
    And,
    Or,
    Not,
    Hint,
    Group,
}

/// `s` in lowercase (ASCII letters only).
pub open spec fn lower_seq(s: Seq<char>) -> Seq<char> {
    s.map_values(|c: char| lower(c))
}

/// Position of the first `:` in `s`, if any.
pub open spec fn first_colon(s: Seq<char>, i: int) -> Option<int>
    decreases s.len() - i,
{
    if i < 0 || i >= s.len() {
        None
    } else if s[i] == ':' {
        Some(i)
    } else {
        first_colon(s, i + 1)
    }
}

/// A filter key.
pub open spec fn hint_key(k: Seq<char>) -> bool {
    k == "ext"@ || k == "file"@ || k == "dir"@ || k == "type"@ || k == "lang"@
}

/// `key:value` with a filter key (in any case) and a value.
pub open spec fn is_hint(s: Seq<char>) -> bool {
    match first_colon(s, 0) {
        Some(k) => hint_key(lower_seq(s.subrange(0, k))) && k + 1 < s.len(),
        None => false,
    }
}

/// What lexeme `l` means.
pub open spec fn item_kind(l: LexView) -> ItemKind {
    match l.0 {
        LexKind::Phrase => ItemKind::Phrase,
        LexKind::Open => ItemKind::Group,
        LexKind::Close => ItemKind::Group,
        LexKind::Word => {
            let w = lower_seq(l.1);
            if w == "and"@ {
                ItemKind::And
            } else if w == "or"@ {
                ItemKind::Or
            } else if w == "not"@ {
                ItemKind::Not
            } else if is_hint(l.1) {
                ItemKind::Hint
            } else {
                ItemKind::Term
            }
        },
    }
}

fn lower_vec(v: &Vec<char>) -> (r: Vec<char>)
    ensures
        r@ == lower_seq(v@),
{
    let mut out: Vec<char> = Vec::new();
    let mut i: usize = 0;
    while i < v.len()
        invariant
            i <= v@.len(),
            out@ == lower_seq(v@.subrange(0, i as int)),
        decreases v@.len() - i,
    {
        out.push(lower_char(v[i]));
        i = i + 1;
        assert(out@ =~= lower_seq(v@.subrange(0, i as int)));
    }
    assert(v@.subrange(0, v@.len() as int) =~= v@);
    out
}

/// `s` in lowercase (ASCII letters only).
pub fn lower_string(s: &str) -> (r: String)
    ensures
        r@ == lower_seq(s@),
{
    string_of(&lower_vec(&chars_of(s)))
}

fn seq_is(v: &Vec<char>, lit: &str) -> (r: bool)
    ensures
        r == (v@ == lit@),
{
    let s = string_of(v);
    crate::text::str_eq(s.as_str(), lit)
}

fn colon_at(v: &Vec<char>) -> (r: Option<usize>)
    ensures
        r matches Some(k) ==> first_colon(v@, 0) == Some(k as int) && k < v@.len(),
        r is None ==> first_colon(v@, 0) is None,
{
    let mut i: usize = 0;
    while i < v.len()
        invariant
            i <= v@.len(),
            first_colon(v@, 0) == first_colon(v@, i as int),
        decreases v@.len() - i,
    {
        if v[i] == ':' {
            return Some(i);
        }
        i = i + 1;
    }
    None
}

/// What the lexeme `l` means.
pub fn classify(l: &Lexeme) -> (r: ItemKind)
    ensures
        r == item_kind((l.kind, l.text@, l.offset as int)),
{
    match l.kind {
        LexKind::Phrase => ItemKind::Phrase,
        LexKind::Open => ItemKind::Group,
        LexKind::Close => ItemKind::Group,
        LexKind::Word => {
            let v = chars_of(l.text.as_str());
            let w = lower_vec(&v);
            if seq_is(&w, "and") {
                ItemKind::And
            } else if seq_is(&w, "or") {
                ItemKind::Or
            } else if seq_is(&w, "not") {
                ItemKind::Not
            } else {
                match colon_at(&v) {
                    Some(k) => {
                        let key = lower_vec(&slice_chars(&v, 0, k));
                        let keyed = seq_is(&key, "ext") || seq_is(&key, "file") || seq_is(&key, "dir")
                            || seq_is(&key, "type") || seq_is(&key, "lang");
                        if keyed && k < v.len() - 1 {
                            ItemKind::Hint
                        } else {
                            ItemKind::Term
                        }
                    },
                    None => ItemKind::Term,
                }
            }
        },
    }
}

/// How a term is joined to the one before it.
#[derive(Clone, Copy, Debug, PartialEq, Eq, Structural)]
pub enum Conn {
    Implicit,
    And,
    Or,
}

/// A term of a query: its text, whether it was quoted, whether it is
/// negated, and how it is joined to the term before it.
pub struct Entry {
    pub text: String,
    pub phrase: bool,
    pub negated: bool,
    pub conn: Conn,
}

/// An entry as plain values.
pub type EntryView = (Seq<char>, bool, bool, Conn);

/// A filter hint as plain values: its key in lowercase and its value.
pub type HintView = (Seq<char>, Seq<char>);

/// A filter hint of a query (`ext:rs` and the like).
pub struct Hint {
    pub key: String,
    pub value: String,
}

/// The parser's state.
pub struct ParseState {
    pub entries: Seq<EntryView>,
    pub hints: Seq<HintView>,
    pub neg: bool,
    pub conn: Conn,
    pub dangling: bool,
    pub err: Option<int>,
}

/// The hint written as `s`.
pub open spec fn hint_of(s: Seq<char>) -> HintView {
    let k = first_colon(s, 0).unwrap();
    (lower_seq(s.subrange(0, k)), s.subrange(k + 1, s.len() as int))
}

/// The state after lexeme `l`.
pub open spec fn parse_step(st: ParseState, l: LexView) -> ParseState {
    if st.err is Some {
        st
    } else {
        match item_kind(l) {
            ItemKind::Group => st,
            ItemKind::Hint => ParseState { hints: st.hints.push(hint_of(l.1)), ..st },
            ItemKind::Term | ItemKind::Phrase => ParseState {
                entries: st.entries.push(
                    (l.1, item_kind(l) == ItemKind::Phrase, st.neg, if st.entries.len() == 0 {
                        Conn::Implicit
                    } else {
                        st.conn
                    }),
                ),
                neg: false,
                conn: Conn::Implicit,
                dangling: false,
                ..st
            },
            ItemKind::Not => if st.neg {
                ParseState { err: Some(l.2), ..st }
            } else {
                ParseState { neg: true, dangling: true, ..st }
            },
            ItemKind::And | ItemKind::Or => if st.entries.len() == 0 || st.dangling {
                ParseState { err: Some(l.2), ..st }
            } else {
                ParseState {
                    conn: if item_kind(l) == ItemKind::And { Conn::And } else { Conn::Or },
                    dangling: true,
                    ..st
                }
            },
        }
    }
}

/// The state after the first `n` lexemes.
pub open spec fn parse_run(ls: Seq<LexView>, n: int) -> ParseState
    decreases n,
{
    if n <= 0 || n > ls.len() {
        ParseState {
            entries: Seq::empty(),
            hints: Seq::empty(),
            neg: false,
            conn: Conn::Implicit,
            dangling: false,
            err: None,
        }
    } else {
        parse_step(parse_run(ls, n - 1), ls[n - 1])
    }
}

/// The terms and hints of a query's lexemes, or the offset of the first
/// misplaced operator (`end`, the query's length, for one left dangling).
pub open spec fn parse_spec(ls: Seq<LexView>, end: int) -> Result<(Seq<EntryView>, Seq<HintView>), int> {
    let st = parse_run(ls, ls.len() as int);
    match st.err {
        Some(e) => Err(e),
        None => if st.dangling {
            Err(end)
        } else {
            Ok((st.entries, st.hints))
        },
    }
}

/// Views of entries.
pub open spec fn entry_views(v: Seq<Entry>) -> Seq<EntryView> {
    v.map_values(|e: Entry| (e.text@, e.phrase, e.negated, e.conn))
}

/// Views of hints.
pub open spec fn hint_views(v: Seq<Hint>) -> Seq<HintView> {
    v.map_values(|h: Hint| (h.key@, h.value@))
}

fn make_hint(text: &String) -> (r: Hint)
    requires
        is_hint(text@),
    ensures
        (r.key@, r.value@) == hint_of(text@),
{
    let v = chars_of(text.as_str());
    let n = v.len();
    let k = colon_at(&v).unwrap();
    let key = string_of(&lower_vec(&slice_chars(&v, 0, k)));
    let value = string_of(&slice_chars(&v, k + 1, n));
    Hint { key, value }
}

/// Parses a query's lexemes into its terms and filter hints; fails at the
/// first operator with no term before it, a repeated `NOT`, or (at `end`)
/// an operator with no term after it.
pub fn parse_lexemes(ls: &Vec<Lexeme>, end: usize) -> (r: Result<(Vec<Entry>, Vec<Hint>), SyntaxError>)
    ensures
        r matches Ok(p) ==> parse_spec(lex_views(ls@), end as int) == Ok::<(Seq<EntryView>, Seq<HintView>), int>(
            (entry_views(p.0@), hint_views(p.1@)),
        ),
        r matches Err(e) ==> parse_spec(lex_views(ls@), end as int) == Err::<(Seq<EntryView>, Seq<HintView>), int>(
            e.at as int,
        ),
{
    let ghost lv = lex_views(ls@);
    let mut entries: Vec<Entry> = Vec::new();
    let mut hints: Vec<Hint> = Vec::new();
    let mut neg = false;
    let mut conn = Conn::Implicit;
    let mut dangling = false;
    let mut i: usize = 0;
    assert(entry_views(entries@) =~= Seq::<EntryView>::empty());
    assert(hint_views(hints@) =~= Seq::<HintView>::empty());
    while i < ls.len()
        invariant
            lv == lex_views(ls@),
            i <= ls@.len(),
            parse_run(lv, i as int) == (ParseState {
                entries: entry_views(entries@),
                hints: hint_views(hints@),
                neg,
                conn,
                dangling,
                err: None,
            }),
        decreases ls@.len() - i,
    {
        let l = &ls[i];
        assert(lv[i as int] == (l.kind, l.text@, l.offset as int));
        let k = classify(l);
        match k {
            ItemKind::Group => {},
            ItemKind::Hint => {
                let h = make_hint(&l.text);
                let ghost before = hint_views(hints@);
                hints.push(h);
                assert(hint_views(hints@) =~= before.push(hint_of(l.text@)));
            },
            ItemKind::Term | ItemKind::Phrase => {
                let c = if entries.len() == 0 { Conn::Implicit } else { conn };
                let ghost before = entry_views(entries@);
                let e = Entry { text: l.text.clone(), phrase: k == ItemKind::Phrase, negated: neg, conn: c };
                entries.push(e);
                assert(entry_views(entries@) =~= before.push((l.text@, k == ItemKind::Phrase, neg, c)));
                neg = false;
                conn = Conn::Implicit;
                dangling = false;
            },
            ItemKind::Not => {
                if neg {
                    proof {
                        lemma_parse_error_sticks(lv, i as int + 1);
                    }
                    return Err(SyntaxError { at: l.offset });
                }
                neg = true;
                dangling = true;
            },
            ItemKind::And | ItemKind::Or => {
                if entries.len() == 0 || dangling {
                    proof {
                        lemma_parse_error_sticks(lv, i as int + 1);
                    }
                    return Err(SyntaxError { at: l.offset });
                }
                conn = if k == ItemKind::And { Conn::And } else { Conn::Or };
                dangling = true;
            },
        }
        i = i + 1;
    }
    if dangling {
        return Err(SyntaxError { at: end });
    }
    Ok((entries, hints))
}

/// Once an error is met, the parser keeps it.
proof fn lemma_parse_error_sticks(ls: Seq<LexView>, n: int)
    requires
        0 < n <= ls.len(),
        parse_run(ls, n).err is Some,
    ensures
        parse_run(ls, ls.len() as int).err == parse_run(ls, n).err,
    decreases ls.len() - n,
{
    if n < ls.len() {
        lemma_parse_error_sticks(ls, n + 1);
    }
}

/// Whether a connector joins as AND: an explicit AND, or juxtaposition in strict mode.
pub open spec fn and_like(c: Conn, strict: bool) -> bool {
    c == Conn::And || (strict && c == Conn::Implicit)
}

/// The roles of terms in a plan.
#[derive(Clone, Copy, Debug, PartialEq, Eq, Structural)]
pub enum Role {
    Required,
    Excluded,
    Optional,
}

/// The role of entry `k`: negated terms are excluded; a term joined by AND to
/// a neighbour is required; any other is optional.
pub open spec fn role_of(es: Seq<EntryView>, k: int, strict: bool) -> Role {
    if es[k].2 {
        Role::Excluded
    } else if (k > 0 && and_like(es[k].3, strict)) || (k + 1 < es.len() && and_like(es[k + 1].3, strict)) {
        Role::Required
    } else {
        Role::Optional
    }
}

/// The terms of an entry: a phrase (or any entry in exact mode) is one
/// lowercase term; a word gives its tokens.
pub open spec fn pieces(e: EntryView, exact: bool) -> Seq<Seq<char>> {
    if e.1 || exact {
        if e.0.len() > 0 { seq![lower_seq(e.0)] } else { Seq::empty() }
    } else {
        crate::tokenize::tokens_spec(e.0)
    }
}

/// `l` with the first `n` terms of `ps` added, each once.
pub open spec fn add_all(l: Seq<Seq<char>>, ps: Seq<Seq<char>>, n: int) -> Seq<Seq<char>>
    decreases n,
{
    if n <= 0 || n > ps.len() {
        l
    } else {
        let p = add_all(l, ps, n - 1);
        if p.contains(ps[n - 1]) { p } else { p.push(ps[n - 1]) }
    }
}

/// The distinct terms of the first `n` entries with role `r`, in order.
pub open spec fn collect(es: Seq<EntryView>, strict: bool, exact: bool, r: Role, n: int) -> Seq<Seq<char>>
    decreases n,
{
    if n <= 0 || n > es.len() {
        Seq::empty()
    } else {
        let p = collect(es, strict, exact, r, n - 1);
        if role_of(es, n - 1, strict) == r {
            add_all(p, pieces(es[n - 1], exact), pieces(es[n - 1], exact).len() as int)
        } else {
            p
        }
    }
}

/// The first `n` terms of `l` that are in neither `a` nor `b`.
pub open spec fn keep_out(l: Seq<Seq<char>>, a: Seq<Seq<char>>, b: Seq<Seq<char>>, n: int) -> Seq<Seq<char>>
    decreases n,
{
    if n <= 0 || n > l.len() {
        Seq::empty()
    } else {
        let p = keep_out(l, a, b, n - 1);
        if a.contains(l[n - 1]) || b.contains(l[n - 1]) { p } else { p.push(l[n - 1]) }
    }
}

/// The distinct terms of the quoted phrases among the first `n` entries, in
/// order: these are matched as text, not as tokens.
pub open spec fn phrase_terms(es: Seq<EntryView>, exact: bool, n: int) -> Seq<Seq<char>>
    decreases n,
{
    if n <= 0 || n > es.len() {
        Seq::empty()
    } else {
        let p = phrase_terms(es, exact, n - 1);
        if es[n - 1].1 {
            add_all(p, pieces(es[n - 1], exact), pieces(es[n - 1], exact).len() as int)
        } else {
            p
        }
    }
}

/// A plan as plain values: required, excluded, optional and phrase terms.
pub type PlanView = (Seq<Seq<char>>, Seq<Seq<char>>, Seq<Seq<char>>, Seq<Seq<char>>);

/// The plan of a query's entries as (required, excluded, optional, phrases):
/// excluded terms win over required ones, and optional terms are neither.
pub open spec fn plan_spec(es: Seq<EntryView>, strict: bool, exact: bool) -> PlanView {
    let req = collect(es, strict, exact, Role::Required, es.len() as int);
    let exc = collect(es, strict, exact, Role::Excluded, es.len() as int);
    let opt = collect(es, strict, exact, Role::Optional, es.len() as int);
    (
        keep_out(req, exc, Seq::empty(), req.len() as int),
        exc,
        keep_out(opt, exc, req, opt.len() as int),
        phrase_terms(es, exact, es.len() as int),
    )
}

fn role_at(entries: &Vec<Entry>, k: usize, strict: bool) -> (r: Role)
    requires
        k < entries@.len(),
    ensures
        r == role_of(entry_views(entries@), k as int, strict),
{
    let e = &entries[k];
    if e.negated {
        return Role::Excluded;
    }
    let own = k > 0 && (e.conn == Conn::And || (strict && e.conn == Conn::Implicit));
    let next = k < entries.len() - 1 && (entries[k + 1].conn == Conn::And || (strict && entries[k + 1].conn
        == Conn::Implicit));
    if own || next {
        Role::Required
    } else {
        Role::Optional
    }
}

pub(crate) fn has_term(l: &Vec<String>, t: &String) -> (r: bool)
    ensures
        r == crate::tokenize::strings_view(l@).contains(t@),
{
    let ghost v = crate::tokenize::strings_view(l@);
    let mut i: usize = 0;
    while i < l.len()
        invariant
            v == crate::tokenize::strings_view(l@),
            i <= l@.len(),
            forall|q: int| 0 <= q < i ==> v[q] != t@,
        decreases l@.len() - i,
    {
        if l[i] == *t {
            assert(v[i as int] == t@);
            return true;
        }
        i = i + 1;
    }
    false
}

fn entry_pieces(e: &Entry, exact: bool) -> (r: Vec<String>)
    ensures
        crate::tokenize::strings_view(r@) == pieces((e.text@, e.phrase, e.negated, e.conn), exact),
{
    if e.phrase || exact {
        let v = chars_of(e.text.as_str());
        if v.len() > 0 {
            let mut r: Vec<String> = Vec::new();
            let t = string_of(&lower_vec(&v));
            r.push(t);
            assert(crate::tokenize::strings_view(r@) =~= seq![lower_seq(e.text@)]);
            r
        } else {
            let r: Vec<String> = Vec::new();
            assert(crate::tokenize::strings_view(r@) =~= Seq::<Seq<char>>::empty());
            r
        }
    } else {
        crate::tokenize::tokenize(e.text.as_str())
    }
}

fn add_terms(l: &mut Vec<String>, ps: Vec<String>)
    ensures
        crate::tokenize::strings_view(final(l)@) == add_all(
            crate::tokenize::strings_view(old(l)@),
            crate::tokenize::strings_view(ps@),
            ps@.len() as int,
        ),
{
    let ghost base = crate::tokenize::strings_view(old(l)@);
    let ghost pv = crate::tokenize::strings_view(ps@);
    let n = ps.len();
    let mut rest = ps;
    let mut i: usize = 0;
    while i < n
        invariant
            n == pv.len(),
            i <= n,
            crate::tokenize::strings_view(rest@) == pv.subrange(i as int, n as int),
            rest@.len() == n - i,
            crate::tokenize::strings_view(l@) == add_all(base, pv, i as int),
        decreases n - i,
    {
        let ghost prev = rest@;
        let t = rest.remove(0);
        assert(t == prev[0]);
        assert(crate::tokenize::strings_view(prev)[0] == prev[0]@);
        assert(t@ == pv[i as int]);
        if !has_term(l, &t) {
            let ghost before = crate::tokenize::strings_view(l@);
            l.push(t);
            assert(crate::tokenize::strings_view(l@) =~= before.push(pv[i as int]));
        }
        i = i + 1;
        assert forall|j: int| 0 <= j < rest@.len() implies crate::tokenize::strings_view(rest@)[j] == pv.subrange(
            i as int,
            n as int,
        )[j] by {
            assert(rest@[j] == prev[j + 1]);
            assert(crate::tokenize::strings_view(prev)[j + 1] == pv.subrange(i - 1, n as int)[j + 1]);
        }
        assert(crate::tokenize::strings_view(rest@) =~= pv.subrange(i as int, n as int));
    }
}

fn collect_role(entries: &Vec<Entry>, strict: bool, exact: bool, r: Role) -> (out: Vec<String>)
    ensures
        crate::tokenize::strings_view(out@) == collect(entry_views(entries@), strict, exact, r, entries@.len() as int),
{
    let ghost es = entry_views(entries@);
    let mut out: Vec<String> = Vec::new();
    let mut k: usize = 0;
    assert(crate::tokenize::strings_view(out@) =~= Seq::<Seq<char>>::empty());
    while k < entries.len()
        invariant
            es == entry_views(entries@),
            k <= entries@.len(),
            crate::tokenize::strings_view(out@) == collect(es, strict, exact, r, k as int),
        decreases entries@.len() - k,
    {
        if role_at(entries, k, strict) == r {
            let ps = entry_pieces(&entries[k], exact);
            assert(es[k as int] == (entries@[k as int].text@, entries@[k as int].phrase, entries@[k as int].negated, entries@[k as int].conn));
            add_terms(&mut out, ps);
        }
        k = k + 1;
    }
    out
}

fn collect_phrases(entries: &Vec<Entry>, exact: bool) -> (out: Vec<String>)
    ensures
        crate::tokenize::strings_view(out@) == phrase_terms(entry_views(entries@), exact, entries@.len() as int),
{
    let ghost es = entry_views(entries@);
    let mut out: Vec<String> = Vec::new();
    let mut k: usize = 0;
    assert(crate::tokenize::strings_view(out@) =~= Seq::<Seq<char>>::empty());
    while k < entries.len()
        invariant
            es == entry_views(entries@),
            k <= entries@.len(),
            crate::tokenize::strings_view(out@) == phrase_terms(es, exact, k as int),
        decreases entries@.len() - k,
    {
        assert(es[k as int] == (entries@[k as int].text@, entries@[k as int].phrase, entries@[k as int].negated, entries@[k as int].conn));
        if entries[k].phrase {
            let ps = entry_pieces(&entries[k], exact);
            add_terms(&mut out, ps);
        }
        k = k + 1;
    }
    out
}

fn keep_out_of(l: &Vec<String>, a: &Vec<String>, b: &Vec<String>) -> (out: Vec<String>)
    ensures
        crate::tokenize::strings_view(out@) == keep_out(
            crate::tokenize::strings_view(l@),
            crate::tokenize::strings_view(a@),
            crate::tokenize::strings_view(b@),
            l@.len() as int,
        ),
{
    let ghost lv = crate::tokenize::strings_view(l@);
    let mut out: Vec<String> = Vec::new();
    let mut i: usize = 0;
    assert(crate::tokenize::strings_view(out@) =~= Seq::<Seq<char>>::empty());
    while i < l.len()
        invariant
            lv == crate::tokenize::strings_view(l@),
            i <= l@.len(),
            crate::tokenize::strings_view(out@) == keep_out(
                lv,
                crate::tokenize::strings_view(a@),
                crate::tokenize::strings_view(b@),
                i as int,
            ),
        decreases l@.len() - i,
    {
        assert(lv[i as int] == l@[i as int]@);
        if !has_term(a, &l[i]) && !has_term(b, &l[i]) {
            let ghost before = crate::tokenize::strings_view(out@);
            out.push(l[i].clone());
            assert(crate::tokenize::strings_view(out@) =~= before.push(lv[i as int]));
        }
        i = i + 1;
    }
    out
}

/// The plan of a query's terms: negated terms are excluded, terms joined by
/// AND (or, in strict mode, by juxtaposition) are required, the rest optional;
/// excluded terms are dropped from the other two lists; the terms of quoted
/// phrases are listed as matched by text.
pub fn build_plan(entries: &Vec<Entry>, strict: bool, exact: bool) -> (p: crate::query::QueryPlan)
    ensures
        ({
            let s = plan_spec(entry_views(entries@), strict, exact);
            &&& crate::tokenize::strings_view(p.required@) == s.0
            &&& crate::tokenize::strings_view(p.excluded@) == s.1
            &&& crate::tokenize::strings_view(p.optional@) == s.2
            &&& crate::tokenize::strings_view(p.exact_terms@) == s.3
            &&& p.exact == exact
        }),
{
    let req = collect_role(entries, strict, exact, Role::Required);
    let exc = collect_role(entries, strict, exact, Role::Excluded);
    let opt = collect_role(entries, strict, exact, Role::Optional);
    let none: Vec<String> = Vec::new();
    assert(crate::tokenize::strings_view(none@) =~= Seq::<Seq<char>>::empty());
    let required = keep_out_of(&req, &exc, &none);
    let optional = keep_out_of(&opt, &exc, &req);
    let exact_terms = collect_phrases(entries, exact);
    crate::query::QueryPlan { required, excluded: exc, optional, exact_terms, exact }
}

/// A compiled query: its plan and its filter hints.
pub struct CompiledQuery {
    pub plan: crate::query::QueryPlan,
    pub hints: Vec<Hint>,
}

/// A syntax error in a query, at the byte offset of the offending token.
#[derive(Clone, Copy, Debug, PartialEq, Eq, Structural)]
pub struct QueryError {
    pub offset: usize,
}

/// The byte offset, in UTF-8, of character `k` of `q` (cut at its end).
pub open spec fn byte_offset(q: Seq<char>, k: int) -> int {
    let c = if k < 0 { 0 } else if k < q.len() { k } else { q.len() as int };
    encode_utf8(q.subrange(0, c)).len() as usize as int
}

/// What a query compiles to: the plan and hints, or the character offset of
/// the syntax error.
pub open spec fn compile_spec(q: Seq<char>, strict: bool, exact: bool) -> Result<(PlanView, Seq<HintView>), int> {
    match crate::lexer::lex_spec(q) {
        Err(e) => Err(e),
        Ok(ls) => match parse_spec(ls, q.len() as int) {
            Err(e) => Err(e),
            Ok(p) => Ok((plan_spec(p.0, strict, exact), p.1)),
        },
    }
}

fn byte_offset_of(q: &str, k: usize) -> (r: usize)
    ensures
        r as int == byte_offset(q@, k as int),
{
    let n = q.unicode_len();
    let c = if k < n { k } else { n };
    q.substring_char(0, c).len()
}

/// Compiles a query string into a plan and filter hints, or reports the byte
/// offset of the token where its syntax fails.
pub fn compile_query(q: &str, strict: bool, exact: bool) -> (r: Result<CompiledQuery, QueryError>)
    ensures
        r matches Ok(c) ==> compile_spec(q@, strict, exact) == Ok::<_, int>(
            (
                (
                    crate::tokenize::strings_view(c.plan.required@),
                    crate::tokenize::strings_view(c.plan.excluded@),
                    crate::tokenize::strings_view(c.plan.optional@),
                    crate::tokenize::strings_view(c.plan.exact_terms@),
                ),
                hint_views(c.hints@),
            ),
        ) && c.plan.exact == exact,
        r matches Err(e) ==> compile_spec(q@, strict, exact) matches Err(k) && e.offset as int == byte_offset(q@, k),
{
    let ls = match crate::lexer::lex_query(q) {
        Ok(ls) => ls,
        Err(e) => {
            return Err(QueryError { offset: byte_offset_of(q, e.at) });
        },
    };
    let end = q.unicode_len();
    let (entries, hints) = match parse_lexemes(&ls, end) {
        Ok(p) => p,
        Err(e) => {
            return Err(QueryError { offset: byte_offset_of(q, e.at) });
        },
    };
    let plan = build_plan(&entries, strict, exact);
    Ok(CompiledQuery { plan, hints })
}

proof fn lemma_keep_out_avoids(l: Seq<Seq<char>>, a: Seq<Seq<char>>, b: Seq<Seq<char>>, n: int)
    ensures
        forall|x: int|
            0 <= x < keep_out(l, a, b, n).len() ==> !a.contains(#[trigger] keep_out(l, a, b, n)[x]) && !b.contains(
                keep_out(l, a, b, n)[x],
            ),
    decreases n,
{
    if n > 0 && n <= l.len() {
        lemma_keep_out_avoids(l, a, b, n - 1);
        let p = keep_out(l, a, b, n - 1);
        let f = keep_out(l, a, b, n);
        assert forall|x: int| 0 <= x < f.len() implies !a.contains(#[trigger] f[x]) && !b.contains(f[x]) by {
            if x < p.len() {
                assert(f[x] == p[x]);
            }
        }
    }
}

/// A compiled plan never both requires and excludes a term.
pub proof fn lemma_plan_disjoint(es: Seq<EntryView>, strict: bool, exact: bool)
    ensures
        ({
            let p = plan_spec(es, strict, exact);
            forall|i: int, j: int| 0 <= i < p.0.len() && 0 <= j < p.1.len() ==> #[trigger] p.0[i] != #[trigger] p.1[j]
        }),
{
    let req = collect(es, strict, exact, Role::Required, es.len() as int);
    let exc = collect(es, strict, exact, Role::Excluded, es.len() as int);
    lemma_keep_out_avoids(req, exc, Seq::empty(), req.len() as int);
    let p = plan_spec(es, strict, exact);
    assert forall|i: int, j: int| 0 <= i < p.0.len() && 0 <= j < p.1.len() implies #[trigger] p.0[i] != #[trigger] p.1[j] by {
        assert(!exc.contains(p.0[i]));
        if p.0[i] == p.1[j] {
            assert(exc[j] == p.1[j]);
        }
    }
}

proof fn lemma_collect_none(es: Seq<EntryView>, strict: bool, exact: bool, r: Role, n: int)
    requires
        r != Role::Excluded,
        forall|k: int| 0 <= k < es.len() ==> (#[trigger] es[k]).2,
    ensures
        collect(es, strict, exact, r, n).len() == 0,
    decreases n,
{
    if n > 0 && n <= es.len() {
        lemma_collect_none(es, strict, exact, r, n - 1);
        assert(es[n - 1].2);
    }
}

/// A query whose terms are all negated requires nothing and has no optional
/// term, so no line of any file is a candidate.
pub proof fn lemma_only_excluded(es: Seq<EntryView>, strict: bool, exact: bool, count: int)
    requires
        forall|k: int| 0 <= k < es.len() ==> (#[trigger] es[k]).2,
    ensures
        plan_spec(es, strict, exact).0.len() == 0,
        plan_spec(es, strict, exact).2.len() == 0,
        crate::query::candidates_spec(Seq::empty(), Seq::empty(), count, count + 1).len() == 0,
{
    lemma_collect_none(es, strict, exact, Role::Required, es.len() as int);
    lemma_collect_none(es, strict, exact, Role::Optional, es.len() as int);
    crate::query::lemma_only_excluded_no_candidates(count, count + 1);
}

} // verus!

