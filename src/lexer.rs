//! Lexing of query strings: words, quoted phrases and parentheses, with the
//! character offset where each starts.

use vstd::prelude::*;
use crate::text::{chars_of, string_of, is_ws, is_space};

verus! {

/// The kinds of lexemes of a query.
#[derive(Clone, Copy, Debug, PartialEq, Eq, Structural)]
pub enum LexKind {
    Word,
    Phrase,
    Open,
    Close,
}

/// A lexeme of a query and the character offset where it starts.
pub struct Lexeme {
    pub kind: LexKind,
    pub text: String,
    pub offset: usize,
}

/// A syntax error in a query, at the character offset of the offending token.
#[derive(Clone, Copy, Debug, PartialEq, Eq, Structural)]
pub struct SyntaxError {
    pub at: usize,
}

/// A lexeme as plain values.
pub type LexView = (LexKind, Seq<char>, int);

/// The lexer's state while reading a query.
pub struct LexState {
    pub items: Seq<LexView>,
    pub cur: Seq<char>,
    pub cur_start: int,
    pub in_quote: bool,
    pub opens: Seq<int>,
    pub err: Option<int>,
}

/// `items` with the pending word appended, if there is one.
pub open spec fn flush_word(st: LexState) -> Seq<LexView> {
    if st.cur.len() > 0 {
        st.items.push((LexKind::Word, st.cur, st.cur_start))
    } else {
        st.items
    }
}

/// The state after reading character `c` at offset `pos`.
pub open spec fn lex_step(st: LexState, c: char, pos: int) -> LexState {
    if st.err is Some {
        st
    } else if st.in_quote {
        if c == '"' {
            LexState { items: st.items.push((LexKind::Phrase, st.cur, st.cur_start)), cur: Seq::empty(), in_quote: false, ..st }
        } else {
            LexState { cur: st.cur.push(c), ..st }
        }
    } else if c == '"' {
        LexState { items: flush_word(st), cur: Seq::empty(), cur_start: pos, in_quote: true, ..st }
    } else if c == '(' {
        LexState { items: flush_word(st).push((LexKind::Open, seq!['('], pos)), cur: Seq::empty(), opens: st.opens.push(pos), ..st }
    } else if c == ')' {
        if st.opens.len() == 0 {
            LexState { err: Some(pos), ..st }
        } else {
            LexState { items: flush_word(st).push((LexKind::Close, seq![')'], pos)), cur: Seq::empty(), opens: st.opens.drop_last(), ..st }
        }
    } else if is_ws(c) {
        LexState { items: flush_word(st), cur: Seq::empty(), ..st }
    } else if st.cur.len() == 0 {
        LexState { cur: seq![c], cur_start: pos, ..st }
    } else {
        LexState { cur: st.cur.push(c), ..st }
    }
}

/// The state after reading the first `n` characters of `q`.
pub open spec fn lex_run(q: Seq<char>, n: int) -> LexState
    decreases n,
{
    if n <= 0 || n > q.len() {
        LexState { items: Seq::empty(), cur: Seq::empty(), cur_start: 0, in_quote: false, opens: Seq::empty(), err: None }
    } else {
        lex_step(lex_run(q, n - 1), q[n - 1], n - 1)
    }
}

/// The lexemes of `q`, or the offset of its first error: an unmatched `)`,
/// an unclosed quote (at the quote), or an unclosed `(` (at the last one
/// left open).
pub open spec fn lex_spec(q: Seq<char>) -> Result<Seq<LexView>, int> {
    let st = lex_run(q, q.len() as int);
    match st.err {
        Some(e) => Err(e),
        None => if st.in_quote {
            Err(st.cur_start)
        } else if st.opens.len() > 0 {
            Err(st.opens.last())
        } else {
            Ok(flush_word(st))
        },
    }
}

/// The view of a lexeme.
pub open spec fn lex_view(l: Lexeme) -> LexView {
    (l.kind, l.text@, l.offset as int)
}

/// The views of lexemes.
pub open spec fn lex_views(v: Seq<Lexeme>) -> Seq<LexView> {
    v.map_values(|l: Lexeme| lex_view(l))
}

fn push_word(items: &mut Vec<Lexeme>, cur: &Vec<char>, start: usize)
    ensures
        cur@.len() > 0 ==> lex_views(final(items)@) == lex_views(old(items)@).push((LexKind::Word, cur@, start as int)),
        cur@.len() == 0 ==> final(items)@ == old(items)@,
{
    if cur.len() > 0 {
        let ghost before = lex_views(items@);
        items.push(Lexeme { kind: LexKind::Word, text: string_of(cur), offset: start });
        assert(lex_views(items@) =~= before.push((LexKind::Word, cur@, start as int)));
    }
}

/// Splits a query into words, quoted phrases and parentheses; fails at the
/// first unmatched `)`, an unclosed quote, or an unclosed `(`.
pub fn lex_query(q: &str) -> (r: Result<Vec<Lexeme>, SyntaxError>)
    ensures
        r matches Ok(v) ==> lex_spec(q@) == Ok::<Seq<LexView>, int>(lex_views(v@)),
        r matches Err(e) ==> lex_spec(q@) == Err::<Seq<LexView>, int>(e.at as int),
{
    let v = chars_of(q);
    let n = v.len();
    let mut items: Vec<Lexeme> = Vec::new();
    let mut cur: Vec<char> = Vec::new();
    let mut cur_start: usize = 0;
    let mut in_quote = false;
    let mut opens: Vec<usize> = Vec::new();
    let mut i: usize = 0;
    assert(lex_views(items@) =~= Seq::<LexView>::empty());
    assert(cur@ =~= Seq::<char>::empty());
    assert(opens@.map_values(|x: usize| x as int) =~= Seq::<int>::empty());
    while i < n
        invariant
            v@ == q@,
            n == v@.len(),
            i <= n,
            forall|k: int| 0 <= k < opens@.len() ==> opens@[k] < i,
            lex_run(v@, i as int) == (LexState {
                items: lex_views(items@),
                cur: cur@,
                cur_start: cur_start as int,
                in_quote,
                opens: opens@.map_values(|x: usize| x as int),
                err: None,
            }),
            cur_start <= i,
        decreases n - i,
    {
        let c = v[i];
        let ghost st = lex_run(v@, i as int);
        if in_quote {
            if c == '"' {
                let ghost before = lex_views(items@);
                items.push(Lexeme { kind: LexKind::Phrase, text: string_of(&cur), offset: cur_start });
                assert(lex_views(items@) =~= before.push((LexKind::Phrase, cur@, cur_start as int)));
                cur = Vec::new();
                in_quote = false;
            } else {
                cur.push(c);
            }
        } else if c == '"' {
            push_word(&mut items, &cur, cur_start);
            cur = Vec::new();
            cur_start = i;
            in_quote = true;
        } else if c == '(' {
            push_word(&mut items, &cur, cur_start);
            let ghost before = lex_views(items@);
            let open = Lexeme { kind: LexKind::Open, text: String::from_str("("), offset: i };
            proof {
                reveal_strlit("(");
                assert("("@ =~= seq!['(']);
            }
            items.push(open);
            assert(lex_views(items@) =~= before.push((LexKind::Open, seq!['('], i as int)));
            cur = Vec::new();
            let ghost ob = opens@;
            opens.push(i);
            assert(opens@.map_values(|x: usize| x as int) =~= ob.map_values(|x: usize| x as int).push(i as int));
        } else if c == ')' {
            if opens.len() == 0 {
                proof {
                    lemma_lex_error_sticks(v@, i as int + 1);
                }
                return Err(SyntaxError { at: i });
            }
            push_word(&mut items, &cur, cur_start);
            let ghost before = lex_views(items@);
            let close = Lexeme { kind: LexKind::Close, text: String::from_str(")"), offset: i };
            proof {
                reveal_strlit(")");
                assert(")"@ =~= seq![')']);
            }
            items.push(close);
            assert(lex_views(items@) =~= before.push((LexKind::Close, seq![')'], i as int)));
            cur = Vec::new();
            let ghost ob = opens@;
            opens.pop();
            assert(opens@.map_values(|x: usize| x as int) =~= ob.map_values(|x: usize| x as int).drop_last());
        } else if is_space(c) {
            push_word(&mut items, &cur, cur_start);
            cur = Vec::new();
        } else if cur.len() == 0 {
            cur.push(c);
            cur_start = i;
        } else {
            cur.push(c);
        }
        i = i + 1;
        proof {
            assert(cur@ =~= lex_run(v@, i as int).cur);
        }
    }
    if in_quote {
        return Err(SyntaxError { at: cur_start });
    }
    if opens.len() > 0 {
        let last = opens[opens.len() - 1];
        return Err(SyntaxError { at: last });
    }
    push_word(&mut items, &cur, cur_start);
    Ok(items)
}

/// Once an error is met, the lexer keeps it.
proof fn lemma_lex_error_sticks(q: Seq<char>, n: int)
    requires
        0 < n <= q.len(),
        lex_run(q, n).err is Some,
    ensures
        lex_run(q, q.len() as int).err == lex_run(q, n).err,
    decreases q.len() - n,
{
    if n < q.len() {
        lemma_lex_error_sticks(q, n + 1);
    }
}

} // verus!
