//! Query plans and their evaluation against a file's term occurrences and
//! against the terms of a block.

use vstd::prelude::*;
use crate::blocks::{CodeBlock, filter_marked, keep_marked, lemma_filter_origin, marked_in};

verus! {

/// A compiled query: terms that must all occur, terms that must not occur,
/// and terms that only add to the score. The terms of quoted phrases, and in
/// exact mode all terms, are matched as text (a case-insensitive substring)
/// rather than as tokens.
pub struct QueryPlan {
    pub required: Vec<String>,
    pub excluded: Vec<String>,
    pub optional: Vec<String>,
    pub exact_terms: Vec<String>,
    pub exact: bool,
}

/// Term `t` of plan `p` is matched as text.
pub open spec fn term_is_exact(p: QueryPlan, t: Seq<char>) -> bool {
    p.exact || crate::tokenize::strings_view(p.exact_terms@).contains(t)
}

/// `t` occurs in `text`, ignoring ASCII case.
pub open spec fn text_has(text: Seq<char>, t: Seq<char>) -> bool {
    crate::outline::first_match(crate::compile::lower_seq(text), crate::compile::lower_seq(t), 0) is Some
}

/// Term `t` occurs in a block of this code and these terms: as text when
/// `exact`, else among its terms.
pub open spec fn term_in(code: Seq<char>, terms: Seq<String>, t: Seq<char>, exact: bool) -> bool {
    if exact { text_has(code, t) } else { tf(terms, t) > 0 }
}

/// Whether term `t` of the plan is matched as text.
pub fn term_exact(plan: &QueryPlan, t: &String) -> (r: bool)
    ensures
        r == term_is_exact(*plan, t@),
{
    plan.exact || crate::compile::has_term(&plan.exact_terms, t)
}

/// No term is both required and excluded.
pub open spec fn plan_wf(p: QueryPlan) -> bool {
    forall|i: int, j: int|
        0 <= i < p.required@.len() && 0 <= j < p.excluded@.len() ==> #[trigger] p.required@[i]@
            != #[trigger] p.excluded@[j]@
}

/// The views of a list of line lists.
pub open spec fn lists_view(v: Seq<Vec<usize>>) -> Seq<Seq<usize>> {
    v.map_values(|x: Vec<usize>| x@)
}

/// Line `l` occurs in every list of `lists` (and there is at least one list).
pub open spec fn in_all(lists: Seq<Seq<usize>>, l: usize) -> bool {
    lists.len() > 0 && forall|k: int| 0 <= k < lists.len() ==> (#[trigger] lists[k]).contains(l)
}

/// Line `l` occurs in some list of `lists`.
pub open spec fn in_any(lists: Seq<Seq<usize>>, l: usize) -> bool {
    exists|k: int| 0 <= k < lists.len() && (#[trigger] lists[k]).contains(l)
}

/// Some line of `1 ..= count` occurs in every required list.
pub open spec fn required_met(required: Seq<Seq<usize>>, count: int) -> bool {
    exists|l: usize| 1 <= l <= count && #[trigger] in_all(required, l)
}

/// Line `l` is a candidate: it holds every required term, or it holds an
/// optional term where either nothing is required or the required terms
/// meet on some line of the file.
pub open spec fn is_candidate(required: Seq<Seq<usize>>, optional: Seq<Seq<usize>>, count: int, l: usize) -> bool {
    in_all(required, l) || ((required.len() == 0 || required_met(required, count)) && in_any(optional, l))
}

/// The candidate lines among `1 .. stop`, ascending.
pub open spec fn candidates_spec(
    required: Seq<Seq<usize>>,
    optional: Seq<Seq<usize>>,
    count: int,
    stop: int,
) -> Seq<usize>
    decreases stop,
{
    if stop <= 1 {
        Seq::empty()
    } else {
        let p = candidates_spec(required, optional, count, stop - 1);
        if is_candidate(required, optional, count, (stop - 1) as usize) {
            p.push((stop - 1) as usize)
        } else {
            p
        }
    }
}

fn list_has(v: &Vec<usize>, l: usize) -> (r: bool)
    ensures
        r == v@.contains(l),
{
    let mut k: usize = 0;
    while k < v.len()
        invariant
            k <= v@.len(),
            forall|q: int| 0 <= q < k ==> v@[q] != l,
        decreases v@.len() - k,
    {
        if v[k] == l {
            return true;
        }
        k = k + 1;
    }
    false
}

fn all_have(lists: &Vec<Vec<usize>>, l: usize) -> (r: bool)
    ensures
        r == in_all(lists_view(lists@), l),
{
    if lists.len() == 0 {
        return false;
    }
    let ghost lv = lists_view(lists@);
    let mut k: usize = 0;
    while k < lists.len()
        invariant
            lv == lists_view(lists@),
            k <= lists@.len(),
            forall|q: int| 0 <= q < k ==> (#[trigger] lv[q]).contains(l),
        decreases lists@.len() - k,
    {
        if !list_has(&lists[k], l) {
            assert(!lv[k as int].contains(l));
            return false;
        }
        assert(lv[k as int] == lists@[k as int]@);
        k = k + 1;
    }
    true
}

fn any_has(lists: &Vec<Vec<usize>>, l: usize) -> (r: bool)
    ensures
        r == in_any(lists_view(lists@), l),
{
    let ghost lv = lists_view(lists@);
    let mut k: usize = 0;
    while k < lists.len()
        invariant
            lv == lists_view(lists@),
            k <= lists@.len(),
            forall|q: int| 0 <= q < k ==> !(#[trigger] lv[q]).contains(l),
        decreases lists@.len() - k,
    {
        if list_has(&lists[k], l) {
            assert(lv[k as int].contains(l));
            return true;
        }
        assert(lv[k as int] == lists@[k as int]@);
        k = k + 1;
    }
    false
}

/// The candidate lines of a file of `count` lines, ascending: given for each
/// required term and each optional term the lines where it occurs, the lines
/// where all required terms meet, and where those meet somewhere (or none is
/// required) the lines of the optional terms too.
pub fn candidate_lines(required: &Vec<Vec<usize>>, optional: &Vec<Vec<usize>>, count: usize) -> (r: Vec<usize>)
    requires
        count < usize::MAX,
    ensures
        r@ == candidates_spec(lists_view(required@), lists_view(optional@), count as int, count as int + 1),
{
    let mut met = false;
    let mut l: usize = 1;
    while l <= count && !met
        invariant
            1 <= l,
            l <= count + 1,
            count < usize::MAX,
            met ==> required_met(lists_view(required@), count as int),
            !met ==> forall|q: usize| 1 <= q < l ==> !#[trigger] in_all(lists_view(required@), q),
        decreases count + 1 - l, (if met { 0int } else { 1int }),
    {
        if all_have(required, l) {
            met = true;
        } else {
            l = l + 1;
        }
    }
    let open = required.len() == 0 || met;
    assert(open == (lists_view(required@).len() == 0 || required_met(lists_view(required@), count as int)));
    let mut out: Vec<usize> = Vec::new();
    let mut l: usize = 1;
    while l <= count
        invariant
            1 <= l <= count + 1,
            count < usize::MAX,
            open == (lists_view(required@).len() == 0 || required_met(lists_view(required@), count as int)),
            out@ == candidates_spec(lists_view(required@), lists_view(optional@), count as int, l as int),
        decreases count + 1 - l,
    {
        if all_have(required, l) || (open && any_has(optional, l)) {
            out.push(l);
        }
        l = l + 1;
    }
    out
}

/// With nothing required and nothing optional, no line is a candidate.
pub proof fn lemma_only_excluded_no_candidates(count: int, stop: int)
    ensures
        candidates_spec(Seq::empty(), Seq::empty(), count, stop).len() == 0,
    decreases stop,
{
    if stop > 1 {
        lemma_only_excluded_no_candidates(count, stop - 1);
    }
}

} // verus!

verus! {

/// Occurrences of `t` in `terms`.
pub open spec fn tf(terms: Seq<String>, t: Seq<char>) -> nat
    decreases terms.len(),
{
    if terms.len() == 0 {
        0
    } else {
        tf(terms.drop_last(), t) + if terms.last()@ == t { 1nat } else { 0nat }
    }
}

/// Every required term occurs in a block of this code and these terms, and
/// no excluded term does (phrases and exact-mode terms as text, others as terms).
pub open spec fn terms_pass(code: Seq<char>, terms: Seq<String>, p: QueryPlan) -> bool {
    &&& forall|i: int|
        0 <= i < p.required@.len() ==> term_in(code, terms, (#[trigger] p.required@[i])@, term_is_exact(p, p.required@[i]@))
    &&& forall|j: int|
        0 <= j < p.excluded@.len() ==> !term_in(code, terms, (#[trigger] p.excluded@[j])@, term_is_exact(p, p.excluded@[j]@))
}

/// How often `t` occurs in `terms`.
pub fn count_term(terms: &Vec<String>, t: &String) -> (r: usize)
    ensures
        r == tf(terms@, t@),
{
    let mut c: usize = 0;
    let mut i: usize = 0;
    while i < terms.len()
        invariant
            i <= terms@.len(),
            c == tf(terms@.subrange(0, i as int), t@),
            c <= i,
        decreases terms@.len() - i,
    {
        assert(terms@.subrange(0, i + 1).drop_last() =~= terms@.subrange(0, i as int));
        if terms[i] == *t {
            c = c + 1;
        }
        i = i + 1;
    }
    assert(terms@.subrange(0, terms@.len() as int) =~= terms@);
    c
}

fn occurs_in(code: &String, terms: &Vec<String>, t: &String, exact: bool) -> (r: bool)
    ensures
        r == term_in(code@, terms@, t@, exact),
{
    if exact {
        contains_exact(code.as_str(), t.as_str())
    } else {
        count_term(terms, t) > 0
    }
}

/// Whether a block of this code and these terms satisfies the plan: all
/// required terms occur, no excluded term does.
pub fn block_passes(code: &String, terms: &Vec<String>, plan: &QueryPlan) -> (r: bool)
    ensures
        r == terms_pass(code@, terms@, *plan),
{
    let mut i: usize = 0;
    while i < plan.required.len()
        invariant
            i <= plan.required@.len(),
            forall|k: int|
                0 <= k < i ==> term_in(code@, terms@, (#[trigger] plan.required@[k])@, term_is_exact(*plan, plan.required@[k]@)),
        decreases plan.required@.len() - i,
    {
        let t = &plan.required[i];
        if !occurs_in(code, terms, t, term_exact(plan, t)) {
            return false;
        }
        i = i + 1;
    }
    let mut j: usize = 0;
    while j < plan.excluded.len()
        invariant
            j <= plan.excluded@.len(),
            forall|k: int|
                0 <= k < plan.required@.len() ==> term_in(code@, terms@, (#[trigger] plan.required@[k])@, term_is_exact(*plan, plan.required@[k]@)),
            forall|k: int|
                0 <= k < j ==> !term_in(code@, terms@, (#[trigger] plan.excluded@[k])@, term_is_exact(*plan, plan.excluded@[k]@)),
        decreases plan.excluded@.len() - j,
    {
        let t = &plan.excluded[j];
        if occurs_in(code, terms, t, term_exact(plan, t)) {
            return false;
        }
        j = j + 1;
    }
    true
}

/// Marks of the blocks of `s` that satisfy the plan.
pub open spec fn pass_marks(s: Seq<CodeBlock>, p: QueryPlan) -> Seq<bool> {
    Seq::new(s.len(), |i: int| terms_pass(s[i].code@, s[i].tokenized_content@, p))
}

/// Keeps the blocks whose terms satisfy the plan, in order.
pub fn select_blocks(blocks: Vec<CodeBlock>, plan: &QueryPlan) -> (r: Vec<CodeBlock>)
    ensures
        r@ == filter_marked(blocks@, pass_marks(blocks@, *plan), blocks@.len() as nat),
{
    let mut keep: Vec<bool> = Vec::new();
    let mut i: usize = 0;
    while i < blocks.len()
        invariant
            i <= blocks@.len(),
            keep@.len() == i,
            forall|k: int| 0 <= k < i ==> keep@[k] == terms_pass(blocks@[k].code@, blocks@[k].tokenized_content@, *plan),
        decreases blocks@.len() - i,
    {
        keep.push(block_passes(&blocks[i].code, &blocks[i].tokenized_content, plan));
        i = i + 1;
    }
    assert(keep@ =~= pass_marks(blocks@, *plan));
    keep_marked(blocks, &keep)
}

/// Every selected block holds each required term (a required term matched
/// by terms occurs there at least once) and no excluded term.
pub proof fn lemma_selected_hold_required(s: Seq<CodeBlock>, p: QueryPlan)
    ensures
        forall|x: int| 0 <= x < filter_marked(s, pass_marks(s, p), s.len()).len() ==>
            terms_pass(
                #[trigger] filter_marked(s, pass_marks(s, p), s.len())[x].code@,
                filter_marked(s, pass_marks(s, p), s.len())[x].tokenized_content@,
                p,
            ),
{
    let m = pass_marks(s, p);
    let f = filter_marked(s, m, s.len());
    lemma_filter_origin(s, m, s.len());
    assert forall|x: int| 0 <= x < f.len() implies terms_pass(#[trigger] f[x].code@, f[x].tokenized_content@, p) by {
        assert(marked_in(s, m, s.len() as int, f[x]));
        let i = choose|i: int| 0 <= i < s.len() && m[i] && s[i] == f[x];
    }
}

/// Line `l` holds term `t`: as text when `exact`, else among its terms.
pub open spec fn line_has(l: Seq<char>, t: Seq<char>, exact: bool) -> bool {
    if exact { text_has(l, t) } else { crate::tokenize::tokens_spec(l).contains(t) }
}

/// The lines among `1 .. stop` that hold `t`, ascending.
pub open spec fn term_lines_spec(lines: Seq<String>, t: Seq<char>, exact: bool, stop: int) -> Seq<usize>
    decreases stop,
{
    if stop <= 1 || stop > lines.len() + 1 {
        Seq::empty()
    } else {
        let p = term_lines_spec(lines, t, exact, stop - 1);
        if line_has(lines[stop - 2]@, t, exact) {
            p.push((stop - 1) as usize)
        } else {
            p
        }
    }
}

fn line_holds(line: &String, term: &String, exact: bool) -> (r: bool)
    ensures
        r == line_has(line@, term@, exact),
{
    if exact {
        return contains_exact(line.as_str(), term.as_str());
    }
    let toks = crate::tokenize::tokenize(line.as_str());
    let mut found = false;
    let mut k: usize = 0;
    while k < toks.len()
        invariant
            k <= toks@.len(),
            crate::tokenize::strings_view(toks@) == crate::tokenize::tokens_spec(line@),
            found == (exists|q: int| 0 <= q < k && toks@[q]@ == term@),
        decreases toks@.len() - k,
    {
        if toks[k] == *term {
            found = true;
        }
        k = k + 1;
    }
    proof {
        let tv = crate::tokenize::strings_view(toks@);
        if found {
            let q = choose|q: int| 0 <= q < k && toks@[q]@ == term@;
            assert(tv[q] == term@);
        } else {
            assert forall|q: int| 0 <= q < tv.len() implies tv[q] != term@ by {
                assert(tv[q] == toks@[q]@);
            }
        }
    }
    found
}

/// The 1-based lines of `lines` that hold `term` (as text when `exact`,
/// else among their terms), ascending: one entry of a file's term index.
pub fn term_lines(lines: &Vec<String>, term: &String, exact: bool) -> (r: Vec<usize>)
    ensures
        r@ == term_lines_spec(lines@, term@, exact, lines@.len() as int + 1),
{
    let mut out: Vec<usize> = Vec::new();
    let mut i: usize = 0;
    while i < lines.len()
        invariant
            i <= lines@.len(),
            out@ == term_lines_spec(lines@, term@, exact, i as int + 1),
        decreases lines@.len() - i,
    {
        let found = line_holds(&lines[i], term, exact);
        if found {
            out.push(i + 1);
        }
        i = i + 1;
    }
    out
}

/// The candidate lines of a file of `lines` under plan `p`.
pub open spec fn file_candidates_spec(lines: Seq<String>, p: QueryPlan) -> Seq<usize> {
    candidates_spec(
        Seq::new(p.required@.len(), |k: int| term_lines_spec(lines, p.required@[k]@, term_is_exact(p, p.required@[k]@), lines.len() as int + 1)),
        Seq::new(p.optional@.len(), |k: int| term_lines_spec(lines, p.optional@[k]@, term_is_exact(p, p.optional@[k]@), lines.len() as int + 1)),
        lines.len() as int,
        lines.len() as int + 1,
    )
}

/// The candidate lines of a file under a plan: the term index is looked up
/// for each required and optional term (phrases and exact-mode terms by
/// case-insensitive text match), and the lines combined as
/// `candidate_lines` does.
pub fn file_candidates(lines: &Vec<String>, plan: &QueryPlan) -> (r: Vec<usize>)
    requires
        lines@.len() < usize::MAX,
    ensures
        r@ == file_candidates_spec(lines@, *plan),
{
    let mut req: Vec<Vec<usize>> = Vec::new();
    let mut i: usize = 0;
    while i < plan.required.len()
        invariant
            i <= plan.required@.len(),
            req@.len() == i,
            forall|k: int| 0 <= k < i ==> (#[trigger] req@[k])@ == term_lines_spec(lines@, plan.required@[k]@, term_is_exact(*plan, plan.required@[k]@), lines@.len() as int + 1),
        decreases plan.required@.len() - i,
    {
        let t = &plan.required[i];
        req.push(term_lines(lines, t, term_exact(plan, t)));
        i = i + 1;
    }
    let mut opt: Vec<Vec<usize>> = Vec::new();
    let mut j: usize = 0;
    while j < plan.optional.len()
        invariant
            j <= plan.optional@.len(),
            opt@.len() == j,
            forall|k: int| 0 <= k < j ==> (#[trigger] opt@[k])@ == term_lines_spec(lines@, plan.optional@[k]@, term_is_exact(*plan, plan.optional@[k]@), lines@.len() as int + 1),
        decreases plan.optional@.len() - j,
    {
        let t = &plan.optional[j];
        opt.push(term_lines(lines, t, term_exact(plan, t)));
        j = j + 1;
    }
    assert(lists_view(req@) =~= Seq::new(plan.required@.len(), |k: int| term_lines_spec(lines@, plan.required@[k]@, term_is_exact(*plan, plan.required@[k]@), lines@.len() as int + 1)));
    assert(lists_view(opt@) =~= Seq::new(plan.optional@.len(), |k: int| term_lines_spec(lines@, plan.optional@[k]@, term_is_exact(*plan, plan.optional@[k]@), lines@.len() as int + 1)));
    candidate_lines(&req, &opt, lines.len())
}

/// Whether `term` occurs in `text`, ignoring ASCII case: the exact-mode
/// match, with no splitting and no stemming.
pub fn contains_exact(text: &str, term: &str) -> (r: bool)
    ensures
        r == crate::outline::first_match(
            crate::compile::lower_seq(text@),
            crate::compile::lower_seq(term@),
            0,
        ) is Some,
{
    let t = crate::compile::lower_string(text);
    let q = crate::compile::lower_string(term);
    let tv = crate::text::chars_of(t.as_str());
    crate::outline::find_str(&tv, q.as_str()).is_some()
}

} // verus!


verus! {

/// Of the plan's required and optional terms, how many occur in `terms`
/// (`unique`), and their occurrences summed (`total`).
pub open spec fn stats_spec(terms: Seq<String>, q: Seq<String>, n: int) -> (int, int)
    decreases n,
{
    if n <= 0 || n > q.len() {
        (0, 0)
    } else {
        let p = stats_spec(terms, q, n - 1);
        let c = tf(terms, q[n - 1]@) as int;
        (p.0 + if c > 0 { 1int } else { 0int }, p.1 + c)
    }
}

/// The plan's scoring terms: the required ones, then the optional ones.
pub open spec fn query_terms(p: QueryPlan) -> Seq<String> {
    p.required@ + p.optional@
}

fn scoring_terms(plan: &QueryPlan) -> (r: Vec<String>)
    ensures
        r@ == query_terms(*plan),
{
    let mut out: Vec<String> = Vec::new();
    let mut i: usize = 0;
    while i < plan.required.len()
        invariant
            i <= plan.required@.len(),
            out@ == plan.required@.subrange(0, i as int),
        decreases plan.required@.len() - i,
    {
        out.push(plan.required[i].clone());
        i = i + 1;
        assert(out@ =~= plan.required@.subrange(0, i as int));
    }
    let mut j: usize = 0;
    while j < plan.optional.len()
        invariant
            j <= plan.optional@.len(),
            out@ == plan.required@ + plan.optional@.subrange(0, j as int),
        decreases plan.optional@.len() - j,
    {
        out.push(plan.optional[j].clone());
        j = j + 1;
        assert(out@ =~= plan.required@ + plan.optional@.subrange(0, j as int));
    }
    assert(plan.optional@.subrange(0, plan.optional@.len() as int) =~= plan.optional@);
    out
}

/// How many of the plan's required and optional terms occur in a block's
/// terms, and how many occurrences they have in all.
pub fn match_stats(terms: &Vec<String>, plan: &QueryPlan) -> (r: (usize, usize))
    requires
        (plan.required@.len() + plan.optional@.len()) * terms@.len() <= usize::MAX,
    ensures
        (r.0 as int, r.1 as int) == stats_spec(terms@, query_terms(*plan), query_terms(*plan).len() as int),
{
    let q = scoring_terms(plan);
    let n = q.len();
    let l = terms.len();
    let mut unique: usize = 0;
    let mut total: usize = 0;
    let mut i: usize = 0;
    while i < n
        invariant
            q@ == query_terms(*plan),
            n == q@.len(),
            l == terms@.len(),
            i <= n,
            n * l <= usize::MAX,
            (unique as int, total as int) == stats_spec(terms@, q@, i as int),
            unique <= i,
            total <= i * l,
        decreases n - i,
    {
        let t = &q[i];
        let c = count_term(terms, t);
        proof {
            lemma_tf_bound(terms@, t@);
            assert((i + 1) * l <= n * l) by (nonlinear_arith)
                requires
                    i + 1 <= n,
            ;
            assert(i * l + l == (i + 1) * l) by (nonlinear_arith);
        }
        if c > 0 {
            unique = unique + 1;
        }
        total = total + c;
        i = i + 1;
    }
    (unique, total)
}

proof fn lemma_tf_bound(terms: Seq<String>, t: Seq<char>)
    ensures
        tf(terms, t) <= terms.len(),
    decreases terms.len(),
{
    if terms.len() > 0 {
        lemma_tf_bound(terms.drop_last(), t);
    }
}

/// How many of the first `n` terms of `q` occur in `words`.
pub open spec fn hits_spec(words: Seq<Seq<char>>, q: Seq<String>, n: int) -> int
    decreases n,
{
    if n <= 0 || n > q.len() {
        0
    } else {
        hits_spec(words, q, n - 1) + if words.contains(q[n - 1]@) { 1int } else { 0int }
    }
}

/// How many of the plan's required and optional terms occur among the terms
/// of the file name (without its extension) of `path`: the count that the
/// ranking's file-name boost multiplies.
pub fn filename_matches(path: &str, plan: &QueryPlan) -> (r: usize)
    ensures
        r as int == hits_spec(
            crate::tokenize::tokens_spec(crate::tokenize::file_stem_spec(path@)),
            query_terms(*plan),
            query_terms(*plan).len() as int,
        ),
{
    let stem = crate::outline::file_stem(path);
    let toks = crate::tokenize::tokenize(stem.as_str());
    let q = scoring_terms(plan);
    let ghost words = crate::tokenize::tokens_spec(crate::tokenize::file_stem_spec(path@));
    let n = q.len();
    let mut hits: usize = 0;
    let mut i: usize = 0;
    while i < n
        invariant
            q@ == query_terms(*plan),
            words == crate::tokenize::strings_view(toks@),
            n == q@.len(),
            i <= n,
            hits <= i,
            hits as int == hits_spec(words, q@, i as int),
        decreases n - i,
    {
        let t = &q[i];
        if crate::compile::has_term(&toks, t) {
            hits = hits + 1;
        }
        i = i + 1;
    }
    hits
}

/// A file without lines has no candidate line, whatever the plan.
pub proof fn lemma_empty_file_no_candidates(p: QueryPlan)
    ensures
        file_candidates_spec(Seq::empty(), p).len() == 0,
{
}

} // verus!

