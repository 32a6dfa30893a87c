//! Searching one file: candidate lines from the term index, their enclosing
//! blocks, the query's term checks, and deduplication.

use vstd::prelude::*;
use vstd::string::StringExecFns;
use crate::blocks::{CodeBlock, merge_spans, merge_spec, mergeable, deduplicate_blocks, dedup_spec, nest_free, lemma_dedup_nest_free, filter_marked, lemma_filter_origin, marked_in};
use crate::extract::{build_extraction, extracted_body, extraction_spec, LineRequest};
use crate::query::{QueryPlan, file_candidates, file_candidates_spec, select_blocks, pass_marks, terms_pass};
use crate::symbols::{lines_bytes, line_block_node, line_in_test, line_node, line_test_spec};
use crate::syntax::{SyntaxTree, tree_wf};

verus! {

/// The node of the syntax tree whose block holds line `l`, none without a
/// tree or lines.
pub open spec fn tree_node(tree: Option<SyntaxTree>, src: Seq<u8>, lines: Seq<String>, l: usize) -> Option<int> {
    match tree {
        Some(t) => if lines.len() > 0 { line_node(t, src, lines, l as int) } else { None },
        None => None,
    }
}

/// The rows of the block that the syntax tree gives line `l` (tests
/// included), none where it gives none.
pub open spec fn tree_rows(tree: Option<SyntaxTree>, src: Seq<u8>, lines: Seq<String>, l: usize) -> Seq<(usize, usize)> {
    match tree_node(tree, src, lines, l) {
        Some(a) => seq![(tree.unwrap().nodes@[a].start_row, tree.unwrap().nodes@[a].end_row)],
        None => Seq::empty(),
    }
}

/// The kind of the block of line `l`: the grammar kind of its node where
/// the tree gives one, else the kind of the literal fallback.
pub open spec fn line_kind(
    tree: Option<SyntaxTree>,
    src: Seq<u8>,
    lines: Seq<String>,
    l: usize,
    ctx: int,
) -> Seq<char> {
    match tree_node(tree, src, lines, l) {
        Some(a) => tree.unwrap().nodes@[a].kind@,
        None => extraction_spec(LineRequest::Line { line: l }, lines.len() as int, Seq::empty(), ctx).unwrap().2,
    }
}

/// Line `l` is passed over: its block lies in a test and tests are not allowed.
pub open spec fn line_skipped(tree: Option<SyntaxTree>, src: Seq<u8>, lines: Seq<String>, l: usize, allow_tests: bool) -> bool {
    !allow_tests && lines.len() > 0 && (tree matches Some(t) && line_test_spec(t, src, lines, l as int))
}

/// The first `n` candidate lines that are not passed over.
pub open spec fn kept_lines(
    cands: Seq<usize>,
    tree: Option<SyntaxTree>,
    src: Seq<u8>,
    lines: Seq<String>,
    allow_tests: bool,
    n: int,
) -> Seq<usize>
    decreases n,
{
    if n <= 0 || n > cands.len() {
        Seq::empty()
    } else {
        let p = kept_lines(cands, tree, src, lines, allow_tests, n - 1);
        if line_skipped(tree, src, lines, cands[n - 1], allow_tests) {
            p
        } else {
            p.push(cands[n - 1])
        }
    }
}

/// `c` holds, for each kept candidate line of the file in order, the block
/// extracted for that line with the rows the tree gives it, labelled with the
/// grammar kind of its node (or the fallback's kind).
pub open spec fn candidate_blocks_ok(
    c: Seq<CodeBlock>,
    file: Seq<char>,
    lines: Seq<String>,
    src: Seq<u8>,
    tree: Option<SyntaxTree>,
    plan: QueryPlan,
    allow_tests: bool,
    ctx: int,
) -> bool {
    let cands = file_candidates_spec(lines, plan);
    let ks = kept_lines(cands, tree, src, lines, allow_tests, cands.len() as int);
    &&& c.len() == ks.len()
    &&& forall|k: int|
        0 <= k < c.len() ==> extracted_body(
            #[trigger] c[k],
            file,
            lines,
            LineRequest::Line { line: ks[k] },
            Seq::empty(),
            tree_rows(tree, src, lines, ks[k]),
            ctx,
        ) && c[k].node_type@ == line_kind(tree, src, lines, ks[k], ctx)
}

/// The block of each candidate line of `file` (its text `lines`, its bytes
/// `source`, its syntax tree if one was parsed), in order: the line's
/// enclosing block, with its node's grammar kind, or the lines around it
/// (`ctx` each side) where it has none; lines whose block lies in a test are passed over unless
/// `allow_tests` is set.
pub fn candidate_blocks(
    file: &String,
    lines: &Vec<String>,
    source: &Vec<u8>,
    tree: &Option<SyntaxTree>,
    plan: &QueryPlan,
    allow_tests: bool,
    ctx: usize,
) -> (r: Vec<CodeBlock>)
    requires
        lines@.len() < usize::MAX,
        lines_bytes(lines@, lines@.len() as int) <= usize::MAX,
        *tree matches Some(t) ==> tree_wf(t, source@.len() as int),
    ensures
        candidate_blocks_ok(r@, file@, lines@, source@, *tree, *plan, allow_tests, ctx as int),
{
    let cands = file_candidates(lines, plan);
    let ghost cs = cands@;
    let ghost ks = kept_lines(cs, *tree, source@, lines@, allow_tests, cs.len() as int);
    let none: Vec<usize> = Vec::new();
    assert(none@ =~= Seq::<usize>::empty());
    let mut found: Vec<CodeBlock> = Vec::new();
    let mut i: usize = 0;
    while i < cands.len()
        invariant
            cs == cands@,
            cs == file_candidates_spec(lines@, *plan),
            none@ == Seq::<usize>::empty(),
            lines@.len() < usize::MAX,
            lines_bytes(lines@, lines@.len() as int) <= usize::MAX,
            *tree matches Some(t) ==> tree_wf(t, source@.len() as int),
            lines@.len() > 0 || cs.len() == 0,
            i <= cs.len(),
            found@.len() == kept_lines(cs, *tree, source@, lines@, allow_tests, i as int).len(),
            forall|k: int|
                0 <= k < found@.len() ==> extracted_body(
                    #[trigger] found@[k],
                    file@,
                    lines@,
                    LineRequest::Line { line: kept_lines(cs, *tree, source@, lines@, allow_tests, i as int)[k] },
                    Seq::empty(),
                    tree_rows(*tree, source@, lines@, kept_lines(cs, *tree, source@, lines@, allow_tests, i as int)[k]),
                    ctx as int,
                ) && found@[k].node_type@ == line_kind(
                    *tree,
                    source@,
                    lines@,
                    kept_lines(cs, *tree, source@, lines@, allow_tests, i as int)[k],
                    ctx as int,
                ),
        decreases cs.len() - i,
    {
        let l = cands[i];
        let ghost before = kept_lines(cs, *tree, source@, lines@, allow_tests, i as int);
        let mut skip = false;
        let mut rows: Vec<(usize, usize)> = Vec::new();
        let mut kind: Option<String> = None;
        match tree {
            Some(t) => {
                if !allow_tests && line_in_test(t, source, lines, l) {
                    skip = true;
                } else {
                    match line_block_node(t, source, lines, l) {
                        Some(a) => {
                            rows.push((t.nodes[a].start_row, t.nodes[a].end_row));
                            kind = Some(t.nodes[a].kind.clone());
                        },
                        None => {},
                    }
                }
            },
            None => {},
        }
        assert(skip || rows@ =~= tree_rows(*tree, source@, lines@, l));
        assert(skip == line_skipped(*tree, source@, lines@, l, allow_tests));
        if !skip {
            let req = LineRequest::Line { line: l };
            let mut b = build_extraction(file.clone(), "", lines, &req, &none, &rows, ctx).unwrap();
            match kind {
                Some(k) => {
                    b.node_type = k;
                },
                None => {
                    assert(rows@ =~= Seq::<(usize, usize)>::empty());
                },
            }
            assert(b.node_type@ == line_kind(*tree, source@, lines@, l, ctx as int));
            found.push(b);
            proof {
                let after = kept_lines(cs, *tree, source@, lines@, allow_tests, i + 1);
                assert(after == before.push(l));
                assert forall|k: int| 0 <= k < found@.len() implies extracted_body(
                    #[trigger] found@[k],
                    file@,
                    lines@,
                    LineRequest::Line { line: after[k] },
                    Seq::empty(),
                    tree_rows(*tree, source@, lines@, after[k]),
                    ctx as int,
                ) && found@[k].node_type@ == line_kind(*tree, source@, lines@, after[k], ctx as int) by {
                    if k < found@.len() - 1 {
                        assert(after[k] == before[k]);
                    }
                }
            }
        }
        i = i + 1;
    }
    assert(cs.len() == i);
    found
}

/// The blocks of `file` that match `plan`: the candidate blocks (see
/// `candidate_blocks`) that pass the plan's term checks, with nested and
/// repeated blocks removed.
pub fn search_file(
    file: &String,
    lines: &Vec<String>,
    source: &Vec<u8>,
    tree: &Option<SyntaxTree>,
    plan: &QueryPlan,
    allow_tests: bool,
    ctx: usize,
) -> (r: Vec<CodeBlock>)
    requires
        lines@.len() < usize::MAX,
        lines_bytes(lines@, lines@.len() as int) <= usize::MAX,
        *tree matches Some(t) ==> tree_wf(t, source@.len() as int),
    ensures
        exists|c: Seq<CodeBlock>|
            candidate_blocks_ok(c, file@, lines@, source@, *tree, *plan, allow_tests, ctx as int) && r@ == dedup_spec(
                filter_marked(c, pass_marks(c, *plan), c.len()),
            ),
        nest_free(r@),
        forall|k: int| 0 <= k < r@.len() ==> {
            &&& (#[trigger] r@[k]).file@ == file@
            &&& 1 <= r@[k].lines.0 <= r@[k].lines.1 <= lines@.len()
            &&& terms_pass(r@[k].code@, r@[k].tokenized_content@, *plan)
        },
{
    let found = candidate_blocks(file, lines, source, tree, plan, allow_tests, ctx);
    let ghost all = found@;
    let selected = select_blocks(found, plan);
    let ghost sel = selected@;
    proof {
        lemma_filter_origin(all, pass_marks(all, *plan), all.len());
    }
    assert forall|k: int| 0 <= k < sel.len() implies {
        &&& (#[trigger] sel[k]).file@ == file@
        &&& 1 <= sel[k].lines.0 <= sel[k].lines.1 <= lines@.len()
        &&& terms_pass(sel[k].code@, sel[k].tokenized_content@, *plan)
    } by {
        assert(marked_in(all, pass_marks(all, *plan), all.len() as int, sel[k]));
        let j = choose|j: int| 0 <= j < all.len() && pass_marks(all, *plan)[j] && all[j] == sel[k];
        assert(extracted_body(all[j], file@, lines@, LineRequest::Line { line: kept_lines(file_candidates_spec(lines@, *plan), *tree, source@, lines@, allow_tests, file_candidates_spec(lines@, *plan).len() as int)[j] }, Seq::empty(), tree_rows(*tree, source@, lines@, kept_lines(file_candidates_spec(lines@, *plan), *tree, source@, lines@, allow_tests, file_candidates_spec(lines@, *plan).len() as int)[j]), ctx as int));
    }
    let r = deduplicate_blocks(selected);
    proof {
        lemma_dedup_nest_free(sel);
        let m = Seq::new(sel.len(), |q: int| crate::blocks::survives(sel, q));
        lemma_filter_origin(sel, m, sel.len());
        assert forall|k: int| 0 <= k < r@.len() implies {
            &&& (#[trigger] r@[k]).file@ == file@
            &&& 1 <= r@[k].lines.0 <= r@[k].lines.1 <= lines@.len()
            &&& terms_pass(r@[k].code@, r@[k].tokenized_content@, *plan)
        } by {
            assert(marked_in(sel, m, sel.len() as int, r@[k]));
            let j = choose|j: int| 0 <= j < sel.len() && m[j] && sel[j] == r@[k];
        }
    }
    r
}

} // verus!

verus! {

/// The line spans of blocks.
pub open spec fn spans_of(s: Seq<CodeBlock>) -> Seq<(usize, usize)> {
    s.map_values(|b: CodeBlock| b.lines)
}

/// The node kind of a merged span: that of the first block with exactly this
/// span, else `merged_ast_range`.
pub open spec fn merged_kind(s: Seq<CodeBlock>, m: (usize, usize), i: int) -> Seq<char>
    decreases s.len() - i,
{
    if i < 0 || i >= s.len() {
        "merged_ast_range"@
    } else if s[i].lines == m {
        s[i].node_type@
    } else {
        merged_kind(s, m, i + 1)
    }
}

proof fn lemma_merge_bounds(s: Seq<(usize, usize)>, t: nat, count: int)
    requires
        forall|k: int| 0 <= k < s.len() ==> 1 <= (#[trigger] s[k]).0 <= s[k].1 <= count,
    ensures
        forall|k: int| 0 <= k < merge_spec(s, t).len() ==> 1 <= (#[trigger] merge_spec(s, t)[k]).0 <= merge_spec(s, t)[k].1 <= count,
    decreases s.len(),
{
    if s.len() > 0 {
        let u = s.drop_last();
        assert forall|k: int| 0 <= k < u.len() implies 1 <= (#[trigger] u[k]).0 <= u[k].1 <= count by {
            assert(u[k] == s[k]);
        }
        lemma_merge_bounds(u, t, count);
        assert(1 <= s.last().0 <= s.last().1 <= count);
        let r = merge_spec(u, t);
        let f = merge_spec(s, t);
        assert forall|k: int| 0 <= k < f.len() implies 1 <= (#[trigger] f[k]).0 <= f[k].1 <= count by {
            if r.len() > 0 && mergeable(r.last(), s.last(), t) {
                if k < r.len() - 1 {
                    assert(f[k] == r[k]);
                } else {
                    assert(r[r.len() - 1] == r.last());
                }
            } else {
                if k < r.len() {
                    assert(f[k] == r[k]);
                }
            }
        }
    }
}

fn kind_for(blocks: &Vec<CodeBlock>, m: (usize, usize)) -> (r: String)
    ensures
        r@ == merged_kind(blocks@, m, 0),
{
    let mut i: usize = 0;
    while i < blocks.len()
        invariant
            i <= blocks@.len(),
            merged_kind(blocks@, m, 0) == merged_kind(blocks@, m, i as int),
        decreases blocks@.len() - i,
    {
        if blocks[i].lines.0 == m.0 && blocks[i].lines.1 == m.1 {
            return blocks[i].node_type.clone();
        }
        i = i + 1;
    }
    String::from_str("merged_ast_range")
}

/// Merges the blocks of one file, ordered by start line, whose gap is at most
/// `threshold` lines: one block per merged span, with the span's text and
/// terms; a span that merged nothing keeps its block's kind, any other is a
/// `merged_ast_range`.
pub fn merge_file_blocks(file: &String, lines: &Vec<String>, blocks: &Vec<CodeBlock>, threshold: usize) -> (r: Vec<CodeBlock>)
    requires
        forall|k: int| 0 <= k < blocks@.len() ==> 1 <= (#[trigger] blocks@[k]).lines.0 <= blocks@[k].lines.1 <= lines@.len(),
    ensures
        r@.len() == merge_spec(spans_of(blocks@), threshold as nat).len(),
        forall|k: int| 0 <= k < r@.len() ==> {
            let m = merge_spec(spans_of(blocks@), threshold as nat)[k];
            &&& (#[trigger] r@[k]).lines == m
            &&& r@[k].file@ == file@
            &&& r@[k].node_type@ == merged_kind(blocks@, m, 0)
            &&& r@[k].code@ == crate::extract::join_lines(crate::extract::lines_view(lines@).subrange(m.0 - 1, m.1 as int))
            &&& crate::tokenize::strings_view(r@[k].tokenized_content@) == crate::tokenize::tokens_spec(r@[k].code@)
                + crate::tokenize::tokens_spec(crate::tokenize::file_stem_spec(file@))
        },
{
    let mut spans: Vec<(usize, usize)> = Vec::new();
    let mut i: usize = 0;
    while i < blocks.len()
        invariant
            i <= blocks@.len(),
            spans@ == spans_of(blocks@).subrange(0, i as int),
        decreases blocks@.len() - i,
    {
        spans.push(blocks[i].lines);
        i = i + 1;
        assert(spans@ =~= spans_of(blocks@).subrange(0, i as int));
    }
    assert(spans@ =~= spans_of(blocks@));
    let merged = merge_spans(&spans, threshold);
    proof {
        assert forall|k: int| 0 <= k < spans@.len() implies 1 <= (#[trigger] spans@[k]).0 <= spans@[k].1 <= lines@.len() by {
            assert(spans@[k] == blocks@[k].lines);
        }
        lemma_merge_bounds(spans@, threshold as nat, lines@.len() as int);
    }
    let mut out: Vec<CodeBlock> = Vec::new();
    let mut k: usize = 0;
    while k < merged.len()
        invariant
            merged@ == merge_spec(spans_of(blocks@), threshold as nat),
            forall|q: int| 0 <= q < merged@.len() ==> 1 <= (#[trigger] merged@[q]).0 <= merged@[q].1 <= lines@.len(),
            k <= merged@.len(),
            out@.len() == k,
            forall|q: int| 0 <= q < k ==> {
                let m = merged@[q];
                &&& (#[trigger] out@[q]).lines == m
                &&& out@[q].file@ == file@
                &&& out@[q].node_type@ == merged_kind(blocks@, m, 0)
                &&& out@[q].code@ == crate::extract::join_lines(crate::extract::lines_view(lines@).subrange(m.0 - 1, m.1 as int))
                &&& crate::tokenize::strings_view(out@[q].tokenized_content@) == crate::tokenize::tokens_spec(out@[q].code@)
                    + crate::tokenize::tokens_spec(crate::tokenize::file_stem_spec(file@))
            },
        decreases merged@.len() - k,
    {
        let m = merged[k];
        let code = crate::extract::range_text(lines, m.0, m.1);
        let tokens = crate::tokenize::tokenize_with_filename(code.as_str(), file.as_str());
        let b = CodeBlock {
            file: file.clone(),
            lines: m,
            node_type: kind_for(blocks, m),
            code,
            symbol_signature: None,
            matched_lines: None,
            tokenized_content: tokens,
        };
        out.push(b);
        k = k + 1;
    }
    out
}

/// Merges the blocks of one file (see `merge_file_blocks`) and keeps the
/// merged blocks that satisfy the plan, so every block handed on holds each
/// required term and no excluded one.
pub fn merge_matching(
    file: &String,
    lines: &Vec<String>,
    blocks: &Vec<CodeBlock>,
    threshold: usize,
    plan: &QueryPlan,
) -> (r: Vec<CodeBlock>)
    requires
        forall|k: int| 0 <= k < blocks@.len() ==> 1 <= (#[trigger] blocks@[k]).lines.0 <= blocks@[k].lines.1 <= lines@.len(),
    ensures
        exists|m: Seq<CodeBlock>|
            m.len() == merge_spec(spans_of(blocks@), threshold as nat).len() && r@ == filter_marked(
                m,
                pass_marks(m, *plan),
                m.len(),
            ) && forall|k: int|
                0 <= k < m.len() ==> (#[trigger] m[k]).lines == merge_spec(spans_of(blocks@), threshold as nat)[k]
                    && m[k].file@ == file@,
        forall|k: int| 0 <= k < r@.len() ==> terms_pass((#[trigger] r@[k]).code@, r@[k].tokenized_content@, *plan),
{
    let merged = merge_file_blocks(file, lines, blocks, threshold);
    let ghost m = merged@;
    let r = select_blocks(merged, plan);
    proof {
        crate::query::lemma_selected_hold_required(m, *plan);
    }
    r
}

} // verus!
