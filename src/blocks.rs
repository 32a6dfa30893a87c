//! Code blocks, their deduplication and the merging of adjacent line spans.

use vstd::prelude::*;

verus! {

/// A span of a source file returned as one unit: lines `lines.0 ..= lines.1`, 1-based.
pub struct CodeBlock {
    pub file: String,
    pub lines: (usize, usize),
    pub node_type: String,
    pub code: String,
    pub symbol_signature: Option<String>,
    pub matched_lines: Option<Vec<usize>>,
    pub tokenized_content: Vec<String>,
}

/// Whether `a` holds `b`: same file, and `b`'s lines lie within `a`'s.
pub open spec fn contains(a: CodeBlock, b: CodeBlock) -> bool {
    &&& a.file@ == b.file@
    &&& a.lines.0 <= b.lines.0
    &&& b.lines.1 <= a.lines.1
}

/// Whether two blocks cover the same lines of the same file.
pub open spec fn same_place(a: CodeBlock, b: CodeBlock) -> bool {
    a.file@ == b.file@ && a.lines == b.lines
}

/// Block `i` of `s` survives deduplication: no other block holds it, except a
/// later one at the very same place (the first of equal blocks is kept).
pub open spec fn survives(s: Seq<CodeBlock>, i: int) -> bool {
    forall|j: int|
        0 <= j < s.len() && j != i && #[trigger] contains(s[j], s[i])
            ==> same_place(s[j], s[i]) && i < j
}

/// The elements of `s` among its first `n` whose mark in `m` is set, in order.
pub open spec fn filter_marked<T>(s: Seq<T>, m: Seq<bool>, n: nat) -> Seq<T>
    decreases n,
{
    if n == 0 {
        Seq::empty()
    } else {
        let p = filter_marked(s, m, (n - 1) as nat);
        if m[n - 1] {
            p.push(s[n - 1])
        } else {
            p
        }
    }
}

/// The blocks of `s` that survive deduplication, in their order.
pub open spec fn dedup_spec(s: Seq<CodeBlock>) -> Seq<CodeBlock> {
    filter_marked(s, Seq::new(s.len(), |i: int| survives(s, i)), s.len())
}

/// No block of `s` holds another one.
pub open spec fn nest_free(s: Seq<CodeBlock>) -> bool {
    forall|x: int, y: int|
        0 <= x < s.len() && 0 <= y < s.len() && x != y ==> !#[trigger] contains(s[x], s[y])
}

proof fn lemma_survivors_unnested(s: Seq<CodeBlock>, i: int, j: int)
    requires
        0 <= i < s.len(),
        0 <= j < s.len(),
        i != j,
        survives(s, i),
        survives(s, j),
    ensures
        !contains(s[i], s[j]),
{
    if contains(s[i], s[j]) {
        assert(same_place(s[i], s[j]) && j < i);
        assert(contains(s[j], s[i]));
        assert(i < j);
    }
}

/// `e` is one of the first `n` elements of `s` whose mark in `m` is set.
pub open spec fn marked_in<T>(s: Seq<T>, m: Seq<bool>, n: int, e: T) -> bool {
    exists|i: int| 0 <= i < n && m[i] && s[i] == e
}

/// Every element kept by `filter_marked` is a marked element of the input,
/// and at most `n` are kept.
pub proof fn lemma_filter_origin<T>(s: Seq<T>, m: Seq<bool>, n: nat)
    requires
        n <= s.len(),
        n <= m.len(),
    ensures
        filter_marked(s, m, n).len() <= n,
        forall|x: int|
            0 <= x < filter_marked(s, m, n).len() ==> #[trigger] marked_in(
                s,
                m,
                n as int,
                filter_marked(s, m, n)[x],
            ),
    decreases n,
{
    if n > 0 {
        lemma_filter_origin(s, m, (n - 1) as nat);
        let p = filter_marked(s, m, (n - 1) as nat);
        let f = filter_marked(s, m, n);
        assert forall|x: int| 0 <= x < f.len() implies #[trigger] marked_in(s, m, n as int, f[x]) by {
            if x < p.len() {
                assert(f[x] == p[x]);
                assert(marked_in(s, m, n - 1, p[x]));
                let i = choose|i: int| 0 <= i < n - 1 && m[i] && s[i] == p[x];
                assert(0 <= i < n && m[i] && s[i] == f[x]);
            } else {
                assert(f[x] == s[n - 1]);
                assert(0 <= n - 1 < n && m[n - 1] && s[n - 1] == f[x]);
            }
        }
    }
}

proof fn lemma_dedup_prefix_nest_free(s: Seq<CodeBlock>, n: nat)
    requires
        n <= s.len(),
    ensures
        nest_free(filter_marked(s, Seq::new(s.len(), |i: int| survives(s, i)), n)),
    decreases n,
{
    let m = Seq::new(s.len(), |i: int| survives(s, i));
    if n > 0 {
        lemma_dedup_prefix_nest_free(s, (n - 1) as nat);
        lemma_filter_origin(s, m, (n - 1) as nat);
        let p = filter_marked(s, m, (n - 1) as nat);
        let f = filter_marked(s, m, n);
        if m[n - 1] {
            let e = s[n - 1];
            assert forall|x: int, y: int|
                0 <= x < f.len() && 0 <= y < f.len() && x != y implies !#[trigger] contains(f[x], f[y]) by {
                if x < p.len() && y < p.len() {
                    assert(f[x] == p[x] && f[y] == p[y]);
                } else if x < p.len() {
                    assert(marked_in(s, m, n - 1, p[x]));
                    let i = choose|i: int| 0 <= i < n - 1 && m[i] && s[i] == p[x];
                    assert(f[x] == s[i] && f[y] == e);
                    lemma_survivors_unnested(s, i, n - 1);
                } else {
                    assert(marked_in(s, m, n - 1, p[y]));
                    let i = choose|i: int| 0 <= i < n - 1 && m[i] && s[i] == p[y];
                    assert(f[y] == s[i] && f[x] == e);
                    lemma_survivors_unnested(s, n - 1, i);
                }
            }
        }
    }
}

/// After deduplication no block holds another one.
pub proof fn lemma_dedup_nest_free(s: Seq<CodeBlock>)
    ensures
        nest_free(dedup_spec(s)),
{
    lemma_dedup_prefix_nest_free(s, s.len());
}

/// Keeps the elements of `v` whose mark is set, in order.
pub fn keep_marked<T>(v: Vec<T>, keep: &Vec<bool>) -> (r: Vec<T>)
    requires
        keep@.len() == v@.len(),
    ensures
        r@ == filter_marked(v@, keep@, v@.len() as nat),
{
    let ghost orig = v@;
    let n = v.len();
    let mut rest = v;
    let mut out: Vec<T> = Vec::new();
    let mut i: usize = 0;
    while i < n
        invariant
            n == orig.len(),
            keep@.len() == n,
            i <= n,
            rest@ == orig.subrange(i as int, n as int),
            out@ == filter_marked(orig, keep@, i as nat),
        decreases n - i,
    {
        let x = rest.remove(0);
        assert(x == orig[i as int]);
        if keep[i] {
            out.push(x);
        }
        i = i + 1;
        assert(rest@ =~= orig.subrange(i as int, n as int));
    }
    out
}

fn holds(a: &CodeBlock, b: &CodeBlock) -> (r: bool)
    ensures
        r == contains(*a, *b),
{
    a.file == b.file && a.lines.0 <= b.lines.0 && b.lines.1 <= a.lines.1
}

/// Drops every block that another block holds; of blocks at the same place
/// only the first is kept. The survivors keep their order.
pub fn deduplicate_blocks(blocks: Vec<CodeBlock>) -> (r: Vec<CodeBlock>)
    ensures
        r@ == dedup_spec(blocks@),
{
    let n = blocks.len();
    let mut keep: Vec<bool> = Vec::new();
    let mut i: usize = 0;
    while i < n
        invariant
            n == blocks@.len(),
            i <= n,
            keep@.len() == i,
            forall|k: int| 0 <= k < i ==> keep@[k] == survives(blocks@, k),
        decreases n - i,
    {
        let mut ok = true;
        let mut j: usize = 0;
        while j < n
            invariant
                n == blocks@.len(),
                i < n,
                j <= n,
                ok == (forall|k: int|
                    0 <= k < j && k != i && #[trigger] contains(blocks@[k], blocks@[i as int])
                        ==> same_place(blocks@[k], blocks@[i as int]) && i < k),
            decreases n - j,
        {
            if j != i && holds(&blocks[j], &blocks[i]) {
                let same = blocks[j].lines.0 == blocks[i].lines.0 && blocks[j].lines.1 == blocks[i].lines.1;
                if !same || j < i {
                    ok = false;
                }
            }
            j = j + 1;
        }
        keep.push(ok);
        i = i + 1;
    }
    let ghost s = blocks@;
    assert(keep@ =~= Seq::new(s.len(), |k: int| survives(s, k)));
    keep_marked(blocks, &keep)
}

} // verus!

verus! {

/// Whether the span `b` starts after `a` ends, within `t` lines.
pub open spec fn mergeable(a: (usize, usize), b: (usize, usize), t: nat) -> bool {
    a.1 <= b.0 && b.0 <= a.1 + t
}

/// Merging of line spans, taken in order: a span that starts within `t` lines
/// after the end of the last merged span extends it, any other span starts a new one.
pub open spec fn merge_spec(s: Seq<(usize, usize)>, t: nat) -> Seq<(usize, usize)>
    decreases s.len(),
{
    if s.len() == 0 {
        Seq::empty()
    } else {
        let r = merge_spec(s.drop_last(), t);
        let x = s.last();
        if r.len() > 0 && mergeable(r.last(), x, t) {
            let end = if x.1 >= r.last().1 { x.1 } else { r.last().1 };
            r.update(r.len() - 1, (r.last().0, end))
        } else {
            r.push(x)
        }
    }
}

/// Merges line spans of one file, taken in order, whose gap is at most
/// `threshold` lines.
pub fn merge_spans(spans: &Vec<(usize, usize)>, threshold: usize) -> (r: Vec<(usize, usize)>)
    ensures
        r@ == merge_spec(spans@, threshold as nat),
{
    let n = spans.len();
    let mut out: Vec<(usize, usize)> = Vec::new();
    let mut i: usize = 0;
    while i < n
        invariant
            n == spans@.len(),
            i <= n,
            out@ == merge_spec(spans@.subrange(0, i as int), threshold as nat),
        decreases n - i,
    {
        let x = spans[i];
        let ghost pre = spans@.subrange(0, i as int);
        let ghost cur = spans@.subrange(0, i as int + 1);
        assert(cur.drop_last() =~= pre);
        let len = out.len();
        if len > 0 {
            let last = out[len - 1];
            if last.1 <= x.0 && (x.0 - last.1) <= threshold {
                let end = if x.1 >= last.1 { x.1 } else { last.1 };
                out.pop();
                out.push((last.0, end));
                proof {
                    assert(out@ =~= merge_spec(cur, threshold as nat));
                }
            } else {
                out.push(x);
            }
        } else {
            out.push(x);
        }
        i = i + 1;
    }
    assert(spans@.subrange(0, n as int) =~= spans@);
    out
}

/// Merging reaches a fixed point: no two neighbouring spans of the result
/// could be merged again.
pub proof fn lemma_merge_fixed_point(s: Seq<(usize, usize)>, t: nat)
    ensures
        forall|k: int|
            0 <= k < merge_spec(s, t).len() - 1 ==> !mergeable(
                #[trigger] merge_spec(s, t)[k],
                merge_spec(s, t)[k + 1],
                t,
            ),
    decreases s.len(),
{
    if s.len() > 0 {
        lemma_merge_fixed_point(s.drop_last(), t);
        let r = merge_spec(s.drop_last(), t);
        let f = merge_spec(s, t);
        assert forall|k: int| 0 <= k < f.len() - 1 implies !mergeable(#[trigger] f[k], f[k + 1], t) by {
            if k + 1 < r.len() {
                assert(f[k] == r[k]);
                if k + 1 == r.len() - 1 {
                    assert(f[k + 1].0 == r[k + 1].0);
                } else {
                    assert(f[k + 1] == r[k + 1]);
                }
            }
        }
    }
}

} // verus!

verus! {

/// `a` comes before `b` in lexicographic order of characters.
pub open spec fn lex_lt(a: Seq<char>, b: Seq<char>) -> bool
    decreases a.len(),
{
    if a.len() == 0 {
        b.len() > 0
    } else if b.len() == 0 {
        false
    } else if a[0] != b[0] {
        a[0] < b[0]
    } else {
        lex_lt(a.drop_first(), b.drop_first())
    }
}

/// The number of lines a block spans, less one.
pub open spec fn span_size(b: CodeBlock) -> int {
    b.lines.1 - b.lines.0
}

/// `a` sorts strictly before `b`: by file, then larger spans first.
pub open spec fn block_lt(a: CodeBlock, b: CodeBlock) -> bool {
    lex_lt(a.file@, b.file@) || (a.file@ == b.file@ && span_size(a) > span_size(b))
}

/// Blocks sorted by file, then by span size, largest first.
pub open spec fn sorted_blocks(s: Seq<CodeBlock>) -> bool {
    forall|i: int, j: int| 0 <= i < j < s.len() ==> !block_lt(#[trigger] s[j], #[trigger] s[i])
}

proof fn lemma_lex_trans(a: Seq<char>, b: Seq<char>, c: Seq<char>)
    requires
        lex_lt(a, b),
        lex_lt(b, c),
    ensures
        lex_lt(a, c),
    decreases a.len(),
{
    if a.len() > 0 && b.len() > 0 && c.len() > 0 && a[0] == b[0] && b[0] == c[0] {
        lemma_lex_trans(a.drop_first(), b.drop_first(), c.drop_first());
    }
}

proof fn lemma_lex_irrefl(a: Seq<char>)
    ensures
        !lex_lt(a, a),
    decreases a.len(),
{
    if a.len() > 0 {
        lemma_lex_irrefl(a.drop_first());
    }
}

proof fn lemma_block_lt_trans(a: CodeBlock, b: CodeBlock, c: CodeBlock)
    requires
        block_lt(a, b),
        block_lt(b, c),
    ensures
        block_lt(a, c),
{
    if lex_lt(a.file@, b.file@) && lex_lt(b.file@, c.file@) {
        lemma_lex_trans(a.file@, b.file@, c.file@);
    }
}

fn lex_less(a: &Vec<char>, b: &Vec<char>) -> (r: bool)
    ensures
        r == lex_lt(a@, b@),
{
    let mut i: usize = 0;
    assert(a@.subrange(0, a@.len() as int) =~= a@);
    assert(b@.subrange(0, b@.len() as int) =~= b@);
    while i < a.len() && i < b.len() && a[i] == b[i]
        invariant
            i <= a@.len(),
            i <= b@.len(),
            lex_lt(a@, b@) == lex_lt(a@.subrange(i as int, a@.len() as int), b@.subrange(i as int, b@.len() as int)),
        decreases a@.len() - i,
    {
        assert(a@.subrange(i as int, a@.len() as int).drop_first() =~= a@.subrange(i + 1, a@.len() as int));
        assert(b@.subrange(i as int, b@.len() as int).drop_first() =~= b@.subrange(i + 1, b@.len() as int));
        i = i + 1;
    }
    if i == a.len() {
        i < b.len()
    } else if i == b.len() {
        false
    } else {
        a[i] < b[i]
    }
}

fn block_less(a: &CodeBlock, b: &CodeBlock) -> (r: bool)
    ensures
        r == block_lt(*a, *b),
{
    let af = crate::text::chars_of(a.file.as_str());
    let bf = crate::text::chars_of(b.file.as_str());
    if lex_less(&af, &bf) {
        return true;
    }
    let sa: i128 = a.lines.1 as i128 - a.lines.0 as i128;
    let sb: i128 = b.lines.1 as i128 - b.lines.0 as i128;
    a.file == b.file && sa > sb
}

/// The blocks sorted by file, then by span size with the largest first;
/// blocks that tie keep their order.
pub fn sort_blocks(v: Vec<CodeBlock>) -> (r: Vec<CodeBlock>)
    ensures
        sorted_blocks(r@),
        r@.to_multiset() == v@.to_multiset(),
{
    broadcast use vstd::seq_lib::group_to_multiset_ensures;
    let ghost orig = v@;
    let n = v.len();
    let mut rest = v;
    let mut out: Vec<CodeBlock> = Vec::new();
    let mut i: usize = 0;
    while i < n
        invariant
            n == orig.len(),
            i <= n,
            rest@ == orig.subrange(i as int, n as int),
            sorted_blocks(out@),
            out@.to_multiset() == orig.subrange(0, i as int).to_multiset(),
        decreases n - i,
    {
        let x = rest.remove(0);
        assert(x == orig[i as int]);
        let mut p: usize = 0;
        while p < out.len() && !block_less(&x, &out[p])
            invariant
                p <= out@.len(),
                forall|k: int| 0 <= k < p ==> !block_lt(x, #[trigger] out@[k]),
            decreases out@.len() - p,
        {
            p = p + 1;
        }
        let ghost before = out@;
        out.insert(p, x);
        proof {
            assert(out@ == before.insert(p as int, x));
            assert forall|a: int, b: int| 0 <= a < b < out@.len() implies !block_lt(#[trigger] out@[b], #[trigger] out@[a]) by {
                if a < p && b == p {
                } else if a == p && b > p {
                    assert(out@[b] == before[b - 1]);
                    assert(out@[a] == x);
                    if block_lt(before[b - 1], x) {
                        assert(block_lt(x, before[p as int]));
                        lemma_block_lt_trans(before[b - 1], x, before[p as int]);
                        lemma_lex_irrefl(before[p as int].file@);
                        if b - 1 > p {
                            assert(!block_lt(before[b - 1], before[p as int]));
                        }
                    }
                } else if a < p && b > p {
                    assert(out@[a] == before[a] && out@[b] == before[b - 1]);
                } else if b < p {
                    assert(out@[a] == before[a] && out@[b] == before[b]);
                } else {
                    assert(out@[a] == before[a - 1] && out@[b] == before[b - 1]);
                }
            }
            assert(out@.remove(p as int) =~= before);
            assert(out@[p as int] == x);
            out@.to_multiset_ensures();
            before.to_multiset_ensures();
            assert(out@.remove(p as int).to_multiset() =~= out@.to_multiset().remove(out@[p as int]));
            assert(out@.contains(x));
            assert(out@.to_multiset().count(x) > 0);
            assert(out@.to_multiset() =~= before.to_multiset().insert(x));
            assert(orig.subrange(0, i + 1) =~= orig.subrange(0, i as int).push(x));
            orig.subrange(0, i as int).to_multiset_ensures();
            assert(orig.subrange(0, i + 1).to_multiset() =~= orig.subrange(0, i as int).to_multiset().insert(x));
        }
        i = i + 1;
        assert(rest@ =~= orig.subrange(i as int, n as int));
    }
    assert(orig.subrange(0, n as int) =~= orig);
    out
}

} // verus!

verus! {

/// The blocks that survive deduplication, sorted by file and then by span
/// size with the largest first (outer blocks before the ones they would
/// have held).
pub fn deduplicate_sorted(blocks: Vec<CodeBlock>) -> (r: Vec<CodeBlock>)
    ensures
        sorted_blocks(r@),
        r@.to_multiset() == dedup_spec(blocks@).to_multiset(),
{
    sort_blocks(deduplicate_blocks(blocks))
}

} // verus!
