//! Result budgets: how many ranked blocks fit under the result, byte and
//! token limits, and which files lost blocks to them.

use vstd::prelude::*;
use vstd::utf8::encode_utf8;
use crate::blocks::CodeBlock;

verus! {

/// Optional budgets on the number of results, their bytes and their tokens.
#[derive(Clone, Copy, Debug, PartialEq, Eq, Structural)]
pub struct Limits {
    pub max_results: Option<usize>,
    pub max_bytes: Option<usize>,
    pub max_tokens: Option<usize>,
}

/// Sum of the first `k` values of `s`.
pub open spec fn prefix_sum(s: Seq<usize>, k: int) -> int
    decreases k,
{
    if k <= 0 || k > s.len() {
        0
    } else {
        prefix_sum(s, k - 1) + s[k - 1]
    }
}

/// The first `k` blocks, of the given byte and token sizes, stay within every budget.
pub open spec fn fits(bytes: Seq<usize>, tokens: Seq<usize>, lim: Limits, k: int) -> bool {
    &&& (lim.max_results matches Some(m) ==> k <= m)
    &&& (lim.max_bytes matches Some(m) ==> prefix_sum(bytes, k) <= m)
    &&& (lim.max_tokens matches Some(m) ==> prefix_sum(tokens, k) <= m)
}

/// The number of leading blocks accepted: blocks are taken in order while the
/// next one keeps every budget; the first that would break one stops it.
pub fn accepted_count(bytes: &Vec<usize>, tokens: &Vec<usize>, lim: Limits) -> (r: usize)
    requires
        bytes@.len() == tokens@.len(),
    ensures
        r <= bytes@.len(),
        forall|j: int| 0 <= j <= r ==> #[trigger] fits(bytes@, tokens@, lim, j),
        r < bytes@.len() ==> !fits(bytes@, tokens@, lim, r + 1),
{
    let n = bytes.len();
    let mut k: usize = 0;
    let mut sb: usize = 0;
    let mut st: usize = 0;
    while k < n
        invariant
            n == bytes@.len(),
            n == tokens@.len(),
            k <= n,
            lim.max_bytes is Some ==> sb as int == prefix_sum(bytes@, k as int),
            lim.max_tokens is Some ==> st as int == prefix_sum(tokens@, k as int),
            forall|j: int| 0 <= j <= k ==> #[trigger] fits(bytes@, tokens@, lim, j),
        decreases n - k,
    {
        let ok_count = match lim.max_results {
            Some(m) => k < m,
            None => true,
        };
        let ok_bytes = match lim.max_bytes {
            Some(m) => sb <= m && bytes[k] <= m - sb,
            None => true,
        };
        let ok_tokens = match lim.max_tokens {
            Some(m) => st <= m && tokens[k] <= m - st,
            None => true,
        };
        if !(ok_count && ok_bytes && ok_tokens) {
            return k;
        }
        if lim.max_bytes.is_some() {
            sb = sb + bytes[k];
        }
        if lim.max_tokens.is_some() {
            st = st + tokens[k];
        }
        k = k + 1;
    }
    k
}

} // verus!

verus! {

/// A file whose blocks, or some of them, the budgets left out.
pub struct SkippedFile {
    pub file_path: String,
    pub skipped_blocks: usize,
}

/// What the limiter returns: the accepted blocks, in order, the files that
/// lost blocks, and the budgets in force (`None` where none was set).
pub struct LimitOutcome {
    pub accepted: Vec<CodeBlock>,
    pub skipped_files: Vec<SkippedFile>,
    pub limits_applied: Option<Limits>,
}

/// Bytes of a block's code, in UTF-8.
pub open spec fn block_bytes(b: CodeBlock) -> int {
    encode_utf8(b.code@).len() as int
}

/// Number of blocks of `s` from file `f`.
pub open spec fn file_count(s: Seq<CodeBlock>, f: Seq<char>) -> nat
    decreases s.len(),
{
    if s.len() == 0 {
        0
    } else {
        file_count(s.drop_last(), f) + if s.last().file@ == f { 1nat } else { 0nat }
    }
}

/// Block `i` is the first of `s` from its file.
pub open spec fn first_of_file(s: Seq<CodeBlock>, i: int) -> bool {
    forall|j: int| 0 <= j < i ==> (#[trigger] s[j]).file@ != s[i].file@
}

/// One entry per file of `s`, among its first `n` blocks, in order of first
/// appearance: the file and how many blocks of all `s` come from it.
pub open spec fn skipped_spec(s: Seq<CodeBlock>, n: int) -> Seq<(Seq<char>, nat)>
    decreases n,
{
    if n <= 0 || n > s.len() {
        Seq::empty()
    } else {
        let p = skipped_spec(s, n - 1);
        if first_of_file(s, n - 1) {
            p.push((s[n - 1].file@, file_count(s, s[n - 1].file@)))
        } else {
            p
        }
    }
}

/// The view of a skipped-file entry: its file and its count.
pub open spec fn skipped_view(v: Seq<SkippedFile>) -> Seq<(Seq<char>, nat)> {
    v.map_values(|e: SkippedFile| (e.file_path@, e.skipped_blocks as nat))
}

fn count_file(s: &Vec<CodeBlock>, f: &String) -> (r: usize)
    ensures
        r == file_count(s@, f@),
{
    let mut c: usize = 0;
    let mut i: usize = 0;
    while i < s.len()
        invariant
            i <= s@.len(),
            c == file_count(s@.subrange(0, i as int), f@),
            c <= i,
        decreases s@.len() - i,
    {
        assert(s@.subrange(0, i + 1).drop_last() =~= s@.subrange(0, i as int));
        if s[i].file == *f {
            c = c + 1;
        }
        i = i + 1;
    }
    assert(s@.subrange(0, s@.len() as int) =~= s@);
    c
}

fn is_first_of_file(s: &Vec<CodeBlock>, i: usize) -> (r: bool)
    requires
        i < s@.len(),
    ensures
        r == first_of_file(s@, i as int),
{
    let mut j: usize = 0;
    while j < i
        invariant
            i < s@.len(),
            j <= i,
            forall|q: int| 0 <= q < j ==> (#[trigger] s@[q]).file@ != s@[i as int].file@,
        decreases i - j,
    {
        if s[j].file == s[i].file {
            return false;
        }
        j = j + 1;
    }
    true
}

/// The files of `s`, each once, in order of first appearance, with how many
/// blocks come from each.
pub fn skipped_files(s: &Vec<CodeBlock>) -> (r: Vec<SkippedFile>)
    ensures
        skipped_view(r@) == skipped_spec(s@, s@.len() as int),
{
    let mut out: Vec<SkippedFile> = Vec::new();
    let mut i: usize = 0;
    while i < s.len()
        invariant
            i <= s@.len(),
            skipped_view(out@) == skipped_spec(s@, i as int),
        decreases s@.len() - i,
    {
        if is_first_of_file(s, i) {
            let c = count_file(s, &s[i].file);
            let e = SkippedFile { file_path: s[i].file.clone(), skipped_blocks: c };
            out.push(e);
            assert(skipped_view(out@) =~= skipped_spec(s@, i + 1));
        } else {
            assert(skipped_view(out@) =~= skipped_spec(s@, i + 1));
        }
        i = i + 1;
    }
    out
}

/// Applies the budgets to ranked blocks whose token counts are `tokens`: the
/// accepted blocks are the longest prefix that keeps every budget, stopping
/// at the first block that would break one; the files of all later blocks
/// are reported with their counts.
pub fn apply_limits(blocks: Vec<CodeBlock>, tokens: &Vec<usize>, lim: Limits) -> (r: LimitOutcome)
    requires
        tokens@.len() == blocks@.len(),
    ensures
        ({
            let k = r.accepted@.len() as int;
            let bytes = Seq::new(blocks@.len(), |i: int| block_bytes(blocks@[i]) as usize);
            &&& k <= blocks@.len()
            &&& r.accepted@ == blocks@.subrange(0, k)
            &&& forall|j: int| 0 <= j <= k ==> #[trigger] fits(bytes, tokens@, lim, j)
            &&& k < blocks@.len() ==> !fits(bytes, tokens@, lim, k + 1)
            &&& skipped_view(r.skipped_files@) == skipped_spec(
                blocks@.subrange(k, blocks@.len() as int),
                blocks@.len() - k,
            )
        }),
        r.limits_applied == (if lim.max_results is None && lim.max_bytes is None && lim.max_tokens is None {
            None::<Limits>
        } else {
            Some(lim)
        }),
{
    let ghost orig = blocks@;
    let mut bytes: Vec<usize> = Vec::new();
    let mut i: usize = 0;
    while i < blocks.len()
        invariant
            i <= blocks@.len(),
            bytes@.len() == i,
            forall|q: int| 0 <= q < i ==> bytes@[q] == block_bytes(blocks@[q]) as usize,
        decreases blocks@.len() - i,
    {
        bytes.push(blocks[i].code.as_str().len());
        i = i + 1;
    }
    assert(bytes@ =~= Seq::new(blocks@.len(), |q: int| block_bytes(blocks@[q]) as usize));
    let k = accepted_count(&bytes, tokens, lim);
    let mut accepted = blocks;
    let rest = accepted.split_off(k);
    let files = skipped_files(&rest);
    let applied = if lim.max_results.is_none() && lim.max_bytes.is_none() && lim.max_tokens.is_none() {
        None
    } else {
        Some(lim)
    };
    LimitOutcome { accepted, skipped_files: files, limits_applied: applied }
}

/// A result budget of zero accepts no block at all, so every block goes to
/// the skipped files.
pub proof fn lemma_zero_results(bytes: Seq<usize>, tokens: Seq<usize>, lim: Limits)
    requires
        lim.max_results == Some(0usize),
    ensures
        forall|k: int| k > 0 ==> !#[trigger] fits(bytes, tokens, lim, k),
{
}

} // verus!

verus! {

/// The number of terms of each block's code; blocks with the same code are
/// tokenized once and share the count.
pub fn block_token_counts(blocks: &Vec<CodeBlock>) -> (r: Vec<usize>)
    ensures
        r@.len() == blocks@.len(),
        forall|i: int| 0 <= i < blocks@.len() ==> r@[i] as int == crate::tokenize::tokens_spec(
            (#[trigger] blocks@[i]).code@,
        ).len(),
{
    let mut out: Vec<usize> = Vec::new();
    let mut i: usize = 0;
    while i < blocks.len()
        invariant
            i <= blocks@.len(),
            out@.len() == i,
            forall|q: int| 0 <= q < i ==> out@[q] as int == crate::tokenize::tokens_spec((#[trigger] blocks@[q]).code@).len(),
        decreases blocks@.len() - i,
    {
        let mut j: usize = 0;
        while j < i && blocks[j].code != blocks[i].code
            invariant
                j <= i < blocks@.len(),
            decreases i - j,
        {
            j = j + 1;
        }
        if j < i {
            let c = out[j];
            out.push(c);
        } else {
            let toks = crate::tokenize::tokenize(blocks[i].code.as_str());
            assert(crate::tokenize::strings_view(toks@).len() == toks@.len());
            out.push(toks.len());
        }
        i = i + 1;
    }
    out
}

} // verus!
