//! Symbols of a parsed Go file: the declarations at its top level, and the
//! signature of the declaration that covers a span of lines.

use vstd::prelude::*;
use vstd::string::StringExecFns;
use crate::blocks::CodeBlock;
use crate::language::{GoLanguage, go_acceptable, go_test_node, go_signature};
use crate::syntax::{SyntaxTree, tree_wf, is_child};
use crate::text::str_eq;
use vstd::utf8::encode_utf8;

verus! {

/// The symbol block of top-level node `j`, if it is listed: not a test
/// (unless tests are allowed), of an acceptable kind, and with a signature.
pub open spec fn symbol_of(t: SyntaxTree, j: int, src: Seq<u8>, allow_tests: bool) -> Option<Seq<char>> {
    if is_child(t, 0, j) && (allow_tests || !go_test_node(t, j, src)) && go_acceptable(t.nodes@[j].kind@) {
        go_signature(t, j, src)
    } else {
        None
    }
}

/// The symbols among nodes `0 .. n`, in order, as (lines, kind, signature).
pub open spec fn symbols_spec(t: SyntaxTree, src: Seq<u8>, allow_tests: bool, n: int) -> Seq<
    ((int, int), Seq<char>, Seq<char>),
>
    decreases n,
{
    if n <= 0 {
        Seq::empty()
    } else {
        let p = symbols_spec(t, src, allow_tests, n - 1);
        match symbol_of(t, n - 1, src, allow_tests) {
            Some(sig) => p.push(
                (
                    (t.nodes@[n - 1].start_row + 1, t.nodes@[n - 1].end_row + 1),
                    t.nodes@[n - 1].kind@,
                    sig,
                ),
            ),
            None => p,
        }
    }
}

/// What a symbol block shows: its lines, kind and signature.
pub open spec fn symbol_view(b: CodeBlock) -> ((int, int), Seq<char>, Seq<char>) {
    ((b.lines.0 as int, b.lines.1 as int), b.node_type@, match b.symbol_signature {
        Some(s) => s@,
        None => Seq::empty(),
    })
}

/// The top-level declarations of a parsed Go file, in source order, each as
/// a block of `file` with empty code and its signature; test functions are
/// left out unless `allow_tests` is set.
pub fn root_symbols(file: &String, t: &SyntaxTree, source: &Vec<u8>, allow_tests: bool) -> (r: Vec<CodeBlock>)
    requires
        tree_wf(*t, source@.len() as int),
    ensures
        r@.map_values(|b: CodeBlock| symbol_view(b)) == symbols_spec(*t, source@, allow_tests, t.nodes@.len() as int),
        forall|k: int| 0 <= k < r@.len() ==> (#[trigger] r@[k]).file@ == file@ && r@[k].code@.len() == 0,
        crate::syntax::starts_ordered(*t) ==> forall|a: int, b: int|
            0 <= a < b < r@.len() ==> (#[trigger] r@[a]).lines.0 <= (#[trigger] r@[b]).lines.0,
{
    let lang = GoLanguage::new();
    let mut out: Vec<CodeBlock> = Vec::new();
    let mut j: usize = 0;
    while j < t.nodes.len()
        invariant
            tree_wf(*t, source@.len() as int),
            j <= t.nodes@.len(),
            out@.map_values(|b: CodeBlock| symbol_view(b)) == symbols_spec(*t, source@, allow_tests, j as int),
            forall|k: int| 0 <= k < out@.len() ==> (#[trigger] out@[k]).file@ == file@ && out@[k].code@.len() == 0,
            crate::syntax::starts_ordered(*t) ==> forall|a: int, b: int|
                0 <= a < b < out@.len() ==> (#[trigger] out@[a]).lines.0 <= (#[trigger] out@[b]).lines.0,
            crate::syntax::starts_ordered(*t) && j > 0 ==> forall|k: int|
                0 <= k < out@.len() ==> (#[trigger] out@[k]).lines.0 <= t.nodes@[j - 1].start_row + 1,
            j == 0 ==> out@.len() == 0,
        decreases t.nodes@.len() - j,
    {
        let n = &t.nodes[j];
        assert(t.nodes@[j as int] == *n);
        proof {
            if crate::syntax::starts_ordered(*t) && j > 0 {
                assert(t.nodes@[j - 1].start_row <= t.nodes@[j as int].start_row);
            }
        }
        let mut listed = n.parent == Some(0usize);
        if listed && !allow_tests && lang.is_test_node(t, j, source) {
            listed = false;
        }
        if listed && !lang.is_acceptable_parent(n) {
            listed = false;
        }
        let sig = if listed { lang.get_symbol_signature(t, j, source) } else { None };
        assert(match sig { Some(s) => symbol_of(*t, j as int, source@, allow_tests) == Some(s@), None => symbol_of(*t, j as int, source@, allow_tests) is None });
        match sig {
            Some(s) => {
                let b = CodeBlock {
                    file: file.clone(),
                    lines: (n.start_row + 1, n.end_row + 1),
                    node_type: n.kind.clone(),
                    code: String::new(),
                    symbol_signature: Some(s),
                    matched_lines: None,
                    tokenized_content: Vec::new(),
                };
                out.push(b);
                assert(out@.map_values(|b: CodeBlock| symbol_view(b)) =~= symbols_spec(*t, source@, allow_tests, j + 1));
            },
            None => {
                assert(out@.map_values(|b: CodeBlock| symbol_view(b)) =~= symbols_spec(*t, source@, allow_tests, j + 1));
            },
        }
        j = j + 1;
    }
    out
}

/// Node `i` overlaps the bytes `lo ..= hi`.
pub open spec fn overlaps(t: SyntaxTree, i: int, lo: int, hi: int) -> bool {
    t.nodes@[i].start_byte <= hi && t.nodes@[i].end_byte >= lo
}

/// The signature found under node `i` for the bytes `lo ..= hi`: where `i`
/// overlaps them, the first child (in order) that yields one, else the
/// node's own signature, unless it is the whole file's node and does not
/// cover exactly these bytes.
pub open spec fn span_signature(t: SyntaxTree, i: int, lo: int, hi: int, src: Seq<u8>) -> Option<Seq<char>>
    decreases t.nodes@.len() - i, t.nodes@.len() + 1,
{
    if 0 <= i < t.nodes@.len() && overlaps(t, i, lo, hi) {
        match child_signature(t, i, i + 1, lo, hi, src) {
            Some(s) => Some(s),
            None => {
                let n = t.nodes@[i];
                if n.kind@ != "source_file"@ || (n.start_byte == lo && n.end_byte == hi) {
                    go_signature(t, i, src)
                } else {
                    None
                }
            },
        }
    } else {
        None
    }
}

/// The first signature found under a child `j >= from` of node `i`.
pub open spec fn child_signature(t: SyntaxTree, i: int, from: int, lo: int, hi: int, src: Seq<u8>) -> Option<Seq<char>>
    decreases t.nodes@.len() - i, t.nodes@.len() - from,
{
    if i < from < t.nodes@.len() && 0 <= i {
        let here = if is_child(t, i, from) { span_signature(t, from, lo, hi, src) } else { None };
        match here {
            Some(s) => Some(s),
            None => child_signature(t, i, from + 1, lo, hi, src),
        }
    } else {
        None
    }
}

/// The signature of the innermost declaration under node `i` that overlaps
/// the bytes `lo ..= hi`, children first and in order.
pub fn find_span_signature(t: &SyntaxTree, i: usize, lo: usize, hi: usize, source: &Vec<u8>) -> (r: Option<String>)
    requires
        tree_wf(*t, source@.len() as int),
        i < t.nodes@.len(),
    ensures
        r matches Some(s) ==> span_signature(*t, i as int, lo as int, hi as int, source@) == Some(s@),
        r is None ==> span_signature(*t, i as int, lo as int, hi as int, source@) is None,
    decreases t.nodes@.len() - i,
{
    let n = &t.nodes[i];
    assert(t.nodes@[i as int] == *n);
    if !(n.start_byte <= hi && n.end_byte >= lo) {
        return None;
    }
    let len = t.nodes.len();
    let mut j: usize = i + 1;
    while j < len
        invariant
            tree_wf(*t, source@.len() as int),
            i < j <= t.nodes@.len(),
            len == t.nodes@.len(),
            child_signature(*t, i as int, i + 1, lo as int, hi as int, source@) == child_signature(
                *t,
                i as int,
                j as int,
                lo as int,
                hi as int,
                source@,
            ),
        decreases t.nodes@.len() - j,
    {
        if t.nodes[j].parent == Some(i) {
            let found = find_span_signature(t, j, lo, hi, source);
            match found {
                Some(s) => {
                    return Some(s);
                },
                None => {},
            }
        }
        j = j + 1;
    }
    assert(child_signature(*t, i as int, j as int, lo as int, hi as int, source@) is None);
    if !str_eq(n.kind.as_str(), "source_file") || (n.start_byte == lo && n.end_byte == hi) {
        let lang = GoLanguage::new();
        lang.get_symbol_signature(t, i, source)
    } else {
        None
    }
}

/// Bytes taken by the first `k` lines, each with its newline.
pub open spec fn lines_bytes(lines: Seq<String>, k: int) -> int
    decreases k,
{
    if k <= 0 || k > lines.len() {
        0
    } else {
        lines_bytes(lines, k - 1) + (encode_utf8(lines[k - 1]@).len() as usize) + 1
    }
}

/// The byte span of lines `start ..= end` (clamped into the file) of a text
/// of `total` bytes split into `lines`: from the first byte of the start line
/// to the last byte before the end line's newline, or to the end of the text
/// for the last line.
pub open spec fn line_span_bytes(lines: Seq<String>, total: int, start: int, end: int) -> (int, int) {
    let n = lines.len() as int;
    let s = if start < 1 { 1 } else if start > n { n } else { start };
    let e = if end < s { s } else if end > n { n } else { end };
    (
        if s <= 1 { 0 } else { lines_bytes(lines, s - 1) },
        if e >= n { total } else if lines_bytes(lines, e) >= 1 { lines_bytes(lines, e) - 1 } else { 0 },
    )
}

proof fn lemma_lines_bytes_mono(lines: Seq<String>, a: int, b: int)
    requires
        0 <= a <= b <= lines.len(),
    ensures
        lines_bytes(lines, a) <= lines_bytes(lines, b),
    decreases b - a,
{
    if a < b {
        lemma_lines_bytes_mono(lines, a, b - 1);
    }
}

/// The byte span of lines `start ..= end` of a text of `total` bytes split
/// into `lines`, the lines clamped into the file.
pub fn line_byte_span(lines: &Vec<String>, total: usize, start: usize, end: usize) -> (r: (usize, usize))
    requires
        lines@.len() > 0,
        lines_bytes(lines@, lines@.len() as int) <= usize::MAX,
    ensures
        (r.0 as int, r.1 as int) == line_span_bytes(lines@, total as int, start as int, end as int),
{
    let n = lines.len();
    let s = if start < 1 { 1 } else if start > n { n } else { start };
    let e = if end < s { s } else if end > n { n } else { end };
    let mut acc: usize = 0;
    let mut k: usize = 0;
    let mut sb: usize = 0;
    let mut eb: usize = 0;
    while k < e
        invariant
            1 <= s <= e <= n == lines@.len(),
            k <= e,
            acc as int == lines_bytes(lines@, k as int),
            lines_bytes(lines@, n as int) <= usize::MAX,
            k > s - 1 ==> sb as int == lines_bytes(lines@, s - 1),
        decreases e - k,
    {
        if k == s - 1 {
            sb = acc;
        }
        proof {
            lemma_lines_bytes_mono(lines@, k + 1, n as int);
        }
        acc = acc + lines[k].as_str().len() + 1;
        k = k + 1;
    }
    let start_byte = if s <= 1 { 0 } else { sb };
    let end_byte = if e >= n { total } else if acc >= 1 { acc - 1 } else { 0 };
    (start_byte, end_byte)
}

/// The signature of the declaration that covers lines `start ..= end` of a
/// parsed Go file, whose text is `source` and whose lines are `lines`.
pub fn signature_for_lines(
    t: &SyntaxTree,
    source: &Vec<u8>,
    lines: &Vec<String>,
    start: usize,
    end: usize,
) -> (r: Option<String>)
    requires
        tree_wf(*t, source@.len() as int),
        lines_bytes(lines@, lines@.len() as int) <= usize::MAX,
    ensures
        t.nodes@.len() == 0 || lines@.len() == 0 ==> r is None,
        t.nodes@.len() > 0 && lines@.len() > 0 ==> ({
            let sp = line_span_bytes(lines@, source@.len() as int, start as int, end as int);
            match r {
                Some(s) => span_signature(*t, 0, sp.0, sp.1, source@) == Some(s@),
                None => span_signature(*t, 0, sp.0, sp.1, source@) is None,
            }
        }),
{
    if t.nodes.len() == 0 || lines.len() == 0 {
        return None;
    }
    let sp = line_byte_span(lines, source.len(), start, end);
    find_span_signature(t, 0, sp.0, sp.1, source)
}

/// Node `i` spans the bytes `lo .. hi`.
pub open spec fn spans(t: SyntaxTree, i: int, lo: int, hi: int) -> bool {
    t.nodes@[i].start_byte <= lo && hi <= t.nodes@[i].end_byte
}

/// The last node, in pre-order, among the first `n` that spans `lo .. hi`:
/// the deepest one.
pub open spec fn deepest(t: SyntaxTree, lo: int, hi: int, n: int) -> Option<int>
    decreases n,
{
    if n <= 0 || n > t.nodes@.len() {
        None
    } else if spans(t, n - 1, lo, hi) {
        Some(n - 1)
    } else {
        deepest(t, lo, hi, n - 1)
    }
}

/// The nearest node, from `i` up through its ancestors, of a kind returned as a block.
pub open spec fn acceptable_ancestor(t: SyntaxTree, i: int) -> Option<int>
    decreases i,
{
    if 0 <= i < t.nodes@.len() {
        if go_acceptable(t.nodes@[i].kind@) {
            Some(i)
        } else {
            match t.nodes@[i].parent {
                Some(p) => if p < i { acceptable_ancestor(t, p as int) } else { None },
                None => None,
            }
        }
    } else {
        None
    }
}

/// Node `i` or one of its ancestors is a test.
pub open spec fn within_test(t: SyntaxTree, i: int, src: Seq<u8>) -> bool
    decreases i,
{
    if 0 <= i < t.nodes@.len() {
        go_test_node(t, i, src) || match t.nodes@[i].parent {
            Some(p) => p < i && within_test(t, p as int, src),
            None => false,
        }
    } else {
        false
    }
}

/// The 0-based rows of the block for 1-based line `l`: the deepest node over
/// the line's bytes, then its nearest acceptable ancestor, unless that lies in a
/// test and tests are not allowed.
pub open spec fn block_rows(t: SyntaxTree, src: Seq<u8>, lines: Seq<String>, l: int, allow_tests: bool) -> Option<(usize, usize)> {
    let sp = line_span_bytes(lines, src.len() as int, l, l);
    match deepest(t, sp.0, sp.1, t.nodes@.len() as int) {
        Some(d) => match acceptable_ancestor(t, d) {
            Some(a) => if !allow_tests && within_test(t, a, src) {
                None
            } else {
                Some((t.nodes@[a].start_row, t.nodes@[a].end_row))
            },
            None => None,
        },
        None => None,
    }
}

/// The rows of the blocks for the first `n` needed lines, in order, those
/// without a block left out.
pub open spec fn rows_spec(t: SyntaxTree, src: Seq<u8>, lines: Seq<String>, needed: Seq<usize>, allow_tests: bool, n: int) -> Seq<(usize, usize)>
    decreases n,
{
    if n <= 0 || n > needed.len() {
        Seq::empty()
    } else {
        let p = rows_spec(t, src, lines, needed, allow_tests, n - 1);
        match block_rows(t, src, lines, needed[n - 1] as int, allow_tests) {
            Some(r) => p.push(r),
            None => p,
        }
    }
}

fn deepest_node(t: &SyntaxTree, lo: usize, hi: usize) -> (r: Option<usize>)
    ensures
        r matches Some(i) ==> deepest(*t, lo as int, hi as int, t.nodes@.len() as int) == Some(i as int)
            && i < t.nodes@.len(),
        r is None ==> deepest(*t, lo as int, hi as int, t.nodes@.len() as int) is None,
{
    let mut n = t.nodes.len();
    while n > 0
        invariant
            n <= t.nodes@.len(),
            deepest(*t, lo as int, hi as int, t.nodes@.len() as int) == deepest(*t, lo as int, hi as int, n as int),
        decreases n,
    {
        let nd = &t.nodes[n - 1];
        if nd.start_byte <= lo && hi <= nd.end_byte {
            return Some(n - 1);
        }
        n = n - 1;
    }
    None
}

fn acceptable_of(t: &SyntaxTree, i: usize) -> (r: Option<usize>)
    requires
        i < t.nodes@.len(),
    ensures
        r matches Some(a) ==> acceptable_ancestor(*t, i as int) == Some(a as int) && a < t.nodes@.len(),
        r is None ==> acceptable_ancestor(*t, i as int) is None,
{
    let lang = GoLanguage::new();
    let mut cur = i;
    loop
        invariant
            cur < t.nodes@.len(),
            acceptable_ancestor(*t, i as int) == acceptable_ancestor(*t, cur as int),
        decreases cur,
    {
        if lang.is_acceptable_parent(&t.nodes[cur]) {
            return Some(cur);
        }
        match t.nodes[cur].parent {
            Some(p) => {
                if p >= cur {
                    return None;
                }
                cur = p;
            },
            None => {
                return None;
            },
        }
    }
}

fn in_test(t: &SyntaxTree, i: usize, source: &Vec<u8>) -> (r: bool)
    requires
        tree_wf(*t, source@.len() as int),
        i < t.nodes@.len(),
    ensures
        r == within_test(*t, i as int, source@),
{
    let lang = GoLanguage::new();
    let mut cur = i;
    loop
        invariant
            tree_wf(*t, source@.len() as int),
            cur < t.nodes@.len(),
            within_test(*t, i as int, source@) == within_test(*t, cur as int, source@),
        decreases cur,
    {
        if lang.is_test_node(t, cur, source) {
            return true;
        }
        match t.nodes[cur].parent {
            Some(p) => {
                if p >= cur {
                    return false;
                }
                cur = p;
            },
            None => {
                return false;
            },
        }
    }
}

/// Resolves each needed line (1-based) of a parsed Go file to the rows of
/// its enclosing block, in order; lines whose block is a test (unless tests
/// are allowed) or that have none give nothing.
pub fn resolve_block_rows(
    t: &SyntaxTree,
    source: &Vec<u8>,
    lines: &Vec<String>,
    needed: &Vec<usize>,
    allow_tests: bool,
) -> (r: Vec<(usize, usize)>)
    requires
        tree_wf(*t, source@.len() as int),
        lines@.len() > 0,
        lines_bytes(lines@, lines@.len() as int) <= usize::MAX,
    ensures
        r@ == rows_spec(*t, source@, lines@, needed@, allow_tests, needed@.len() as int),
{
    let mut out: Vec<(usize, usize)> = Vec::new();
    let mut k: usize = 0;
    while k < needed.len()
        invariant
            tree_wf(*t, source@.len() as int),
            lines@.len() > 0,
            lines_bytes(lines@, lines@.len() as int) <= usize::MAX,
            k <= needed@.len(),
            out@ == rows_spec(*t, source@, lines@, needed@, allow_tests, k as int),
        decreases needed@.len() - k,
    {
        let l = needed[k];
        let sp = line_byte_span(lines, source.len(), l, l);
        match deepest_node(t, sp.0, sp.1) {
            Some(d) => {
                match acceptable_of(t, d) {
                    Some(a) => {
                        if allow_tests || !in_test(t, a, source) {
                            out.push((t.nodes[a].start_row, t.nodes[a].end_row));
                        }
                    },
                    None => {},
                }
            },
            None => {},
        }
        k = k + 1;
    }
    out
}

/// The node whose block holds 1-based line `l`: the deepest node over the
/// line's bytes, then its nearest ancestor of a kind returned as a block.
pub open spec fn line_node(t: SyntaxTree, src: Seq<u8>, lines: Seq<String>, l: int) -> Option<int> {
    let sp = line_span_bytes(lines, src.len() as int, l, l);
    match deepest(t, sp.0, sp.1, t.nodes@.len() as int) {
        Some(d) => acceptable_ancestor(t, d),
        None => None,
    }
}

/// The node whose block holds 1-based line `l`, if any.
pub fn line_block_node(t: &SyntaxTree, source: &Vec<u8>, lines: &Vec<String>, l: usize) -> (r: Option<usize>)
    requires
        lines@.len() > 0,
        lines_bytes(lines@, lines@.len() as int) <= usize::MAX,
    ensures
        r matches Some(a) ==> line_node(*t, source@, lines@, l as int) == Some(a as int) && a < t.nodes@.len(),
        r is None ==> line_node(*t, source@, lines@, l as int) is None,
{
    let sp = line_byte_span(lines, source.len(), l, l);
    match deepest_node(t, sp.0, sp.1) {
        Some(d) => acceptable_of(t, d),
        None => None,
    }
}

/// The block of 1-based line `l` lies in a test.
pub open spec fn line_test_spec(t: SyntaxTree, src: Seq<u8>, lines: Seq<String>, l: int) -> bool {
    let sp = line_span_bytes(lines, src.len() as int, l, l);
    match deepest(t, sp.0, sp.1, t.nodes@.len() as int) {
        Some(d) => match acceptable_ancestor(t, d) {
            Some(a) => within_test(t, a, src),
            None => false,
        },
        None => false,
    }
}

/// Whether the block of 1-based line `l` lies in a test.
pub fn line_in_test(t: &SyntaxTree, source: &Vec<u8>, lines: &Vec<String>, l: usize) -> (r: bool)
    requires
        tree_wf(*t, source@.len() as int),
        lines@.len() > 0,
        lines_bytes(lines@, lines@.len() as int) <= usize::MAX,
    ensures
        r == line_test_spec(*t, source@, lines@, l as int),
{
    let sp = line_byte_span(lines, source.len(), l, l);
    match deepest_node(t, sp.0, sp.1) {
        Some(d) => match acceptable_of(t, d) {
            Some(a) => in_test(t, a, source),
            None => false,
        },
        None => false,
    }
}

/// Whether the lines, each with its newline, take at most `usize::MAX` bytes.
pub fn lines_fit(lines: &Vec<String>) -> (r: bool)
    ensures
        r == (lines_bytes(lines@, lines@.len() as int) <= usize::MAX),
{
    let mut acc: usize = 0;
    let mut k: usize = 0;
    while k < lines.len()
        invariant
            k <= lines@.len(),
            acc as int == lines_bytes(lines@, k as int),
        decreases lines@.len() - k,
    {
        let n = lines[k].as_str().len();
        if n >= usize::MAX - acc {
            proof {
                lemma_lines_bytes_mono(lines@, k + 1, lines@.len() as int);
            }
            return false;
        }
        acc = acc + n + 1;
        k = k + 1;
    }
    true
}

/// Every listed symbol of a tree whose declarations lie in a file of `count`
/// lines spans lines `1 ..= count`; in particular a file without lines has
/// no symbols.
pub proof fn lemma_symbols_in_file(t: SyntaxTree, src: Seq<u8>, allow_tests: bool, count: int, n: int)
    requires
        tree_wf(t, src.len() as int),
        crate::syntax::rows_in_file(t, count),
        n <= t.nodes@.len(),
    ensures
        forall|k: int| 0 <= k < symbols_spec(t, src, allow_tests, n).len() ==> {
            let x = #[trigger] symbols_spec(t, src, allow_tests, n)[k];
            1 <= x.0.0 <= x.0.1 <= count
        },
        count <= 0 ==> symbols_spec(t, src, allow_tests, n).len() == 0,
    decreases n,
{
    if n > 0 {
        lemma_symbols_in_file(t, src, allow_tests, count, n - 1);
        let p = symbols_spec(t, src, allow_tests, n - 1);
        let f = symbols_spec(t, src, allow_tests, n);
        let m = t.nodes@[n - 1];
        if symbol_of(t, n - 1, src, allow_tests) is Some {
            assert(m.parent is Some);
            assert(m.end_row < count);
        }
        assert forall|k: int| 0 <= k < f.len() implies {
            let x = #[trigger] f[k];
            1 <= x.0.0 <= x.0.1 <= count
        } by {
            if k < p.len() {
                assert(f[k] == p[k]);
            }
        }
    }
}

} // verus!


verus! {

/// Node `i` declares `name`: it is of a kind returned as a block and its
/// `name` field holds exactly that text.
pub open spec fn declares(t: SyntaxTree, i: int, src: Seq<u8>, name: Seq<char>) -> bool {
    &&& go_acceptable(t.nodes@[i].kind@)
    &&& crate::syntax::field_child(t, i, "name"@) matches Some(c) && crate::syntax::node_text(t, c, src) == name
}

/// The first node from `i` on, in pre-order, that declares `name`; ancestors
/// come before their descendants, so the outermost declaration wins.
pub open spec fn first_declaration(t: SyntaxTree, src: Seq<u8>, name: Seq<char>, i: int) -> Option<int>
    decreases t.nodes@.len() - i,
{
    if i < 0 || i >= t.nodes@.len() {
        None
    } else if declares(t, i, src, name) {
        Some(i)
    } else {
        first_declaration(t, src, name, i + 1)
    }
}

/// The outermost declaration of `name` in a parsed Go file.
pub fn find_symbol(t: &SyntaxTree, source: &Vec<u8>, name: &str) -> (r: Option<usize>)
    requires
        tree_wf(*t, source@.len() as int),
    ensures
        r matches Some(i) ==> first_declaration(*t, source@, name@, 0) == Some(i as int) && i < t.nodes@.len(),
        r is None ==> first_declaration(*t, source@, name@, 0) is None,
{
    let lang = GoLanguage::new();
    let mut i: usize = 0;
    while i < t.nodes.len()
        invariant
            tree_wf(*t, source@.len() as int),
            i <= t.nodes@.len(),
            first_declaration(*t, source@, name@, 0) == first_declaration(*t, source@, name@, i as int),
        decreases t.nodes@.len() - i,
    {
        if lang.is_acceptable_parent(&t.nodes[i]) {
            match crate::syntax::field_child_of(t, i, "name") {
                Some(c) => {
                    assert(is_child(*t, i as int, c as int));
                    let txt = crate::syntax::text_of(t, c, source);
                    if str_eq(txt.as_str(), name) {
                        return Some(i);
                    }
                },
                None => {},
            }
        }
        i = i + 1;
    }
    None
}

} // verus!

verus! {

/// The block of the outermost declaration of `name` in a parsed Go file,
/// whose text is `lines`: its lines (cut at the file's end), its kind, text
/// and terms; `None` where there is no such declaration, it lies in a test
/// and tests are not allowed, or the file has no lines.
pub fn symbol_block(
    file: String,
    lines: &Vec<String>,
    t: &SyntaxTree,
    source: &Vec<u8>,
    name: &str,
    allow_tests: bool,
) -> (r: Option<crate::blocks::CodeBlock>)
    requires
        tree_wf(*t, source@.len() as int),
    ensures
        r is Some <==> (first_declaration(*t, source@, name@, 0) matches Some(i) && (allow_tests || !within_test(
            *t,
            i,
            source@,
        )) && lines@.len() > 0),
        r matches Some(b) ==> ({
            let i = first_declaration(*t, source@, name@, 0).unwrap();
            let n = t.nodes@[i];
            &&& (b.lines.0 as int, b.lines.1 as int) == crate::extract::bounding_spec(
                seq![(n.start_row, n.end_row)],
                lines@.len() as int,
            )
            &&& b.node_type@ == n.kind@
            &&& b.file@ == file@
            &&& b.code@ == crate::extract::join_lines(
                crate::extract::lines_view(lines@).subrange(b.lines.0 - 1, b.lines.1 as int),
            )
        }),
{
    let i = match find_symbol(t, source, name) {
        Some(i) => i,
        None => {
            return None;
        },
    };
    if !allow_tests && in_test(t, i, source) {
        return None;
    }
    let n = &t.nodes[i];
    assert(t.nodes@[i as int] == *n);
    let rows = vec![(n.start_row, n.end_row)];
    assert(rows@ =~= seq![(n.start_row, n.end_row)]);
    let req = crate::extract::LineRequest::Range { start: n.start_row + 1, end: n.end_row + 1 };
    let none: Vec<usize> = Vec::new();
    proof {
        reveal_strlit("merged_ast_range");
        reveal_strlit("file");
        assert("merged_ast_range"@[0] != "file"@[0]);
    }
    match crate::extract::build_extraction(file, "", lines, &req, &none, &rows, 0) {
        Some(b) => {
            let mut b = b;
            b.node_type = n.kind.clone();
            Some(b)
        },
        None => None,
    }
}

} // verus!
