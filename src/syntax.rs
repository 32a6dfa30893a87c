//! A parsed syntax tree held as plain values: nodes in pre-order, each with
//! its kind, the field it fills in its parent, its byte and row span, and its
//! parent's index.

use vstd::prelude::*;

verus! {

/// One node of a syntax tree.
pub struct SyntaxNode {
    pub kind: String,
    pub field_name: Option<String>,
    pub start_byte: usize,
    pub end_byte: usize,
    pub start_row: usize,
    pub end_row: usize,
    pub parent: Option<usize>,
}

/// A syntax tree: its nodes in pre-order, the root first.
pub struct SyntaxTree {
    pub nodes: Vec<SyntaxNode>,
}

/// Node `j` is a child of node `i`.
pub open spec fn is_child(t: SyntaxTree, i: int, j: int) -> bool {
    0 <= j < t.nodes@.len() && t.nodes@[j].parent == Some(i as usize)
}

/// The tree is well formed over a source of `len` bytes: each parent comes
/// before its children, each node's bytes lie in the source and within its
/// parent's and rows do not run backwards.
pub open spec fn tree_wf(t: SyntaxTree, len: int) -> bool {
    forall|j: int|
        0 <= j < t.nodes@.len() ==> {
            let n = #[trigger] t.nodes@[j];
            &&& n.start_byte <= n.end_byte <= len
            &&& n.start_row <= n.end_row < usize::MAX
            &&& (n.parent matches Some(p) ==> {
                &&& p < j
                &&& t.nodes@[p as int].start_byte <= n.start_byte
                &&& n.end_byte <= t.nodes@[p as int].end_byte
            })
        }
}

/// Node `j` is the first child of `i` of kind `k`.
pub open spec fn first_child_of_kind(t: SyntaxTree, i: int, k: Seq<char>, j: int) -> bool {
    &&& is_child(t, i, j)
    &&& t.nodes@[j].kind@ == k
    &&& forall|q: int| 0 <= q < j && #[trigger] is_child(t, i, q) ==> t.nodes@[q].kind@ != k
}

/// Node `j` is the first child of `i` that fills field `f`.
pub open spec fn first_child_in_field(t: SyntaxTree, i: int, f: Seq<char>, j: int) -> bool {
    &&& is_child(t, i, j)
    &&& t.nodes@[j].field_name matches Some(x) && x@ == f
    &&& forall|q: int|
        0 <= q < j && #[trigger] is_child(t, i, q) ==> !(t.nodes@[q].field_name matches Some(x) && x@ == f)
}

/// The first child of node `i` of kind `k`.
pub fn child_of_kind(t: &SyntaxTree, i: usize, k: &str) -> (r: Option<usize>)
    ensures
        r matches Some(j) ==> first_child_of_kind(*t, i as int, k@, j as int),
        r is None ==> forall|q: int| #[trigger] is_child(*t, i as int, q) ==> t.nodes@[q].kind@ != k@,
{
    let mut j: usize = 0;
    while j < t.nodes.len()
        invariant
            j <= t.nodes@.len(),
            forall|q: int| 0 <= q < j && #[trigger] is_child(*t, i as int, q) ==> t.nodes@[q].kind@ != k@,
        decreases t.nodes@.len() - j,
    {
        let n = &t.nodes[j];
        if n.parent == Some(i) && crate::text::str_eq(n.kind.as_str(), k) {
            return Some(j);
        }
        j = j + 1;
    }
    None
}

/// The first child of node `i` that fills field `f`.
pub fn child_by_field(t: &SyntaxTree, i: usize, f: &str) -> (r: Option<usize>)
    ensures
        r matches Some(j) ==> first_child_in_field(*t, i as int, f@, j as int),
        r is None ==> forall|q: int|
            #[trigger] is_child(*t, i as int, q) ==> !(t.nodes@[q].field_name matches Some(x) && x@ == f@),
{
    let mut j: usize = 0;
    while j < t.nodes.len()
        invariant
            j <= t.nodes@.len(),
            forall|q: int|
                0 <= q < j && #[trigger] is_child(*t, i as int, q) ==> !(t.nodes@[q].field_name matches Some(x)
                    && x@ == f@),
        decreases t.nodes@.len() - j,
    {
        let n = &t.nodes[j];
        if n.parent == Some(i) {
            match &n.field_name {
                Some(x) => {
                    if crate::text::str_eq(x.as_str(), f) {
                        return Some(j);
                    }
                },
                None => {},
            }
        }
        j = j + 1;
    }
    None
}

/// The first child of node `i` that fills field `f`, if any.
pub open spec fn field_child(t: SyntaxTree, i: int, f: Seq<char>) -> Option<int> {
    if exists|j: int| first_child_in_field(t, i, f, j) {
        Some(choose|j: int| first_child_in_field(t, i, f, j))
    } else {
        None
    }
}

/// The first child of node `i` of kind `k`, if any.
pub open spec fn kind_child(t: SyntaxTree, i: int, k: Seq<char>) -> Option<int> {
    if exists|j: int| first_child_of_kind(t, i, k, j) {
        Some(choose|j: int| first_child_of_kind(t, i, k, j))
    } else {
        None
    }
}

/// The text of node `j` in `src`.
pub open spec fn node_text(t: SyntaxTree, j: int, src: Seq<u8>) -> Seq<char> {
    crate::text::utf8_lossy(src.subrange(t.nodes@[j].start_byte as int, t.nodes@[j].end_byte as int))
}

/// The first child of node `i` that fills field `f`.
pub fn field_child_of(t: &SyntaxTree, i: usize, f: &str) -> (r: Option<usize>)
    ensures
        r matches Some(j) ==> field_child(*t, i as int, f@) == Some(j as int) && is_child(*t, i as int, j as int),
        r is None ==> field_child(*t, i as int, f@) is None,
{
    let r = child_by_field(t, i, f);
    match r {
        Some(j) => {
            proof {
                let c = choose|c: int| first_child_in_field(*t, i as int, f@, c);
                if c < j {
                    assert(is_child(*t, i as int, c));
                } else if j < c {
                    assert(is_child(*t, i as int, j as int));
                }
            }
        },
        None => {
            assert forall|c: int| !first_child_in_field(*t, i as int, f@, c) by {
                if first_child_in_field(*t, i as int, f@, c) {
                    assert(is_child(*t, i as int, c));
                }
            }
        },
    }
    r
}

/// The first child of node `i` of kind `k`.
pub fn kind_child_of(t: &SyntaxTree, i: usize, k: &str) -> (r: Option<usize>)
    ensures
        r matches Some(j) ==> kind_child(*t, i as int, k@) == Some(j as int) && is_child(*t, i as int, j as int),
        r is None ==> kind_child(*t, i as int, k@) is None,
{
    let r = child_of_kind(t, i, k);
    match r {
        Some(j) => {
            proof {
                let c = choose|c: int| first_child_of_kind(*t, i as int, k@, c);
                if c < j {
                    assert(is_child(*t, i as int, c));
                } else if j < c {
                    assert(is_child(*t, i as int, j as int));
                }
            }
        },
        None => {
            assert forall|c: int| !first_child_of_kind(*t, i as int, k@, c) by {
                if first_child_of_kind(*t, i as int, k@, c) {
                    assert(is_child(*t, i as int, c));
                }
            }
        },
    }
    r
}

/// The text of node `j` in `src`.
pub fn text_of(t: &SyntaxTree, j: usize, src: &Vec<u8>) -> (r: String)
    requires
        tree_wf(*t, src@.len() as int),
        j < t.nodes@.len(),
    ensures
        r@ == node_text(*t, j as int, src@),
{
    let n = &t.nodes[j];
    assert(t.nodes@[j as int] == *n);
    let b = crate::text::slice_bytes(src, n.start_byte, n.end_byte);
    crate::text::lossy_text(b.as_slice())
}

/// Every node but the root ends before row `count`: the tree's declarations
/// lie in a file of `count` lines.
pub open spec fn rows_in_file(t: SyntaxTree, count: int) -> bool {
    forall|j: int| 0 <= j < t.nodes@.len() && (#[trigger] t.nodes@[j]).parent is Some ==> t.nodes@[j].end_row < count
}

/// Nodes start in row order: in pre-order, no node starts on an earlier row
/// than a node before it.
pub open spec fn starts_ordered(t: SyntaxTree) -> bool {
    forall|i: int, j: int|
        0 <= i <= j < t.nodes@.len() ==> (#[trigger] t.nodes@[i]).start_row <= (#[trigger] t.nodes@[j]).start_row
}

/// Whether a tree handed over from a parser is well formed over a source of
/// `len` bytes, starts its nodes in row order, and has its declarations in a
/// file of `count` lines.
pub fn check_tree(t: &SyntaxTree, len: usize, count: usize) -> (r: bool)
    ensures
        r == (tree_wf(*t, len as int) && starts_ordered(*t) && rows_in_file(*t, count as int)),
{
    let n = t.nodes.len();
    let mut j: usize = 0;
    while j < n
        invariant
            n == t.nodes@.len(),
            j <= n,
            forall|q: int| 0 <= q < j ==> {
                let m = #[trigger] t.nodes@[q];
                &&& m.start_byte <= m.end_byte <= len
                &&& m.start_row <= m.end_row < usize::MAX
                &&& (m.parent matches Some(p) ==> {
                    &&& p < q
                    &&& t.nodes@[p as int].start_byte <= m.start_byte
                    &&& m.end_byte <= t.nodes@[p as int].end_byte
                })
                &&& (m.parent is Some ==> m.end_row < count)
            },
            forall|a: int, b: int| 0 <= a <= b < j ==> (#[trigger] t.nodes@[a]).start_row <= (#[trigger] t.nodes@[b]).start_row,
        decreases n - j,
    {
        let m = &t.nodes[j];
        assert(t.nodes@[j as int] == *m);
        if !(m.start_byte <= m.end_byte && m.end_byte <= len && m.start_row <= m.end_row && m.end_row < usize::MAX) {
            assert(!tree_wf(*t, len as int));
            return false;
        }
        if j > 0 && t.nodes[j - 1].start_row > m.start_row {
            assert(!starts_ordered(*t)) by {
                assert(t.nodes@[j - 1].start_row > t.nodes@[j as int].start_row);
            }
            return false;
        }
        match m.parent {
            Some(p) => {
                if p >= j {
                    assert(!tree_wf(*t, len as int));
                    return false;
                }
                if !(t.nodes[p].start_byte <= m.start_byte && m.end_byte <= t.nodes[p].end_byte) {
                    assert(!tree_wf(*t, len as int));
                    return false;
                }
                if m.end_row >= count {
                    assert(!rows_in_file(*t, count as int));
                    return false;
                }
            },
            None => {},
        }
        assert forall|a: int, b: int| 0 <= a <= b < j + 1 implies (#[trigger] t.nodes@[a]).start_row <= (#[trigger] t.nodes@[b]).start_row by {
            if b == j && a < j {
                assert(t.nodes@[a].start_row <= t.nodes@[j - 1].start_row);
            }
        }
        j = j + 1;
    }
    true
}

} // verus!

