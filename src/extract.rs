//! Line-range resolution for extraction: clamping requested lines to the
//! file, context windows, bounding ranges of syntax blocks, and the text of a range.

use vstd::prelude::*;
use vstd::string::StringExecFns;
use crate::blocks::CodeBlock;

verus! {

/// `x` clamped into `lo ..= hi` (with `lo <= hi`).
pub open spec fn clamp_spec(x: int, lo: int, hi: int) -> int {
    if x < lo { lo } else if x > hi { hi } else { x }
}

/// The requested range `start ..= end` clamped into a file of `count` lines:
/// the start into `1 ..= count`, then the end into `start ..= count`.
/// A file without lines has no range.
pub open spec fn clamped_range_spec(start: int, end: int, count: int) -> Option<(int, int)> {
    if count <= 0 {
        None
    } else {
        let s = clamp_spec(start, 1, count);
        Some((s, clamp_spec(end, s, count)))
    }
}

/// Clamps the requested lines `start ..= end` into a file of `count` lines;
/// `None` when the file has no lines.
pub fn clamp_range(start: usize, end: usize, count: usize) -> (r: Option<(usize, usize)>)
    ensures
        r matches Some(p) ==> clamped_range_spec(start as int, end as int, count as int) == Some(
            (p.0 as int, p.1 as int),
        ),
        r is None <==> clamped_range_spec(start as int, end as int, count as int) is None,
        r matches Some(p) ==> 1 <= p.0 <= p.1 <= count,
{
    if count == 0 {
        return None;
    }
    let s = if start < 1 { 1 } else if start > count { count } else { start };
    let e = if end < s { s } else if end > count { count } else { end };
    Some((s, e))
}

/// The lines shown around line `line` with `ctx` lines of context on each side,
/// cut at the file's first and last line.
pub open spec fn context_window_spec(line: int, ctx: int, count: int) -> (int, int) {
    (if line <= ctx { 1 } else { line - ctx }, if line + ctx <= count { line + ctx } else { count })
}

/// The literal lines around `line`, `ctx` on each side, within `1 ..= count`.
pub fn context_window(line: usize, ctx: usize, count: usize) -> (r: (usize, usize))
    requires
        1 <= line <= count,
    ensures
        (r.0 as int, r.1 as int) == context_window_spec(line as int, ctx as int, count as int),
        1 <= r.0 <= line <= r.1 <= count,
{
    let s = if line <= ctx { 1 } else { line - ctx };
    let e = if ctx <= count - line { line + ctx } else { count };
    (s, e)
}

/// Smallest start and largest end over 0-based row pairs.
pub open spec fn min_start(rows: Seq<(usize, usize)>) -> int
    decreases rows.len(),
{
    if rows.len() == 0 {
        0
    } else if rows.len() == 1 {
        rows[0].0 as int
    } else {
        let m = min_start(rows.drop_last());
        if (rows.last().0 as int) < m { rows.last().0 as int } else { m }
    }
}

/// Largest end over 0-based row pairs.
pub open spec fn max_end(rows: Seq<(usize, usize)>) -> int
    decreases rows.len(),
{
    if rows.len() == 0 {
        0
    } else {
        let m = max_end(rows.drop_last());
        if (rows.last().1 as int) > m { rows.last().1 as int } else { m }
    }
}

/// The 1-based lines of one range bounding all syntax blocks (given as 0-based
/// rows), its end cut at the file's last line and its start at the end.
pub open spec fn bounding_spec(rows: Seq<(usize, usize)>, count: int) -> (int, int) {
    let e = if max_end(rows) < count - 1 { max_end(rows) } else { count - 1 };
    let s = if min_start(rows) < e { min_start(rows) } else { e };
    (s + 1, e + 1)
}

/// Bounds the syntax blocks' 0-based rows by one range of 1-based lines inside
/// a file of `count` lines.
pub fn bounding_lines(rows: &Vec<(usize, usize)>, count: usize) -> (r: (usize, usize))
    requires
        rows@.len() > 0,
        count > 0,
    ensures
        (r.0 as int, r.1 as int) == bounding_spec(rows@, count as int),
        1 <= r.0 <= r.1 <= count,
{
    let mut lo = rows[0].0;
    let mut hi = rows[0].1;
    let mut i: usize = 1;
    assert(rows@.subrange(0, 1).drop_last() =~= Seq::<(usize, usize)>::empty());
    assert(max_end(Seq::<(usize, usize)>::empty()) == 0);
    assert(max_end(rows@.subrange(0, 1)) == hi);
    while i < rows.len()
        invariant
            1 <= i <= rows@.len(),
            lo as int == min_start(rows@.subrange(0, i as int)),
            hi as int == max_end(rows@.subrange(0, i as int)),
        decreases rows@.len() - i,
    {
        assert(rows@.subrange(0, i as int + 1).drop_last() =~= rows@.subrange(0, i as int));
        if rows[i].0 < lo {
            lo = rows[i].0;
        }
        if rows[i].1 > hi {
            hi = rows[i].1;
        }
        i = i + 1;
    }
    assert(rows@.subrange(0, rows@.len() as int) =~= rows@);
    let e = if hi < count - 1 { hi } else { count - 1 };
    let s = if lo < e { lo } else { e };
    (s + 1, e + 1)
}

/// The lines of `wanted` inside `start ..= end`, made relative to `start`
/// (`start` is line 1), ascending, each once; scanned up to line `stop`.
pub open spec fn relative_lines_spec(wanted: Seq<usize>, start: int, stop: int) -> Seq<usize>
    decreases stop - start,
{
    if stop <= start {
        Seq::empty()
    } else {
        let p = relative_lines_spec(wanted, start, stop - 1);
        if wanted.contains((stop - 1) as usize) {
            p.push((stop - start) as usize)
        } else {
            p
        }
    }
}

fn has_line(wanted: &Vec<usize>, l: usize) -> (r: bool)
    ensures
        r == wanted@.contains(l),
{
    let mut k: usize = 0;
    while k < wanted.len()
        invariant
            k <= wanted@.len(),
            forall|q: int| 0 <= q < k ==> wanted@[q] != l,
        decreases wanted@.len() - k,
    {
        if wanted[k] == l {
            return true;
        }
        k = k + 1;
    }
    false
}

/// The lines of `wanted` that fall in `start ..= end`, relative to the range
/// (its first line is 1), ascending and without repeats; `None` when there are none.
pub fn relative_matched_lines(wanted: &Vec<usize>, start: usize, end: usize) -> (r: Option<Vec<usize>>)
    requires
        1 <= start <= end,
    ensures
        r matches Some(v) ==> v@ == relative_lines_spec(wanted@, start as int, end + 1) && v@.len() > 0,
        r is None <==> relative_lines_spec(wanted@, start as int, end + 1).len() == 0,
{
    let mut out: Vec<usize> = Vec::new();
    let mut l: usize = start;
    while l < end
        invariant
            1 <= start <= l <= end,
            out@ == relative_lines_spec(wanted@, start as int, l as int),
        decreases end - l,
    {
        if has_line(wanted, l) {
            out.push(l - start + 1);
        }
        l = l + 1;
    }
    if has_line(wanted, end) {
        out.push(end - start + 1);
    }
    if out.len() == 0 {
        None
    } else {
        Some(out)
    }
}

/// Lines joined with a newline between each two.
pub open spec fn join_lines(s: Seq<Seq<char>>) -> Seq<char>
    decreases s.len(),
{
    if s.len() == 0 {
        Seq::empty()
    } else if s.len() == 1 {
        s[0]
    } else {
        join_lines(s.drop_last()) + "\n"@ + s.last()
    }
}

/// The text of each line.
pub open spec fn lines_view(lines: Seq<String>) -> Seq<Seq<char>> {
    lines.map_values(|l: String| l@)
}

/// The text of lines `start ..= end` (1-based) of `lines`, joined by newlines.
pub fn range_text(lines: &Vec<String>, start: usize, end: usize) -> (r: String)
    requires
        1 <= start <= end <= lines@.len(),
    ensures
        r@ == join_lines(lines_view(lines@).subrange(start - 1, end as int)),
{
    let ghost v = lines_view(lines@);
    let mut out = lines[start - 1].clone();
    let mut i: usize = start;
    assert(v.subrange(start - 1, start as int).len() == 1);
    while i < end
        invariant
            1 <= start <= i <= end <= lines@.len(),
            v == lines_view(lines@),
            out@ == join_lines(v.subrange(start - 1, i as int)),
        decreases end - i,
    {
        assert(v.subrange(start - 1, i + 1).drop_last() =~= v.subrange(start - 1, i as int));
        assert(v.subrange(start - 1, i + 1).last() == lines@[i as int]@);
        out.append("\n");
        out.append(lines[i].as_str());
        i = i + 1;
    }
    out
}

} // verus!

verus! {

/// Which lines of a file an extraction asks for.
pub enum LineRequest {
    /// Lines `start ..= end`.
    Range { start: usize, end: usize },
    /// One line.
    Line { line: usize },
    /// A set of lines, possibly out of the file.
    Lines { lines: Vec<usize> },
    /// The whole file.
    WholeFile,
}

/// The requested lines with 0 dropped and every line past `count` cut to `count`,
/// over the first `n` entries.
pub open spec fn clamp_lines_spec(ls: Seq<usize>, count: usize, n: nat) -> Seq<usize>
    decreases n,
{
    if n == 0 || n > ls.len() {
        Seq::empty()
    } else {
        let p = clamp_lines_spec(ls, count, (n - 1) as nat);
        let l = ls[n - 1];
        if l == 0 {
            p
        } else if l > count {
            p.push(count)
        } else {
            p.push(l)
        }
    }
}

/// Drops line 0 and cuts every line past `count` to `count`.
pub fn clamp_lines(ls: &Vec<usize>, count: usize) -> (r: Vec<usize>)
    ensures
        r@ == clamp_lines_spec(ls@, count, ls@.len()),
        count > 0 ==> forall|k: int| 0 <= k < r@.len() ==> 1 <= #[trigger] r@[k] <= count,
{
    let mut out: Vec<usize> = Vec::new();
    let mut i: usize = 0;
    while i < ls.len()
        invariant
            i <= ls@.len(),
            out@ == clamp_lines_spec(ls@, count, i as nat),
            count > 0 ==> forall|k: int| 0 <= k < out@.len() ==> 1 <= #[trigger] out@[k] <= count,
        decreases ls@.len() - i,
    {
        let l = ls[i];
        if l == 0 {
        } else if l > count {
            out.push(count);
        } else {
            out.push(l);
        }
        i = i + 1;
    }
    out
}

/// Smallest element, or `d` for an empty sequence.
pub open spec fn seq_min(s: Seq<usize>, d: int) -> int
    decreases s.len(),
{
    if s.len() == 0 {
        d
    } else if s.len() == 1 {
        s[0] as int
    } else {
        let m = seq_min(s.drop_last(), d);
        if (s.last() as int) < m { s.last() as int } else { m }
    }
}

/// Largest element, or `d` for an empty sequence.
pub open spec fn seq_max(s: Seq<usize>, d: int) -> int
    decreases s.len(),
{
    if s.len() == 0 {
        d
    } else if s.len() == 1 {
        s[0] as int
    } else {
        let m = seq_max(s.drop_last(), d);
        if (s.last() as int) > m { s.last() as int } else { m }
    }
}

fn min_max(s: &Vec<usize>, dmin: usize, dmax: usize) -> (r: (usize, usize))
    ensures
        r.0 as int == seq_min(s@, dmin as int),
        r.1 as int == seq_max(s@, dmax as int),
{
    if s.len() == 0 {
        return (dmin, dmax);
    }
    let mut lo = s[0];
    let mut hi = s[0];
    let mut i: usize = 1;
    assert(s@.subrange(0, 1).len() == 1);
    while i < s.len()
        invariant
            1 <= i <= s@.len(),
            lo as int == seq_min(s@.subrange(0, i as int), dmin as int),
            hi as int == seq_max(s@.subrange(0, i as int), dmax as int),
        decreases s@.len() - i,
    {
        assert(s@.subrange(0, i as int + 1).drop_last() =~= s@.subrange(0, i as int));
        if s[i] < lo {
            lo = s[i];
        }
        if s[i] > hi {
            hi = s[i];
        }
        i = i + 1;
    }
    assert(s@.subrange(0, s@.len() as int) =~= s@);
    (lo, hi)
}

/// The lines that the parser has to resolve for a request on a file of
/// `count` lines: the clamped range, the clamped line, or the clamped set, with
/// `extra` added to a range. `None` for the whole file.
pub open spec fn needed_lines_spec(req: LineRequest, extra: Seq<usize>, count: usize) -> Option<Seq<usize>> {
    match req {
        LineRequest::Range { start, end } => match clamped_range_spec(start as int, end as int, count as int) {
            Some(p) => Some(Seq::new((p.1 - p.0 + 1) as nat, |k: int| (p.0 + k) as usize) + extra),
            None => None,
        },
        LineRequest::Line { line } => if count == 0 {
            None
        } else {
            Some(seq![clamp_spec(line as int, 1, count as int) as usize])
        },
        LineRequest::Lines { lines } => if count == 0 {
            None
        } else {
            Some(clamp_lines_spec(lines@, count, lines@.len()))
        },
        LineRequest::WholeFile => None,
    }
}

/// The lines to hand to the syntax resolver for `req` on a file of `count`
/// lines; `None` where no resolution is needed (whole file, or no lines).
pub fn needed_lines(req: &LineRequest, extra: &Vec<usize>, count: usize) -> (r: Option<Vec<usize>>)
    ensures
        r matches Some(v) ==> needed_lines_spec(*req, extra@, count) == Some(v@),
        r is None <==> needed_lines_spec(*req, extra@, count) is None,
{
    match req {
        LineRequest::Range { start, end } => {
            match clamp_range(*start, *end, count) {
                None => None,
                Some(p) => {
                    let mut out: Vec<usize> = Vec::new();
                    let mut l: usize = p.0;
                    while l < p.1
                        invariant
                            1 <= p.0 <= l <= p.1,
                            p.1 <= count,
                            out@ == Seq::new((l - p.0) as nat, |k: int| (p.0 + k) as usize),
                        decreases p.1 - l,
                    {
                        out.push(l);
                        l = l + 1;
                        assert(out@ =~= Seq::new((l - p.0) as nat, |k: int| (p.0 + k) as usize));
                    }
                    out.push(p.1);
                    assert(out@ =~= Seq::new((p.1 - p.0 + 1) as nat, |k: int| (p.0 + k) as usize));
                    let mut i: usize = 0;
                    let ghost base = out@;
                    while i < extra.len()
                        invariant
                            i <= extra@.len(),
                            out@ == base + extra@.subrange(0, i as int),
                        decreases extra@.len() - i,
                    {
                        out.push(extra[i]);
                        i = i + 1;
                        assert(out@ =~= base + extra@.subrange(0, i as int));
                    }
                    assert(extra@.subrange(0, extra@.len() as int) =~= extra@);
                    Some(out)
                },
            }
        },
        LineRequest::Line { line } => {
            if count == 0 {
                None
            } else {
                let l = if *line < 1 { 1 } else if *line > count { count } else { *line };
                let v = vec![l];
                assert(v@ =~= seq![l]);
                Some(v)
            }
        },
        LineRequest::Lines { lines } => {
            if count == 0 {
                None
            } else {
                Some(clamp_lines(lines, count))
            }
        },
        LineRequest::WholeFile => None,
    }
}

} // verus!

verus! {

/// Lines `first ..= last` cut at the start of the file on one side and at
/// line `count` on the other, `ctx` lines wider on each side.
pub open spec fn widen_spec(first: int, last: int, ctx: int, count: int) -> (int, int) {
    (if first <= ctx { 1 } else { first - ctx }, if last + ctx <= count { last + ctx } else { count })
}

/// Span and kind of the block extracted for `req` from a file of `count`
/// lines, where the syntax resolver found the 0-based `rows`; `None` for a file
/// without lines.
pub open spec fn extraction_spec(
    req: LineRequest,
    count: int,
    rows: Seq<(usize, usize)>,
    ctx: int,
) -> Option<(int, int, Seq<char>)> {
    if count <= 0 {
        None
    } else {
        match req {
            LineRequest::Range { start, end } => {
                let p = clamped_range_spec(start as int, end as int, count).unwrap();
                if rows.len() > 0 {
                    let b = bounding_spec(rows, count);
                    Some((b.0, b.1, "merged_ast_range"@))
                } else {
                    Some((p.0, p.1, "range"@))
                }
            },
            LineRequest::Line { line } => {
                let l = clamp_spec(line as int, 1, count);
                if rows.len() > 0 {
                    let b = bounding_spec(rows, count);
                    Some((b.0, b.1, "merged_ast_line"@))
                } else {
                    let w = context_window_spec(l, ctx, count);
                    Some((w.0, w.1, "context"@))
                }
            },
            LineRequest::Lines { lines } => {
                if lines@.len() == 0 {
                    Some((1, count, "file"@))
                } else if rows.len() > 0 {
                    let b = bounding_spec(rows, count);
                    Some((b.0, b.1, "merged_ast_specific_lines"@))
                } else {
                    let c = clamp_lines_spec(lines@, count as usize, lines@.len());
                    let w = widen_spec(seq_min(c, 1), seq_max(c, count), ctx, count);
                    Some((w.0, w.1, "specific_lines"@))
                }
            },
            LineRequest::WholeFile => Some((1, count, "file"@)),
        }
    }
}

/// The lines of the block, relative to its first line, that were asked for:
/// the `extra` lines of a range resolved by syntax, and the clamped lines of a
/// set that was not.
pub open spec fn matched_spec(
    req: LineRequest,
    extra: Seq<usize>,
    count: int,
    rows: Seq<(usize, usize)>,
    span: (int, int),
) -> Option<Seq<usize>> {
    match req {
        LineRequest::Range { .. } => {
            let m = relative_lines_spec(extra, span.0, span.1 + 1);
            if rows.len() > 0 && m.len() > 0 { Some(m) } else { None }
        },
        LineRequest::Lines { lines } => {
            if lines@.len() > 0 && rows.len() == 0 {
                Some(relative_lines_spec(clamp_lines_spec(lines@, count as usize, lines@.len()), span.0, span.1 + 1))
            } else {
                None
            }
        },
        _ => None,
    }
}

/// `b` is the block extracted for `req` from `file`, whose text is `lines`,
/// whatever its kind: its span as `extraction_spec` gives it, its text (for
/// a block that is not the whole file, its lines joined by newlines), its
/// terms (those of its code, then of the file's name), and its matched lines.
pub open spec fn extracted_body(
    b: CodeBlock,
    file: Seq<char>,
    lines: Seq<String>,
    req: LineRequest,
    extra: Seq<usize>,
    rows: Seq<(usize, usize)>,
    ctx: int,
) -> bool {
    &&& extraction_spec(req, lines.len() as int, rows, ctx) matches Some(x) && x.0 == b.lines.0 && x.1 == b.lines.1
        && (x.2 != "file"@ ==> b.code@ == join_lines(lines_view(lines).subrange(b.lines.0 - 1, b.lines.1 as int)))
    &&& 1 <= b.lines.0 <= b.lines.1 <= lines.len()
    &&& b.file@ == file
    &&& b.symbol_signature is None
    &&& crate::tokenize::strings_view(b.tokenized_content@) == crate::tokenize::tokens_spec(b.code@)
        + crate::tokenize::tokens_spec(crate::tokenize::file_stem_spec(file))
    &&& match b.matched_lines {
        Some(m) => matched_spec(req, extra, lines.len() as int, rows, (b.lines.0 as int, b.lines.1 as int)) == Some(m@),
        None => matched_spec(req, extra, lines.len() as int, rows, (b.lines.0 as int, b.lines.1 as int)) is None,
    }
}

/// `b` is the block extracted for `req` (see `extracted_body`), with the
/// kind that `extraction_spec` gives it.
pub open spec fn extracted(
    b: CodeBlock,
    file: Seq<char>,
    lines: Seq<String>,
    req: LineRequest,
    extra: Seq<usize>,
    rows: Seq<(usize, usize)>,
    ctx: int,
) -> bool {
    &&& extracted_body(b, file, lines, req, extra, rows, ctx)
    &&& extraction_spec(req, lines.len() as int, rows, ctx) == Some((b.lines.0 as int, b.lines.1 as int, b.node_type@))
}

/// Builds the block extracted for `req` from `file`, whose text is `lines`,
/// given the 0-based `rows` of the syntax blocks that the resolver found for
/// the needed lines (none where it found none) and `ctx` lines of context
/// for literal fallbacks. A whole-file block's code is `content`, the file's
/// text; any other block's code is its lines joined by newlines. Its terms are
/// those of its code and of the file's name. A file without lines gives no block.
pub fn build_extraction(
    file: String,
    content: &str,
    lines: &Vec<String>,
    req: &LineRequest,
    extra: &Vec<usize>,
    rows: &Vec<(usize, usize)>,
    ctx: usize,
) -> (r: Option<CodeBlock>)
    ensures
        r is None <==> lines@.len() == 0,
        r matches Some(b) ==> extracted(b, file@, lines@, *req, extra@, rows@, ctx as int) && (b.node_type@
            == "file"@ ==> b.code@ == content@),
{
    let ghost fv = file@;
    let count = lines.len();
    if count == 0 {
        return None;
    }
    let start: usize;
    let end: usize;
    let kind: String;
    let mut matched: Option<Vec<usize>> = None;
    match req {
        LineRequest::Range { start: s, end: e } => {
            let p = clamp_range(*s, *e, count).unwrap();
            if rows.len() > 0 {
                let b = bounding_lines(rows, count);
                start = b.0;
                end = b.1;
                kind = String::from_str("merged_ast_range");
                matched = relative_matched_lines(extra, start, end);
            } else {
                start = p.0;
                end = p.1;
                kind = String::from_str("range");
            }
        },
        LineRequest::Line { line } => {
            let l = if *line < 1 { 1 } else if *line > count { count } else { *line };
            if rows.len() > 0 {
                let b = bounding_lines(rows, count);
                start = b.0;
                end = b.1;
                kind = String::from_str("merged_ast_line");
            } else {
                let w = context_window(l, ctx, count);
                start = w.0;
                end = w.1;
                kind = String::from_str("context");
            }
        },
        LineRequest::Lines { lines: ls } => {
            if ls.len() == 0 {
                start = 1;
                end = count;
                kind = String::from_str("file");
            } else if rows.len() > 0 {
                let b = bounding_lines(rows, count);
                start = b.0;
                end = b.1;
                kind = String::from_str("merged_ast_specific_lines");
            } else {
                let c = clamp_lines(ls, count);
                let mm = min_max(&c, 1, count);
                proof {
                    lemma_seq_bounds(c@, 1, count as int);
                }
                start = if mm.0 <= ctx { 1 } else { mm.0 - ctx };
                end = if ctx <= count - mm.1 { mm.1 + ctx } else { count };
                kind = String::from_str("specific_lines");
                matched = match relative_matched_lines(&c, start, end) {
                    Some(v) => Some(v),
                    None => Some(Vec::new()),
                };
            }
        },
        LineRequest::WholeFile => {
            start = 1;
            end = count;
            kind = String::from_str("file");
        },
    }
    let whole = crate::text::str_eq(kind.as_str(), "file");
    let code = if whole { String::from_str(content) } else { range_text(lines, start, end) };
    let tokens = crate::tokenize::tokenize_with_filename(code.as_str(), file.as_str());
    let b = CodeBlock {
        file,
        lines: (start, end),
        node_type: kind,
        code,
        symbol_signature: None,
        matched_lines: matched,
        tokenized_content: tokens,
    };
    assert(extraction_spec(*req, lines@.len() as int, rows@, ctx as int) == Some(
        (b.lines.0 as int, b.lines.1 as int, b.node_type@),
    ));
    assert(b.file@ == fv);
    assert(1 <= b.lines.0 <= b.lines.1 <= lines@.len());
    assert(b.node_type@ != "file"@ ==> b.code@ == join_lines(lines_view(lines@).subrange(b.lines.0 - 1, b.lines.1 as int)));
    assert(crate::tokenize::strings_view(b.tokenized_content@) == crate::tokenize::tokens_spec(b.code@)
        + crate::tokenize::tokens_spec(crate::tokenize::file_stem_spec(fv)));
    assert(match b.matched_lines {
        Some(m) => matched_spec(*req, extra@, lines@.len() as int, rows@, (b.lines.0 as int, b.lines.1 as int)) == Some(m@),
        None => matched_spec(*req, extra@, lines@.len() as int, rows@, (b.lines.0 as int, b.lines.1 as int)) is None,
    });
    assert(extracted_body(b, fv, lines@, *req, extra@, rows@, ctx as int));
    assert(extracted(b, fv, lines@, *req, extra@, rows@, ctx as int));
    Some(b)
}

proof fn lemma_seq_bounds(s: Seq<usize>, lo: int, hi: int)
    requires
        lo <= hi,
        forall|k: int| 0 <= k < s.len() ==> lo <= #[trigger] s[k] <= hi,
    ensures
        lo <= seq_min(s, lo) <= hi,
        lo <= seq_max(s, hi) <= hi,
        s.len() > 0 ==> seq_min(s, lo) <= seq_max(s, hi),
    decreases s.len(),
{
    if s.len() > 1 {
        lemma_seq_bounds(s.drop_last(), lo, hi);
    }
}

proof fn lemma_rows_nonneg(rows: Seq<(usize, usize)>)
    ensures
        min_start(rows) >= 0,
        max_end(rows) >= 0,
    decreases rows.len(),
{
    if rows.len() > 0 {
        lemma_rows_nonneg(rows.drop_last());
    }
}

proof fn lemma_clamped_in_file(ls: Seq<usize>, count: usize, n: nat)
    requires
        count > 0,
    ensures
        forall|k: int| 0 <= k < clamp_lines_spec(ls, count, n).len() ==> 1 <= #[trigger] clamp_lines_spec(ls, count, n)[k] <= count,
    decreases n,
{
    if n > 0 && n <= ls.len() {
        lemma_clamped_in_file(ls, count, (n - 1) as nat);
        let p = clamp_lines_spec(ls, count, (n - 1) as nat);
        let f = clamp_lines_spec(ls, count, n);
        assert forall|k: int| 0 <= k < f.len() implies 1 <= #[trigger] f[k] <= count by {
            if k < p.len() {
                assert(f[k] == p[k]);
            }
        }
    }
}

/// In a file of one line every extracted block is that line.
pub proof fn lemma_single_line_file(req: LineRequest, rows: Seq<(usize, usize)>, ctx: int)
    requires
        ctx >= 0,
    ensures
        extraction_spec(req, 1, rows, ctx) matches Some(x) && x.0 == 1 && x.1 == 1,
{
    lemma_rows_nonneg(rows);
    match req {
        LineRequest::Lines { lines } => {
            let c = clamp_lines_spec(lines@, 1usize, lines@.len());
            lemma_clamped_in_file(lines@, 1usize, lines@.len());
            lemma_seq_bounds(c, 1, 1);
        },
        _ => {},
    }
}

} // verus!

