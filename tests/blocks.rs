use probe_extract::blocks::{deduplicate_blocks, deduplicate_sorted, merge_spans, CodeBlock};
use probe_extract::extract::{
    bounding_lines, build_extraction, clamp_range, context_window, needed_lines, range_text,
    relative_matched_lines, LineRequest,
};

fn block(file: &str, start: usize, end: usize) -> CodeBlock {
    CodeBlock {
        file: file.to_string(),
        lines: (start, end),
        node_type: "function_item".to_string(),
        code: String::new(),
        symbol_signature: None,
        matched_lines: None,
        tokenized_content: Vec::new(),
    }
}

fn lines_of(text: &str) -> Vec<String> {
    text.lines().map(|l| l.to_string()).collect()
}

#[test]
fn dedup_drops_nested_and_duplicate_blocks() {
    let blocks = vec![
        block("a.rs", 5, 8),
        block("a.rs", 1, 20),
        block("b.rs", 5, 8),
        block("a.rs", 1, 20),
        block("a.rs", 30, 40),
    ];
    let r = deduplicate_blocks(blocks);
    let spans: Vec<(String, usize, usize)> = r.iter().map(|b| (b.file.clone(), b.lines.0, b.lines.1)).collect();
    assert_eq!(
        spans,
        vec![
            ("a.rs".to_string(), 1, 20),
            ("b.rs".to_string(), 5, 8),
            ("a.rs".to_string(), 30, 40),
        ]
    );
}

#[test]
fn dedup_result_has_no_nesting() {
    let blocks = vec![block("a.rs", 3, 4), block("a.rs", 2, 9), block("a.rs", 1, 10), block("a.rs", 12, 12)];
    let r = deduplicate_blocks(blocks);
    for (i, a) in r.iter().enumerate() {
        for (j, b) in r.iter().enumerate() {
            if i != j && a.file == b.file {
                assert!(!(a.lines.0 <= b.lines.0 && b.lines.1 <= a.lines.1));
            }
        }
    }
    assert_eq!(r.len(), 2);
}

#[test]
fn merge_within_threshold() {
    let spans = vec![(10, 20), (23, 30)];
    assert_eq!(merge_spans(&spans, 3), vec![(10, 30)]);
}

#[test]
fn no_merge_beyond_threshold() {
    let spans = vec![(10, 20), (23, 30)];
    assert_eq!(merge_spans(&spans, 2), vec![(10, 20), (23, 30)]);
}

#[test]
fn merge_chains_to_fixed_point() {
    let spans = vec![(1, 2), (4, 5), (7, 9), (20, 21)];
    assert_eq!(merge_spans(&spans, 2), vec![(1, 9), (20, 21)]);
    assert_eq!(merge_spans(&Vec::new(), 5), Vec::<(usize, usize)>::new());
}

#[test]
fn clamping_out_of_range_lines() {
    assert_eq!(clamp_range(50, 60, 10), Some((10, 10)));
    assert_eq!(clamp_range(0, 3, 10), Some((1, 3)));
    assert_eq!(clamp_range(5, 2, 10), Some((5, 5)));
    assert_eq!(clamp_range(1, 1, 0), None);
}

#[test]
fn context_window_is_cut_at_file_edges() {
    assert_eq!(context_window(2, 5, 10), (1, 7));
    assert_eq!(context_window(9, 3, 10), (6, 10));
    assert_eq!(context_window(5, 0, 10), (5, 5));
}

#[test]
fn bounding_rows_become_lines() {
    assert_eq!(bounding_lines(&vec![(4, 9), (2, 5)], 20), (3, 10));
    assert_eq!(bounding_lines(&vec![(4, 90)], 20), (5, 20));
}

#[test]
fn matched_lines_are_relative_and_sorted() {
    assert_eq!(relative_matched_lines(&vec![12, 10, 30, 12], 10, 20), Some(vec![1, 3]));
    assert_eq!(relative_matched_lines(&vec![5], 10, 20), None);
}

#[test]
fn range_text_joins_lines() {
    let lines = lines_of("a\nbb\nccc\nd");
    assert_eq!(range_text(&lines, 2, 3), "bb\nccc");
    assert_eq!(range_text(&lines, 4, 4), "d");
}

#[test]
fn empty_file_gives_no_block() {
    let lines: Vec<String> = Vec::new();
    let r = build_extraction("e.rs".to_string(), "", &lines, &LineRequest::WholeFile, &Vec::new(), &Vec::new(), 0);
    assert!(r.is_none());
    let r = build_extraction("e.rs".to_string(), "", &lines, &LineRequest::Line { line: 3 }, &Vec::new(), &Vec::new(), 2);
    assert!(r.is_none());
}

#[test]
fn single_line_file_gives_one_line_block() {
    let lines = lines_of("fn parse() {}");
    let b = build_extraction("a.rs".to_string(), "", &lines, &LineRequest::Line { line: 1 }, &Vec::new(), &vec![(0, 0)], 3)
        .unwrap();
    assert_eq!(b.lines, (1, 1));
    assert_eq!(b.node_type, "merged_ast_line");
    assert_eq!(b.code, "fn parse() {}");
}

#[test]
fn line_past_end_is_clamped() {
    let lines = lines_of("a\nb\nc\nd\ne");
    let b = build_extraction("a.txt".to_string(), "", &lines, &LineRequest::Line { line: 99 }, &Vec::new(), &Vec::new(), 1)
        .unwrap();
    assert_eq!(b.lines, (4, 5));
    assert_eq!(b.node_type, "context");
    assert_eq!(b.code, "d\ne");
    assert_eq!(needed_lines(&LineRequest::Line { line: 99 }, &Vec::new(), 5), Some(vec![5]));
}

#[test]
fn range_with_syntax_blocks_is_merged() {
    let lines = lines_of("l1\nl2\nl3\nl4\nl5\nl6");
    let req = LineRequest::Range { start: 3, end: 4 };
    assert_eq!(needed_lines(&req, &vec![6], 6), Some(vec![3, 4, 6]));
    let b = build_extraction("x.go".to_string(), "", &lines, &req, &vec![3, 6], &vec![(1, 3), (2, 4)], 0).unwrap();
    assert_eq!(b.lines, (2, 5));
    assert_eq!(b.node_type, "merged_ast_range");
    assert_eq!(b.code, "l2\nl3\nl4\nl5");
    assert_eq!(b.matched_lines, Some(vec![2]));
}

#[test]
fn range_without_syntax_blocks_is_literal() {
    let lines = lines_of("l1\nl2\nl3\nl4");
    let b = build_extraction("x.txt".to_string(), "", &lines, &LineRequest::Range { start: 2, end: 9 }, &Vec::new(), &Vec::new(), 0)
        .unwrap();
    assert_eq!(b.lines, (2, 4));
    assert_eq!(b.node_type, "range");
}

#[test]
fn specific_lines_fallback_widens_by_context() {
    let lines = lines_of("1\n2\n3\n4\n5\n6\n7\n8");
    let req = LineRequest::Lines { lines: vec![0, 4, 5, 40] };
    assert_eq!(needed_lines(&req, &Vec::new(), 8), Some(vec![4, 5, 8]));
    let b = build_extraction("x.txt".to_string(), "", &lines, &req, &Vec::new(), &Vec::new(), 1).unwrap();
    assert_eq!(b.lines, (3, 8));
    assert_eq!(b.node_type, "specific_lines");
    assert_eq!(b.matched_lines, Some(vec![2, 3, 6]));
}

#[test]
fn whole_file_request() {
    let content = "a\nb\n";
    let lines = lines_of(content);
    let b = build_extraction("x.txt".to_string(), content, &lines, &LineRequest::WholeFile, &Vec::new(), &Vec::new(), 0).unwrap();
    assert_eq!(b.lines, (1, 2));
    assert_eq!(b.node_type, "file");
    assert_eq!(b.code, "a\nb\n");
    let b = build_extraction("x.txt".to_string(), "", &lines, &LineRequest::Lines { lines: Vec::new() }, &Vec::new(), &Vec::new(), 0)
        .unwrap();
    assert_eq!(b.node_type, "file");
}

#[test]
fn one_line_file_blocks_are_that_line() {
    let lines = lines_of("only");
    for req in [
        LineRequest::Line { line: 7 },
        LineRequest::Range { start: 0, end: 9 },
        LineRequest::Lines { lines: vec![3, 0] },
        LineRequest::WholeFile,
    ] {
        let b = build_extraction("one.txt".to_string(), "only", &lines, &req, &Vec::new(), &Vec::new(), 4).unwrap();
        assert_eq!(b.lines, (1, 1));
        assert_eq!(b.code, "only");
    }
}

#[test]
fn sorted_dedup_puts_files_then_larger_spans_first() {
    let blocks = vec![
        block("b.rs", 5, 6),
        block("a.rs", 30, 31),
        block("a.rs", 1, 20),
        block("a.rs", 3, 4),
        block("b.rs", 1, 3),
    ];
    let r = deduplicate_sorted(blocks);
    let spans: Vec<(String, usize, usize)> = r.iter().map(|b| (b.file.clone(), b.lines.0, b.lines.1)).collect();
    assert_eq!(
        spans,
        vec![
            ("a.rs".to_string(), 1, 20),
            ("a.rs".to_string(), 30, 31),
            ("b.rs".to_string(), 1, 3),
            ("b.rs".to_string(), 5, 6),
        ]
    );
}
