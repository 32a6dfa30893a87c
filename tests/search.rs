use probe_extract::compile::compile_query;
use probe_extract::extract::LineRequest;
use probe_extract::filespec::{parse_file_spec, split_symbol};
use probe_extract::limiter::block_token_counts;
use probe_extract::outline::is_test_file;
use probe_extract::search::{merge_file_blocks, merge_matching, search_file};
use probe_extract::symbols::{find_symbol, lines_fit, resolve_block_rows, symbol_block};
use probe_extract::syntax::{check_tree, SyntaxNode, SyntaxTree};

fn node(kind: &str, field: Option<&str>, bytes: (usize, usize), rows: (usize, usize), parent: Option<usize>) -> SyntaxNode {
    SyntaxNode {
        kind: kind.to_string(),
        field_name: field.map(|f| f.to_string()),
        start_byte: bytes.0,
        end_byte: bytes.1,
        start_row: rows.0,
        end_row: rows.1,
        parent,
    }
}

/// `func HandleReq() {` / `  handle()` / `}` / `func TestHandleReq() {` / `  handle()` / `}`
fn go_file() -> (String, Vec<String>, Vec<u8>, SyntaxTree) {
    let text = "func HandleReq() {\n  handle()\n}\nfunc TestHandleReq() {\n  handle()\n}\n";
    let lines: Vec<String> = text.lines().map(|l| l.to_string()).collect();
    let f2 = text.find("func TestHandleReq").unwrap();
    let end1 = text.find("}\n").unwrap() + 1;
    let end2 = text.len() - 1;
    let nodes = vec![
        node("source_file", None, (0, text.len()), (0, 6), None),
        node("function_declaration", None, (0, end1), (0, 2), Some(0)),
        node("identifier", Some("name"), (5, 14), (0, 0), Some(1)),
        node("block", Some("body"), (17, end1), (0, 2), Some(1)),
        node("function_declaration", None, (f2, end2), (3, 5), Some(0)),
        node("identifier", Some("name"), (f2 + 5, f2 + 18), (3, 3), Some(4)),
        node("block", Some("body"), (f2 + 21, end2), (3, 5), Some(4)),
    ];
    ("foo.go".to_string(), lines, text.as_bytes().to_vec(), SyntaxTree { nodes })
}

#[test]
fn resolver_finds_enclosing_functions() {
    let (_, lines, src, tree) = go_file();
    assert!(lines_fit(&lines));
    assert_eq!(resolve_block_rows(&tree, &src, &lines, &vec![2], false), vec![(0, 2)]);
    assert_eq!(resolve_block_rows(&tree, &src, &lines, &vec![5], false), Vec::<(usize, usize)>::new());
    assert_eq!(resolve_block_rows(&tree, &src, &lines, &vec![5, 2], true), vec![(3, 5), (0, 2)]);
}

#[test]
fn search_leaves_out_tests_unless_allowed() {
    let (file, lines, src, tree) = go_file();
    let plan = compile_query("handle AND NOT other", false, false).ok().unwrap().plan;
    let r = search_file(&file, &lines, &src, &Some(tree), &plan, false, 0);
    let spans: Vec<(usize, usize)> = r.iter().map(|b| b.lines).collect();
    assert_eq!(spans, vec![(1, 3)]);
    assert_eq!(r[0].node_type, "function_declaration");
    let (_, _, _, tree) = go_file();
    let r = search_file(&file, &lines, &src, &Some(tree), &plan, true, 0);
    let spans: Vec<(usize, usize)> = r.iter().map(|b| b.lines).collect();
    assert_eq!(spans, vec![(1, 3), (4, 6)]);
}

#[test]
fn search_without_tree_uses_context() {
    let lines: Vec<String> = vec!["alpha".into(), "beta".into(), "gamma beta".into(), "delta".into()];
    let plan = compile_query("beta", false, false).ok().unwrap().plan;
    let r = search_file(&"notes.txt".to_string(), &lines, &Vec::new(), &None, &plan, false, 1);
    let spans: Vec<(usize, usize)> = r.iter().map(|b| b.lines).collect();
    assert_eq!(spans, vec![(1, 3), (2, 4)]);
    assert!(r.iter().all(|b| b.node_type == "context"));
}

#[test]
fn search_excluded_only_finds_nothing() {
    let lines: Vec<String> = vec!["foo".into(), "bar".into()];
    let plan = compile_query("NOT foo", false, false).ok().unwrap().plan;
    assert!(search_file(&"a.txt".to_string(), &lines, &Vec::new(), &None, &plan, false, 2).is_empty());
}

#[test]
fn empty_file_search() {
    let plan = compile_query("foo", false, false).ok().unwrap().plan;
    assert!(search_file(&"a.txt".to_string(), &Vec::new(), &Vec::new(), &None, &plan, false, 2).is_empty());
}

#[test]
fn file_arguments() {
    let (p, r) = parse_file_spec("src/main.rs:10-20");
    assert_eq!(p, "src/main.rs");
    assert!(matches!(r, LineRequest::Range { start: 10, end: 20 }));
    let (p, r) = parse_file_spec("a.go:7");
    assert_eq!(p, "a.go");
    assert!(matches!(r, LineRequest::Line { line: 7 }));
    let (p, r) = parse_file_spec("C:notes");
    assert_eq!(p, "C:notes");
    assert!(matches!(r, LineRequest::WholeFile));
    let (p, r) = parse_file_spec("plain.txt");
    assert_eq!(p, "plain.txt");
    assert!(matches!(r, LineRequest::WholeFile));
    let (p, r) = parse_file_spec("x.rs:99999999999999999999999");
    assert_eq!(p, "x.rs:99999999999999999999999");
    assert!(matches!(r, LineRequest::WholeFile));
}

fn plain_block(file: &str, lines: (usize, usize), kind: &str) -> probe_extract::blocks::CodeBlock {
    probe_extract::blocks::CodeBlock {
        file: file.to_string(),
        lines,
        node_type: kind.to_string(),
        code: String::new(),
        symbol_signature: None,
        matched_lines: None,
        tokenized_content: Vec::new(),
    }
}

#[test]
fn merging_file_blocks_by_threshold() {
    let lines: Vec<String> = (1..=40).map(|i| format!("line{i}")).collect();
    let file = "m.go".to_string();
    let blocks = vec![plain_block("m.go", (10, 20), "function_declaration"), plain_block("m.go", (23, 30), "function_declaration")];
    let r = merge_file_blocks(&file, &lines, &blocks, 3);
    assert_eq!(r.len(), 1);
    assert_eq!(r[0].lines, (10, 30));
    assert_eq!(r[0].node_type, "merged_ast_range");
    assert!(r[0].code.starts_with("line10\n") && r[0].code.ends_with("\nline30"));
    let r = merge_file_blocks(&file, &lines, &blocks, 2);
    assert_eq!(r.iter().map(|b| b.lines).collect::<Vec<_>>(), vec![(10, 20), (23, 30)]);
    assert!(r.iter().all(|b| b.node_type == "function_declaration"));
}

#[test]
fn token_counts_share_equal_code() {
    let mut a = plain_block("a", (1, 1), "x");
    a.code = "open the fileHandle".to_string();
    let mut b = plain_block("b", (1, 1), "x");
    b.code = "close".to_string();
    let mut c = plain_block("c", (2, 2), "x");
    c.code = "open the fileHandle".to_string();
    assert_eq!(block_token_counts(&vec![a, b, c]), vec![4, 1, 4]);
}

#[test]
fn symbol_lookup_and_block() {
    let (file, lines, src, tree) = go_file();
    assert_eq!(find_symbol(&tree, &src, "HandleReq"), Some(1));
    assert_eq!(find_symbol(&tree, &src, "Missing"), None);
    let b = symbol_block(file.clone(), &lines, &tree, &src, "HandleReq", false).unwrap();
    assert_eq!(b.lines, (1, 3));
    assert_eq!(b.node_type, "function_declaration");
    assert_eq!(b.code, "func HandleReq() {\n  handle()\n}");
    assert!(symbol_block(file.clone(), &lines, &tree, &src, "TestHandleReq", false).is_none());
    let t = symbol_block(file, &lines, &tree, &src, "TestHandleReq", true).unwrap();
    assert_eq!(t.lines, (4, 6));
}

#[test]
fn symbol_arguments() {
    assert_eq!(split_symbol("src/a.go#HandleReq"), Some(("src/a.go".to_string(), "HandleReq".to_string())));
    assert_eq!(split_symbol("src/a.go:10"), None);
}

#[test]
fn exact_phrase_search_finds_the_line() {
    let lines: Vec<String> = vec!["alpha".into(), "see the Exact Phrase here".into(), "omega".into()];
    let plan = compile_query("\"exact phrase\"", false, true).ok().unwrap().plan;
    let r = search_file(&"notes.txt".to_string(), &lines, &Vec::new(), &None, &plan, false, 0);
    assert_eq!(r.len(), 1);
    assert_eq!(r[0].lines, (2, 2));
    assert!(r[0].code.contains("Exact Phrase"));
    let plan = compile_query("\"exact phrase\"", false, false).ok().unwrap().plan;
    let r = search_file(&"notes.txt".to_string(), &lines, &Vec::new(), &None, &plan, false, 0);
    assert_eq!(r.len(), 1);
}

#[test]
fn test_files_by_path() {
    assert!(is_test_file("pkg/foo_test.go"));
    assert!(is_test_file("src/test_utils.py"));
    assert!(is_test_file("tests/blocks.rs"));
    assert!(is_test_file("crate/tests/x.rs"));
    assert!(!is_test_file("src/foo.go"));
    assert!(!is_test_file("src/contest.py"));
}

#[test]
fn tree_checks() {
    let (_, lines, src, tree) = go_file();
    assert!(check_tree(&tree, src.len(), lines.len()));
    assert!(!check_tree(&tree, src.len(), 2));
    assert!(!check_tree(&tree, 3, lines.len()));
    let mut bad = go_file().3;
    bad.nodes[2].parent = Some(5);
    assert!(!check_tree(&bad, src.len(), lines.len()));
}

#[test]
fn merged_blocks_are_checked_against_the_plan() {
    let lines: Vec<String> = vec!["foo".into(), "x".into(), "bar".into(), "y".into(), "foo bar".into()];
    let plan = compile_query("foo AND bar", false, false).ok().unwrap().plan;
    let blocks = vec![plain_block("m.txt", (1, 1), "context"), plain_block("m.txt", (3, 3), "context")];
    let r = merge_matching(&"m.txt".to_string(), &lines, &blocks, 2, &plan);
    assert_eq!(r.iter().map(|b| b.lines).collect::<Vec<_>>(), vec![(1, 3)]);
    let r = merge_matching(&"m.txt".to_string(), &lines, &blocks, 1, &plan);
    assert!(r.is_empty());
}
