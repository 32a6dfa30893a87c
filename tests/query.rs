use probe_extract::blocks::CodeBlock;
use probe_extract::compile::{compile_query, lower_string};
use probe_extract::lexer::{lex_query, LexKind};
use probe_extract::query::{
    block_passes, candidate_lines, contains_exact, count_term, file_candidates, filename_matches, match_stats,
    select_blocks, term_lines, QueryPlan,
};
use probe_extract::tokenize::tokenize;

fn strs(v: &[&str]) -> Vec<String> {
    v.iter().map(|s| s.to_string()).collect()
}

fn lines_of(text: &str) -> Vec<String> {
    text.lines().map(|l| l.to_string()).collect()
}

#[test]
fn tokenize_splits_identifiers() {
    assert_eq!(tokenize("fn parse_expr() {"), strs(&["fn", "parse", "expr"]));
    assert_eq!(tokenize("struct ParseError"), strs(&["struct", "parse", "error"]));
    assert_eq!(tokenize("utf8Decode v2"), strs(&["utf", "8", "decode", "v", "2"]));
    assert_eq!(tokenize("HTTPServer kebab-case"), strs(&["httpserver", "kebab", "case"]));
    assert_eq!(tokenize("  "), Vec::<String>::new());
}

#[test]
fn tokenize_is_idempotent() {
    for text in ["parseExprFast(x, y2)", "HandleReq TestHandleReq", "", "a_b-c d9e"] {
        let once = tokenize(text);
        let twice = tokenize(&once.join(" "));
        assert_eq!(once, twice);
    }
}

#[test]
fn lexer_reports_unbalanced_input() {
    assert_eq!(lex_query("foo)").err().map(|e| e.at), Some(3));
    assert_eq!(lex_query("a \"abc").err().map(|e| e.at), Some(2));
    assert_eq!(lex_query("(foo").err().map(|e| e.at), Some(0));
    assert_eq!(lex_query("(a (b) c").err().map(|e| e.at), Some(0));
    assert_eq!(lex_query("a (b (c)").err().map(|e| e.at), Some(2));
    let ls = lex_query("(a \"b c\") d").ok().unwrap();
    let kinds: Vec<LexKind> = ls.iter().map(|l| l.kind).collect();
    assert_eq!(kinds, vec![LexKind::Open, LexKind::Word, LexKind::Phrase, LexKind::Close, LexKind::Word]);
    assert_eq!(ls[2].text, "b c");
    assert_eq!(ls[4].offset, 10);
}

#[test]
fn compile_and_not() {
    let c = compile_query("handler AND NOT test", false, false).ok().unwrap();
    assert_eq!(c.plan.required, strs(&["handler"]));
    assert_eq!(c.plan.excluded, strs(&["test"]));
    assert!(c.plan.optional.is_empty());
}

#[test]
fn compile_implicit_is_or_unless_strict() {
    let c = compile_query("foo bar", false, false).ok().unwrap();
    assert!(c.plan.required.is_empty());
    assert_eq!(c.plan.optional, strs(&["foo", "bar"]));
    let c = compile_query("foo bar", true, false).ok().unwrap();
    assert_eq!(c.plan.required, strs(&["foo", "bar"]));
    let c = compile_query("foo AND bar", false, false).ok().unwrap();
    assert_eq!(c.plan.required, strs(&["foo", "bar"]));
}

#[test]
fn compile_splits_words_and_keeps_phrases() {
    let c = compile_query("parseExpr \"Exact Phrase\"", false, false).ok().unwrap();
    assert_eq!(c.plan.optional, strs(&["parse", "expr", "exact phrase"]));
    let c = compile_query("parseExpr", false, true).ok().unwrap();
    assert_eq!(c.plan.optional, strs(&["parseexpr"]));
    assert!(c.plan.exact);
}

#[test]
fn compile_extracts_hints() {
    let c = compile_query("ext:rs parse LANG:go", false, false).ok().unwrap();
    assert_eq!(c.plan.optional, strs(&["parse"]));
    let hints: Vec<(String, String)> = c.hints.iter().map(|h| (h.key.clone(), h.value.clone())).collect();
    assert_eq!(hints, vec![("ext".to_string(), "rs".to_string()), ("lang".to_string(), "go".to_string())]);
}

#[test]
fn compile_syntax_errors() {
    assert_eq!(compile_query("AND foo", false, false).err().map(|e| e.offset), Some(0));
    assert_eq!(compile_query("foo AND", false, false).err().map(|e| e.offset), Some(7));
    assert_eq!(compile_query("NOT NOT x", false, false).err().map(|e| e.offset), Some(4));
    assert_eq!(compile_query("foo OR OR bar", false, false).err().map(|e| e.offset), Some(7));
}

#[test]
fn excluded_wins_over_required() {
    let c = compile_query("foo AND bar AND NOT foo", false, false).ok().unwrap();
    assert_eq!(c.plan.required, strs(&["bar"]));
    assert_eq!(c.plan.excluded, strs(&["foo"]));
}

#[test]
fn only_excluded_terms_give_no_candidates() {
    let c = compile_query("NOT foo", false, false).ok().unwrap();
    assert!(c.plan.required.is_empty() && c.plan.optional.is_empty());
    let lines = lines_of("foo\nbar\nfoo bar");
    assert!(file_candidates(&lines, &c.plan).is_empty());
}

#[test]
fn term_index_and_candidates() {
    let lines = lines_of("fn parseExpr() {\n  let foo = 1;\n  parse(foo)\n}");
    assert_eq!(term_lines(&lines, &"parse".to_string(), false), vec![1, 3]);
    assert_eq!(term_lines(&lines, &"parseexpr".to_string(), true), vec![1]);
    assert_eq!(term_lines(&lines, &"foo".to_string(), false), vec![2, 3]);
    let plan = QueryPlan { required: strs(&["parse", "foo"]), excluded: Vec::new(), optional: Vec::new(), exact_terms: Vec::new(), exact: false };
    assert_eq!(file_candidates(&lines, &plan), vec![3]);
    assert_eq!(candidate_lines(&vec![vec![1, 3], vec![2, 3]], &vec![vec![4]], 4), vec![3, 4]);
    assert_eq!(candidate_lines(&vec![vec![1], vec![2]], &vec![vec![4]], 4), Vec::<usize>::new());
    assert_eq!(candidate_lines(&Vec::new(), &vec![vec![4], vec![2]], 4), vec![2, 4]);
}

#[test]
fn block_term_checks() {
    let plan = QueryPlan { required: strs(&["handle"]), excluded: strs(&["test"]), optional: Vec::new(), exact_terms: Vec::new(), exact: false };
    let code = |c: &str| c.to_string();
    assert!(block_passes(&code("func HandleReq()"), &tokenize("func HandleReq()"), &plan));
    assert!(!block_passes(&code("func TestHandleReq()"), &tokenize("func TestHandleReq()"), &plan));
    assert!(!block_passes(&code("func Other()"), &tokenize("func Other()"), &plan));
    assert_eq!(count_term(&tokenize("foo fooBar foo"), &"foo".to_string()), 3);
}

#[test]
fn selected_blocks_hold_required_terms() {
    let mk = |code: &str| CodeBlock {
        file: "foo.go".to_string(),
        lines: (1, 1),
        node_type: "function_declaration".to_string(),
        code: code.to_string(),
        symbol_signature: None,
        matched_lines: None,
        tokenized_content: tokenize(code),
    };
    let plan = QueryPlan { required: strs(&["handle"]), excluded: strs(&["test"]), optional: Vec::new(), exact_terms: Vec::new(), exact: false };
    let r = select_blocks(vec![mk("func HandleReq()"), mk("func TestHandleReq()"), mk("func Run()")], &plan);
    assert_eq!(r.len(), 1);
    assert_eq!(r[0].code, "func HandleReq()");
}

#[test]
fn exact_match_ignores_case() {
    assert!(contains_exact("// Exact Phrase here", "exact phrase"));
    assert!(!contains_exact("// Exact  Phrase", "exact phrase"));
    assert_eq!(lower_string("MiXeD"), "mixed");
    let c = compile_query("\"exact phrase\"", false, true).ok().unwrap();
    assert_eq!(c.plan.optional, strs(&["exact phrase"]));
    assert!(contains_exact("Exact Phrase", &c.plan.optional[0]));
}

#[test]
fn match_statistics() {
    let plan = QueryPlan { required: strs(&["open"]), excluded: Vec::new(), optional: strs(&["file", "path"]), exact_terms: Vec::new(), exact: false };
    assert_eq!(match_stats(&tokenize("open fileName openFile"), &plan), (2, 4));
    assert_eq!(match_stats(&Vec::new(), &plan), (0, 0));
    assert_eq!(filename_matches("src/open_file.py", &plan), 2);
    assert_eq!(filename_matches("src/readme.md", &plan), 0);
}

#[test]
fn syntax_errors_are_byte_offsets_of_the_token() {
    assert_eq!(compile_query("(foo AND bar", false, false).err().map(|e| e.offset), Some(0));
    assert_eq!(compile_query("café )", false, false).err().map(|e| e.offset), Some(6));
    assert_eq!(compile_query("é AND", false, false).err().map(|e| e.offset), Some(6));
}

#[test]
fn phrases_are_listed_as_text_terms() {
    let c = compile_query("parse \"Exact Phrase\"", false, false).ok().unwrap();
    assert_eq!(c.plan.exact_terms, strs(&["exact phrase"]));
    let lines = lines_of("// nothing\nlet x = 1; // Exact Phrase here\n");
    assert_eq!(file_candidates(&lines, &c.plan), vec![2]);
}
