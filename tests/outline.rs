use probe_extract::blocks::CodeBlock;
use probe_extract::language::GoLanguage;
use probe_extract::outline::{escape_xml, extract_symbol_name, file_extension, get_category_header, group_symbols_by_type};
use probe_extract::symbols::{line_byte_span, root_symbols, signature_for_lines};
use probe_extract::syntax::{SyntaxNode, SyntaxTree};

fn node(kind: &str, field: Option<&str>, bytes: (usize, usize), rows: (usize, usize), parent: Option<usize>) -> SyntaxNode {
    SyntaxNode {
        kind: kind.to_string(),
        field_name: field.map(|f| f.to_string()),
        start_byte: bytes.0,
        end_byte: bytes.1,
        start_row: rows.0,
        end_row: rows.1,
        parent,
    }
}

/// A hand-built tree of:
/// func HandleReq() {\n}\nfunc TestHandleReq() {\n}\ntype Pair[T any] struct{}\n
fn go_source() -> (Vec<u8>, SyntaxTree) {
    let src = "func HandleReq() {\n}\nfunc TestHandleReq() {\n}\ntype Pair[T any] struct{}\n";
    let f1 = src.find("func HandleReq").unwrap();
    let b1 = src.find("{\n}").unwrap();
    let f2 = src.find("func TestHandleReq").unwrap();
    let b2 = src[f2..].find('{').unwrap() + f2;
    let t = src.find("type Pair").unwrap();
    let name = src.find("Pair").unwrap();
    let params = src.find("[T any]").unwrap();
    let st = src.find("struct{}").unwrap();
    let end = src.len();
    let nodes = vec![
        node("source_file", None, (0, end), (0, 5), None),
        node("function_declaration", None, (f1, b1 + 3), (0, 1), Some(0)),
        node("identifier", Some("name"), (f1 + 5, f1 + 14), (0, 0), Some(1)),
        node("block", Some("body"), (b1, b1 + 3), (0, 1), Some(1)),
        node("function_declaration", None, (f2, b2 + 3), (2, 3), Some(0)),
        node("identifier", Some("name"), (f2 + 5, f2 + 18), (2, 2), Some(4)),
        node("block", Some("body"), (b2, b2 + 3), (2, 3), Some(4)),
        node("type_declaration", None, (t, st + 8), (4, 4), Some(0)),
        node("type_spec", None, (name, st + 8), (4, 4), Some(7)),
        node("type_identifier", Some("name"), (name, name + 4), (4, 4), Some(8)),
        node("type_parameter_list", Some("type_parameters"), (params, params + 7), (4, 4), Some(8)),
        node("struct_type", Some("type"), (st, st + 8), (4, 4), Some(8)),
    ];
    (src.as_bytes().to_vec(), SyntaxTree { nodes })
}

#[test]
fn go_test_functions_are_detected() {
    let (src, tree) = go_source();
    let go = GoLanguage::new();
    assert!(!go.is_test_node(&tree, 1, &src));
    assert!(go.is_test_node(&tree, 4, &src));
    assert!(!go.is_test_node(&tree, 7, &src));
}

#[test]
fn go_signatures() {
    let (src, tree) = go_source();
    let go = GoLanguage::new();
    assert_eq!(go.get_symbol_signature(&tree, 1, &src), Some("func HandleReq()".to_string()));
    assert_eq!(go.get_symbol_signature(&tree, 7, &src), Some("type Pair[T any] struct".to_string()));
    assert_eq!(go.get_symbol_signature(&tree, 2, &src), None);
}

#[test]
fn go_parent_function() {
    let (_, tree) = go_source();
    let go = GoLanguage::new();
    assert_eq!(go.find_parent_function(&tree, 3), Some(1));
    assert_eq!(go.find_parent_function(&tree, 9), None);
    assert_eq!(go.find_parent_function(&tree, 0), None);
}

#[test]
fn root_symbols_skip_tests_unless_allowed() {
    let (src, tree) = go_source();
    let file = "foo.go".to_string();
    let r = root_symbols(&file, &tree, &src, false);
    let seen: Vec<((usize, usize), String)> = r.iter().map(|b| (b.lines, b.node_type.clone())).collect();
    assert_eq!(seen, vec![((1, 2), "function_declaration".to_string()), ((5, 5), "type_declaration".to_string())]);
    assert_eq!(r[0].symbol_signature, Some("func HandleReq()".to_string()));
    let r = root_symbols(&file, &tree, &src, true);
    assert_eq!(r.len(), 3);
    assert_eq!(r[1].lines, (3, 4));
}

#[test]
fn signature_of_line_span() {
    let (src, tree) = go_source();
    let text = String::from_utf8(src.clone()).unwrap();
    let lines: Vec<String> = text.lines().map(|l| l.to_string()).collect();
    assert_eq!(line_byte_span(&lines, src.len(), 1, 2), (0, 20));
    assert_eq!(line_byte_span(&lines, src.len(), 5, 9), (46, src.len()));
    assert_eq!(signature_for_lines(&tree, &src, &lines, 3, 4), Some("func TestHandleReq()".to_string()));
    assert_eq!(signature_for_lines(&tree, &src, &lines, 5, 5), Some("type Pair[T any] struct".to_string()));
}

#[test]
fn xml_escaping() {
    assert_eq!(escape_xml("a<b>&\"c'"), "a&lt;b&gt;&amp;&quot;c&apos;");
    assert_eq!(escape_xml("plain é"), "plain é");
    assert_eq!(escape_xml(""), "");
}

#[test]
fn category_headers() {
    assert_eq!(get_category_header("function_item"), "Functions");
    assert_eq!(get_category_header("type_spec"), "Types");
    assert_eq!(get_category_header("class"), "Classes");
    assert_eq!(get_category_header("foo_bar"), "Foo_bar");
    assert_eq!(get_category_header("éclair"), "Éclair");
    assert_eq!(get_category_header("Xyz"), "Xyz");
    assert_eq!(get_category_header(""), "");
}

#[test]
fn symbol_names() {
    assert_eq!(extract_symbol_name("function_item", "pub fn parse_expr(x: u8) {}"), Some("parse_expr".to_string()));
    assert_eq!(extract_symbol_name("function_item", "fn tail"), Some("tail".to_string()));
    assert_eq!(extract_symbol_name("struct_item", "struct ParseError { x: u8 }"), Some("ParseError".to_string()));
    assert_eq!(extract_symbol_name("impl_item", "impl Foo for Bar {"), Some("Foo".to_string()));
    assert_eq!(extract_symbol_name("impl_item", "impl <T> Wrapper<T> {"), Some("<T>".to_string()));
    assert_eq!(extract_symbol_name("impl_item", "impl<T> Wrapper<T> {"), None);
    assert_eq!(extract_symbol_name("function_declaration", "function handle(req) {"), Some("handle".to_string()));
    assert_eq!(extract_symbol_name("class_declaration", "class Widget extends Base {"), Some("Widget".to_string()));
    assert_eq!(extract_symbol_name("class_declaration", "class Widget"), Some("Widget".to_string()));
    assert_eq!(extract_symbol_name("function_item", "let x = 1;"), None);
    assert_eq!(extract_symbol_name("enum_item", "enum E {}"), None);
}

#[test]
fn file_extensions() {
    assert_eq!(file_extension("src/main.rs"), "rs");
    assert_eq!(file_extension("a/b.tar.gz"), "gz");
    assert_eq!(file_extension(".bashrc"), "");
    assert_eq!(file_extension("dir.d/Makefile"), "");
    assert_eq!(file_extension("noext"), "");
}

#[test]
fn grouping_by_kind() {
    let mk = |kind: &str, line: usize| CodeBlock {
        file: "x.rs".to_string(),
        lines: (line, line),
        node_type: kind.to_string(),
        code: String::new(),
        symbol_signature: None,
        matched_lines: None,
        tokenized_content: Vec::new(),
    };
    let g = group_symbols_by_type(vec![mk("fn", 1), mk("struct", 2), mk("fn", 3)]);
    assert_eq!(g.len(), 2);
    assert_eq!(g[0].node_type, "fn");
    assert_eq!(g[0].symbols.iter().map(|b| b.lines.0).collect::<Vec<_>>(), vec![1, 3]);
    assert_eq!(g[1].node_type, "struct");
    assert_eq!(g[1].symbols.len(), 1);
}
