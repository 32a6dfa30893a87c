use probe_extract::language::{get_language_from_extension, GoLanguage};
use probe_extract::syntax::SyntaxNode;

#[test]
fn language_names_for_known_extensions() {
    assert_eq!(get_language_from_extension("rs"), "rust");
    assert_eq!(get_language_from_extension("hpp"), "cpp");
    assert_eq!(get_language_from_extension("yml"), "yaml");
    assert_eq!(get_language_from_extension("pm"), "perl");
    assert_eq!(get_language_from_extension("proto"), "protobuf");
}

#[test]
fn language_name_empty_for_unknown_extension() {
    assert_eq!(get_language_from_extension("zzz"), "");
    assert_eq!(get_language_from_extension(""), "");
}

#[test]
fn go_acceptable_parents() {
    let go = GoLanguage::new();
    let node = |kind: &str| SyntaxNode {
        kind: kind.to_string(),
        field_name: None,
        start_byte: 0,
        end_byte: 0,
        start_row: 0,
        end_row: 0,
        parent: None,
    };
    assert!(go.is_acceptable_parent(&node("function_declaration")));
    assert!(go.is_acceptable_parent(&node("type_spec")));
    assert!(!go.is_acceptable_parent(&node("identifier")));
    assert_eq!(go.get_extension(), "go");
}
