//! Language tables and the Go language handler.

use vstd::prelude::*;
use vstd::string::StringExecFns;
use crate::text::{str_eq, chars_of, string_of, trim_chars, strip_end_chars, trim_spec, strip_end_spec, lossy_text};
use crate::syntax::{SyntaxNode, SyntaxTree, tree_wf, is_child, field_child, kind_child, node_text, field_child_of, kind_child_of, text_of};

verus! {

/// The highlighting language name for a file extension, empty when unknown.
pub open spec fn language_name(e: Seq<char>) -> Seq<char> {
    if e == "rs"@ {
        "rust"@
    } else if e == "py"@ {
        "python"@
    } else if e == "js"@ {
        "javascript"@
    } else if e == "ts"@ {
        "typescript"@
    } else if e == "go"@ {
        "go"@
    } else if e == "c"@ || e == "h"@ {
        "c"@
    } else if e == "cpp"@ || e == "cc"@ || e == "cxx"@ || e == "hpp"@ {
        "cpp"@
    } else if e == "java"@ {
        "java"@
    } else if e == "rb"@ {
        "ruby"@
    } else if e == "php"@ {
        "php"@
    } else if e == "sh"@ {
        "bash"@
    } else if e == "md"@ {
        "markdown"@
    } else if e == "json"@ {
        "json"@
    } else if e == "yaml"@ || e == "yml"@ {
        "yaml"@
    } else if e == "html"@ {
        "html"@
    } else if e == "css"@ {
        "css"@
    } else if e == "sql"@ {
        "sql"@
    } else if e == "kt"@ || e == "kts"@ {
        "kotlin"@
    } else if e == "swift"@ {
        "swift"@
    } else if e == "cs"@ {
        "csharp"@
    } else if e == "scala"@ {
        "scala"@
    } else if e == "dart"@ {
        "dart"@
    } else if e == "ex"@ || e == "exs"@ {
        "elixir"@
    } else if e == "hs"@ {
        "haskell"@
    } else if e == "clj"@ {
        "clojure"@
    } else if e == "lua"@ {
        "lua"@
    } else if e == "r"@ {
        "r"@
    } else if e == "pl"@ || e == "pm"@ {
        "perl"@
    } else if e == "proto"@ {
        "protobuf"@
    } else {
        ""@
    }
}

/// The highlighting language name for `extension`, empty when unknown.
pub fn get_language_from_extension(extension: &str) -> (r: &'static str)
    ensures
        r@ == language_name(extension@),
{
    if str_eq(extension, "rs") {
        "rust"
    } else if str_eq(extension, "py") {
        "python"
    } else if str_eq(extension, "js") {
        "javascript"
    } else if str_eq(extension, "ts") {
        "typescript"
    } else if str_eq(extension, "go") {
        "go"
    } else if str_eq(extension, "c") || str_eq(extension, "h") {
        "c"
    } else if str_eq(extension, "cpp") || str_eq(extension, "cc") || str_eq(extension, "cxx") || str_eq(extension, "hpp") {
        "cpp"
    } else if str_eq(extension, "java") {
        "java"
    } else if str_eq(extension, "rb") {
        "ruby"
    } else if str_eq(extension, "php") {
        "php"
    } else if str_eq(extension, "sh") {
        "bash"
    } else if str_eq(extension, "md") {
        "markdown"
    } else if str_eq(extension, "json") {
        "json"
    } else if str_eq(extension, "yaml") || str_eq(extension, "yml") {
        "yaml"
    } else if str_eq(extension, "html") {
        "html"
    } else if str_eq(extension, "css") {
        "css"
    } else if str_eq(extension, "sql") {
        "sql"
    } else if str_eq(extension, "kt") || str_eq(extension, "kts") {
        "kotlin"
    } else if str_eq(extension, "swift") {
        "swift"
    } else if str_eq(extension, "cs") {
        "csharp"
    } else if str_eq(extension, "scala") {
        "scala"
    } else if str_eq(extension, "dart") {
        "dart"
    } else if str_eq(extension, "ex") || str_eq(extension, "exs") {
        "elixir"
    } else if str_eq(extension, "hs") {
        "haskell"
    } else if str_eq(extension, "clj") {
        "clojure"
    } else if str_eq(extension, "lua") {
        "lua"
    } else if str_eq(extension, "r") {
        "r"
    } else if str_eq(extension, "pl") || str_eq(extension, "pm") {
        "perl"
    } else if str_eq(extension, "proto") {
        "protobuf"
    } else {
        ""
    }
}

/// Go node kinds returned as blocks.
pub open spec fn go_acceptable(k: Seq<char>) -> bool {
    k == "function_declaration"@ || k == "method_declaration"@ || k == "type_declaration"@
        || k == "struct_type"@ || k == "interface_type"@ || k == "const_declaration"@
        || k == "var_declaration"@ || k == "const_spec"@ || k == "var_spec"@
        || k == "short_var_declaration"@ || k == "type_spec"@
}

/// Go node kinds of functions.
pub open spec fn go_function_kind(k: Seq<char>) -> bool {
    k == "function_declaration"@ || k == "method_declaration"@
}

/// The bytes of `Test`.
pub open spec fn test_prefix() -> Seq<u8> {
    seq![0x54u8, 0x65u8, 0x73u8, 0x74u8]
}

/// The source bytes of node `j` begin with `Test`.
pub open spec fn named_test(t: SyntaxTree, j: int, src: Seq<u8>) -> bool {
    let n = t.nodes@[j];
    n.end_byte - n.start_byte >= 4 && src.subrange(n.start_byte as int, n.start_byte + 4) == test_prefix()
}

/// A Go test: a function declaration with an identifier child starting with `Test`.
pub open spec fn go_test_node(t: SyntaxTree, i: int, src: Seq<u8>) -> bool {
    &&& t.nodes@[i].kind@ == "function_declaration"@
    &&& exists|j: int| #[trigger] is_child(t, i, j) && t.nodes@[j].kind@ == "identifier"@ && named_test(t, j, src)
}

/// The nearest ancestor of node `i` that is a function or method declaration.
pub open spec fn go_parent_function(t: SyntaxTree, i: int) -> Option<int>
    decreases i,
{
    if 0 <= i < t.nodes@.len() {
        match t.nodes@[i].parent {
            Some(p) => if p < i {
                if go_function_kind(t.nodes@[p as int].kind@) {
                    Some(p as int)
                } else {
                    go_parent_function(t, p as int)
                }
            } else {
                None
            },
            None => None,
        }
    } else {
        None
    }
}

/// Text of the optional node `o`, or nothing.
pub open spec fn opt_text(t: SyntaxTree, o: Option<int>, pre: Seq<char>, src: Seq<u8>) -> Seq<char> {
    match o {
        Some(j) => pre + node_text(t, j, src),
        None => Seq::empty(),
    }
}

/// The head of a type's text: what comes before its first `{`, trimmed.
pub open spec fn head_of(s: Seq<char>) -> Seq<char> {
    trim_spec(
        match crate::outline::first_hit(s, crate::outline::Probe::Is('{'), 0) {
            Some(k) => s.subrange(0, k),
            None => s,
        },
    )
}

/// A space and the head of the type node `o`, or nothing.
pub open spec fn type_head(t: SyntaxTree, o: Option<int>, src: Seq<u8>) -> Seq<char> {
    match o {
        Some(j) => " "@ + head_of(node_text(t, j, src)),
        None => Seq::empty(),
    }
}

/// The declaration text of Go node `i`, without its body.
pub open spec fn go_signature(t: SyntaxTree, i: int, src: Seq<u8>) -> Option<Seq<char>> {
    let n = t.nodes@[i];
    if n.kind@ == "function_declaration"@ {
        match field_child(t, i, "body"@) {
            Some(b) => Some(trim_spec(strip_end_spec(
                trim_spec(crate::text::utf8_lossy(src.subrange(n.start_byte as int, t.nodes@[b].start_byte as int))),
                '{',
            ))),
            None => Some(trim_spec(node_text(t, i, src))),
        }
    } else if n.kind@ == "type_declaration"@ {
        match kind_child(t, i, "type_spec"@) {
            Some(ts) => match field_child(t, ts, "name"@) {
                Some(nm) => Some("type "@ + node_text(t, nm, src) + opt_text(
                    t,
                    field_child(t, ts, "type_parameters"@),
                    Seq::empty(),
                    src,
                ) + type_head(t, field_child(t, ts, "type"@), src)),
                None => None,
            },
            None => None,
        }
    } else if n.kind@ == "const_declaration"@ {
        match field_child(t, i, "const_spec"@) {
            Some(cs) => match field_child(t, cs, "name"@) {
                Some(nm) => Some("const "@ + node_text(t, nm, src) + opt_text(
                    t,
                    field_child(t, cs, "type"@),
                    " "@,
                    src,
                ) + opt_text(t, field_child(t, cs, "value"@), " = "@, src)),
                None => None,
            },
            None => None,
        }
    } else {
        None
    }
}

/// The Go language handler.
pub struct GoLanguage;

impl Default for GoLanguage {
    fn default() -> (r: Self) {
        Self::new()
    }
}

impl GoLanguage {
    /// A Go language handler.
    pub fn new() -> (r: Self) {
        GoLanguage
    }

    /// The file extension of Go sources.
    pub fn get_extension(&self) -> (r: &'static str)
        ensures
            r@ == "go"@,
    {
        "go"
    }

    /// Whether a node of this kind is returned as a block.
    pub fn is_acceptable_parent(&self, node: &SyntaxNode) -> (r: bool)
        ensures
            r == go_acceptable(node.kind@),
    {
        let k = node.kind.as_str();
        str_eq(k, "function_declaration") || str_eq(k, "method_declaration") || str_eq(k, "type_declaration")
            || str_eq(k, "struct_type") || str_eq(k, "interface_type") || str_eq(k, "const_declaration")
            || str_eq(k, "var_declaration") || str_eq(k, "const_spec") || str_eq(k, "var_spec")
            || str_eq(k, "short_var_declaration") || str_eq(k, "type_spec")
    }

    /// Whether node `i` is a test function: a function declaration whose
    /// identifier starts with `Test`.
    pub fn is_test_node(&self, t: &SyntaxTree, i: usize, source: &Vec<u8>) -> (r: bool)
        requires
            tree_wf(*t, source@.len() as int),
            i < t.nodes@.len(),
        ensures
            r == go_test_node(*t, i as int, source@),
    {
        if !str_eq(t.nodes[i].kind.as_str(), "function_declaration") {
            return false;
        }
        let mut j: usize = 0;
        while j < t.nodes.len()
            invariant
                tree_wf(*t, source@.len() as int),
                i < t.nodes@.len(),
                t.nodes@[i as int].kind@ == "function_declaration"@,
                j <= t.nodes@.len(),
                forall|q: int|
                    0 <= q < j && #[trigger] is_child(*t, i as int, q) ==> !(t.nodes@[q].kind@ == "identifier"@
                        && named_test(*t, q, source@)),
            decreases t.nodes@.len() - j,
        {
            let n = &t.nodes[j];
            assert(t.nodes@[j as int] == *n);
            if n.parent == Some(i) && str_eq(n.kind.as_str(), "identifier") {
                if n.end_byte - n.start_byte >= 4 {
                    let s = n.start_byte;
                    let hit = source[s] == 0x54u8 && source[s + 1] == 0x65u8 && source[s + 2] == 0x73u8
                        && source[s + 3] == 0x74u8;
                    assert(hit == (source@.subrange(s as int, s + 4) =~= test_prefix()));
                    if hit {
                        assert(is_child(*t, i as int, j as int));
                        assert(t.nodes@[j as int].kind@ == "identifier"@);
                        assert(named_test(*t, j as int, source@));
                        return true;
                    }
                }
            }
            j = j + 1;
        }
        false
    }

    /// The nearest enclosing function or method declaration of node `i`.
    pub fn find_parent_function(&self, t: &SyntaxTree, i: usize) -> (r: Option<usize>)
        requires
            i < t.nodes@.len(),
        ensures
            r matches Some(p) ==> go_parent_function(*t, i as int) == Some(p as int),
            r is None ==> go_parent_function(*t, i as int) is None,
    {
        let mut cur = i;
        loop
            invariant
                cur < t.nodes@.len(),
                go_parent_function(*t, i as int) == go_parent_function(*t, cur as int),
            decreases cur,
        {
            match t.nodes[cur].parent {
                Some(p) => {
                    if p >= cur {
                        return None;
                    }
                    let k = t.nodes[p].kind.as_str();
                    if str_eq(k, "function_declaration") || str_eq(k, "method_declaration") {
                        return Some(p);
                    }
                    cur = p;
                },
                None => {
                    return None;
                },
            }
        }
    }

    /// The declaration text of node `i` without its body: for a function the
    /// text before its body, trimmed and without a trailing `{`; for a type its
    /// name, type parameters and the type's text up to its `{`; for a constant
    /// a line built from its name, type and value.
    pub fn get_symbol_signature(&self, t: &SyntaxTree, i: usize, source: &Vec<u8>) -> (r: Option<String>)
        requires
            tree_wf(*t, source@.len() as int),
            i < t.nodes@.len(),
        ensures
            r matches Some(s) ==> go_signature(*t, i as int, source@) == Some(s@),
            r is None ==> go_signature(*t, i as int, source@) is None,
    {
        let k = t.nodes[i].kind.as_str();
        if str_eq(k, "function_declaration") {
            Some(function_signature(t, i, source))
        } else if str_eq(k, "type_declaration") {
            type_signature(t, i, source)
        } else if str_eq(k, "const_declaration") {
            const_signature(t, i, source)
        } else {
            None
        }
    }
}

fn function_signature(t: &SyntaxTree, i: usize, source: &Vec<u8>) -> (r: String)
    requires
        tree_wf(*t, source@.len() as int),
        i < t.nodes@.len(),
        t.nodes@[i as int].kind@ == "function_declaration"@,
    ensures
        go_signature(*t, i as int, source@) == Some(r@),
{
    let n = &t.nodes[i];
    assert(t.nodes@[i as int] == *n);
    match field_child_of(t, i, "body") {
        Some(b) => {
            assert(t.nodes@[b as int].parent == Some(i));
            let bs = t.nodes[b].start_byte;
            let raw = crate::text::slice_bytes(source, n.start_byte, bs);
            let txt = lossy_text(raw.as_slice());
            let c1 = trim_chars(&chars_of(txt.as_str()));
            let c2 = strip_end_chars(&c1, '{');
            let c3 = trim_chars(&c2);
            string_of(&c3)
        },
        None => {
            let txt = text_of(t, i, source);
            let c1 = trim_chars(&chars_of(txt.as_str()));
            string_of(&c1)
        },
    }
}

fn type_signature(t: &SyntaxTree, i: usize, source: &Vec<u8>) -> (r: Option<String>)
    requires
        tree_wf(*t, source@.len() as int),
        i < t.nodes@.len(),
        t.nodes@[i as int].kind@ == "type_declaration"@,
    ensures
        r matches Some(s) ==> go_signature(*t, i as int, source@) == Some(s@),
        r is None ==> go_signature(*t, i as int, source@) is None,
{
    assert("type_declaration"@ != "function_declaration"@) by {
        reveal_strlit("type_declaration");
        reveal_strlit("function_declaration");
        assert("type_declaration"@[0] != "function_declaration"@[0]);
    }
    match kind_child_of(t, i, "type_spec") {
        Some(ts) => match field_child_of(t, ts, "name") {
            Some(nm) => {
                let mut sig = String::from_str("type ");
                let nt = text_of(t, nm, source);
                sig.append(nt.as_str());
                match field_child_of(t, ts, "type_parameters") {
                    Some(p) => {
                        let pt = text_of(t, p, source);
                        sig.append(pt.as_str());
                    },
                    None => {},
                }
                match field_child_of(t, ts, "type") {
                    Some(ty) => {
                        sig.append(" ");
                        let tt = text_of(t, ty, source);
                        let v = chars_of(tt.as_str());
                        let cut = match crate::outline::find_probe(&v, crate::outline::Probe::Is('{')) {
                            Some(k) => crate::text::slice_chars(&v, 0, k),
                            None => crate::text::slice_chars(&v, 0, v.len()),
                        };
                        assert(v@.subrange(0, v@.len() as int) =~= v@);
                        let head = string_of(&trim_chars(&cut));
                        sig.append(head.as_str());
                    },
                    None => {},
                }
                proof {
                    assert(sig@ =~= go_signature(*t, i as int, source@).unwrap());
                }
                Some(sig)
            },
            None => None,
        },
        None => None,
    }
}

fn const_signature(t: &SyntaxTree, i: usize, source: &Vec<u8>) -> (r: Option<String>)
    requires
        tree_wf(*t, source@.len() as int),
        i < t.nodes@.len(),
        t.nodes@[i as int].kind@ == "const_declaration"@,
    ensures
        r matches Some(s) ==> go_signature(*t, i as int, source@) == Some(s@),
        r is None ==> go_signature(*t, i as int, source@) is None,
{
    assert("const_declaration"@ != "function_declaration"@ && "const_declaration"@ != "type_declaration"@) by {
        reveal_strlit("const_declaration");
        reveal_strlit("function_declaration");
        reveal_strlit("type_declaration");
        assert("const_declaration"@[0] != "function_declaration"@[0]);
        assert("const_declaration"@[0] != "type_declaration"@[0]);
    }
    match field_child_of(t, i, "const_spec") {
        Some(cs) => match field_child_of(t, cs, "name") {
            Some(nm) => {
                let mut sig = String::from_str("const ");
                let nt = text_of(t, nm, source);
                sig.append(nt.as_str());
                match field_child_of(t, cs, "type") {
                    Some(ty) => {
                        sig.append(" ");
                        let tt = text_of(t, ty, source);
                        sig.append(tt.as_str());
                    },
                    None => {},
                }
                match field_child_of(t, cs, "value") {
                    Some(v) => {
                        sig.append(" = ");
                        let vt = text_of(t, v, source);
                        sig.append(vt.as_str());
                    },
                    None => {},
                }
                proof {
                    assert(sig@ =~= go_signature(*t, i as int, source@).unwrap());
                }
                Some(sig)
            },
            None => None,
        },
        None => None,
    }
}

} // verus!
