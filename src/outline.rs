//! Helpers of the outline and XML views: escaping, category headers, symbol
//! names, file extensions, and grouping of symbols by kind.

use vstd::prelude::*;
use vstd::string::StringExecFns;
use crate::blocks::CodeBlock;
use crate::text::{chars_of, char_string, string_of, str_eq, is_ws, trim_spec, trim_chars, slice_chars};

verus! {

/// `s` with `&`, `<`, `>`, `"` and `'` written as XML entities.
pub open spec fn escape_xml_spec(s: Seq<char>) -> Seq<char>
    decreases s.len(),
{
    if s.len() == 0 {
        Seq::empty()
    } else {
        let c = s.last();
        escape_xml_spec(s.drop_last()) + if c == '&' {
            "&amp;"@
        } else if c == '<' {
            "&lt;"@
        } else if c == '>' {
            "&gt;"@
        } else if c == '"' {
            "&quot;"@
        } else if c == '\'' {
            "&apos;"@
        } else {
            seq![c]
        }
    }
}

/// `s` with the XML special characters written as entities.
pub fn escape_xml(s: &str) -> (r: String)
    ensures
        r@ == escape_xml_spec(s@),
{
    let v = chars_of(s);
    let mut out = String::new();
    let mut i: usize = 0;
    while i < v.len()
        invariant
            v@ == s@,
            i <= v@.len(),
            out@ == escape_xml_spec(v@.subrange(0, i as int)),
        decreases v@.len() - i,
    {
        let c = v[i];
        assert(v@.subrange(0, i + 1).drop_last() =~= v@.subrange(0, i as int));
        if c == '&' {
            out.append("&amp;");
        } else if c == '<' {
            out.append("&lt;");
        } else if c == '>' {
            out.append("&gt;");
        } else if c == '"' {
            out.append("&quot;");
        } else if c == '\'' {
            out.append("&apos;");
        } else {
            let cs = char_string(c);
            out.append(cs.as_str());
        }
        i = i + 1;
    }
    assert(v@.subrange(0, v@.len() as int) =~= v@);
    out
}

/// Whether `std` counts `c` as uppercase.
pub uninterp spec fn char_is_upper(c: char) -> bool;

/// What `char::to_uppercase` makes of `c`.
pub uninterp spec fn char_upper(c: char) -> Seq<char>;

/// Relies on `char::is_uppercase`.
#[verifier::external_body]
fn is_upper(c: char) -> (r: bool)
    ensures
        r == char_is_upper(c),
{
    c.is_uppercase()
}

/// Relies on `char::to_uppercase`: the uppercase form of `c`, one or more characters.
#[verifier::external_body]
fn upper(c: char) -> (r: String)
    ensures
        r@ == char_upper(c),
{
    c.to_uppercase().collect()
}

/// The category header named in the table for a node kind, if any.
pub open spec fn category_table(k: Seq<char>) -> Option<Seq<char>> {
    if k == "function_item"@ || k == "function_expression"@ || k == "arrow_function"@ || k
        == "function_definition"@ || k == "async_function_definition"@ || k == "function_declaration"@ {
        Some("Functions"@)
    } else if k == "struct_item"@ || k == "struct_specifier"@ || k == "struct_declaration"@ {
        Some("Structs"@)
    } else if k == "impl_item"@ {
        Some("Impls"@)
    } else if k == "trait_item"@ || k == "trait_declaration"@ {
        Some("Traits"@)
    } else if k == "enum_item"@ || k == "enum_specifier"@ || k == "enum_declaration"@ {
        Some("Enums"@)
    } else if k == "macro_rules"@ {
        Some("Macros"@)
    } else if k == "const_item"@ || k == "const_declaration"@ {
        Some("Constants"@)
    } else if k == "static_item"@ {
        Some("Statics"@)
    } else if k == "type_alias"@ || k == "type_alias_declaration"@ {
        Some("Type Aliases"@)
    } else if k == "mod_item"@ || k == "module"@ {
        Some("Modules"@)
    } else if k == "method_definition"@ || k == "method_declaration"@ || k == "method"@ {
        Some("Methods"@)
    } else if k == "variable_declarator"@ || k == "let_declaration"@ || k == "var_declaration"@ {
        Some("Variables"@)
    } else if k == "namespace_declaration"@ {
        Some("Namespaces"@)
    } else if k == "class_definition"@ || k == "class"@ || k == "class_declaration"@ {
        Some("Classes"@)
    } else if k == "type_spec"@ {
        Some("Types"@)
    } else if k == "field_declaration"@ {
        Some("Fields"@)
    } else if k == "union_specifier"@ {
        Some("Unions"@)
    } else if k == "typedef"@ {
        Some("Type Defs"@)
    } else if k == "protocol_declaration"@ {
        Some("Protocols"@)
    } else if k == "extension_declaration"@ {
        Some("Extensions"@)
    } else if k == "interface_declaration"@ {
        Some("Interfaces"@)
    } else if k == "delegate_declaration"@ {
        Some("Delegates"@)
    } else {
        None
    }
}

/// The header of a node kind: from the table, else the kind with its first
/// character in uppercase.
pub open spec fn category_header_spec(k: Seq<char>) -> Seq<char> {
    match category_table(k) {
        Some(h) => h,
        None => if k.len() == 0 {
            k
        } else if char_is_upper(k[0]) {
            k
        } else {
            char_upper(k[0]) + k.drop_first()
        },
    }
}

fn table_header(node_type: &str) -> (r: Option<&'static str>)
    ensures
        r matches Some(h) ==> category_table(node_type@) == Some(h@),
        r is None ==> category_table(node_type@) is None,
{
    if str_eq(node_type, "function_item") || str_eq(node_type, "function_expression") || str_eq(node_type, "arrow_function") || str_eq(node_type, "function_definition") || str_eq(node_type, "async_function_definition") || str_eq(node_type, "function_declaration") {
        Some("Functions")
    } else if str_eq(node_type, "struct_item") || str_eq(node_type, "struct_specifier") || str_eq(node_type, "struct_declaration") {
        Some("Structs")
    } else if str_eq(node_type, "impl_item") {
        Some("Impls")
    } else if str_eq(node_type, "trait_item") || str_eq(node_type, "trait_declaration") {
        Some("Traits")
    } else if str_eq(node_type, "enum_item") || str_eq(node_type, "enum_specifier") || str_eq(node_type, "enum_declaration") {
        Some("Enums")
    } else if str_eq(node_type, "macro_rules") {
        Some("Macros")
    } else if str_eq(node_type, "const_item") || str_eq(node_type, "const_declaration") {
        Some("Constants")
    } else if str_eq(node_type, "static_item") {
        Some("Statics")
    } else if str_eq(node_type, "type_alias") || str_eq(node_type, "type_alias_declaration") {
        Some("Type Aliases")
    } else if str_eq(node_type, "mod_item") || str_eq(node_type, "module") {
        Some("Modules")
    } else if str_eq(node_type, "method_definition") || str_eq(node_type, "method_declaration") || str_eq(node_type, "method") {
        Some("Methods")
    } else if str_eq(node_type, "variable_declarator") || str_eq(node_type, "let_declaration") || str_eq(node_type, "var_declaration") {
        Some("Variables")
    } else if str_eq(node_type, "namespace_declaration") {
        Some("Namespaces")
    } else if str_eq(node_type, "class_definition") || str_eq(node_type, "class") || str_eq(node_type, "class_declaration") {
        Some("Classes")
    } else if str_eq(node_type, "type_spec") {
        Some("Types")
    } else if str_eq(node_type, "field_declaration") {
        Some("Fields")
    } else if str_eq(node_type, "union_specifier") {
        Some("Unions")
    } else if str_eq(node_type, "typedef") {
        Some("Type Defs")
    } else if str_eq(node_type, "protocol_declaration") {
        Some("Protocols")
    } else if str_eq(node_type, "extension_declaration") {
        Some("Extensions")
    } else if str_eq(node_type, "interface_declaration") {
        Some("Interfaces")
    } else if str_eq(node_type, "delegate_declaration") {
        Some("Delegates")
    } else {
        None
    }
}

/// A readable category header for a node kind (`Functions`, `Structs`, ...);
/// a kind missing from the table gets its first character in uppercase.
pub fn get_category_header(node_type: &str) -> (r: String)
    ensures
        r@ == category_header_spec(node_type@),
{
    match table_header(node_type) {
        Some(h) => String::from_str(h),
        None => {
            let v = chars_of(node_type);
            if v.len() == 0 {
                String::from_str(node_type)
            } else if is_upper(v[0]) {
                String::from_str(node_type)
            } else {
                let mut out = upper(v[0]);
                let rest = string_of(&slice_chars(&v, 1, v.len()));
                out.append(rest.as_str());
                assert(v@.subrange(1, v@.len() as int) =~= v@.drop_first());
                out
            }
        },
    }
}

/// Whether `std` counts `c` as alphanumeric.
pub uninterp spec fn char_is_alnum(c: char) -> bool;

/// Relies on `char::is_alphanumeric`.
#[verifier::external_body]
fn is_alnum(c: char) -> (r: bool)
    ensures
        r == char_is_alnum(c),
{
    c.is_alphanumeric()
}

/// `c` can continue an identifier.
pub open spec fn ident_char(c: char) -> bool {
    char_is_alnum(c) || c == '_'
}

/// `c` can continue a generic type name.
pub open spec fn generic_char(c: char) -> bool {
    char_is_alnum(c) || c == '_' || c == '<' || c == '>'
}

/// `c` ends the head of an impl.
pub open spec fn impl_stop(c: char) -> bool {
    c == '{' || c == '<' || c == '\n'
}

/// The kinds of characters searched for in a symbol's code.
pub enum Probe {
    NotIdent,
    NotGeneric,
    ImplStop,
    NotSpace,
    Is(char),
}

/// Whether `c` is what `p` searches for.
pub open spec fn probe_hit(p: Probe, c: char) -> bool {
    match p {
        Probe::NotIdent => !ident_char(c),
        Probe::NotGeneric => !generic_char(c),
        Probe::ImplStop => impl_stop(c),
        Probe::NotSpace => !is_ws(c),
        Probe::Is(x) => c == x,
    }
}

/// The first index at or after `i` of a character that `p` searches for.
pub open spec fn first_hit(s: Seq<char>, p: Probe, i: int) -> Option<int>
    decreases s.len() - i,
{
    if i < 0 || i >= s.len() {
        None
    } else if probe_hit(p, s[i]) {
        Some(i)
    } else {
        first_hit(s, p, i + 1)
    }
}

/// The first index of a character of `s` that `p` searches for.
pub(crate) fn find_probe(s: &Vec<char>, p: Probe) -> (r: Option<usize>)
    ensures
        r matches Some(i) ==> first_hit(s@, p, 0) == Some(i as int) && i < s@.len(),
        r is None ==> first_hit(s@, p, 0) is None,
{
    let mut i: usize = 0;
    while i < s.len()
        invariant
            i <= s@.len(),
            first_hit(s@, p, 0) == first_hit(s@, p, i as int),
        decreases s@.len() - i,
    {
        let c = s[i];
        let hit = match p {
            Probe::NotIdent => !(is_alnum(c) || c == '_'),
            Probe::NotGeneric => !(is_alnum(c) || c == '_' || c == '<' || c == '>'),
            Probe::ImplStop => c == '{' || c == '<' || c == '\n',
            Probe::NotSpace => !crate::text::is_space(c),
            Probe::Is(x) => c == x,
        };
        if hit {
            return Some(i);
        }
        i = i + 1;
    }
    None
}

/// The first index at or after `i` where `pat` occurs in `s`.
pub open spec fn first_match(s: Seq<char>, pat: Seq<char>, i: int) -> Option<int>
    decreases s.len() + 1 - i,
{
    if i < 0 || i > s.len() || i + pat.len() > s.len() {
        None
    } else if s.subrange(i, i + pat.len()) == pat {
        Some(i)
    } else {
        first_match(s, pat, i + 1)
    }
}

pub(crate) fn matches_at(s: &Vec<char>, pat: &Vec<char>, i: usize) -> (r: bool)
    requires
        i + pat@.len() <= s@.len(),
    ensures
        r == (s@.subrange(i as int, i + pat@.len()) == pat@),
{
    let n = s.len();
    let mut k: usize = 0;
    while k < pat.len()
        invariant
            n == s@.len(),
            i + pat@.len() <= s@.len(),
            k <= pat@.len(),
            forall|q: int| 0 <= q < k ==> s@[i + q] == pat@[q],
        decreases pat@.len() - k,
    {
        if s[i + k] != pat[k] {
            assert(s@.subrange(i as int, i + pat@.len())[k as int] != pat@[k as int]);
            return false;
        }
        k = k + 1;
    }
    assert(s@.subrange(i as int, i + pat@.len()) =~= pat@);
    true
}

/// The first index where `pat` occurs in `s`.
pub(crate) fn find_str(s: &Vec<char>, pat: &str) -> (r: Option<usize>)
    ensures
        r matches Some(i) ==> first_match(s@, pat@, 0) == Some(i as int) && i + pat@.len() <= s@.len(),
        r is None ==> first_match(s@, pat@, 0) is None,
{
    let p = chars_of(pat);
    if p.len() > s.len() {
        return None;
    }
    let last = s.len() - p.len();
    let mut i: usize = 0;
    while i <= last
        invariant
            p@ == pat@,
            last + p@.len() == s@.len(),
            first_match(s@, pat@, 0) == first_match(s@, pat@, i as int),
        decreases last + 1 - i,
    {
        if matches_at(s, &p, i) {
            return Some(i);
        }
        if i == last {
            assert(first_match(s@, pat@, i + 1) is None);
            return None;
        }
        i = i + 1;
    }
    None
}

/// The identifier at the start of `after`: up to the first character that
/// cannot continue one, or all of `after` when it is not empty.
pub open spec fn leading_ident(after: Seq<char>) -> Option<Seq<char>> {
    match first_hit(after, Probe::NotIdent, 0) {
        Some(e) => Some(after.subrange(0, e)),
        None => if after.len() > 0 { Some(after) } else { None },
    }
}

/// The head of an impl block in `after` (the text after `impl `).
pub open spec fn impl_head(after: Seq<char>) -> Seq<char> {
    let e0 = match first_hit(after, Probe::ImplStop, 0) {
        Some(e) => e,
        None => after.len() as int,
    };
    let e = if after.len() > 0 && after[0] == '<' {
        match first_hit(after, Probe::Is('>'), 0) {
            Some(gt) => {
                let rest = after.subrange(gt + 1, after.len() as int);
                let e1 = match first_hit(rest, Probe::NotSpace, 0) {
                    Some(k) => gt + 1 + k,
                    None => e0,
                };
                match first_hit(rest, Probe::NotGeneric, 0) {
                    Some(k) => gt + 1 + k,
                    None => e1,
                }
            },
            None => e0,
        }
    } else {
        match first_hit(after, Probe::NotIdent, 0) {
            Some(k) => k,
            None => e0,
        }
    };
    trim_spec(after.subrange(0, e))
}

/// The text of `code` after the first `pat`, if `pat` occurs.
pub open spec fn after_pat(code: Seq<char>, pat: Seq<char>) -> Option<Seq<char>> {
    match first_match(code, pat, 0) {
        Some(i) => Some(code.subrange(i + pat.len(), code.len() as int)),
        None => None,
    }
}

/// The name of the symbol whose node kind is `k` and whose code is `code`.
pub open spec fn symbol_name_spec(k: Seq<char>, code: Seq<char>) -> Option<Seq<char>> {
    if k == "function_item"@ && after_pat(code, "fn "@) is Some {
        leading_ident(after_pat(code, "fn "@).unwrap())
    } else if k == "struct_item"@ && after_pat(code, "struct "@) is Some {
        leading_ident(after_pat(code, "struct "@).unwrap())
    } else if k == "impl_item"@ && after_pat(code, "impl "@) is Some {
        Some(impl_head(after_pat(code, "impl "@).unwrap()))
    } else if (k == "function_declaration"@ || k == "method_definition"@) && after_pat(code, "function "@) is Some
        && first_hit(after_pat(code, "function "@).unwrap(), Probe::Is('('), 0) is Some {
        let a = after_pat(code, "function "@).unwrap();
        Some(a.subrange(0, first_hit(a, Probe::Is('('), 0).unwrap()))
    } else if k == "class_declaration"@ && after_pat(code, "class "@) is Some {
        let a = after_pat(code, "class "@).unwrap();
        match first_hit(a, Probe::NotIdent, 0) {
            Some(e) => Some(a.subrange(0, e)),
            None => if a.len() > 0 { Some(trim_spec(a)) } else { None },
        }
    } else {
        None
    }
}

fn after_of(code: &Vec<char>, pat: &str) -> (r: Option<Vec<char>>)
    ensures
        r matches Some(a) ==> after_pat(code@, pat@) == Some(a@),
        r is None ==> after_pat(code@, pat@) is None,
{
    match find_str(code, pat) {
        Some(i) => {
            let len = code.len();
            let n = pat.unicode_len();
            Some(slice_chars(code, i + n, len))
        },
        None => None,
    }
}

fn ident_of(after: &Vec<char>) -> (r: Option<String>)
    ensures
        r matches Some(s) ==> leading_ident(after@) == Some(s@),
        r is None ==> leading_ident(after@) is None,
{
    match find_probe(after, Probe::NotIdent) {
        Some(e) => Some(string_of(&slice_chars(after, 0, e))),
        None => if after.len() > 0 {
            Some(string_of(after))
        } else {
            None
        },
    }
}

fn impl_head_of(after: &Vec<char>) -> (r: String)
    ensures
        r@ == impl_head(after@),
{
    let e0 = match find_probe(after, Probe::ImplStop) {
        Some(e) => e,
        None => after.len(),
    };
    let e = if after.len() > 0 && after[0] == '<' {
        match find_probe(after, Probe::Is('>')) {
            Some(gt) => {
                let rest = slice_chars(after, gt + 1, after.len());
                let e1 = match find_probe(&rest, Probe::NotSpace) {
                    Some(k) => gt + 1 + k,
                    None => e0,
                };
                match find_probe(&rest, Probe::NotGeneric) {
                    Some(k) => gt + 1 + k,
                    None => e1,
                }
            },
            None => e0,
        }
    } else {
        match find_probe(after, Probe::NotIdent) {
            Some(k) => k,
            None => e0,
        }
    };
    string_of(&trim_chars(&slice_chars(after, 0, e)))
}

/// The name of a symbol from its node kind and code: the identifier after
/// `fn `, `struct ` or `class `, the head of an impl block, or the name
/// before `(` after `function `; `None` where none is found.
pub fn extract_symbol_name(node_type: &str, code: &str) -> (r: Option<String>)
    ensures
        r matches Some(s) ==> symbol_name_spec(node_type@, code@) == Some(s@),
        r is None ==> symbol_name_spec(node_type@, code@) is None,
{
    let c = chars_of(code);
    if str_eq(node_type, "function_item") {
        if let Some(a) = after_of(&c, "fn ") {
            return ident_of(&a);
        }
    }
    if str_eq(node_type, "struct_item") {
        if let Some(a) = after_of(&c, "struct ") {
            return ident_of(&a);
        }
    }
    if str_eq(node_type, "impl_item") {
        if let Some(a) = after_of(&c, "impl ") {
            return Some(impl_head_of(&a));
        }
    }
    if str_eq(node_type, "function_declaration") || str_eq(node_type, "method_definition") {
        if let Some(a) = after_of(&c, "function ") {
            if let Some(e) = find_probe(&a, Probe::Is('(')) {
                return Some(string_of(&slice_chars(&a, 0, e)));
            }
        }
    }
    if str_eq(node_type, "class_declaration") {
        if let Some(a) = after_of(&c, "class ") {
            match find_probe(&a, Probe::NotIdent) {
                Some(e) => {
                    return Some(string_of(&slice_chars(&a, 0, e)));
                },
                None => {
                    if a.len() > 0 {
                        return Some(string_of(&trim_chars(&a)));
                    }
                },
            }
        }
    }
    None
}

/// The last `/`-separated component of a path.
pub open spec fn file_name_spec(p: Seq<char>) -> Seq<char>
    decreases p.len(),
{
    if p.len() == 0 {
        p
    } else if p.last() == '/' {
        Seq::empty()
    } else {
        file_name_spec(p.drop_last()).push(p.last())
    }
}

/// Position of the last `.` in `s` among its first `n` characters.
pub open spec fn last_dot(s: Seq<char>, n: int) -> Option<int>
    decreases n,
{
    if n <= 0 || n > s.len() {
        None
    } else if s[n - 1] == '.' {
        Some(n - 1)
    } else {
        last_dot(s, n - 1)
    }
}

/// The extension of a path: what follows the last `.` of its file name,
/// where that `.` is not the name's first character; empty otherwise.
pub open spec fn extension_spec(p: Seq<char>) -> Seq<char> {
    let name = file_name_spec(p);
    match last_dot(name, name.len() as int) {
        Some(d) => if d > 0 { name.subrange(d + 1, name.len() as int) } else { Seq::empty() },
        None => Seq::empty(),
    }
}

fn file_name_and_dot(path: &str) -> (r: (Vec<char>, usize))
    ensures
        r.0@ == file_name_spec(path@),
        r.1 <= r.0@.len(),
        last_dot(r.0@, r.0@.len() as int) == (if r.1 > 0 { Some(r.1 - 1) } else { None::<int> }),
{
    let v = chars_of(path);
    let n = v.len();
    let mut start: usize = 0;
    let mut i: usize = 0;
    while i < n
        invariant
            v@ == path@,
            n == v@.len(),
            start <= i <= n,
            file_name_spec(v@.subrange(0, i as int)) == v@.subrange(start as int, i as int),
        decreases n - i,
    {
        assert(v@.subrange(0, i + 1).drop_last() =~= v@.subrange(0, i as int));
        if v[i] == '/' {
            start = i + 1;
            assert(v@.subrange(start as int, i + 1) =~= Seq::<char>::empty());
        } else {
            assert(v@.subrange(start as int, i + 1) =~= v@.subrange(start as int, i as int).push(v@[i as int]));
        }
        i = i + 1;
    }
    assert(v@.subrange(0, n as int) =~= v@);
    let name = slice_chars(&v, start, n);
    let mut k: usize = name.len();
    while k > 0 && name[k - 1] != '.'
        invariant
            k <= name@.len(),
            last_dot(name@, name@.len() as int) == last_dot(name@, k as int),
        decreases k,
    {
        k = k - 1;
    }
    if k > 0 {
        assert(last_dot(name@, k as int) == Some(k - 1));
    }
    (name, k)
}

/// The extension of the file at `path`, without the dot; empty when it has none.
pub fn file_extension(path: &str) -> (r: String)
    ensures
        r@ == extension_spec(path@),
{
    let (name, k) = file_name_and_dot(path);
    if k > 1 {
        string_of(&slice_chars(&name, k, name.len()))
    } else {
        String::new()
    }
}

/// The file name of `path` without its extension.
pub fn file_stem(path: &str) -> (r: String)
    ensures
        r@ == crate::tokenize::file_stem_spec(path@),
{
    let (name, k) = file_name_and_dot(path);
    if k > 1 {
        string_of(&slice_chars(&name, 0, k - 1))
    } else {
        assert(name@.subrange(0, name@.len() as int) =~= name@);
        string_of(&name)
    }
}

/// Symbols grouped by node kind, as (kind, symbols) in order of first appearance.
pub open spec fn groups_view(g: Seq<SymbolGroup>) -> Seq<(Seq<char>, Seq<CodeBlock>)> {
    g.map_values(|x: SymbolGroup| (x.node_type@, x.symbols@))
}

/// Index of the group of kind `k` in `g`, searching from `i`.
pub open spec fn group_index(g: Seq<(Seq<char>, Seq<CodeBlock>)>, k: Seq<char>, i: int) -> Option<int>
    decreases g.len() - i,
{
    if i < 0 || i >= g.len() {
        None
    } else if g[i].0 == k {
        Some(i)
    } else {
        group_index(g, k, i + 1)
    }
}

/// The grouping of the first `n` symbols of `s` by kind.
pub open spec fn grouping_spec(s: Seq<CodeBlock>, n: int) -> Seq<(Seq<char>, Seq<CodeBlock>)>
    decreases n,
{
    if n <= 0 || n > s.len() {
        Seq::empty()
    } else {
        let p = grouping_spec(s, n - 1);
        let b = s[n - 1];
        match group_index(p, b.node_type@, 0) {
            Some(k) => p.update(k, (p[k].0, p[k].1.push(b))),
            None => p.push((b.node_type@, seq![b])),
        }
    }
}

/// The symbols of one node kind.
pub struct SymbolGroup {
    pub node_type: String,
    pub symbols: Vec<CodeBlock>,
}

fn find_group(g: &Vec<SymbolGroup>, k: &String) -> (r: Option<usize>)
    ensures
        r matches Some(i) ==> group_index(groups_view(g@), k@, 0) == Some(i as int) && i < g@.len(),
        r is None ==> group_index(groups_view(g@), k@, 0) is None,
{
    let mut i: usize = 0;
    while i < g.len()
        invariant
            i <= g@.len(),
            group_index(groups_view(g@), k@, 0) == group_index(groups_view(g@), k@, i as int),
        decreases g@.len() - i,
    {
        if g[i].node_type == *k {
            return Some(i);
        }
        i = i + 1;
    }
    None
}

/// Groups symbols by node kind: one group per kind, in order of the kind's
/// first appearance, each holding its symbols in their order.
pub fn group_symbols_by_type(symbols: Vec<CodeBlock>) -> (r: Vec<SymbolGroup>)
    ensures
        groups_view(r@) == grouping_spec(symbols@, symbols@.len() as int),
{
    let ghost orig = symbols@;
    let n = symbols.len();
    let mut rest = symbols;
    let mut groups: Vec<SymbolGroup> = Vec::new();
    let mut i: usize = 0;
    while i < n
        invariant
            n == orig.len(),
            i <= n,
            rest@ == orig.subrange(i as int, n as int),
            groups_view(groups@) == grouping_spec(orig, i as int),
        decreases n - i,
    {
        let b = rest.remove(0);
        assert(b == orig[i as int]);
        let ghost before = groups_view(groups@);
        match find_group(&groups, &b.node_type) {
            Some(k) => {
                let mut g = groups.remove(k);
                g.symbols.push(b);
                groups.insert(k, g);
                assert(groups_view(groups@) =~= before.update(k as int, (before[k as int].0, before[k as int].1.push(b))));
            },
            None => {
                let ghost gb = b;
                let key = b.node_type.clone();
                let mut members: Vec<CodeBlock> = Vec::new();
                members.push(b);
                assert(members@ =~= seq![gb]);
                let g = SymbolGroup { node_type: key, symbols: members };
                groups.push(g);
                assert(groups_view(groups@) =~= before.push((gb.node_type@, seq![gb])));
            },
        }
        i = i + 1;
        assert(rest@ =~= orig.subrange(i as int, n as int));
    }
    groups
}

/// `s` begins with `x`.
pub open spec fn starts_with(s: Seq<char>, x: Seq<char>) -> bool {
    s.len() >= x.len() && s.subrange(0, x.len() as int) == x
}

/// `s` ends with `x`.
pub open spec fn ends_with(s: Seq<char>, x: Seq<char>) -> bool {
    s.len() >= x.len() && s.subrange(s.len() - x.len(), s.len() as int) == x
}

/// A test file by path convention: a Go `_test.go` file, a Python
/// `test_*.py` file, or a file under a `tests` directory.
pub open spec fn is_test_file_spec(p: Seq<char>) -> bool {
    let name = file_name_spec(p);
    ends_with(name, "_test.go"@) || (starts_with(name, "test_"@) && ends_with(name, ".py"@)) || starts_with(
        p,
        "tests/"@,
    ) || first_match(p, "/tests/"@, 0) is Some
}

fn has_prefix(s: &Vec<char>, x: &str) -> (r: bool)
    ensures
        r == starts_with(s@, x@),
{
    let p = chars_of(x);
    if p.len() > s.len() {
        return false;
    }
    matches_at(s, &p, 0)
}

fn has_suffix(s: &Vec<char>, x: &str) -> (r: bool)
    ensures
        r == ends_with(s@, x@),
{
    let p = chars_of(x);
    if p.len() > s.len() {
        return false;
    }
    matches_at(s, &p, s.len() - p.len())
}

/// Whether `path` names a test file by convention: `*_test.go`,
/// `test_*.py`, or a file under a `tests` directory.
pub fn is_test_file(path: &str) -> (r: bool)
    ensures
        r == is_test_file_spec(path@),
{
    let v = chars_of(path);
    let (name, _k) = file_name_and_dot(path);
    has_suffix(&name, "_test.go") || (has_prefix(&name, "test_") && has_suffix(&name, ".py")) || has_prefix(&v, "tests/")
        || find_str(&v, "/tests/").is_some()
}

} // verus!

