//! Go functions, methods, struct and interface types, and calls.

use vstd::prelude::*;

use crate::index::texts;
use crate::parse::javascript::{call_reference, kind_is, make_call_reference, node_kind_is, position, positions};
use crate::parse::nodes::{
    child_by_field, field_child, fqn_from_parts, is_test_path, line_of_row, line_span, node_text, path_is_test,
    symbol_parts, symbol_parts_of, text_of,
};
use crate::parse::syntax::{copies, parse_source, parsed_nodes, Grammar, SyntaxTree};
use crate::parse::types::{fqn_text, reference_views, symbol_views, Reference, ReferenceView, Symbol, SymbolKind, SymbolView};
use crate::text::{chars_of, ends_with, string_from_chars};

verus! {

/// An exported Go name: it starts with an ASCII capital letter.
pub open spec fn go_exported(name: Seq<char>) -> bool {
    name.len() > 0 && 'A' <= name[0] <= 'Z'
}

/// Whether a Go name is exported.
pub fn is_go_exported(name: &str) -> (exported: bool)
    ensures
        exported == go_exported(name@),
{
    let chars = chars_of(name);
    chars.len() > 0 && 'A' <= chars[0] && chars[0] <= 'Z'
}

/// A character of a Go identifier: an ASCII letter or digit, or `_`.
pub open spec fn is_word_char(ch: char) -> bool {
    ('a' <= ch <= 'z') || ('A' <= ch <= 'Z') || ('0' <= ch <= '9') || ch == '_'
}

/// The text without its trailing characters that are not word characters.
pub open spec fn trim_non_word(s: Seq<char>) -> Seq<char>
    decreases s.len(),
{
    if s.len() > 0 && !is_word_char(s.last()) {
        trim_non_word(s.drop_last())
    } else {
        s
    }
}

/// The longest run of word characters that ends the text.
pub open spec fn word_suffix(s: Seq<char>) -> Seq<char>
    decreases s.len(),
{
    if s.len() > 0 && is_word_char(s.last()) {
        word_suffix(s.drop_last()).push(s.last())
    } else {
        Seq::empty()
    }
}

/// The last run of word characters of a text (the type a receiver like `(s *Server)`
/// names), if there is one.
pub open spec fn last_word(s: Seq<char>) -> Option<Seq<char>> {
    let trimmed = trim_non_word(s);
    if trimmed.len() == 0 {
        None
    } else {
        Some(word_suffix(trimmed))
    }
}

/// The last run of word characters of a text.
pub fn receiver_type_name(text: &str) -> (name: Option<String>)
    ensures
        match name {
            Some(n) => last_word(text@) == Some(n@),
            None => last_word(text@) is None,
        },
{
    let chars = chars_of(text);
    let mut end: usize = chars.len();
    proof {
        assert(chars@.subrange(0, end as int) =~= chars@);
    }
    while end > 0 && !(('a' <= chars[end - 1] && chars[end - 1] <= 'z') || ('A' <= chars[end - 1] && chars[end - 1] <= 'Z')
        || ('0' <= chars[end - 1] && chars[end - 1] <= '9') || chars[end - 1] == '_')
        invariant
            end <= chars.len(),
            trim_non_word(chars@) == trim_non_word(chars@.subrange(0, end as int)),
        decreases end,
    {
        proof {
            assert(chars@.subrange(0, end as int).drop_last() =~= chars@.subrange(0, end - 1));
        }
        end -= 1;
    }
    if end == 0 {
        proof {
            assert(chars@.subrange(0, 0) =~= Seq::<char>::empty());
        }
        return None;
    }
    let ghost trimmed = chars@.subrange(0, end as int);
    let mut start: usize = end;
    while start > 0 && (('a' <= chars[start - 1] && chars[start - 1] <= 'z') || ('A' <= chars[start - 1] && chars[start - 1]
        <= 'Z') || ('0' <= chars[start - 1] && chars[start - 1] <= '9') || chars[start - 1] == '_')
        invariant
            start <= end <= chars.len(),
            trimmed == chars@.subrange(0, end as int),
            word_suffix(trimmed) == word_suffix(chars@.subrange(0, start as int)) + chars@.subrange(start as int, end as int),
        decreases start,
    {
        proof {
            assert(chars@.subrange(0, start as int).drop_last() =~= chars@.subrange(0, start - 1));
            assert(chars@.subrange(start - 1, end as int) =~= seq![chars@[start - 1]] + chars@.subrange(start as int, end as int));
            assert(word_suffix(chars@.subrange(0, start as int)) =~= word_suffix(chars@.subrange(0, start - 1)).push(chars@[start - 1]));
        }
        start -= 1;
    }
    proof {
        if start == 0 {
            assert(chars@.subrange(0, 0) =~= Seq::<char>::empty());
        }
        assert(word_suffix(chars@.subrange(0, start as int)) =~= Seq::<char>::empty());
        assert(word_suffix(trimmed) =~= chars@.subrange(start as int, end as int));
    }
    let mut word: Vec<char> = Vec::new();
    let mut k: usize = start;
    while k < end
        invariant
            start <= k <= end <= chars.len(),
            word@ == chars@.subrange(start as int, k as int),
        decreases end - k,
    {
        word.push(chars[k]);
        proof {
            assert(word@ =~= chars@.subrange(start as int, k + 1));
        }
        k += 1;
    }
    Some(string_from_chars(word.as_slice()))
}

/// The name node and definition node of a Go definition at node `v` whose kind and name
/// node kind are given.
pub open spec fn go_definition_at(tree: SyntaxTree, v: int, kind: Seq<char>, name_kind: Seq<char>) -> Option<(int, int)> {
    if kind_is(tree, v, kind) {
        match field_child(tree, v, "name"@) {
            Some(n) => if kind_is(tree, n, name_kind) {
                Some((n, v))
            } else {
                None
            },
            None => None,
        }
    } else {
        None
    }
}

/// A Go symbol with the given name parts and kind.
pub open spec fn go_symbol(
    tree: SyntaxTree,
    path: Seq<char>,
    root: Seq<char>,
    name: Seq<char>,
    parts: Seq<Seq<char>>,
    def_node: int,
    kind: SymbolKind,
) -> SymbolView {
    SymbolView {
        fqn: fqn_text(path, root, parts),
        name,
        kind,
        language: "go"@,
        file: path,
        line_start: line_of_row(tree.nodes@[def_node].start_row),
        line_end: line_of_row(tree.nodes@[def_node].end_row),
        is_exported: go_exported(name),
        is_test: is_test_path(path),
    }
}

/// The type a method's receiver names, if it has one.
pub open spec fn receiver_of(tree: SyntaxTree, v: int, source: Seq<u8>) -> Option<Seq<char>> {
    match field_child(tree, v, "receiver"@) {
        Some(r) => match node_text(tree, r, source) {
            Some(text) => last_word(text),
            None => None,
        },
        None => None,
    }
}

/// The kind of type a `type_spec` declares: an interface or a struct.
pub open spec fn type_spec_kind(tree: SyntaxTree, v: int) -> Option<SymbolKind> {
    match field_child(tree, v, "type"@) {
        Some(t) => if kind_is(tree, t, "interface_type"@) {
            Some(SymbolKind::Interface)
        } else if kind_is(tree, t, "struct_type"@) {
            Some(SymbolKind::Struct)
        } else {
            None
        },
        None => None,
    }
}

/// What Go definitions at node `v` yield for a pass: functions (0), methods named by their
/// receiver type (1), or struct and interface types (2).
pub open spec fn go_symbol_at(tree: SyntaxTree, source: Seq<u8>, path: Seq<char>, root: Seq<char>, pass: int, v: int) -> Option<SymbolView> {
    if pass == 0 {
        match go_definition_at(tree, v, "function_declaration"@, "identifier"@) {
            Some((n, d)) => match node_text(tree, n, source) {
                Some(name) => Some(go_symbol(tree, path, root, name, symbol_parts(tree, d, name, source), d, SymbolKind::Function)),
                None => None,
            },
            None => None,
        }
    } else if pass == 1 {
        match go_definition_at(tree, v, "method_declaration"@, "field_identifier"@) {
            Some((n, d)) => match node_text(tree, n, source) {
                Some(name) => Some(
                    go_symbol(
                        tree,
                        path,
                        root,
                        name,
                        match receiver_of(tree, d, source) {
                            Some(receiver) => seq![receiver, name],
                            None => symbol_parts(tree, d, name, source),
                        },
                        d,
                        SymbolKind::Method,
                    ),
                ),
                None => None,
            },
            None => None,
        }
    } else {
        match (go_definition_at(tree, v, "type_spec"@, "type_identifier"@), type_spec_kind(tree, v)) {
            (Some((n, d)), Some(kind)) => match node_text(tree, n, source) {
                Some(name) => Some(go_symbol(tree, path, root, name, symbol_parts(tree, d, name, source), d, kind)),
                None => None,
            },
            _ => None,
        }
    }
}

/// The symbols of one pass among the first `upto` nodes, in order.
pub open spec fn go_pass_symbols(tree: SyntaxTree, source: Seq<u8>, path: Seq<char>, root: Seq<char>, pass: int, upto: int) -> Seq<SymbolView>
    decreases upto,
{
    if upto <= 0 {
        Seq::empty()
    } else {
        let before = go_pass_symbols(tree, source, path, root, pass, upto - 1);
        match go_symbol_at(tree, source, path, root, pass, upto - 1) {
            Some(s) => before.push(s),
            None => before,
        }
    }
}

/// What a Go file yields: its functions, then its methods, then its struct and interface
/// types.
pub open spec fn go_symbols(tree: SyntaxTree, source: Seq<u8>, path: Seq<char>, root: Seq<char>) -> Seq<SymbolView> {
    let n = tree.nodes.len() as int;
    go_pass_symbols(tree, source, path, root, 0, n) + go_pass_symbols(tree, source, path, root, 1, n) + go_pass_symbols(
        tree,
        source,
        path,
        root,
        2,
        n,
    )
}

/// The first child of node `v` of this kind.
pub open spec fn kind_child_from(tree: SyntaxTree, v: int, kind: Seq<char>, k: int) -> Option<int>
    decreases tree.nodes@[v].children.len() - k,
{
    let children = tree.nodes@[v].children@;
    if k < 0 || k >= children.len() {
        None
    } else if kind_is(tree, children[k] as int, kind) {
        Some(children[k] as int)
    } else {
        kind_child_from(tree, v, kind, k + 1)
    }
}

/// The name node a called expression names: a plain name, a selected field, either of them
/// in parentheses.
pub open spec fn go_callee_name(tree: SyntaxTree, f: int) -> Option<int> {
    if kind_is(tree, f, "identifier"@) {
        Some(f)
    } else if kind_is(tree, f, "selector_expression"@) {
        match field_child(tree, f, "field"@) {
            Some(x) => if kind_is(tree, x, "field_identifier"@) {
                Some(x)
            } else {
                None
            },
            None => None,
        }
    } else if kind_is(tree, f, "parenthesized_expression"@) {
        match kind_child_from(tree, f, "identifier"@, 0) {
            Some(i) => Some(i),
            None => match kind_child_from(tree, f, "selector_expression"@, 0) {
                Some(s) => match field_child(tree, s, "field"@) {
                    Some(x) => if kind_is(tree, x, "field_identifier"@) {
                        Some(x)
                    } else {
                        None
                    },
                    None => None,
                },
                None => None,
            },
        }
    } else {
        None
    }
}

/// The called name node of a call at node `v`, recorded at the call.
pub open spec fn go_call_at(tree: SyntaxTree, v: int) -> Option<(int, int)> {
    if kind_is(tree, v, "call_expression"@) {
        match field_child(tree, v, "function"@) {
            Some(f) => match go_callee_name(tree, f) {
                Some(n) => Some((n, v)),
                None => None,
            },
            None => None,
        }
    } else {
        None
    }
}

/// The references of the calls among the first `upto` nodes, in order.
pub open spec fn go_references(tree: SyntaxTree, source: Seq<u8>, path: Seq<char>, root: Seq<char>, upto: int) -> Seq<ReferenceView>
    decreases upto,
{
    if upto <= 0 {
        Seq::empty()
    } else {
        let before = go_references(tree, source, path, root, upto - 1);
        match go_call_at(tree, upto - 1) {
            Some((n, c)) => match call_reference(tree, source, path, root, n, c) {
                Some(r) => before.push(r),
                None => before,
            },
            None => before,
        }
    }
}

/// The name and definition nodes of a Go definition at a node.
fn find_go_definition(tree: &SyntaxTree, v: usize, kind: &str, name_kind: &str) -> (m: Option<(usize, usize)>)
    requires
        tree.wf(),
        v < tree.nodes.len(),
    ensures
        positions(m) == go_definition_at(*tree, v as int, kind@, name_kind@),
        m matches Some((a, b)) ==> a < tree.nodes.len() && b < tree.nodes.len(),
{
    if !node_kind_is(tree, v, kind) {
        return None;
    }
    match child_by_field(tree, v, "name") {
        Some(n) => if node_kind_is(tree, n, name_kind) {
            Some((n, v))
        } else {
            None
        },
        None => None,
    }
}

/// The type a method's receiver names.
fn method_receiver(tree: &SyntaxTree, v: usize, source: &[u8]) -> (receiver: Option<String>)
    requires
        tree.wf(),
        v < tree.nodes.len(),
    ensures
        match receiver {
            Some(r) => receiver_of(*tree, v as int, source@) == Some(r@),
            None => receiver_of(*tree, v as int, source@) is None,
        },
{
    match child_by_field(tree, v, "receiver") {
        Some(r) => match text_of(tree, r, source) {
            Some(text) => receiver_type_name(text.as_str()),
            None => None,
        },
        None => None,
    }
}

/// The kind of type a `type_spec` declares.
fn find_type_spec_kind(tree: &SyntaxTree, v: usize) -> (kind: Option<SymbolKind>)
    requires
        tree.wf(),
        v < tree.nodes.len(),
    ensures
        kind == type_spec_kind(*tree, v as int),
{
    match child_by_field(tree, v, "type") {
        Some(t) => if node_kind_is(tree, t, "interface_type") {
            Some(SymbolKind::Interface)
        } else if node_kind_is(tree, t, "struct_type") {
            Some(SymbolKind::Struct)
        } else {
            None
        },
        None => None,
    }
}

/// A Go symbol with the given name parts and kind.
fn make_go_symbol(tree: &SyntaxTree, path: &str, root: &str, name: String, parts: &Vec<String>, def_node: usize, kind: SymbolKind) -> (symbol: Symbol)
    requires
        def_node < tree.nodes.len(),
    ensures
        symbol@ == go_symbol(*tree, path@, root@, name@, texts(parts@), def_node as int, kind),
{
    let (line_start, line_end) = line_span(tree, def_node);
    let is_exported = is_go_exported(name.as_str());
    Symbol {
        fqn: fqn_from_parts(path, root, parts),
        name,
        kind,
        language: "go".to_owned(),
        file: path.to_owned(),
        line_start,
        line_end,
        is_exported,
        is_test: path_is_test(path),
    }
}

/// What the Go definitions at a node yield for a pass.
fn find_go_symbol(tree: &SyntaxTree, source: &[u8], path: &str, root: &str, pass: u8, v: usize) -> (symbol: Option<Symbol>)
    requires
        tree.wf(),
        v < tree.nodes.len(),
    ensures
        match symbol {
            Some(s) => go_symbol_at(*tree, source@, path@, root@, pass as int, v as int) == Some(s@),
            None => go_symbol_at(*tree, source@, path@, root@, pass as int, v as int) is None,
        },
{
    if pass == 0 {
        let (n, d) = match find_go_definition(tree, v, "function_declaration", "identifier") {
            Some(found) => found,
            None => return None,
        };
        let name = match text_of(tree, n, source) {
            Some(name) => name,
            None => return None,
        };
        let parts = symbol_parts_of(tree, d, name.as_str(), source);
        Some(make_go_symbol(tree, path, root, name, &parts, d, SymbolKind::Function))
    } else if pass == 1 {
        let (n, d) = match find_go_definition(tree, v, "method_declaration", "field_identifier") {
            Some(found) => found,
            None => return None,
        };
        let name = match text_of(tree, n, source) {
            Some(name) => name,
            None => return None,
        };
        let parts = match method_receiver(tree, d, source) {
            Some(receiver) => {
                let mut parts: Vec<String> = Vec::new();
                parts.push(receiver);
                parts.push(name.clone());
                proof {
                    assert(texts(parts@) =~= seq![receiver@, name@]);
                }
                parts
            },
            None => symbol_parts_of(tree, d, name.as_str(), source),
        };
        Some(make_go_symbol(tree, path, root, name, &parts, d, SymbolKind::Method))
    } else {
        let (n, d) = match find_go_definition(tree, v, "type_spec", "type_identifier") {
            Some(found) => found,
            None => return None,
        };
        let kind = match find_type_spec_kind(tree, v) {
            Some(kind) => kind,
            None => return None,
        };
        let name = match text_of(tree, n, source) {
            Some(name) => name,
            None => return None,
        };
        let parts = symbol_parts_of(tree, d, name.as_str(), source);
        Some(make_go_symbol(tree, path, root, name, &parts, d, kind))
    }
}

/// The symbols of one pass, in order.
fn collect_go_pass(tree: &SyntaxTree, source: &[u8], path: &str, root: &str, pass: u8) -> (symbols: Vec<Symbol>)
    requires
        tree.wf(),
    ensures
        symbol_views(symbols@) == go_pass_symbols(*tree, source@, path@, root@, pass as int, tree.nodes.len() as int),
{
    let mut symbols: Vec<Symbol> = Vec::new();
    let mut v: usize = 0;
    while v < tree.nodes.len()
        invariant
            tree.wf(),
            v <= tree.nodes.len(),
            symbol_views(symbols@) == go_pass_symbols(*tree, source@, path@, root@, pass as int, v as int),
        decreases tree.nodes.len() - v,
    {
        if let Some(symbol) = find_go_symbol(tree, source, path, root, pass, v) {
            let ghost before = symbols@;
            symbols.push(symbol);
            proof {
                assert(symbol_views(symbols@) =~= symbol_views(before).push(symbol@));
            }
        }
        v += 1;
    }
    symbols
}

/// The first child of a node of this kind.
fn child_of_kind(tree: &SyntaxTree, v: usize, kind: &str) -> (child: Option<usize>)
    requires
        tree.wf(),
        v < tree.nodes.len(),
    ensures
        position(child) == kind_child_from(*tree, v as int, kind@, 0),
        child matches Some(c) ==> c < tree.nodes.len(),
{
    let children = &tree.nodes[v].children;
    let mut k: usize = 0;
    while k < children.len()
        invariant
            tree.wf(),
            v < tree.nodes.len(),
            children == &tree.nodes@[v as int].children,
            k <= children.len(),
            kind_child_from(*tree, v as int, kind@, 0) == kind_child_from(*tree, v as int, kind@, k as int),
        decreases children.len() - k,
    {
        let c = children[k];
        assert(c < tree.nodes.len());
        if node_kind_is(tree, c, kind) {
            return Some(c);
        }
        k += 1;
    }
    None
}

/// The field identifier a selector expression selects.
fn selected_field(tree: &SyntaxTree, s: usize) -> (field: Option<usize>)
    requires
        tree.wf(),
        s < tree.nodes.len(),
    ensures
        position(field) == (match field_child(*tree, s as int, "field"@) {
            Some(x) => if kind_is(*tree, x, "field_identifier"@) {
                Some(x)
            } else {
                None
            },
            None => None,
        }),
        field matches Some(x) ==> x < tree.nodes.len(),
{
    match child_by_field(tree, s, "field") {
        Some(x) => if node_kind_is(tree, x, "field_identifier") {
            Some(x)
        } else {
            None
        },
        None => None,
    }
}

/// The called name node of a call at a node.
fn find_go_call(tree: &SyntaxTree, v: usize) -> (m: Option<(usize, usize)>)
    requires
        tree.wf(),
        v < tree.nodes.len(),
    ensures
        positions(m) == go_call_at(*tree, v as int),
        m matches Some((a, b)) ==> a < tree.nodes.len() && b < tree.nodes.len(),
{
    if !node_kind_is(tree, v, "call_expression") {
        return None;
    }
    let f = match child_by_field(tree, v, "function") {
        Some(f) => f,
        None => return None,
    };
    let name = if node_kind_is(tree, f, "identifier") {
        Some(f)
    } else if node_kind_is(tree, f, "selector_expression") {
        selected_field(tree, f)
    } else if node_kind_is(tree, f, "parenthesized_expression") {
        match child_of_kind(tree, f, "identifier") {
            Some(i) => Some(i),
            None => match child_of_kind(tree, f, "selector_expression") {
                Some(s) => selected_field(tree, s),
                None => None,
            },
        }
    } else {
        None
    };
    match name {
        Some(n) => Some((n, v)),
        None => None,
    }
}

/// The references of the calls, in order.
fn collect_go_references(tree: &SyntaxTree, source: &[u8], path: &str, root: &str) -> (references: Vec<Reference>)
    requires
        tree.wf(),
    ensures
        reference_views(references@) == go_references(*tree, source@, path@, root@, tree.nodes.len() as int),
{
    let mut references: Vec<Reference> = Vec::new();
    let mut v: usize = 0;
    while v < tree.nodes.len()
        invariant
            tree.wf(),
            v <= tree.nodes.len(),
            reference_views(references@) == go_references(*tree, source@, path@, root@, v as int),
        decreases tree.nodes.len() - v,
    {
        if let Some((n, c)) = find_go_call(tree, v) {
            if let Some(reference) = make_call_reference(tree, source, path, root, n, c) {
                let ghost before = references@;
                references.push(reference);
                proof {
                    assert(reference_views(references@) =~= reference_views(before).push(reference@));
                }
            }
        }
        v += 1;
    }
    references
}

/// The symbols and references of a parsed Go file.
pub fn go_items(tree: &SyntaxTree, path: &str, root: &str, source: &[u8]) -> (items: (Vec<Symbol>, Vec<Reference>))
    requires
        tree.wf(),
    ensures
        symbol_views(items.0@) == go_symbols(*tree, source@, path@, root@),
        reference_views(items.1@) == go_references(*tree, source@, path@, root@, tree.nodes.len() as int),
{
    let mut symbols = collect_go_pass(tree, source, path, root, 0);
    let mut methods = collect_go_pass(tree, source, path, root, 1);
    let mut types = collect_go_pass(tree, source, path, root, 2);
    let ghost functions = symbols@;
    let ghost method_list = methods@;
    let ghost type_list = types@;
    symbols.append(&mut methods);
    symbols.append(&mut types);
    proof {
        assert(symbol_views(symbols@) =~= symbol_views(functions) + symbol_views(method_list) + symbol_views(type_list));
    }
    let references = collect_go_references(tree, source, path, root);
    (symbols, references)
}

/// What extracting a Go file yields: the items of the tree tree-sitter makes of it with the
/// Go grammar, copied node for node.
pub open spec fn extracted_go(items: (Vec<Symbol>, Vec<Reference>), path: Seq<char>, root: Seq<char>, source: Seq<u8>) -> bool {
    exists|t: SyntaxTree|
        t.is_tree() && copies(t, parsed_nodes(Grammar::Go, source)) && symbol_views(items.0@) == #[trigger] go_symbols(t, source, path, root) && reference_views(items.1@)
            == go_references(t, source, path, root, t.nodes.len() as int)
}

/// The symbols and references of a Go file.
pub fn extract_go(path: &str, root: &str, source: &[u8]) -> (items: (Vec<Symbol>, Vec<Reference>))
    ensures
        extracted_go(items, path@, root@, source@),
{
    match parse_source(Grammar::Go, source) {
        Some(tree) => go_items(&tree, path, root, source),
        None => (Vec::new(), Vec::new()),
    }
}

/// Every symbol of one Go pass lives in a test file exactly when its path is a test path.
proof fn lemma_go_pass_test_marks(tree: SyntaxTree, source: Seq<u8>, path: Seq<char>, root: Seq<char>, pass: int, upto: int)
    ensures
        forall|i: int| 0 <= i < go_pass_symbols(tree, source, path, root, pass, upto).len()
            ==> (#[trigger] go_pass_symbols(tree, source, path, root, pass, upto)[i]).is_test == is_test_path(path),
    decreases upto,
{
    if upto > 0 {
        lemma_go_pass_test_marks(tree, source, path, root, pass, upto - 1);
        let before = go_pass_symbols(tree, source, path, root, pass, upto - 1);
        let all = go_pass_symbols(tree, source, path, root, pass, upto);
        assert forall|i: int| 0 <= i < all.len() implies (#[trigger] all[i]).is_test == is_test_path(path) by {
            if i < before.len() {
                assert(all[i] == before[i]);
            }
        }
    }
}

/// Every symbol extracted from a file whose path ends in `_test.go` is test code.
pub proof fn lemma_go_test_files_hold_tests(tree: SyntaxTree, source: Seq<u8>, path: Seq<char>, root: Seq<char>)
    requires
        ends_with(path, "_test.go"@),
    ensures
        forall|i: int| 0 <= i < go_symbols(tree, source, path, root).len() ==> (#[trigger] go_symbols(tree, source, path, root)[i]).is_test,
{
    let n = tree.nodes.len() as int;
    lemma_go_pass_test_marks(tree, source, path, root, 0, n);
    lemma_go_pass_test_marks(tree, source, path, root, 1, n);
    lemma_go_pass_test_marks(tree, source, path, root, 2, n);
    let a = go_pass_symbols(tree, source, path, root, 0, n);
    let b = go_pass_symbols(tree, source, path, root, 1, n);
    let c = go_pass_symbols(tree, source, path, root, 2, n);
    assert(is_test_path(path));
    assert forall|i: int| 0 <= i < (a + b + c).len() implies (#[trigger] (a + b + c)[i]).is_test by {
        if i < a.len() {
            assert((a + b + c)[i] == a[i]);
        } else if i < a.len() + b.len() {
            assert((a + b + c)[i] == b[i - a.len()]);
        } else {
            assert((a + b + c)[i] == c[i - a.len() - b.len()]);
        }
    }
}

} // verus!
