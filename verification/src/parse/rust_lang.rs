//! Rust functions, methods, structs, enums and calls.

use vstd::prelude::*;

use crate::index::texts;
use crate::parse::javascript::{call_reference, kind_is, make_call_reference, node_kind_is, positions};
use crate::parse::nodes::{
    ancestor_has_kind, child_by_field, field_child, fqn_from_parts, has_ancestor_kind, is_test_path, line_of_row,
    line_span, node_text, path_is_test, symbol_parts, symbol_parts_of, text_of,
};
use crate::parse::syntax::{copies, parse_source, parsed_nodes, Grammar, SyntaxTree};
use crate::parse::types::{fqn_text, reference_views, symbol_views, Reference, ReferenceView, Symbol, SymbolKind, SymbolView};
use crate::text::{chars_contain, chars_of, contains_seq, str_eq};

verus! {

/// The text of the first visibility modifier among the children of node `v` from the `k`-th
/// on whose text can be read.
pub open spec fn visibility_from(tree: SyntaxTree, v: int, source: Seq<u8>, k: int) -> Option<Seq<char>>
    decreases tree.nodes@[v].children.len() - k,
{
    let children = tree.nodes@[v].children@;
    if k < 0 || k >= children.len() {
        None
    } else if kind_is(tree, children[k] as int, "visibility_modifier"@) && node_text(tree, children[k] as int, source) is Some {
        node_text(tree, children[k] as int, source)
    } else {
        visibility_from(tree, v, source, k + 1)
    }
}

/// A Rust item is public: its visibility modifier is exactly `pub`.
pub open spec fn is_pub(tree: SyntaxTree, v: int, source: Seq<u8>) -> bool {
    visibility_from(tree, v, source, 0) == Some("pub"@)
}

/// An attribute text that marks test code: `cfg(test)`, `#[test]` or a path ending in
/// `::test]`.
pub open spec fn marks_test(text: Seq<char>) -> bool {
    contains_seq(text, "cfg(test)"@) || contains_seq(text, "#[test]"@) || contains_seq(text, "::test]"@)
}

/// Some attribute in the run of attributes just before the `k`-th child of node `p` marks
/// test code.
pub open spec fn attributes_mark_test(tree: SyntaxTree, p: int, k: int, source: Seq<u8>) -> bool
    decreases k,
{
    let children = tree.nodes@[p].children@;
    if k <= 0 || k > children.len() {
        false
    } else {
        let a = children[k - 1] as int;
        if !kind_is(tree, a, "attribute_item"@) {
            false
        } else if match node_text(tree, a, source) {
            Some(text) => marks_test(text),
            None => false,
        } {
            true
        } else {
            attributes_mark_test(tree, p, k - 1, source)
        }
    }
}

/// The position of `v` among the children of `p`, from the `k`-th on.
pub open spec fn child_position(tree: SyntaxTree, p: int, v: int, k: int) -> Option<int>
    decreases tree.nodes@[p].children.len() - k,
{
    let children = tree.nodes@[p].children@;
    if k < 0 || k >= children.len() {
        None
    } else if children[k] as int == v {
        Some(k)
    } else {
        child_position(tree, p, v, k + 1)
    }
}

/// Node `v` or one of its ancestors is preceded by an attribute that marks test code.
pub open spec fn has_test_attribute(tree: SyntaxTree, v: int, source: Seq<u8>) -> bool
    decreases v,
{
    if 0 <= v < tree.nodes.len() {
        match tree.nodes@[v].parent {
            Some(p) => if p < v {
                (match child_position(tree, p as int, v, 0) {
                    Some(k) => attributes_mark_test(tree, p as int, k, source),
                    None => false,
                }) || has_test_attribute(tree, p as int, source)
            } else {
                false
            },
            None => false,
        }
    } else {
        false
    }
}

/// The text of the implemented type of the nearest `impl` block around node `v`, if that
/// block names one.
pub open spec fn impl_type_name(tree: SyntaxTree, v: int, source: Seq<u8>) -> Option<Seq<char>>
    decreases v,
{
    if 0 <= v < tree.nodes.len() {
        match tree.nodes@[v].parent {
            Some(p) => if p < v {
                if kind_is(tree, p as int, "impl_item"@) {
                    match field_child(tree, p as int, "type"@) {
                        Some(t) => node_text(tree, t, source),
                        None => None,
                    }
                } else {
                    impl_type_name(tree, p as int, source)
                }
            } else {
                None
            },
            None => None,
        }
    } else {
        None
    }
}

/// The name node of a Rust item at node `v` whose kind and name node kind are given.
pub open spec fn item_at(tree: SyntaxTree, v: int, kind: Seq<char>, name_kind: Seq<char>) -> Option<int> {
    if kind_is(tree, v, kind) {
        match field_child(tree, v, "name"@) {
            Some(n) => if kind_is(tree, n, name_kind) {
                Some(n)
            } else {
                None
            },
            None => None,
        }
    } else {
        None
    }
}

/// A Rust symbol with the given name parts and kind.
pub open spec fn rust_symbol(
    tree: SyntaxTree,
    source: Seq<u8>,
    path: Seq<char>,
    root: Seq<char>,
    name: Seq<char>,
    parts: Seq<Seq<char>>,
    v: int,
    kind: SymbolKind,
) -> SymbolView {
    SymbolView {
        fqn: fqn_text(path, root, parts),
        name,
        kind,
        language: "rust"@,
        file: path,
        line_start: line_of_row(tree.nodes@[v].start_row),
        line_end: line_of_row(tree.nodes@[v].end_row),
        is_exported: is_pub(tree, v, source),
        is_test: is_test_path(path) || has_test_attribute(tree, v, source),
    }
}

/// What the Rust item at node `v` yields for a pass: functions and methods (0), structs
/// (1) or enums (2). A method, a function inside an `impl` block, is named by the
/// implemented type when the block names one.
pub open spec fn rust_symbol_at(tree: SyntaxTree, source: Seq<u8>, path: Seq<char>, root: Seq<char>, pass: int, v: int) -> Option<SymbolView> {
    if pass == 0 {
        match item_at(tree, v, "function_item"@, "identifier"@) {
            Some(n) => match node_text(tree, n, source) {
                Some(name) => if has_ancestor_kind(tree, v, "impl_item"@) {
                    Some(
                        rust_symbol(
                            tree,
                            source,
                            path,
                            root,
                            name,
                            match impl_type_name(tree, v, source) {
                                Some(t) => seq![t, name],
                                None => symbol_parts(tree, v, name, source),
                            },
                            v,
                            SymbolKind::Method,
                        ),
                    )
                } else {
                    Some(rust_symbol(tree, source, path, root, name, symbol_parts(tree, v, name, source), v, SymbolKind::Function))
                },
                None => None,
            },
            None => None,
        }
    } else {
        let (kind_name, kind) = if pass == 1 {
            ("struct_item"@, SymbolKind::Struct)
        } else {
            ("enum_item"@, SymbolKind::Enum)
        };
        match item_at(tree, v, kind_name, "type_identifier"@) {
            Some(n) => match node_text(tree, n, source) {
                Some(name) => Some(rust_symbol(tree, source, path, root, name, symbol_parts(tree, v, name, source), v, kind)),
                None => None,
            },
            None => None,
        }
    }
}

/// The symbols of one pass among the first `upto` nodes, in order.
pub open spec fn rust_pass_symbols(tree: SyntaxTree, source: Seq<u8>, path: Seq<char>, root: Seq<char>, pass: int, upto: int) -> Seq<SymbolView>
    decreases upto,
{
    if upto <= 0 {
        Seq::empty()
    } else {
        let before = rust_pass_symbols(tree, source, path, root, pass, upto - 1);
        match rust_symbol_at(tree, source, path, root, pass, upto - 1) {
            Some(s) => before.push(s),
            None => before,
        }
    }
}

/// What a Rust file yields: its functions and methods, then its structs, then its enums.
pub open spec fn rust_symbols(tree: SyntaxTree, source: Seq<u8>, path: Seq<char>, root: Seq<char>) -> Seq<SymbolView> {
    let n = tree.nodes.len() as int;
    rust_pass_symbols(tree, source, path, root, 0, n) + rust_pass_symbols(tree, source, path, root, 1, n) + rust_pass_symbols(
        tree,
        source,
        path,
        root,
        2,
        n,
    )
}

/// The called name node of a call at node `v`: a plain name, a field, or the last segment
/// of a path.
pub open spec fn rust_call_at(tree: SyntaxTree, v: int) -> Option<(int, int)> {
    if kind_is(tree, v, "call_expression"@) {
        match field_child(tree, v, "function"@) {
            Some(f) => if kind_is(tree, f, "identifier"@) {
                Some((f, v))
            } else if kind_is(tree, f, "field_expression"@) {
                match field_child(tree, f, "field"@) {
                    Some(x) => if kind_is(tree, x, "field_identifier"@) {
                        Some((x, v))
                    } else {
                        None
                    },
                    None => None,
                }
            } else if kind_is(tree, f, "scoped_identifier"@) {
                match field_child(tree, f, "name"@) {
                    Some(x) => if kind_is(tree, x, "identifier"@) {
                        Some((x, v))
                    } else {
                        None
                    },
                    None => None,
                }
            } else {
                None
            },
            None => None,
        }
    } else {
        None
    }
}

/// The references of the calls among the first `upto` nodes, in order.
pub open spec fn rust_references(tree: SyntaxTree, source: Seq<u8>, path: Seq<char>, root: Seq<char>, upto: int) -> Seq<ReferenceView>
    decreases upto,
{
    if upto <= 0 {
        Seq::empty()
    } else {
        let before = rust_references(tree, source, path, root, upto - 1);
        match rust_call_at(tree, upto - 1) {
            Some((n, c)) => match call_reference(tree, source, path, root, n, c) {
                Some(r) => before.push(r),
                None => before,
            },
            None => before,
        }
    }
}

/// The text of an item's first readable visibility modifier.
fn visibility_text(tree: &SyntaxTree, v: usize, source: &[u8]) -> (text: Option<String>)
    requires
        tree.wf(),
        v < tree.nodes.len(),
    ensures
        match text {
            Some(t) => visibility_from(*tree, v as int, source@, 0) == Some(t@),
            None => visibility_from(*tree, v as int, source@, 0) is None,
        },
{
    let children = &tree.nodes[v].children;
    let mut k: usize = 0;
    while k < children.len()
        invariant
            tree.wf(),
            v < tree.nodes.len(),
            children == &tree.nodes@[v as int].children,
            k <= children.len(),
            visibility_from(*tree, v as int, source@, 0) == visibility_from(*tree, v as int, source@, k as int),
        decreases children.len() - k,
    {
        let c = children[k];
        assert(c < tree.nodes.len());
        if node_kind_is(tree, c, "visibility_modifier") {
            if let Some(t) = text_of(tree, c, source) {
                return Some(t);
            }
        }
        k += 1;
    }
    None
}

/// Whether an item is declared `pub`.
fn item_is_pub(tree: &SyntaxTree, v: usize, source: &[u8]) -> (public: bool)
    requires
        tree.wf(),
        v < tree.nodes.len(),
    ensures
        public == is_pub(*tree, v as int, source@),
{
    match visibility_text(tree, v, source) {
        Some(t) => str_eq(t.as_str(), "pub"),
        None => false,
    }
}

/// Whether an attribute text marks test code.
fn attribute_marks_test(text: &str) -> (test: bool)
    ensures
        test == marks_test(text@),
{
    let chars = chars_of(text);
    chars_contain(&chars, &chars_of("cfg(test)")) || chars_contain(&chars, &chars_of("#[test]")) || chars_contain(
        &chars,
        &chars_of("::test]"),
    )
}

/// Whether one of the attributes just before the `k`-th child of a node marks test code.
fn preceding_attributes_mark_test(tree: &SyntaxTree, p: usize, k: usize, source: &[u8]) -> (test: bool)
    requires
        tree.wf(),
        p < tree.nodes.len(),
        k <= tree.nodes@[p as int].children.len(),
    ensures
        test == attributes_mark_test(*tree, p as int, k as int, source@),
{
    let children = &tree.nodes[p].children;
    let mut j: usize = k;
    while j > 0
        invariant
            tree.wf(),
            p < tree.nodes.len(),
            children == &tree.nodes@[p as int].children,
            j <= k <= children.len(),
            attributes_mark_test(*tree, p as int, k as int, source@) == attributes_mark_test(*tree, p as int, j as int, source@),
        decreases j,
    {
        let a = children[j - 1];
        assert(a < tree.nodes.len());
        if !node_kind_is(tree, a, "attribute_item") {
            return false;
        }
        let marked = match text_of(tree, a, source) {
            Some(text) => attribute_marks_test(text.as_str()),
            None => false,
        };
        if marked {
            return true;
        }
        j -= 1;
    }
    false
}

/// The position of a node among its parent's children.
fn position_in_parent(tree: &SyntaxTree, p: usize, v: usize) -> (k: Option<usize>)
    requires
        tree.wf(),
        p < tree.nodes.len(),
    ensures
        match k {
            Some(i) => child_position(*tree, p as int, v as int, 0) == Some(i as int) && i < tree.nodes@[p as int].children.len(),
            None => child_position(*tree, p as int, v as int, 0) is None,
        },
{
    let children = &tree.nodes[p].children;
    let mut k: usize = 0;
    while k < children.len()
        invariant
            children == &tree.nodes@[p as int].children,
            k <= children.len(),
            child_position(*tree, p as int, v as int, 0) == child_position(*tree, p as int, v as int, k as int),
        decreases children.len() - k,
    {
        if children[k] == v {
            return Some(k);
        }
        k += 1;
    }
    None
}

/// Whether an item or one of its ancestors carries an attribute marking test code.
fn test_attribute(tree: &SyntaxTree, v: usize, source: &[u8]) -> (test: bool)
    requires
        tree.wf(),
        v < tree.nodes.len(),
    ensures
        test == has_test_attribute(*tree, v as int, source@),
{
    let mut current = v;
    loop
        invariant
            tree.wf(),
            current < tree.nodes.len(),
            has_test_attribute(*tree, v as int, source@) == has_test_attribute(*tree, current as int, source@),
        decreases current,
    {
        let p = match tree.nodes[current].parent {
            Some(p) => p,
            None => return false,
        };
        assert(p < current);
        if let Some(k) = position_in_parent(tree, p, current) {
            if preceding_attributes_mark_test(tree, p, k, source) {
                return true;
            }
        }
        current = p;
    }
}

/// The implemented type of the nearest `impl` block around a node.
fn find_impl_type(tree: &SyntaxTree, v: usize, source: &[u8]) -> (name: Option<String>)
    requires
        tree.wf(),
        v < tree.nodes.len(),
    ensures
        match name {
            Some(t) => impl_type_name(*tree, v as int, source@) == Some(t@),
            None => impl_type_name(*tree, v as int, source@) is None,
        },
{
    let mut current = v;
    loop
        invariant
            tree.wf(),
            current < tree.nodes.len(),
            impl_type_name(*tree, v as int, source@) == impl_type_name(*tree, current as int, source@),
        decreases current,
    {
        let p = match tree.nodes[current].parent {
            Some(p) => p,
            None => return None,
        };
        assert(p < current);
        if node_kind_is(tree, p, "impl_item") {
            return match child_by_field(tree, p, "type") {
                Some(t) => text_of(tree, t, source),
                None => None,
            };
        }
        current = p;
    }
}

/// The name node of a Rust item at a node.
fn find_item(tree: &SyntaxTree, v: usize, kind: &str, name_kind: &str) -> (n: Option<usize>)
    requires
        tree.wf(),
        v < tree.nodes.len(),
    ensures
        crate::parse::javascript::position(n) == item_at(*tree, v as int, kind@, name_kind@),
        n matches Some(a) ==> a < tree.nodes.len(),
{
    if !node_kind_is(tree, v, kind) {
        return None;
    }
    match child_by_field(tree, v, "name") {
        Some(n) => if node_kind_is(tree, n, name_kind) {
            Some(n)
        } else {
            None
        },
        None => None,
    }
}

/// A Rust symbol with the given name parts and kind.
fn make_rust_symbol(
    tree: &SyntaxTree,
    source: &[u8],
    path: &str,
    root: &str,
    name: String,
    parts: &Vec<String>,
    v: usize,
    kind: SymbolKind,
) -> (symbol: Symbol)
    requires
        tree.wf(),
        v < tree.nodes.len(),
    ensures
        symbol@ == rust_symbol(*tree, source@, path@, root@, name@, texts(parts@), v as int, kind),
{
    let (line_start, line_end) = line_span(tree, v);
    let is_exported = item_is_pub(tree, v, source);
    let is_test = path_is_test(path) || test_attribute(tree, v, source);
    Symbol {
        fqn: fqn_from_parts(path, root, parts),
        name,
        kind,
        language: "rust".to_owned(),
        file: path.to_owned(),
        line_start,
        line_end,
        is_exported,
        is_test,
    }
}

/// What the Rust item at a node yields for a pass.
fn find_rust_symbol(tree: &SyntaxTree, source: &[u8], path: &str, root: &str, pass: u8, v: usize) -> (symbol: Option<Symbol>)
    requires
        tree.wf(),
        v < tree.nodes.len(),
    ensures
        match symbol {
            Some(s) => rust_symbol_at(*tree, source@, path@, root@, pass as int, v as int) == Some(s@),
            None => rust_symbol_at(*tree, source@, path@, root@, pass as int, v as int) is None,
        },
{
    if pass == 0 {
        let n = match find_item(tree, v, "function_item", "identifier") {
            Some(n) => n,
            None => return None,
        };
        let name = match text_of(tree, n, source) {
            Some(name) => name,
            None => return None,
        };
        if ancestor_has_kind(tree, v, "impl_item") {
            let parts = match find_impl_type(tree, v, source) {
                Some(t) => {
                    let mut parts: Vec<String> = Vec::new();
                    parts.push(t);
                    parts.push(name.clone());
                    proof {
                        assert(texts(parts@) =~= seq![t@, name@]);
                    }
                    parts
                },
                None => symbol_parts_of(tree, v, name.as_str(), source),
            };
            Some(make_rust_symbol(tree, source, path, root, name, &parts, v, SymbolKind::Method))
        } else {
            let parts = symbol_parts_of(tree, v, name.as_str(), source);
            Some(make_rust_symbol(tree, source, path, root, name, &parts, v, SymbolKind::Function))
        }
    } else {
        let (kind_name, kind) = if pass == 1 {
            ("struct_item", SymbolKind::Struct)
        } else {
            ("enum_item", SymbolKind::Enum)
        };
        let n = match find_item(tree, v, kind_name, "type_identifier") {
            Some(n) => n,
            None => return None,
        };
        let name = match text_of(tree, n, source) {
            Some(name) => name,
            None => return None,
        };
        let parts = symbol_parts_of(tree, v, name.as_str(), source);
        Some(make_rust_symbol(tree, source, path, root, name, &parts, v, kind))
    }
}

/// The symbols of one pass, in order.
fn collect_rust_pass(tree: &SyntaxTree, source: &[u8], path: &str, root: &str, pass: u8) -> (symbols: Vec<Symbol>)
    requires
        tree.wf(),
    ensures
        symbol_views(symbols@) == rust_pass_symbols(*tree, source@, path@, root@, pass as int, tree.nodes.len() as int),
{
    let mut symbols: Vec<Symbol> = Vec::new();
    let mut v: usize = 0;
    while v < tree.nodes.len()
        invariant
            tree.wf(),
            v <= tree.nodes.len(),
            symbol_views(symbols@) == rust_pass_symbols(*tree, source@, path@, root@, pass as int, v as int),
        decreases tree.nodes.len() - v,
    {
        if let Some(symbol) = find_rust_symbol(tree, source, path, root, pass, v) {
            let ghost before = symbols@;
            symbols.push(symbol);
            proof {
                assert(symbol_views(symbols@) =~= symbol_views(before).push(symbol@));
            }
        }
        v += 1;
    }
    symbols
}

/// The called name node of a call at a node.
fn find_rust_call(tree: &SyntaxTree, v: usize) -> (m: Option<(usize, usize)>)
    requires
        tree.wf(),
        v < tree.nodes.len(),
    ensures
        positions(m) == rust_call_at(*tree, v as int),
        m matches Some((a, b)) ==> a < tree.nodes.len() && b < tree.nodes.len(),
{
    if !node_kind_is(tree, v, "call_expression") {
        return None;
    }
    let f = match child_by_field(tree, v, "function") {
        Some(f) => f,
        None => return None,
    };
    if node_kind_is(tree, f, "identifier") {
        Some((f, v))
    } else if node_kind_is(tree, f, "field_expression") {
        match child_by_field(tree, f, "field") {
            Some(x) => if node_kind_is(tree, x, "field_identifier") {
                Some((x, v))
            } else {
                None
            },
            None => None,
        }
    } else if node_kind_is(tree, f, "scoped_identifier") {
        match child_by_field(tree, f, "name") {
            Some(x) => if node_kind_is(tree, x, "identifier") {
                Some((x, v))
            } else {
                None
            },
            None => None,
        }
    } else {
        None
    }
}

/// The references of the calls, in order.
fn collect_rust_references(tree: &SyntaxTree, source: &[u8], path: &str, root: &str) -> (references: Vec<Reference>)
    requires
        tree.wf(),
    ensures
        reference_views(references@) == rust_references(*tree, source@, path@, root@, tree.nodes.len() as int),
{
    let mut references: Vec<Reference> = Vec::new();
    let mut v: usize = 0;
    while v < tree.nodes.len()
        invariant
            tree.wf(),
            v <= tree.nodes.len(),
            reference_views(references@) == rust_references(*tree, source@, path@, root@, v as int),
        decreases tree.nodes.len() - v,
    {
        if let Some((n, c)) = find_rust_call(tree, v) {
            if let Some(reference) = make_call_reference(tree, source, path, root, n, c) {
                let ghost before = references@;
                references.push(reference);
                proof {
                    assert(reference_views(references@) =~= reference_views(before).push(reference@));
                }
            }
        }
        v += 1;
    }
    references
}

/// The symbols and references of a parsed Rust file.
pub fn rust_items(tree: &SyntaxTree, path: &str, root: &str, source: &[u8]) -> (items: (Vec<Symbol>, Vec<Reference>))
    requires
        tree.wf(),
    ensures
        symbol_views(items.0@) == rust_symbols(*tree, source@, path@, root@),
        reference_views(items.1@) == rust_references(*tree, source@, path@, root@, tree.nodes.len() as int),
{
    let mut symbols = collect_rust_pass(tree, source, path, root, 0);
    let mut structs = collect_rust_pass(tree, source, path, root, 1);
    let mut enums = collect_rust_pass(tree, source, path, root, 2);
    let ghost functions = symbols@;
    let ghost struct_list = structs@;
    let ghost enum_list = enums@;
    symbols.append(&mut structs);
    symbols.append(&mut enums);
    proof {
        assert(symbol_views(symbols@) =~= symbol_views(functions) + symbol_views(struct_list) + symbol_views(enum_list));
    }
    let references = collect_rust_references(tree, source, path, root);
    (symbols, references)
}

/// What extracting a Rust file yields: the items of the tree tree-sitter makes of it with the
/// Rust grammar, copied node for node.
pub open spec fn extracted_rust(items: (Vec<Symbol>, Vec<Reference>), path: Seq<char>, root: Seq<char>, source: Seq<u8>) -> bool {
    exists|t: SyntaxTree|
        t.is_tree() && copies(t, parsed_nodes(Grammar::Rust, source)) && symbol_views(items.0@) == #[trigger] rust_symbols(t, source, path, root) && reference_views(items.1@)
            == rust_references(t, source, path, root, t.nodes.len() as int)
}

/// The symbols and references of a Rust file.
pub fn extract_rust(path: &str, root: &str, source: &[u8]) -> (items: (Vec<Symbol>, Vec<Reference>))
    ensures
        extracted_rust(items, path@, root@, source@),
{
    match parse_source(Grammar::Rust, source) {
        Some(tree) => rust_items(&tree, path, root, source),
        None => (Vec::new(), Vec::new()),
    }
}

/// In a tree, a child's position among its parent's children is where it stands.
proof fn lemma_child_position_found(tree: SyntaxTree, p: int, v: int, j: int, k: int)
    requires
        tree.is_tree(),
        0 <= p < tree.nodes.len(),
        0 <= j <= k < tree.nodes@[p].children.len(),
        tree.nodes@[p].children@[k] as int == v,
    ensures
        child_position(tree, p, v, j) == Some(k),
    decreases k - j,
{
    if j < k {
        assert(tree.nodes@[p].children@[j] < tree.nodes@[p].children@[k]);
        lemma_child_position_found(tree, p, v, j + 1, k);
    }
}

/// A symbol found at a node below `upto` is among the pass's symbols.
proof fn lemma_rust_pass_symbols_include(
    tree: SyntaxTree,
    source: Seq<u8>,
    path: Seq<char>,
    root: Seq<char>,
    pass: int,
    upto: int,
    v: int,
    s: SymbolView,
)
    requires
        0 <= v < upto,
        rust_symbol_at(tree, source, path, root, pass, v) == Some(s),
    ensures
        rust_pass_symbols(tree, source, path, root, pass, upto).contains(s),
    decreases upto,
{
    let all = rust_pass_symbols(tree, source, path, root, pass, upto);
    if v == upto - 1 {
        assert(all[all.len() - 1] == s);
    } else {
        lemma_rust_pass_symbols_include(tree, source, path, root, pass, upto - 1, v, s);
        let before = rust_pass_symbols(tree, source, path, root, pass, upto - 1);
        let j = choose|j: int| 0 <= j < before.len() && before[j] == s;
        assert(all[j] == before[j]);
    }
}

/// A function item just after an attribute whose text holds `cfg(test)`, `#[test]` or a path
/// ending in `::test]` (such as `#[tokio::test]`) is test code: the file's symbols hold a
/// test symbol of that name starting on the item's line.
pub proof fn lemma_attributed_functions_are_tests(
    tree: SyntaxTree,
    source: Seq<u8>,
    path: Seq<char>,
    root: Seq<char>,
    v: int,
    k: int,
    name_node: int,
    name: Seq<char>,
    attribute: Seq<char>,
)
    requires
        tree.is_tree(),
        0 <= v < tree.nodes.len(),
        tree.nodes@[v].kind@ == "function_item"@,
        field_child(tree, v, "name"@) == Some(name_node),
        tree.nodes@[name_node].kind@ == "identifier"@,
        node_text(tree, name_node, source) == Some(name),
        tree.nodes@[v].parent matches Some(p) && 0 < k < tree.nodes@[p as int].children.len()
            && tree.nodes@[p as int].children@[k] as int == v && tree.nodes@[tree.nodes@[p as int].children@[k - 1] as int].kind@
            == "attribute_item"@ && node_text(tree, tree.nodes@[p as int].children@[k - 1] as int, source) == Some(attribute),
        contains_seq(attribute, "cfg(test)"@) || contains_seq(attribute, "#[test]"@) || contains_seq(attribute, "::test]"@),
    ensures
        exists|i: int|
            0 <= i < rust_symbols(tree, source, path, root).len() && (#[trigger] rust_symbols(tree, source, path, root)[i]).name
                == name && rust_symbols(tree, source, path, root)[i].is_test && rust_symbols(tree, source, path, root)[i].line_start
                == line_of_row(tree.nodes@[v].start_row),
{
    let p = tree.nodes@[v].parent.unwrap() as int;
    assert(p < v);
    lemma_child_position_found(tree, p, v, 0, k);
    assert(attributes_mark_test(tree, p, k, source));
    assert(has_test_attribute(tree, v, source));
    assert(item_at(tree, v, "function_item"@, "identifier"@) == Some(name_node));
    let s = rust_symbol_at(tree, source, path, root, 0, v).unwrap();
    assert(s.name == name && s.is_test && s.line_start == line_of_row(tree.nodes@[v].start_row));
    let n = tree.nodes.len() as int;
    lemma_rust_pass_symbols_include(tree, source, path, root, 0, n, v, s);
    let a = rust_pass_symbols(tree, source, path, root, 0, n);
    let b = rust_pass_symbols(tree, source, path, root, 1, n);
    let c = rust_pass_symbols(tree, source, path, root, 2, n);
    let j = choose|j: int| 0 <= j < a.len() && a[j] == s;
    assert(rust_symbols(tree, source, path, root) == a + b + c);
    assert((a + b + c)[j] == s);
}

} // verus!
