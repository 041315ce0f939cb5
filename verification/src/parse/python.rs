//! Python definitions, `__all__` exports and calls.

use vstd::prelude::*;

use crate::index::texts;
use crate::parse::javascript::{
    call_reference, kind_is, make_call_reference, node_kind_is, positions,
};
use crate::parse::nodes::{
    ancestor_has_kind, child_by_field, field_child, fqn_from_parts, has_ancestor_kind, is_test_path, line_of_row,
    line_span, node_text, path_is_test, symbol_parts, symbol_parts_of, text_of,
};
use crate::parse::syntax::{copies, parse_source, parsed_nodes, Grammar, SyntaxTree};
use crate::parse::types::{fqn_text, reference_views, symbol_views, Reference, ReferenceView, Symbol, SymbolKind, SymbolView};
use crate::text::{chars_contain, chars_of, contains_seq, str_eq, string_from_chars};

verus! {

/// The name node and definition node of a class or function defined at node `v`.
pub open spec fn definition_at(tree: SyntaxTree, v: int, kind: Seq<char>) -> Option<(int, int)> {
    if kind_is(tree, v, kind) {
        match field_child(tree, v, "name"@) {
            Some(n) => if kind_is(tree, n, "identifier"@) {
                Some((n, v))
            } else {
                None
            },
            None => None,
        }
    } else {
        None
    }
}

/// A definition wrapped in decorators that name a pytest fixture.
pub open spec fn has_fixture_decorator(tree: SyntaxTree, v: int, source: Seq<u8>) -> bool {
    match tree.nodes@[v].parent {
        Some(p) => kind_is(tree, p as int, "decorated_definition"@) && match node_text(tree, p as int, source) {
            Some(text) => contains_seq(text, "pytest.fixture"@) || contains_seq(text, "@fixture"@),
            None => false,
        },
        None => false,
    }
}

/// The symbol a Python definition yields, when its name has text; exports are applied later.
pub open spec fn python_symbol(
    tree: SyntaxTree,
    source: Seq<u8>,
    path: Seq<char>,
    root: Seq<char>,
    name_node: int,
    def_node: int,
    kind: SymbolKind,
    is_test: bool,
) -> Option<SymbolView> {
    match node_text(tree, name_node, source) {
        Some(name) => Some(
            SymbolView {
                fqn: fqn_text(path, root, symbol_parts(tree, def_node, name, source)),
                name,
                kind,
                language: "python"@,
                file: path,
                line_start: line_of_row(tree.nodes@[def_node].start_row),
                line_end: line_of_row(tree.nodes@[def_node].end_row),
                is_exported: false,
                is_test,
            },
        ),
        None => None,
    }
}

/// The symbol of the class defined at node `v`, if any.
pub open spec fn class_symbol_at(tree: SyntaxTree, source: Seq<u8>, path: Seq<char>, root: Seq<char>, v: int) -> Option<SymbolView> {
    match definition_at(tree, v, "class_definition"@) {
        Some((n, d)) => python_symbol(tree, source, path, root, n, d, SymbolKind::Class, is_test_path(path)),
        None => None,
    }
}

/// The symbol of the function defined at node `v`, if any: a method inside a class, a
/// test when the file is a test file or the function a pytest fixture.
pub open spec fn function_symbol_at(tree: SyntaxTree, source: Seq<u8>, path: Seq<char>, root: Seq<char>, v: int) -> Option<SymbolView> {
    match definition_at(tree, v, "function_definition"@) {
        Some((n, d)) => python_symbol(
            tree,
            source,
            path,
            root,
            n,
            d,
            if has_ancestor_kind(tree, d, "class_definition"@) {
                SymbolKind::Method
            } else {
                SymbolKind::Function
            },
            is_test_path(path) || has_fixture_decorator(tree, d, source),
        ),
        None => None,
    }
}

/// The symbols among the first `upto` nodes: classes when `classes` holds, else functions.
pub open spec fn python_definitions(tree: SyntaxTree, source: Seq<u8>, path: Seq<char>, root: Seq<char>, classes: bool, upto: int) -> Seq<SymbolView>
    decreases upto,
{
    if upto <= 0 {
        Seq::empty()
    } else {
        let before = python_definitions(tree, source, path, root, classes, upto - 1);
        let found = if classes {
            class_symbol_at(tree, source, path, root, upto - 1)
        } else {
            function_symbol_at(tree, source, path, root, upto - 1)
        };
        match found {
            Some(s) => before.push(s),
            None => before,
        }
    }
}

/// What scanning the first `upto` characters of a text leaves: the names closed so far, the
/// name being read, and the open quote.
pub open spec fn string_names_state(s: Seq<char>, upto: int) -> (Seq<Seq<char>>, Seq<char>, Option<char>)
    decreases upto,
{
    if upto <= 0 {
        (Seq::empty(), Seq::empty(), None)
    } else {
        let (names, current, quote) = string_names_state(s, upto - 1);
        let ch = s[upto - 1];
        match quote {
            Some(active) => if ch == active {
                (if current.len() > 0 { names.push(current) } else { names }, Seq::empty(), None)
            } else {
                (names, current.push(ch), quote)
            },
            None => if ch == '"' || ch == '\'' {
                (names, current, Some(ch))
            } else {
                (names, current, None)
            },
        }
    }
}

/// The nonempty quoted strings of a text, in order (the names of an `__all__` list).
pub open spec fn string_names(s: Seq<char>) -> Seq<Seq<char>> {
    string_names_state(s, s.len() as int).0
}

/// The nonempty quoted strings of a text, in order.
pub fn extract_string_names(text: &str) -> (names: Vec<String>)
    ensures
        texts(names@) == string_names(text@),
{
    let chars = chars_of(text);
    let mut names: Vec<String> = Vec::new();
    let mut current: Vec<char> = Vec::new();
    let mut quote: Option<char> = None;
    let mut i: usize = 0;
    while i < chars.len()
        invariant
            i <= chars.len(),
            chars@ == text@,
            string_names_state(text@, i as int) == (texts(names@), current@, quote),
        decreases chars.len() - i,
    {
        let ch = chars[i];
        match quote {
            Some(active) => {
                if ch == active {
                    if current.len() > 0 {
                        let ghost before = names@;
                        let name = string_from_chars(current.as_slice());
                        names.push(name);
                        proof {
                            assert(texts(names@) =~= texts(before).push(current@));
                        }
                    }
                    current = Vec::new();
                    quote = None;
                } else {
                    current.push(ch);
                }
            },
            None => {
                if ch == '"' || ch == '\'' {
                    quote = Some(ch);
                }
            },
        }
        proof {
            assert(string_names_state(text@, i + 1) == (texts(names@), current@, quote));
        }
        i += 1;
    }
    names
}

/// The position of the first symbol from `from` on with this name.
pub open spec fn first_named(symbols: Seq<SymbolView>, name: Seq<char>, from: int) -> Option<int>
    decreases symbols.len() - from,
{
    if from < 0 || from >= symbols.len() {
        None
    } else if symbols[from].name == name {
        Some(from)
    } else {
        first_named(symbols, name, from + 1)
    }
}

/// The symbol with its export flag set.
pub open spec fn exported_symbol(s: SymbolView) -> SymbolView {
    SymbolView {
        fqn: s.fqn,
        name: s.name,
        kind: s.kind,
        language: s.language,
        file: s.file,
        line_start: s.line_start,
        line_end: s.line_end,
        is_exported: true,
        is_test: s.is_test,
    }
}

/// The symbols after marking the first one with each of the first `upto` names exported.
pub open spec fn mark_names(symbols: Seq<SymbolView>, names: Seq<Seq<char>>, upto: int) -> Seq<SymbolView>
    decreases upto,
{
    if upto <= 0 {
        symbols
    } else {
        let before = mark_names(symbols, names, upto - 1);
        match first_named(before, names[upto - 1], 0) {
            Some(i) => before.update(i, exported_symbol(before[i])),
            None => before,
        }
    }
}

/// The value of an `__all__ = ...` assignment at node `v`.
pub open spec fn all_value_at(tree: SyntaxTree, v: int, source: Seq<u8>) -> Option<Seq<char>> {
    if kind_is(tree, v, "assignment"@) {
        match (field_child(tree, v, "left"@), field_child(tree, v, "right"@)) {
            (Some(left), Some(right)) => if kind_is(tree, left, "identifier"@) && tree.nodes@[right].named && node_text(
                tree,
                left,
                source,
            ) == Some("__all__"@) {
                node_text(tree, right, source)
            } else {
                None
            },
            _ => None,
        }
    } else {
        None
    }
}

/// The symbols after applying the `__all__` assignments among the first `upto` nodes, in
/// order: each name listed marks the first symbol of that name exported.
pub open spec fn apply_all_exports(tree: SyntaxTree, source: Seq<u8>, symbols: Seq<SymbolView>, upto: int) -> Seq<SymbolView>
    decreases upto,
{
    if upto <= 0 {
        symbols
    } else {
        let before = apply_all_exports(tree, source, symbols, upto - 1);
        match all_value_at(tree, upto - 1, source) {
            Some(value) => mark_names(before, string_names(value), string_names(value).len() as int),
            None => before,
        }
    }
}

/// The called name node of a call at node `v`: a plain name or an attribute.
pub open spec fn python_call_at(tree: SyntaxTree, v: int) -> Option<(int, int)> {
    if kind_is(tree, v, "call"@) {
        match field_child(tree, v, "function"@) {
            Some(f) => if kind_is(tree, f, "identifier"@) {
                Some((f, v))
            } else if kind_is(tree, f, "attribute"@) {
                match field_child(tree, f, "attribute"@) {
                    Some(a) => if kind_is(tree, a, "identifier"@) {
                        Some((a, v))
                    } else {
                        None
                    },
                    None => None,
                }
            } else {
                None
            },
            None => None,
        }
    } else {
        None
    }
}

/// The references of the calls among the first `upto` nodes, in order.
pub open spec fn python_references(tree: SyntaxTree, source: Seq<u8>, path: Seq<char>, root: Seq<char>, upto: int) -> Seq<ReferenceView>
    decreases upto,
{
    if upto <= 0 {
        Seq::empty()
    } else {
        let before = python_references(tree, source, path, root, upto - 1);
        match python_call_at(tree, upto - 1) {
            Some((n, c)) => match call_reference(tree, source, path, root, n, c) {
                Some(r) => before.push(r),
                None => before,
            },
            None => before,
        }
    }
}

/// What a Python file yields: its classes, then its functions and methods, with the names
/// its `__all__` lists marked exported.
pub open spec fn python_symbols(tree: SyntaxTree, source: Seq<u8>, path: Seq<char>, root: Seq<char>) -> Seq<SymbolView> {
    let n = tree.nodes.len() as int;
    apply_all_exports(
        tree,
        source,
        python_definitions(tree, source, path, root, true, n) + python_definitions(tree, source, path, root, false, n),
        n,
    )
}

/// The name and definition nodes of a class or function defined at a node.
fn find_definition(tree: &SyntaxTree, v: usize, kind: &str) -> (m: Option<(usize, usize)>)
    requires
        tree.wf(),
        v < tree.nodes.len(),
    ensures
        positions(m) == definition_at(*tree, v as int, kind@),
        m matches Some((a, b)) ==> a < tree.nodes.len() && b < tree.nodes.len(),
{
    if !node_kind_is(tree, v, kind) {
        return None;
    }
    match child_by_field(tree, v, "name") {
        Some(n) => if node_kind_is(tree, n, "identifier") {
            Some((n, v))
        } else {
            None
        },
        None => None,
    }
}

/// Whether a definition is a pytest fixture.
fn fixture_decorated(tree: &SyntaxTree, v: usize, source: &[u8]) -> (fixture: bool)
    requires
        tree.wf(),
        v < tree.nodes.len(),
    ensures
        fixture == has_fixture_decorator(*tree, v as int, source@),
{
    let p = match tree.nodes[v].parent {
        Some(p) => p,
        None => return false,
    };
    assert(p < v);
    if !node_kind_is(tree, p, "decorated_definition") {
        return false;
    }
    match text_of(tree, p, source) {
        Some(text) => {
            let chars = chars_of(text.as_str());
            chars_contain(&chars, &chars_of("pytest.fixture")) || chars_contain(&chars, &chars_of("@fixture"))
        },
        None => false,
    }
}

/// The symbol a Python definition yields, when its name has text.
fn make_python_symbol(
    tree: &SyntaxTree,
    source: &[u8],
    path: &str,
    root: &str,
    name_node: usize,
    def_node: usize,
    kind: SymbolKind,
    is_test: bool,
) -> (symbol: Option<Symbol>)
    requires
        tree.wf(),
        name_node < tree.nodes.len(),
        def_node < tree.nodes.len(),
    ensures
        match symbol {
            Some(s) => python_symbol(*tree, source@, path@, root@, name_node as int, def_node as int, kind, is_test) == Some(s@),
            None => python_symbol(*tree, source@, path@, root@, name_node as int, def_node as int, kind, is_test) is None,
        },
{
    let name = match text_of(tree, name_node, source) {
        Some(name) => name,
        None => return None,
    };
    let parts = symbol_parts_of(tree, def_node, name.as_str(), source);
    let fqn = fqn_from_parts(path, root, &parts);
    let (line_start, line_end) = line_span(tree, def_node);
    Some(
        Symbol {
            fqn,
            name,
            kind,
            language: "python".to_owned(),
            file: path.to_owned(),
            line_start,
            line_end,
            is_exported: false,
            is_test,
        },
    )
}

/// The class symbols (when `classes`) or the function symbols, in order.
fn collect_python_definitions(tree: &SyntaxTree, source: &[u8], path: &str, root: &str, classes: bool) -> (symbols: Vec<Symbol>)
    requires
        tree.wf(),
    ensures
        symbol_views(symbols@) == python_definitions(*tree, source@, path@, root@, classes, tree.nodes.len() as int),
{
    let test_file = path_is_test(path);
    let mut symbols: Vec<Symbol> = Vec::new();
    let mut v: usize = 0;
    while v < tree.nodes.len()
        invariant
            tree.wf(),
            test_file == is_test_path(path@),
            v <= tree.nodes.len(),
            symbol_views(symbols@) == python_definitions(*tree, source@, path@, root@, classes, v as int),
        decreases tree.nodes.len() - v,
    {
        let found = if classes {
            match find_definition(tree, v, "class_definition") {
                Some((n, d)) => make_python_symbol(tree, source, path, root, n, d, SymbolKind::Class, test_file),
                None => None,
            }
        } else {
            match find_definition(tree, v, "function_definition") {
                Some((n, d)) => {
                    let kind = if ancestor_has_kind(tree, d, "class_definition") {
                        SymbolKind::Method
                    } else {
                        SymbolKind::Function
                    };
                    let is_test = test_file || fixture_decorated(tree, d, source);
                    make_python_symbol(tree, source, path, root, n, d, kind, is_test)
                },
                None => None,
            }
        };
        if let Some(symbol) = found {
            let ghost before = symbols@;
            symbols.push(symbol);
            proof {
                assert(symbol_views(symbols@) =~= symbol_views(before).push(symbol@));
            }
        }
        v += 1;
    }
    symbols
}

/// The position of the first symbol with this name.
fn find_first_named(symbols: &Vec<Symbol>, name: &str) -> (found: Option<usize>)
    ensures
        match found {
            Some(i) => first_named(symbol_views(symbols@), name@, 0) == Some(i as int) && i < symbols.len(),
            None => first_named(symbol_views(symbols@), name@, 0) is None,
        },
{
    let ghost views = symbol_views(symbols@);
    let mut i: usize = 0;
    while i < symbols.len()
        invariant
            i <= symbols.len(),
            views == symbol_views(symbols@),
            first_named(views, name@, 0) == first_named(views, name@, i as int),
        decreases symbols.len() - i,
    {
        assert(views[i as int] == symbols@[i as int]@);
        if str_eq(symbols[i].name.as_str(), name) {
            return Some(i);
        }
        i += 1;
    }
    None
}

/// Marks the first symbol with each name exported, name by name.
fn mark_exported_names(symbols: &mut Vec<Symbol>, names: &Vec<String>)
    ensures
        symbol_views(final(symbols)@) == mark_names(symbol_views(old(symbols)@), texts(names@), names.len() as int),
{
    let ghost start = symbol_views(symbols@);
    let mut k: usize = 0;
    while k < names.len()
        invariant
            k <= names.len(),
            symbol_views(symbols@) == mark_names(start, texts(names@), k as int),
        decreases names.len() - k,
    {
        let ghost before = symbols@;
        if let Some(i) = find_first_named(symbols, names[k].as_str()) {
            symbols[i].is_exported = true;
            proof {
                assert(symbol_views(symbols@) =~= symbol_views(before).update(i as int, exported_symbol(symbol_views(before)[i as int])));
            }
        }
        k += 1;
    }
}

/// The value of an `__all__ = ...` assignment at a node.
fn find_all_value(tree: &SyntaxTree, v: usize, source: &[u8]) -> (value: Option<String>)
    requires
        tree.wf(),
        v < tree.nodes.len(),
    ensures
        match value {
            Some(t) => all_value_at(*tree, v as int, source@) == Some(t@),
            None => all_value_at(*tree, v as int, source@) is None,
        },
{
    if !node_kind_is(tree, v, "assignment") {
        return None;
    }
    let (left, right) = match (child_by_field(tree, v, "left"), child_by_field(tree, v, "right")) {
        (Some(left), Some(right)) => (left, right),
        _ => return None,
    };
    if !node_kind_is(tree, left, "identifier") || !tree.nodes[right].named {
        return None;
    }
    let is_all = match text_of(tree, left, source) {
        Some(name) => str_eq(name.as_str(), "__all__"),
        None => false,
    };
    if !is_all {
        return None;
    }
    text_of(tree, right, source)
}

/// Applies the `__all__` assignments, in order.
fn apply_python_all_exports(tree: &SyntaxTree, source: &[u8], symbols: &mut Vec<Symbol>)
    requires
        tree.wf(),
    ensures
        symbol_views(final(symbols)@) == apply_all_exports(*tree, source@, symbol_views(old(symbols)@), tree.nodes.len() as int),
{
    let ghost start = symbol_views(symbols@);
    let mut v: usize = 0;
    while v < tree.nodes.len()
        invariant
            tree.wf(),
            v <= tree.nodes.len(),
            symbol_views(symbols@) == apply_all_exports(*tree, source@, start, v as int),
        decreases tree.nodes.len() - v,
    {
        if let Some(value) = find_all_value(tree, v, source) {
            let names = extract_string_names(value.as_str());
            mark_exported_names(symbols, &names);
        }
        v += 1;
    }
}

/// The called name node of a call at a node.
fn find_python_call(tree: &SyntaxTree, v: usize) -> (m: Option<(usize, usize)>)
    requires
        tree.wf(),
        v < tree.nodes.len(),
    ensures
        positions(m) == python_call_at(*tree, v as int),
        m matches Some((a, b)) ==> a < tree.nodes.len() && b < tree.nodes.len(),
{
    if !node_kind_is(tree, v, "call") {
        return None;
    }
    match child_by_field(tree, v, "function") {
        Some(f) => if node_kind_is(tree, f, "identifier") {
            Some((f, v))
        } else if node_kind_is(tree, f, "attribute") {
            match child_by_field(tree, f, "attribute") {
                Some(a) => if node_kind_is(tree, a, "identifier") {
                    Some((a, v))
                } else {
                    None
                },
                None => None,
            }
        } else {
            None
        },
        None => None,
    }
}

/// The references of the calls, in order.
fn collect_python_references(tree: &SyntaxTree, source: &[u8], path: &str, root: &str) -> (references: Vec<Reference>)
    requires
        tree.wf(),
    ensures
        reference_views(references@) == python_references(*tree, source@, path@, root@, tree.nodes.len() as int),
{
    let mut references: Vec<Reference> = Vec::new();
    let mut v: usize = 0;
    while v < tree.nodes.len()
        invariant
            tree.wf(),
            v <= tree.nodes.len(),
            reference_views(references@) == python_references(*tree, source@, path@, root@, v as int),
        decreases tree.nodes.len() - v,
    {
        if let Some((n, c)) = find_python_call(tree, v) {
            if let Some(reference) = make_call_reference(tree, source, path, root, n, c) {
                let ghost before = references@;
                references.push(reference);
                proof {
                    assert(reference_views(references@) =~= reference_views(before).push(reference@));
                }
            }
        }
        v += 1;
    }
    references
}

/// The symbols and references of a parsed Python file.
pub fn python_items(tree: &SyntaxTree, path: &str, root: &str, source: &[u8]) -> (items: (Vec<Symbol>, Vec<Reference>))
    requires
        tree.wf(),
    ensures
        symbol_views(items.0@) == python_symbols(*tree, source@, path@, root@),
        reference_views(items.1@) == python_references(*tree, source@, path@, root@, tree.nodes.len() as int),
{
    let mut symbols = collect_python_definitions(tree, source, path, root, true);
    let mut functions = collect_python_definitions(tree, source, path, root, false);
    let ghost classes = symbols@;
    let ghost function_list = functions@;
    symbols.append(&mut functions);
    proof {
        assert(symbol_views(symbols@) =~= symbol_views(classes) + symbol_views(function_list));
    }
    apply_python_all_exports(tree, source, &mut symbols);
    let references = collect_python_references(tree, source, path, root);
    (symbols, references)
}

/// What extracting a Python file yields: the items of the tree tree-sitter makes of it with the
/// Python grammar, copied node for node.
pub open spec fn extracted_python(items: (Vec<Symbol>, Vec<Reference>), path: Seq<char>, root: Seq<char>, source: Seq<u8>) -> bool {
    exists|t: SyntaxTree|
        t.is_tree() && copies(t, parsed_nodes(Grammar::Python, source)) && symbol_views(items.0@) == #[trigger] python_symbols(t, source, path, root) && reference_views(items.1@)
            == python_references(t, source, path, root, t.nodes.len() as int)
}

/// The symbols and references of a Python file.
pub fn extract_python(path: &str, root: &str, source: &[u8]) -> (items: (Vec<Symbol>, Vec<Reference>))
    ensures
        extracted_python(items, path@, root@, source@),
{
    match parse_source(Grammar::Python, source) {
        Some(tree) => python_items(&tree, path, root, source),
        None => (Vec::new(), Vec::new()),
    }
}

} // verus!
