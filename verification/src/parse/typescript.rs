//! TypeScript: the script definitions and calls, plus interfaces and type aliases.

use vstd::prelude::*;

use crate::index::texts;
use crate::parse::javascript::{
    belongs_to_file, collect_pattern_symbols, lemma_pattern_symbols_belong, lemma_script_symbols_belong_to_file, kind_is, node_kind_is, parent_kind, parent_kind_is, position, script_items,
    script_references, script_symbols, pattern_symbols, ScriptPattern,
};
use crate::parse::nodes::{child_by_field, field_child, node_text, text_of};
use crate::parse::syntax::{copies, parse_source, parsed_nodes, Grammar, SyntaxTree};
use crate::parse::types::{reference_views, symbol_views, Reference, Symbol, SymbolView};
use crate::text::{chars_end_with, chars_of, ends_with};
use crate::walker::{file_name_chars, file_name_of};

verus! {

/// The name node of an export specifier at node `v` inside `export { ... }`, naming a value
/// or a type.
pub open spec fn ts_export_name_at(tree: SyntaxTree, v: int) -> Option<int> {
    if kind_is(tree, v, "export_specifier"@) && parent_kind_is(tree, v, "export_clause"@) && parent_kind_is(
        tree,
        tree.nodes@[v].parent.unwrap() as int,
        "export_statement"@,
    ) {
        match field_child(tree, v, "name"@) {
            Some(n) => if kind_is(tree, n, "identifier"@) || kind_is(tree, n, "type_identifier"@) {
                Some(n)
            } else {
                None
            },
            None => None,
        }
    } else {
        None
    }
}

/// The value and type names exported by `export { ... }` clauses among the first `upto`
/// nodes, in order.
pub open spec fn ts_named_exports(tree: SyntaxTree, source: Seq<u8>, upto: int) -> Seq<Seq<char>>
    decreases upto,
{
    if upto <= 0 {
        Seq::empty()
    } else {
        let before = ts_named_exports(tree, source, upto - 1);
        match ts_export_name_at(tree, upto - 1) {
            Some(n) => match node_text(tree, n, source) {
                Some(t) => before.push(t),
                None => before,
            },
            None => before,
        }
    }
}

/// A declaration file: its file name ends in `.d.ts`.
pub open spec fn is_declaration_path(path: Seq<char>) -> bool {
    match file_name_of(path) {
        Some(name) => ends_with(name, ".d.ts"@),
        None => false,
    }
}

/// Whether a path names a declaration file.
pub fn is_declaration_file(path: &str) -> (declaration: bool)
    ensures
        declaration == is_declaration_path(path@),
{
    match file_name_chars(path) {
        Some(name) => chars_end_with(&name, &chars_of(".d.ts")),
        None => false,
    }
}

/// The symbol with its export flag set.
pub open spec fn exported(s: SymbolView) -> SymbolView {
    SymbolView {
        fqn: s.fqn,
        name: s.name,
        kind: s.kind,
        language: s.language,
        file: s.file,
        line_start: s.line_start,
        line_end: s.line_end,
        is_exported: true,
        is_test: s.is_test,
    }
}

/// What a TypeScript file yields: the script symbols, then its interfaces, then its type
/// aliases; in a declaration file every one of them counts as exported.
pub open spec fn typescript_symbols(tree: SyntaxTree, source: Seq<u8>, path: Seq<char>, root: Seq<char>) -> Seq<SymbolView> {
    let n = tree.nodes.len() as int;
    let exports = ts_named_exports(tree, source, n);
    let all = script_symbols(tree, source, path, root, "typescript"@) + pattern_symbols(
        tree,
        source,
        path,
        root,
        "typescript"@,
        exports,
        ScriptPattern::Interface,
        n,
    ) + pattern_symbols(tree, source, path, root, "typescript"@, exports, ScriptPattern::TypeAlias, n);
    if is_declaration_path(path) {
        all.map_values(|s: SymbolView| exported(s))
    } else {
        all
    }
}

/// Every symbol of a TypeScript file lives in that file, is written in TypeScript and is a
/// test exactly when the file is one; in a declaration file every symbol is exported.
pub proof fn lemma_typescript_symbols_belong_to_file(tree: SyntaxTree, source: Seq<u8>, path: Seq<char>, root: Seq<char>)
    ensures
        forall|i: int| 0 <= i < typescript_symbols(tree, source, path, root).len() ==> belongs_to_file(
            #[trigger] typescript_symbols(tree, source, path, root)[i],
            path,
            "typescript"@,
        ),
        is_declaration_path(path) ==> forall|i: int| 0 <= i < typescript_symbols(tree, source, path, root).len()
            ==> (#[trigger] typescript_symbols(tree, source, path, root)[i]).is_exported,
{
    let n = tree.nodes.len() as int;
    let exports = ts_named_exports(tree, source, n);
    let language = "typescript"@;
    lemma_script_symbols_belong_to_file(tree, source, path, root, language);
    lemma_pattern_symbols_belong(tree, source, path, root, language, exports, ScriptPattern::Interface, n);
    lemma_pattern_symbols_belong(tree, source, path, root, language, exports, ScriptPattern::TypeAlias, n);
    let a = script_symbols(tree, source, path, root, language);
    let b = pattern_symbols(tree, source, path, root, language, exports, ScriptPattern::Interface, n);
    let c = pattern_symbols(tree, source, path, root, language, exports, ScriptPattern::TypeAlias, n);
    let all = a + b + c;
    assert forall|i: int| 0 <= i < all.len() implies belongs_to_file(#[trigger] all[i], path, language) by {
        if i < a.len() {
            assert(all[i] == a[i]);
        } else if i < a.len() + b.len() {
            assert(all[i] == b[i - a.len()]);
        } else {
            assert(all[i] == c[i - a.len() - b.len()]);
        }
    }
    let result = typescript_symbols(tree, source, path, root);
    if is_declaration_path(path) {
        assert forall|i: int| 0 <= i < result.len() implies belongs_to_file(#[trigger] result[i], path, language)
            && result[i].is_exported by {
            assert(result[i] == exported(all[i]));
            assert(belongs_to_file(all[i], path, language));
        }
    } else {
        assert(result == all);
    }
}

/// The name node of a value or type export specifier at a node.
fn find_ts_export_name(tree: &SyntaxTree, v: usize) -> (m: Option<usize>)
    requires
        tree.wf(),
        v < tree.nodes.len(),
    ensures
        position(m) == ts_export_name_at(*tree, v as int),
        m matches Some(a) ==> a < tree.nodes.len(),
{
    if !node_kind_is(tree, v, "export_specifier") || !parent_kind(tree, v, "export_clause") {
        return None;
    }
    let clause = match tree.nodes[v].parent {
        Some(p) => p,
        None => return None,
    };
    if !parent_kind(tree, clause, "export_statement") {
        return None;
    }
    match child_by_field(tree, v, "name") {
        Some(n) => if node_kind_is(tree, n, "identifier") || node_kind_is(tree, n, "type_identifier") {
            Some(n)
        } else {
            None
        },
        None => None,
    }
}

/// The value and type names exported by `export { ... }` clauses, in order.
fn collect_ts_named_exports(tree: &SyntaxTree, source: &[u8]) -> (exports: Vec<String>)
    requires
        tree.wf(),
    ensures
        texts(exports@) == ts_named_exports(*tree, source@, tree.nodes.len() as int),
{
    let mut exports: Vec<String> = Vec::new();
    let mut v: usize = 0;
    while v < tree.nodes.len()
        invariant
            tree.wf(),
            v <= tree.nodes.len(),
            texts(exports@) == ts_named_exports(*tree, source@, v as int),
        decreases tree.nodes.len() - v,
    {
        if let Some(n) = find_ts_export_name(tree, v) {
            if let Some(t) = text_of(tree, n, source) {
                let ghost before = exports@;
                exports.push(t);
                proof {
                    assert(texts(exports@) =~= texts(before).push(t@));
                }
            }
        }
        v += 1;
    }
    exports
}

/// Marks every symbol as exported.
fn mark_exported(symbols: &mut Vec<Symbol>)
    ensures
        symbol_views(final(symbols)@) == symbol_views(old(symbols)@).map_values(|s: SymbolView| exported(s)),
{
    let ghost start = symbols@;
    let mut i: usize = 0;
    while i < symbols.len()
        invariant
            i <= symbols.len() == start.len(),
            forall|j: int| 0 <= j < i ==> (#[trigger] symbols@[j])@ == exported(start[j]@),
            forall|j: int| i <= j < symbols.len() ==> #[trigger] symbols@[j] == start[j],
        decreases symbols.len() - i,
    {
        symbols[i].is_exported = true;
        i += 1;
    }
    proof {
        assert(symbol_views(symbols@) =~= symbol_views(start).map_values(|s: SymbolView| exported(s)));
    }
}

/// The symbols and references of a parsed TypeScript file.
pub fn typescript_items(tree: &SyntaxTree, path: &str, root: &str, source: &[u8]) -> (items: (Vec<Symbol>, Vec<Reference>))
    requires
        tree.wf(),
    ensures
        symbol_views(items.0@) == typescript_symbols(*tree, source@, path@, root@),
        reference_views(items.1@) == script_references(*tree, source@, path@, root@),
{
    let (mut symbols, references) = script_items(tree, path, root, source, "typescript");
    let exports = collect_ts_named_exports(tree, source);
    let mut interfaces = collect_pattern_symbols(tree, source, path, root, "typescript", &exports, ScriptPattern::Interface);
    let mut aliases = collect_pattern_symbols(tree, source, path, root, "typescript", &exports, ScriptPattern::TypeAlias);
    let ghost base = symbols@;
    let ghost interface_list = interfaces@;
    let ghost alias_list = aliases@;
    symbols.append(&mut interfaces);
    symbols.append(&mut aliases);
    proof {
        assert(symbol_views(symbols@) =~= symbol_views(base) + symbol_views(interface_list) + symbol_views(alias_list));
    }
    if is_declaration_file(path) {
        mark_exported(&mut symbols);
    }
    (symbols, references)
}

/// What extracting a TypeScript file yields: the items of the tree tree-sitter makes of it
/// with the TSX grammar when `is_tsx`, else the TypeScript grammar, copied node for node.
pub open spec fn extracted_typescript(
    items: (Vec<Symbol>, Vec<Reference>),
    path: Seq<char>,
    root: Seq<char>,
    source: Seq<u8>,
    is_tsx: bool,
) -> bool {
    let grammar = if is_tsx { Grammar::Tsx } else { Grammar::TypeScript };
    exists|t: SyntaxTree|
        t.is_tree() && copies(t, parsed_nodes(grammar, source)) && symbol_views(items.0@) == #[trigger] typescript_symbols(t, source, path, root) && reference_views(items.1@)
            == script_references(t, source, path, root)
}

/// The symbols and references of a TypeScript file, read with the TSX grammar when `is_tsx`.
pub fn extract_typescript(path: &str, root: &str, source: &[u8], is_tsx: bool) -> (items: (Vec<Symbol>, Vec<Reference>))
    ensures
        extracted_typescript(items, path@, root@, source@, is_tsx),
{
    let grammar = if is_tsx { Grammar::Tsx } else { Grammar::TypeScript };
    match parse_source(grammar, source) {
        Some(tree) => typescript_items(&tree, path, root, source),
        None => (Vec::new(), Vec::new()),
    }
}

} // verus!
