//! JavaScript (and TypeScript) definitions and calls.

use vstd::prelude::*;

use crate::index::texts;
use crate::parse::nodes::{
    ancestor_has_kind, child_by_field, enclosing_parts, enclosing_symbol_parts, field_child, fqn_from_parts,
    has_ancestor_kind, is_test_path, line_of_row, line_span, node_text, path_is_test, symbol_parts, symbol_parts_of,
    text_of,
};
use crate::parse::syntax::{copies, parse_source, parsed_nodes, Grammar, SyntaxTree};
use crate::parse::types::{
    fqn_text, reference_views, symbol_views, Reference, ReferenceView, Symbol, SymbolKind, SymbolView,
};
use crate::text::{chars_of, chars_start_with, starts_with, str_eq, string_from_chars};

verus! {

/// Node `v` has this kind.
pub open spec fn kind_is(tree: SyntaxTree, v: int, kind: Seq<char>) -> bool {
    tree.nodes@[v].kind@ == kind
}

/// Node `v` has a parent of this kind.
pub open spec fn parent_kind_is(tree: SyntaxTree, v: int, kind: Seq<char>) -> bool {
    match tree.nodes@[v].parent {
        Some(p) => kind_is(tree, p as int, kind),
        None => false,
    }
}

/// Whether a node has this kind.
pub fn node_kind_is(tree: &SyntaxTree, v: usize, kind: &str) -> (is: bool)
    requires
        v < tree.nodes.len(),
    ensures
        is == kind_is(*tree, v as int, kind@),
{
    str_eq(tree.nodes[v].kind.as_str(), kind)
}

/// Whether a node's parent has this kind.
pub fn parent_kind(tree: &SyntaxTree, v: usize, kind: &str) -> (is: bool)
    requires
        tree.wf(),
        v < tree.nodes.len(),
    ensures
        is == parent_kind_is(*tree, v as int, kind@),
{
    match tree.nodes[v].parent {
        Some(p) => {
            assert(p < v);
            node_kind_is(tree, p, kind)
        },
        None => false,
    }
}

/// A function value: an arrow function or a function expression.
pub open spec fn is_function_value(tree: SyntaxTree, v: int) -> bool {
    kind_is(tree, v, "arrow_function"@) || kind_is(tree, v, "function_expression"@)
}

/// The name node and definition node of a function defined at node `v`: a (generator)
/// function declaration; a variable declarator of a `let`/`const`/`var` declaration whose
/// value is a function; or an assignment of a function to a name or a property.
pub open spec fn function_at(tree: SyntaxTree, v: int) -> Option<(int, int)> {
    if kind_is(tree, v, "function_declaration"@) || kind_is(tree, v, "generator_function_declaration"@) {
        match field_child(tree, v, "name"@) {
            Some(n) => if kind_is(tree, n, "identifier"@) {
                Some((n, v))
            } else {
                None
            },
            None => None,
        }
    } else if kind_is(tree, v, "variable_declarator"@) && (parent_kind_is(tree, v, "lexical_declaration"@)
        || parent_kind_is(tree, v, "variable_declaration"@)) {
        match (field_child(tree, v, "name"@), field_child(tree, v, "value"@)) {
            (Some(n), Some(value)) => if kind_is(tree, n, "identifier"@) && is_function_value(tree, value) {
                Some((n, v))
            } else {
                None
            },
            _ => None,
        }
    } else if kind_is(tree, v, "assignment_expression"@) {
        match (field_child(tree, v, "left"@), field_child(tree, v, "right"@)) {
            (Some(left), Some(right)) => if !is_function_value(tree, right) {
                None
            } else if kind_is(tree, left, "identifier"@) {
                Some((left, v))
            } else if kind_is(tree, left, "member_expression"@) {
                match field_child(tree, left, "property"@) {
                    Some(p) => if kind_is(tree, p, "property_identifier"@) {
                        Some((p, v))
                    } else {
                        None
                    },
                    None => None,
                }
            } else {
                None
            },
            _ => None,
        }
    } else {
        None
    }
}

/// The name node and definition node of a class defined at node `v`.
pub open spec fn class_at(tree: SyntaxTree, v: int) -> Option<(int, int)> {
    if kind_is(tree, v, "class"@) || kind_is(tree, v, "class_declaration"@) {
        match field_child(tree, v, "name"@) {
            Some(n) => if tree.nodes@[n].named {
                Some((n, v))
            } else {
                None
            },
            None => None,
        }
    } else {
        None
    }
}

/// The name node of an export specifier at node `v` inside `export { ... }`.
pub open spec fn export_name_at(tree: SyntaxTree, v: int) -> Option<int> {
    if kind_is(tree, v, "export_specifier"@) && parent_kind_is(tree, v, "export_clause"@) && parent_kind_is(
        tree,
        tree.nodes@[v].parent.unwrap() as int,
        "export_statement"@,
    ) {
        match field_child(tree, v, "name"@) {
            Some(n) => if kind_is(tree, n, "identifier"@) {
                Some(n)
            } else {
                None
            },
            None => None,
        }
    } else {
        None
    }
}

/// The names exported by `export { ... }` clauses among the first `upto` nodes, in order.
pub open spec fn named_exports(tree: SyntaxTree, source: Seq<u8>, upto: int) -> Seq<Seq<char>>
    decreases upto,
{
    if upto <= 0 {
        Seq::empty()
    } else {
        let before = named_exports(tree, source, upto - 1);
        match export_name_at(tree, upto - 1) {
            Some(n) => match node_text(tree, n, source) {
                Some(t) => before.push(t),
                None => before,
            },
            None => before,
        }
    }
}

/// The symbol a definition yields, when its name node has text: its qualified name from the
/// enclosing names, its lines, and whether it is exported (under an `export` statement or
/// named by an export clause) or lives in a test file.
pub open spec fn script_symbol(
    tree: SyntaxTree,
    source: Seq<u8>,
    path: Seq<char>,
    root: Seq<char>,
    language: Seq<char>,
    exports: Seq<Seq<char>>,
    name_node: int,
    def_node: int,
    kind: SymbolKind,
) -> Option<SymbolView> {
    match node_text(tree, name_node, source) {
        Some(name) => Some(
            SymbolView {
                fqn: fqn_text(path, root, symbol_parts(tree, def_node, name, source)),
                name,
                kind,
                language,
                file: path,
                line_start: line_of_row(tree.nodes@[def_node].start_row),
                line_end: line_of_row(tree.nodes@[def_node].end_row),
                is_exported: has_ancestor_kind(tree, def_node, "export_statement"@) || exports.contains(name),
                is_test: is_test_path(path),
            },
        ),
        None => None,
    }
}

/// A definition the script extractors look for.
#[derive(Debug, Clone, Copy, PartialEq, Eq, Structural)]
pub enum ScriptPattern {
    Function,
    Class,
    Interface,
    TypeAlias,
}

/// The name node and definition node of a TypeScript interface or type alias at node `v`.
pub open spec fn type_definition_at(tree: SyntaxTree, v: int, kind: Seq<char>) -> Option<(int, int)> {
    if kind_is(tree, v, kind) {
        match field_child(tree, v, "name"@) {
            Some(n) => if kind_is(tree, n, "type_identifier"@) {
                Some((n, v))
            } else {
                None
            },
            None => None,
        }
    } else {
        None
    }
}

/// The name node and definition node of a definition of this pattern at node `v`.
pub open spec fn pattern_at(tree: SyntaxTree, pattern: ScriptPattern, v: int) -> Option<(int, int)> {
    match pattern {
        ScriptPattern::Function => function_at(tree, v),
        ScriptPattern::Class => class_at(tree, v),
        ScriptPattern::Interface => type_definition_at(tree, v, "interface_declaration"@),
        ScriptPattern::TypeAlias => type_definition_at(tree, v, "type_alias_declaration"@),
    }
}

/// The kind of symbol a pattern defines.
pub open spec fn pattern_kind(pattern: ScriptPattern) -> SymbolKind {
    match pattern {
        ScriptPattern::Function => SymbolKind::Function,
        ScriptPattern::Class => SymbolKind::Class,
        ScriptPattern::Interface => SymbolKind::Interface,
        ScriptPattern::TypeAlias => SymbolKind::TypeAlias,
    }
}

/// The symbols of the definitions of a pattern among the first `upto` nodes, in order.
pub open spec fn pattern_symbols(
    tree: SyntaxTree,
    source: Seq<u8>,
    path: Seq<char>,
    root: Seq<char>,
    language: Seq<char>,
    exports: Seq<Seq<char>>,
    pattern: ScriptPattern,
    upto: int,
) -> Seq<SymbolView>
    decreases upto,
{
    if upto <= 0 {
        Seq::empty()
    } else {
        let before = pattern_symbols(tree, source, path, root, language, exports, pattern, upto - 1);
        match pattern_at(tree, pattern, upto - 1) {
            Some((n, d)) => match script_symbol(tree, source, path, root, language, exports, n, d, pattern_kind(pattern)) {
                Some(s) => before.push(s),
                None => before,
            },
            None => before,
        }
    }
}

/// The called name node and the node whose position the call is recorded at, for a call at
/// node `v`: a plain call `f(...)` is recorded at the call, a method call `x.f(...)` at its
/// arguments.
pub open spec fn call_at(tree: SyntaxTree, v: int) -> Option<(int, int)> {
    if kind_is(tree, v, "call_expression"@) {
        match field_child(tree, v, "function"@) {
            Some(f) => if kind_is(tree, f, "identifier"@) {
                Some((f, v))
            } else if kind_is(tree, f, "member_expression"@) {
                match (field_child(tree, f, "property"@), field_child(tree, v, "arguments"@)) {
                    (Some(p), Some(a)) => if kind_is(tree, p, "property_identifier"@) && tree.nodes@[a].named {
                        Some((p, a))
                    } else {
                        None
                    },
                    _ => None,
                }
            } else {
                None
            },
            None => None,
        }
    } else {
        None
    }
}

/// The reference a call yields, when the called name has text: from the definitions
/// enclosing the call, to that name, at the call's first line.
pub open spec fn call_reference(
    tree: SyntaxTree,
    source: Seq<u8>,
    path: Seq<char>,
    root: Seq<char>,
    name_node: int,
    at_node: int,
) -> Option<ReferenceView> {
    match node_text(tree, name_node, source) {
        Some(target) => Some(
            ReferenceView {
                source_fqn: fqn_text(path, root, enclosing_parts(tree, at_node, source)),
                target_name: target,
                file: path,
                line: line_of_row(tree.nodes@[at_node].start_row),
            },
        ),
        None => None,
    }
}

/// The references of the calls among the first `upto` nodes, in order.
pub open spec fn call_references(tree: SyntaxTree, source: Seq<u8>, path: Seq<char>, root: Seq<char>, upto: int) -> Seq<ReferenceView>
    decreases upto,
{
    if upto <= 0 {
        Seq::empty()
    } else {
        let before = call_references(tree, source, path, root, upto - 1);
        match call_at(tree, upto - 1) {
            Some((n, a)) => match call_reference(tree, source, path, root, n, a) {
                Some(r) => before.push(r),
                None => before,
            },
            None => before,
        }
    }
}

/// A quote character.
pub open spec fn is_quote(ch: char) -> bool {
    ch == '"' || ch == '\''
}

/// The first position from `from` on that holds a quote.
pub open spec fn first_quote(s: Seq<char>, from: int) -> Option<int>
    decreases s.len() - from,
{
    if from < 0 || from >= s.len() {
        None
    } else if is_quote(s[from]) {
        Some(from)
    } else {
        first_quote(s, from + 1)
    }
}

/// The first position from `from` on that holds `ch`.
pub open spec fn first_of(s: Seq<char>, ch: char, from: int) -> Option<int>
    decreases s.len() - from,
{
    if from < 0 || from >= s.len() {
        None
    } else if s[from] == ch {
        Some(from)
    } else {
        first_of(s, ch, from + 1)
    }
}

/// The text between the first quote and the next occurrence of the same quote character.
pub open spec fn quoted_value(s: Seq<char>) -> Option<Seq<char>> {
    match first_quote(s, 0) {
        Some(i) => match first_of(s, s[i], i + 1) {
            Some(j) => Some(s.subrange(i + 1, j)),
            None => None,
        },
        None => None,
    }
}

/// `first_quote` finds the first quote at or after `from`, and nothing when there is none.
proof fn lemma_first_quote_is_first(s: Seq<char>, from: int)
    requires
        0 <= from,
    ensures
        match first_quote(s, from) {
            Some(i) => from <= i < s.len() && is_quote(s[i]) && forall|k: int| from <= k < i ==> !is_quote(#[trigger] s[k]),
            None => forall|k: int| from <= k < s.len() ==> !is_quote(#[trigger] s[k]),
        },
    decreases s.len() - from,
{
    if from < s.len() && !is_quote(s[from]) {
        lemma_first_quote_is_first(s, from + 1);
    }
}

/// `first_of` finds the first `ch` at or after `from`, and nothing when there is none.
proof fn lemma_first_of_is_first(s: Seq<char>, ch: char, from: int)
    requires
        0 <= from,
    ensures
        match first_of(s, ch, from) {
            Some(j) => from <= j < s.len() && s[j] == ch && forall|k: int| from <= k < j ==> #[trigger] s[k] != ch,
            None => forall|k: int| from <= k < s.len() ==> #[trigger] s[k] != ch,
        },
    decreases s.len() - from,
{
    if from < s.len() && s[from] != ch {
        lemma_first_of_is_first(s, ch, from + 1);
    }
}

/// The quoted value of a text, by positions: nothing when the text holds no quote; else, with
/// `i` the position of the first quote, nothing when that quote character never comes again
/// after `i`, and otherwise the text strictly between `i` and the next position `j` of it.
pub proof fn lemma_quoted_value_by_positions(s: Seq<char>)
    ensures
        (forall|k: int| 0 <= k < s.len() ==> !is_quote(#[trigger] s[k])) ==> quoted_value(s) is None,
        forall|i: int| #![trigger is_quote(s[i])]
            0 <= i < s.len() && is_quote(s[i]) && (forall|k: int| 0 <= k < i ==> !is_quote(#[trigger] s[k])) ==> {
                &&& (forall|k: int| i < k < s.len() ==> #[trigger] s[k] != s[i]) ==> quoted_value(s) is None
                &&& forall|j: int| #![trigger s[j]]
                    i < j < s.len() && s[j] == s[i] && (forall|k: int| i < k < j ==> #[trigger] s[k] != s[i])
                        ==> quoted_value(s) == Some(s.subrange(i + 1, j))
            },
{
    lemma_first_quote_is_first(s, 0);
    match first_quote(s, 0) {
        Some(first) => {
            lemma_first_of_is_first(s, s[first], first + 1);
            assert forall|i: int| #![trigger is_quote(s[i])]
                0 <= i < s.len() && is_quote(s[i]) && (forall|k: int| 0 <= k < i ==> !is_quote(#[trigger] s[k])) implies {
                    &&& (forall|k: int| i < k < s.len() ==> #[trigger] s[k] != s[i]) ==> quoted_value(s) is None
                    &&& forall|j: int| #![trigger s[j]]
                        i < j < s.len() && s[j] == s[i] && (forall|k: int| i < k < j ==> #[trigger] s[k] != s[i])
                            ==> quoted_value(s) == Some(s.subrange(i + 1, j))
                } by {
                if i < first {
                    assert(!is_quote(s[i]));
                } else if first < i {
                    assert(!is_quote(s[first]));
                }
                assert(i == first);
                assert forall|j: int| #![trigger s[j]]
                    i < j < s.len() && s[j] == s[i] && (forall|k: int| i < k < j ==> #[trigger] s[k] != s[i])
                        implies quoted_value(s) == Some(s.subrange(i + 1, j)) by {
                    match first_of(s, s[first], first + 1) {
                        Some(found) => {
                            if found < j {
                                assert(s[found] != s[i]);
                            } else if j < found {
                                assert(s[j] != s[first]);
                            }
                        },
                        None => {
                            assert(s[j] != s[first]);
                        },
                    }
                }
                if forall|k: int| i < k < s.len() ==> #[trigger] s[k] != s[i] {
                    match first_of(s, s[first], first + 1) {
                        Some(found) => {
                            assert(s[found] != s[i]);
                        },
                        None => {},
                    }
                }
            }
        },
        None => {},
    }
}

/// The text inside the first pair of matching quotes.
pub fn extract_quoted_value(text: &str) -> (value: Option<String>)
    ensures
        match value {
            Some(v) => quoted_value(text@) == Some(v@),
            None => quoted_value(text@) is None,
        },
{
    let chars = chars_of(text);
    let mut i: usize = 0;
    while i < chars.len() && chars[i] != '"' && chars[i] != '\''
        invariant
            i <= chars.len(),
            first_quote(chars@, 0) == first_quote(chars@, i as int),
        decreases chars.len() - i,
    {
        i += 1;
    }
    if i >= chars.len() {
        return None;
    }
    let quote = chars[i];
    let mut j: usize = i + 1;
    while j < chars.len() && chars[j] != quote
        invariant
            i < j <= chars.len(),
            quote == chars@[i as int],
            first_of(chars@, quote, i + 1) == first_of(chars@, quote, j as int),
        decreases chars.len() - j,
    {
        j += 1;
    }
    if j >= chars.len() {
        return None;
    }
    let mut value: Vec<char> = Vec::new();
    let mut k: usize = i + 1;
    while k < j
        invariant
            i < k <= j < chars.len(),
            value@ == chars@.subrange(i + 1, k as int),
        decreases j - k,
    {
        value.push(chars[k]);
        proof {
            assert(value@ =~= chars@.subrange(i + 1, k + 1));
        }
        k += 1;
    }
    Some(string_from_chars(value.as_slice()))
}

/// The reference an `export * from "module"` statement at node `v` yields: from the file
/// itself to the module, at the statement's first line.
pub open spec fn export_star_reference(tree: SyntaxTree, source: Seq<u8>, path: Seq<char>, root: Seq<char>, v: int) -> Option<ReferenceView> {
    if kind_is(tree, v, "export_statement"@) {
        match node_text(tree, v, source) {
            Some(text) => if starts_with(text, "export *"@) {
                match quoted_value(text) {
                    Some(module) => Some(
                        ReferenceView {
                            source_fqn: fqn_text(path, root, Seq::empty()),
                            target_name: module,
                            file: path,
                            line: line_of_row(tree.nodes@[v].start_row),
                        },
                    ),
                    None => None,
                }
            } else {
                None
            },
            None => None,
        }
    } else {
        None
    }
}

/// The references of the `export *` statements among the first `upto` nodes, in order.
pub open spec fn export_star_references(tree: SyntaxTree, source: Seq<u8>, path: Seq<char>, root: Seq<char>, upto: int) -> Seq<ReferenceView>
    decreases upto,
{
    if upto <= 0 {
        Seq::empty()
    } else {
        let before = export_star_references(tree, source, path, root, upto - 1);
        match export_star_reference(tree, source, path, root, upto - 1) {
            Some(r) => before.push(r),
            None => before,
        }
    }
}

/// What a script yields: its function symbols, then its class symbols.
pub open spec fn script_symbols(tree: SyntaxTree, source: Seq<u8>, path: Seq<char>, root: Seq<char>, language: Seq<char>) -> Seq<SymbolView> {
    let n = tree.nodes.len() as int;
    let exports = named_exports(tree, source, n);
    pattern_symbols(tree, source, path, root, language, exports, ScriptPattern::Function, n) + pattern_symbols(
        tree,
        source,
        path,
        root,
        language,
        exports,
        ScriptPattern::Class,
        n,
    )
}

/// What a script's calls yield: its call references, then its `export *` references.
pub open spec fn script_references(tree: SyntaxTree, source: Seq<u8>, path: Seq<char>, root: Seq<char>) -> Seq<ReferenceView> {
    let n = tree.nodes.len() as int;
    call_references(tree, source, path, root, n) + export_star_references(tree, source, path, root, n)
}

/// A pair of positions as integers.
pub open spec fn positions(m: Option<(usize, usize)>) -> Option<(int, int)> {
    match m {
        Some((a, b)) => Some((a as int, b as int)),
        None => None,
    }
}

/// A position as an integer.
pub open spec fn position(m: Option<usize>) -> Option<int> {
    match m {
        Some(a) => Some(a as int),
        None => None,
    }
}

/// Whether a node is an arrow function or a function expression.
fn function_value(tree: &SyntaxTree, v: usize) -> (is: bool)
    requires
        v < tree.nodes.len(),
    ensures
        is == is_function_value(*tree, v as int),
{
    node_kind_is(tree, v, "arrow_function") || node_kind_is(tree, v, "function_expression")
}

/// The name and definition nodes of a function defined at a node.
fn find_function(tree: &SyntaxTree, v: usize) -> (m: Option<(usize, usize)>)
    requires
        tree.wf(),
        v < tree.nodes.len(),
    ensures
        positions(m) == function_at(*tree, v as int),
        m matches Some((a, b)) ==> a < tree.nodes.len() && b < tree.nodes.len(),
{
    if node_kind_is(tree, v, "function_declaration") || node_kind_is(tree, v, "generator_function_declaration") {
        match child_by_field(tree, v, "name") {
            Some(n) => if node_kind_is(tree, n, "identifier") {
                Some((n, v))
            } else {
                None
            },
            None => None,
        }
    } else if node_kind_is(tree, v, "variable_declarator") && (parent_kind(tree, v, "lexical_declaration") || parent_kind(
        tree,
        v,
        "variable_declaration",
    )) {
        match (child_by_field(tree, v, "name"), child_by_field(tree, v, "value")) {
            (Some(n), Some(value)) => if node_kind_is(tree, n, "identifier") && function_value(tree, value) {
                Some((n, v))
            } else {
                None
            },
            _ => None,
        }
    } else if node_kind_is(tree, v, "assignment_expression") {
        match (child_by_field(tree, v, "left"), child_by_field(tree, v, "right")) {
            (Some(left), Some(right)) => if !function_value(tree, right) {
                None
            } else if node_kind_is(tree, left, "identifier") {
                Some((left, v))
            } else if node_kind_is(tree, left, "member_expression") {
                match child_by_field(tree, left, "property") {
                    Some(p) => if node_kind_is(tree, p, "property_identifier") {
                        Some((p, v))
                    } else {
                        None
                    },
                    None => None,
                }
            } else {
                None
            },
            _ => None,
        }
    } else {
        None
    }
}

/// The name and definition nodes of a class defined at a node.
fn find_class(tree: &SyntaxTree, v: usize) -> (m: Option<(usize, usize)>)
    requires
        tree.wf(),
        v < tree.nodes.len(),
    ensures
        positions(m) == class_at(*tree, v as int),
        m matches Some((a, b)) ==> a < tree.nodes.len() && b < tree.nodes.len(),
{
    if node_kind_is(tree, v, "class") || node_kind_is(tree, v, "class_declaration") {
        match child_by_field(tree, v, "name") {
            Some(n) => if tree.nodes[n].named {
                Some((n, v))
            } else {
                None
            },
            None => None,
        }
    } else {
        None
    }
}

/// The name node of an export specifier at a node.
fn find_export_name(tree: &SyntaxTree, v: usize) -> (m: Option<usize>)
    requires
        tree.wf(),
        v < tree.nodes.len(),
    ensures
        position(m) == export_name_at(*tree, v as int),
        m matches Some(a) ==> a < tree.nodes.len(),
{
    if !node_kind_is(tree, v, "export_specifier") || !parent_kind(tree, v, "export_clause") {
        return None;
    }
    let clause = match tree.nodes[v].parent {
        Some(p) => p,
        None => return None,
    };
    if !parent_kind(tree, clause, "export_statement") {
        return None;
    }
    match child_by_field(tree, v, "name") {
        Some(n) => if node_kind_is(tree, n, "identifier") {
            Some(n)
        } else {
            None
        },
        None => None,
    }
}

/// Whether a list of texts holds this one.
pub fn contains_text(list: &Vec<String>, text: &str) -> (found: bool)
    ensures
        found == texts(list@).contains(text@),
{
    let mut i: usize = 0;
    while i < list.len()
        invariant
            i <= list.len(),
            forall|j: int| 0 <= j < i ==> (#[trigger] list@[j])@ != text@,
        decreases list.len() - i,
    {
        if str_eq(list[i].as_str(), text) {
            assert(texts(list@)[i as int] == text@);
            return true;
        }
        i += 1;
    }
    proof {
        if texts(list@).contains(text@) {
            let j = choose|j: int| 0 <= j < texts(list@).len() && texts(list@)[j] == text@;
            assert(list@[j]@ == text@);
        }
    }
    false
}

/// The names exported by `export { ... }` clauses, in order.
pub fn collect_named_exports(tree: &SyntaxTree, source: &[u8]) -> (exports: Vec<String>)
    requires
        tree.wf(),
    ensures
        texts(exports@) == named_exports(*tree, source@, tree.nodes.len() as int),
{
    let mut exports: Vec<String> = Vec::new();
    let mut v: usize = 0;
    while v < tree.nodes.len()
        invariant
            tree.wf(),
            v <= tree.nodes.len(),
            texts(exports@) == named_exports(*tree, source@, v as int),
        decreases tree.nodes.len() - v,
    {
        if let Some(n) = find_export_name(tree, v) {
            if let Some(t) = text_of(tree, n, source) {
                let ghost before = exports@;
                exports.push(t);
                proof {
                    assert(texts(exports@) =~= texts(before).push(t@));
                }
            }
        }
        v += 1;
    }
    exports
}

/// The symbol a definition yields, when its name has text.
pub fn make_symbol(
    tree: &SyntaxTree,
    source: &[u8],
    path: &str,
    root: &str,
    language: &str,
    exports: &Vec<String>,
    name_node: usize,
    def_node: usize,
    kind: SymbolKind,
) -> (symbol: Option<Symbol>)
    requires
        tree.wf(),
        name_node < tree.nodes.len(),
        def_node < tree.nodes.len(),
    ensures
        match symbol {
            Some(s) => script_symbol(*tree, source@, path@, root@, language@, texts(exports@), name_node as int, def_node as int, kind)
                == Some(s@),
            None => script_symbol(*tree, source@, path@, root@, language@, texts(exports@), name_node as int, def_node as int, kind) is None,
        },
{
    let name = match text_of(tree, name_node, source) {
        Some(name) => name,
        None => return None,
    };
    let parts = symbol_parts_of(tree, def_node, name.as_str(), source);
    let fqn = fqn_from_parts(path, root, &parts);
    let (line_start, line_end) = line_span(tree, def_node);
    let is_exported = ancestor_has_kind(tree, def_node, "export_statement") || contains_text(exports, name.as_str());
    Some(
        Symbol {
            fqn,
            name,
            kind,
            language: language.to_owned(),
            file: path.to_owned(),
            line_start,
            line_end,
            is_exported,
            is_test: path_is_test(path),
        },
    )
}

/// The name and definition nodes of a TypeScript interface or type alias at a node.
fn find_type_definition(tree: &SyntaxTree, v: usize, kind: &str) -> (m: Option<(usize, usize)>)
    requires
        tree.wf(),
        v < tree.nodes.len(),
    ensures
        positions(m) == type_definition_at(*tree, v as int, kind@),
        m matches Some((a, b)) ==> a < tree.nodes.len() && b < tree.nodes.len(),
{
    if !node_kind_is(tree, v, kind) {
        return None;
    }
    match child_by_field(tree, v, "name") {
        Some(n) => if node_kind_is(tree, n, "type_identifier") {
            Some((n, v))
        } else {
            None
        },
        None => None,
    }
}

/// The name and definition nodes of a definition of a pattern at a node.
fn find_pattern(tree: &SyntaxTree, pattern: ScriptPattern, v: usize) -> (m: Option<(usize, usize)>)
    requires
        tree.wf(),
        v < tree.nodes.len(),
    ensures
        positions(m) == pattern_at(*tree, pattern, v as int),
        m matches Some((a, b)) ==> a < tree.nodes.len() && b < tree.nodes.len(),
{
    match pattern {
        ScriptPattern::Function => find_function(tree, v),
        ScriptPattern::Class => find_class(tree, v),
        ScriptPattern::Interface => find_type_definition(tree, v, "interface_declaration"),
        ScriptPattern::TypeAlias => find_type_definition(tree, v, "type_alias_declaration"),
    }
}

/// The kind of symbol a pattern defines.
fn kind_of_pattern(pattern: ScriptPattern) -> (kind: SymbolKind)
    ensures
        kind == pattern_kind(pattern),
{
    match pattern {
        ScriptPattern::Function => SymbolKind::Function,
        ScriptPattern::Class => SymbolKind::Class,
        ScriptPattern::Interface => SymbolKind::Interface,
        ScriptPattern::TypeAlias => SymbolKind::TypeAlias,
    }
}

/// The symbols of the definitions of a pattern, in order.
pub fn collect_pattern_symbols(
    tree: &SyntaxTree,
    source: &[u8],
    path: &str,
    root: &str,
    language: &str,
    exports: &Vec<String>,
    pattern: ScriptPattern,
) -> (symbols: Vec<Symbol>)
    requires
        tree.wf(),
    ensures
        symbol_views(symbols@) == pattern_symbols(*tree, source@, path@, root@, language@, texts(exports@), pattern, tree.nodes.len() as int),
{
    let kind = kind_of_pattern(pattern);
    let mut symbols: Vec<Symbol> = Vec::new();
    let mut v: usize = 0;
    while v < tree.nodes.len()
        invariant
            tree.wf(),
            kind == pattern_kind(pattern),
            v <= tree.nodes.len(),
            symbol_views(symbols@) == pattern_symbols(*tree, source@, path@, root@, language@, texts(exports@), pattern, v as int),
        decreases tree.nodes.len() - v,
    {
        if let Some((n, d)) = find_pattern(tree, pattern, v) {
            if let Some(symbol) = make_symbol(tree, source, path, root, language, exports, n, d, kind) {
                let ghost before = symbols@;
                symbols.push(symbol);
                proof {
                    assert(symbol_views(symbols@) =~= symbol_views(before).push(symbol@));
                }
            }
        }
        v += 1;
    }
    symbols
}

/// The called name node and recording node of a call at a node.
fn find_call(tree: &SyntaxTree, v: usize) -> (m: Option<(usize, usize)>)
    requires
        tree.wf(),
        v < tree.nodes.len(),
    ensures
        positions(m) == call_at(*tree, v as int),
        m matches Some((a, b)) ==> a < tree.nodes.len() && b < tree.nodes.len(),
{
    if !node_kind_is(tree, v, "call_expression") {
        return None;
    }
    match child_by_field(tree, v, "function") {
        Some(f) => if node_kind_is(tree, f, "identifier") {
            Some((f, v))
        } else if node_kind_is(tree, f, "member_expression") {
            match (child_by_field(tree, f, "property"), child_by_field(tree, v, "arguments")) {
                (Some(p), Some(a)) => if node_kind_is(tree, p, "property_identifier") && tree.nodes[a].named {
                    Some((p, a))
                } else {
                    None
                },
                _ => None,
            }
        } else {
            None
        },
        None => None,
    }
}

/// The reference a call yields, when the called name has text.
pub fn make_call_reference(tree: &SyntaxTree, source: &[u8], path: &str, root: &str, name_node: usize, at_node: usize) -> (reference: Option<Reference>)
    requires
        tree.wf(),
        name_node < tree.nodes.len(),
        at_node < tree.nodes.len(),
    ensures
        match reference {
            Some(r) => call_reference(*tree, source@, path@, root@, name_node as int, at_node as int) == Some(r@),
            None => call_reference(*tree, source@, path@, root@, name_node as int, at_node as int) is None,
        },
{
    let target_name = match text_of(tree, name_node, source) {
        Some(t) => t,
        None => return None,
    };
    let parts = enclosing_symbol_parts(tree, at_node, source);
    let (line, _) = line_span(tree, at_node);
    Some(Reference { source_fqn: fqn_from_parts(path, root, &parts), target_name, file: path.to_owned(), line })
}

/// The references of the calls, in order.
pub fn collect_call_references(tree: &SyntaxTree, source: &[u8], path: &str, root: &str) -> (references: Vec<Reference>)
    requires
        tree.wf(),
    ensures
        reference_views(references@) == call_references(*tree, source@, path@, root@, tree.nodes.len() as int),
{
    let mut references: Vec<Reference> = Vec::new();
    let mut v: usize = 0;
    while v < tree.nodes.len()
        invariant
            tree.wf(),
            v <= tree.nodes.len(),
            reference_views(references@) == call_references(*tree, source@, path@, root@, v as int),
        decreases tree.nodes.len() - v,
    {
        if let Some((n, a)) = find_call(tree, v) {
            if let Some(reference) = make_call_reference(tree, source, path, root, n, a) {
                let ghost before = references@;
                references.push(reference);
                proof {
                    assert(reference_views(references@) =~= reference_views(before).push(reference@));
                }
            }
        }
        v += 1;
    }
    references
}

/// The reference of an `export *` statement at a node.
fn find_export_star(tree: &SyntaxTree, source: &[u8], path: &str, root: &str, v: usize) -> (reference: Option<Reference>)
    requires
        tree.wf(),
        v < tree.nodes.len(),
    ensures
        match reference {
            Some(r) => export_star_reference(*tree, source@, path@, root@, v as int) == Some(r@),
            None => export_star_reference(*tree, source@, path@, root@, v as int) is None,
        },
{
    if !node_kind_is(tree, v, "export_statement") {
        return None;
    }
    let text = match text_of(tree, v, source) {
        Some(t) => t,
        None => return None,
    };
    let chars = chars_of(text.as_str());
    if !chars_start_with(&chars, &chars_of("export *")) {
        return None;
    }
    let module = match extract_quoted_value(text.as_str()) {
        Some(m) => m,
        None => return None,
    };
    let no_parts: Vec<String> = Vec::new();
    proof {
        assert(texts(no_parts@) =~= Seq::<Seq<char>>::empty());
    }
    let (line, _) = line_span(tree, v);
    Some(Reference { source_fqn: fqn_from_parts(path, root, &no_parts), target_name: module, file: path.to_owned(), line })
}

/// The references of the `export *` statements, in order.
pub fn collect_export_star_references(tree: &SyntaxTree, source: &[u8], path: &str, root: &str) -> (references: Vec<Reference>)
    requires
        tree.wf(),
    ensures
        reference_views(references@) == export_star_references(*tree, source@, path@, root@, tree.nodes.len() as int),
{
    let mut references: Vec<Reference> = Vec::new();
    let mut v: usize = 0;
    while v < tree.nodes.len()
        invariant
            tree.wf(),
            v <= tree.nodes.len(),
            reference_views(references@) == export_star_references(*tree, source@, path@, root@, v as int),
        decreases tree.nodes.len() - v,
    {
        if let Some(reference) = find_export_star(tree, source, path, root, v) {
            let ghost before = references@;
            references.push(reference);
            proof {
                assert(reference_views(references@) =~= reference_views(before).push(reference@));
            }
        }
        v += 1;
    }
    references
}

/// The symbols and references of a parsed script: function symbols then class symbols;
/// call references then `export *` references.
pub fn script_items(tree: &SyntaxTree, path: &str, root: &str, source: &[u8], language: &str) -> (items: (Vec<Symbol>, Vec<Reference>))
    requires
        tree.wf(),
    ensures
        symbol_views(items.0@) == script_symbols(*tree, source@, path@, root@, language@),
        reference_views(items.1@) == script_references(*tree, source@, path@, root@),
{
    let exports = collect_named_exports(tree, source);
    let mut symbols = collect_pattern_symbols(tree, source, path, root, language, &exports, ScriptPattern::Function);
    let mut classes = collect_pattern_symbols(tree, source, path, root, language, &exports, ScriptPattern::Class);
    let ghost functions = symbols@;
    let ghost class_list = classes@;
    symbols.append(&mut classes);
    proof {
        assert(symbol_views(symbols@) =~= symbol_views(functions) + symbol_views(class_list));
    }
    let mut references = collect_call_references(tree, source, path, root);
    let mut stars = collect_export_star_references(tree, source, path, root);
    let ghost calls = references@;
    let ghost star_list = stars@;
    references.append(&mut stars);
    proof {
        assert(reference_views(references@) =~= reference_views(calls) + reference_views(star_list));
    }
    (symbols, references)
}

/// What extracting a script yields: the items of the tree tree-sitter makes of it with the
/// grammar, copied node for node.
pub open spec fn extracted_script(
    items: (Vec<Symbol>, Vec<Reference>),
    path: Seq<char>,
    root: Seq<char>,
    source: Seq<u8>,
    grammar: Grammar,
    language: Seq<char>,
) -> bool {
    exists|t: SyntaxTree|
        t.is_tree() && copies(t, parsed_nodes(grammar, source)) && symbol_views(items.0@) == #[trigger] script_symbols(t, source, path, root, language) && reference_views(
            items.1@,
        ) == script_references(t, source, path, root)
}

/// Parses a script with a grammar and extracts its symbols and references.
pub fn extract_script(path: &str, root: &str, source: &[u8], grammar: Grammar, language: &str) -> (items: (Vec<Symbol>, Vec<Reference>))
    ensures
        extracted_script(items, path@, root@, source@, grammar, language@),
{
    match parse_source(grammar, source) {
        Some(tree) => script_items(&tree, path, root, source, language),
        None => (Vec::new(), Vec::new()),
    }
}

/// The symbols and references of a JavaScript file.
pub fn extract_javascript(path: &str, root: &str, source: &[u8]) -> (items: (Vec<Symbol>, Vec<Reference>))
    ensures
        extracted_script(items, path@, root@, source@, Grammar::JavaScript, "javascript"@),
{
    extract_script(path, root, source, Grammar::JavaScript, "javascript")
}

/// The symbol lives in this file, is written in this language, and is a test exactly when
/// the file is a test file.
pub open spec fn belongs_to_file(s: SymbolView, path: Seq<char>, language: Seq<char>) -> bool {
    s.file == path && s.language == language && s.is_test == is_test_path(path)
}

/// Every symbol of a pattern belongs to the file it was found in.
pub(crate) proof fn lemma_pattern_symbols_belong(
    tree: SyntaxTree,
    source: Seq<u8>,
    path: Seq<char>,
    root: Seq<char>,
    language: Seq<char>,
    exports: Seq<Seq<char>>,
    pattern: ScriptPattern,
    upto: int,
)
    ensures
        forall|i: int| 0 <= i < pattern_symbols(tree, source, path, root, language, exports, pattern, upto).len() ==> belongs_to_file(
            #[trigger] pattern_symbols(tree, source, path, root, language, exports, pattern, upto)[i],
            path,
            language,
        ),
    decreases upto,
{
    if upto > 0 {
        lemma_pattern_symbols_belong(tree, source, path, root, language, exports, pattern, upto - 1);
        let before = pattern_symbols(tree, source, path, root, language, exports, pattern, upto - 1);
        let all = pattern_symbols(tree, source, path, root, language, exports, pattern, upto);
        assert forall|i: int| 0 <= i < all.len() implies belongs_to_file(#[trigger] all[i], path, language) by {
            if i < before.len() {
                assert(all[i] == before[i]);
            }
        }
    }
}

/// Every symbol a script yields lives in that file, is written in the given language, and is
/// a test exactly when the file is a test file.
pub proof fn lemma_script_symbols_belong_to_file(tree: SyntaxTree, source: Seq<u8>, path: Seq<char>, root: Seq<char>, language: Seq<char>)
    ensures
        forall|i: int| 0 <= i < script_symbols(tree, source, path, root, language).len() ==> belongs_to_file(
            #[trigger] script_symbols(tree, source, path, root, language)[i],
            path,
            language,
        ),
{
    let n = tree.nodes.len() as int;
    let exports = named_exports(tree, source, n);
    lemma_pattern_symbols_belong(tree, source, path, root, language, exports, ScriptPattern::Function, n);
    lemma_pattern_symbols_belong(tree, source, path, root, language, exports, ScriptPattern::Class, n);
    let functions = pattern_symbols(tree, source, path, root, language, exports, ScriptPattern::Function, n);
    let classes = pattern_symbols(tree, source, path, root, language, exports, ScriptPattern::Class, n);
    assert forall|i: int| 0 <= i < script_symbols(tree, source, path, root, language).len() implies belongs_to_file(
        #[trigger] script_symbols(tree, source, path, root, language)[i],
        path,
        language,
    ) by {
        if i < functions.len() {
            assert(script_symbols(tree, source, path, root, language)[i] == functions[i]);
        } else {
            assert(script_symbols(tree, source, path, root, language)[i] == classes[i - functions.len()]);
        }
    }
}

/// A definition found at a node below `upto` whose name has text is among the pattern's
/// symbols.
proof fn lemma_pattern_symbols_include(
    tree: SyntaxTree,
    source: Seq<u8>,
    path: Seq<char>,
    root: Seq<char>,
    language: Seq<char>,
    exports: Seq<Seq<char>>,
    pattern: ScriptPattern,
    upto: int,
    v: int,
    s: SymbolView,
)
    requires
        0 <= v < upto,
        pattern_at(tree, pattern, v) matches Some((n, d)) && script_symbol(
            tree,
            source,
            path,
            root,
            language,
            exports,
            n,
            d,
            pattern_kind(pattern),
        ) == Some(s),
    ensures
        pattern_symbols(tree, source, path, root, language, exports, pattern, upto).contains(s),
    decreases upto,
{
    let all = pattern_symbols(tree, source, path, root, language, exports, pattern, upto);
    if v == upto - 1 {
        assert(all[all.len() - 1] == s);
    } else {
        lemma_pattern_symbols_include(tree, source, path, root, language, exports, pattern, upto - 1, v, s);
        let before = pattern_symbols(tree, source, path, root, language, exports, pattern, upto - 1);
        let j = choose|j: int| 0 <= j < before.len() && before[j] == s;
        assert(all[j] == before[j]);
    }
}

/// A variable declarator of a `var`, `let` or `const` declaration whose value is an arrow
/// function or a function expression defines a function named by its identifier: the
/// script's symbols hold a function of that name starting on the declarator's line.
pub proof fn lemma_declared_function_values_are_functions(
    tree: SyntaxTree,
    source: Seq<u8>,
    path: Seq<char>,
    root: Seq<char>,
    language: Seq<char>,
    v: int,
    name_node: int,
    value_node: int,
    name: Seq<char>,
)
    requires
        0 <= v < tree.nodes.len(),
        tree.nodes@[v].kind@ == "variable_declarator"@,
        tree.nodes@[v].parent matches Some(p) && (tree.nodes@[p as int].kind@ == "variable_declaration"@
            || tree.nodes@[p as int].kind@ == "lexical_declaration"@),
        field_child(tree, v, "name"@) == Some(name_node),
        tree.nodes@[name_node].kind@ == "identifier"@,
        field_child(tree, v, "value"@) == Some(value_node),
        tree.nodes@[value_node].kind@ == "arrow_function"@ || tree.nodes@[value_node].kind@ == "function_expression"@,
        node_text(tree, name_node, source) == Some(name),
    ensures
        exists|i: int|
            0 <= i < script_symbols(tree, source, path, root, language).len() && (#[trigger] script_symbols(
                tree,
                source,
                path,
                root,
                language,
            )[i]).name == name && script_symbols(tree, source, path, root, language)[i].kind == SymbolKind::Function
                && script_symbols(tree, source, path, root, language)[i].line_start == line_of_row(tree.nodes@[v].start_row),
{
    let n = tree.nodes.len() as int;
    let exports = named_exports(tree, source, n);
    assert(!kind_is(tree, v, "function_declaration"@)) by {
        reveal_strlit("variable_declarator");
        reveal_strlit("function_declaration");
        assert("variable_declarator"@[0] != "function_declaration"@[0]);
    }
    assert(!kind_is(tree, v, "generator_function_declaration"@)) by {
        reveal_strlit("variable_declarator");
        reveal_strlit("generator_function_declaration");
        assert("variable_declarator"@[0] != "generator_function_declaration"@[0]);
    }
    assert(function_at(tree, v) == Some((name_node, v)));
    let s = script_symbol(tree, source, path, root, language, exports, name_node, v, SymbolKind::Function).unwrap();
    lemma_pattern_symbols_include(tree, source, path, root, language, exports, ScriptPattern::Function, n, v, s);
    let functions = pattern_symbols(tree, source, path, root, language, exports, ScriptPattern::Function, n);
    let classes = pattern_symbols(tree, source, path, root, language, exports, ScriptPattern::Class, n);
    let j = choose|j: int| 0 <= j < functions.len() && functions[j] == s;
    assert((functions + classes)[j] == s);
    assert(script_symbols(tree, source, path, root, language) == functions + classes);
    assert(s.name == name && s.kind == SymbolKind::Function && s.line_start == line_of_row(tree.nodes@[v].start_row));
    assert(script_symbols(tree, source, path, root, language)[j] == s);
}

} // verus!
