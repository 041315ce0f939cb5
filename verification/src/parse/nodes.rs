//! Reading a syntax tree: node text, lines, ancestors, fields, and the names that enclose
//! a definition.

use vstd::prelude::*;

use crate::index::texts;
use crate::parse::syntax::SyntaxTree;
use crate::parse::types::{build_fqn, fqn_text, str_views};
use crate::text::{chars_contain, chars_end_with, chars_of, chars_start_with, contains_seq, ends_with, starts_with, str_eq};
use crate::walker::{file_name_chars, file_name_of};

verus! {

/// Calls `std::str::from_utf8` and copies the text: there is text exactly when the bytes are
/// valid UTF-8, and it is what they decode to.
#[verifier::external_body]
fn text_from_utf8(bytes: &[u8]) -> (text: Option<String>)
    ensures
        match text {
            Some(t) => vstd::utf8::valid_utf8(bytes@) && t@ == vstd::utf8::decode_utf8(bytes@),
            None => !vstd::utf8::valid_utf8(bytes@),
        },
{
    match std::str::from_utf8(bytes) {
        Ok(text) => Some(text.to_owned()),
        Err(_) => None,
    }
}

/// The text of node `v`: its bytes of the source, when they lie inside it and are valid
/// UTF-8.
pub open spec fn node_text(tree: SyntaxTree, v: int, source: Seq<u8>) -> Option<Seq<char>> {
    let n = tree.nodes@[v];
    if n.start_byte <= n.end_byte <= source.len() && vstd::utf8::valid_utf8(
        source.subrange(n.start_byte as int, n.end_byte as int),
    ) {
        Some(vstd::utf8::decode_utf8(source.subrange(n.start_byte as int, n.end_byte as int)))
    } else {
        None
    }
}

/// The text of a node.
pub fn text_of(tree: &SyntaxTree, v: usize, source: &[u8]) -> (text: Option<String>)
    requires
        v < tree.nodes.len(),
    ensures
        match text {
            Some(t) => node_text(*tree, v as int, source@) == Some(t@),
            None => node_text(*tree, v as int, source@) is None,
        },
{
    let n = &tree.nodes[v];
    if !(n.start_byte <= n.end_byte && n.end_byte <= source.len()) {
        return None;
    }
    let mut bytes: Vec<u8> = Vec::new();
    let mut i: usize = n.start_byte;
    while i < n.end_byte
        invariant
            n.start_byte <= i <= n.end_byte <= source.len(),
            bytes@ == source@.subrange(n.start_byte as int, i as int),
        decreases n.end_byte - i,
    {
        bytes.push(source[i]);
        proof {
            assert(bytes@ =~= source@.subrange(n.start_byte as int, i + 1));
        }
        i += 1;
    }
    text_from_utf8(bytes.as_slice())
}

/// A line number counting from one, for a row counting from zero; rows past the range of
/// `u32` give its largest value.
pub open spec fn line_of_row(row: usize) -> u32 {
    if row < u32::MAX {
        (row + 1) as u32
    } else {
        u32::MAX
    }
}

/// The line number of a row.
fn line_from_row(row: usize) -> (line: u32)
    ensures
        line == line_of_row(row),
{
    if row < 0xffff_ffffusize {
        (row + 1) as u32
    } else {
        u32::MAX
    }
}

/// The first and last line of a node, counting from one.
pub fn line_span(tree: &SyntaxTree, v: usize) -> (span: (u32, u32))
    requires
        v < tree.nodes.len(),
    ensures
        span.0 == line_of_row(tree.nodes@[v as int].start_row),
        span.1 == line_of_row(tree.nodes@[v as int].end_row),
{
    (line_from_row(tree.nodes[v].start_row), line_from_row(tree.nodes[v].end_row))
}

/// Some ancestor of node `v` (its parent, or an ancestor of that) has this kind.
pub open spec fn has_ancestor_kind(tree: SyntaxTree, v: int, kind: Seq<char>) -> bool
    decreases v,
{
    if 0 <= v < tree.nodes.len() {
        match tree.nodes@[v].parent {
            Some(p) => if p < v {
                tree.nodes@[p as int].kind@ == kind || has_ancestor_kind(tree, p as int, kind)
            } else {
                false
            },
            None => false,
        }
    } else {
        false
    }
}

/// Whether some ancestor of a node has this kind.
pub fn ancestor_has_kind(tree: &SyntaxTree, v: usize, kind: &str) -> (found: bool)
    requires
        tree.wf(),
        v < tree.nodes.len(),
    ensures
        found == has_ancestor_kind(*tree, v as int, kind@),
{
    let mut current = v;
    loop
        invariant
            tree.wf(),
            current < tree.nodes.len(),
            has_ancestor_kind(*tree, v as int, kind@) == has_ancestor_kind(*tree, current as int, kind@),
        decreases current,
    {
        match tree.nodes[current].parent {
            Some(p) => {
                proof {
                    assert(p < current);
                }
                if str_eq(tree.nodes[p].kind.as_str(), kind) {
                    return true;
                }
                current = p;
            },
            None => {
                return false;
            },
        }
    }
}

/// The position, among the children of node `v` from the `k`-th on, of the first that sits
/// under this field.
pub open spec fn field_child_from(tree: SyntaxTree, v: int, field: Seq<char>, k: int) -> Option<int>
    decreases tree.nodes@[v].children.len() - k,
{
    let children = tree.nodes@[v].children@;
    if k < 0 || k >= children.len() {
        None
    } else {
        let c = children[k] as int;
        match tree.nodes@[c].field {
            Some(f) => if f@ == field {
                Some(c)
            } else {
                field_child_from(tree, v, field, k + 1)
            },
            None => field_child_from(tree, v, field, k + 1),
        }
    }
}

/// The first child of node `v` that sits under this field.
pub open spec fn field_child(tree: SyntaxTree, v: int, field: Seq<char>) -> Option<int> {
    field_child_from(tree, v, field, 0)
}

/// The first child of a node under a field.
pub fn child_by_field(tree: &SyntaxTree, v: usize, field: &str) -> (child: Option<usize>)
    requires
        tree.wf(),
        v < tree.nodes.len(),
    ensures
        match child {
            Some(c) => field_child(*tree, v as int, field@) == Some(c as int) && c < tree.nodes.len(),
            None => field_child(*tree, v as int, field@) is None,
        },
{
    let children = &tree.nodes[v].children;
    let mut k: usize = 0;
    while k < children.len()
        invariant
            tree.wf(),
            v < tree.nodes.len(),
            children == &tree.nodes@[v as int].children,
            k <= children.len(),
            field_child(*tree, v as int, field@) == field_child_from(*tree, v as int, field@, k as int),
        decreases children.len() - k,
    {
        let c = children[k];
        assert(c < tree.nodes.len());
        let matches = match &tree.nodes[c].field {
            Some(f) => str_eq(f.as_str(), field),
            None => false,
        };
        if matches {
            return Some(c);
        }
        k += 1;
    }
    None
}

/// Appends a text unless there is none or it repeats the last part.
pub open spec fn push_distinct(parts: Seq<Seq<char>>, text: Option<Seq<char>>) -> Seq<Seq<char>> {
    match text {
        Some(t) => if parts.len() > 0 && parts.last() == t {
            parts
        } else {
            parts.push(t)
        },
        None => parts,
    }
}

/// The names node `a` contributes, innermost first: for an `impl` block the implemented
/// type, then the node's `name` field.
pub open spec fn parts_at(tree: SyntaxTree, a: int, source: Seq<u8>, parts: Seq<Seq<char>>) -> Seq<Seq<char>> {
    let with_type = if tree.nodes@[a].kind@ == "impl_item"@ {
        match field_child(tree, a, "type"@) {
            Some(t) => push_distinct(parts, node_text(tree, t, source)),
            None => parts,
        }
    } else {
        parts
    };
    match field_child(tree, a, "name"@) {
        Some(n) => push_distinct(with_type, node_text(tree, n, source)),
        None => with_type,
    }
}

/// The names node `a` and its ancestors contribute, innermost first, after `parts`.
pub open spec fn parts_upward(tree: SyntaxTree, a: int, source: Seq<u8>, parts: Seq<Seq<char>>) -> Seq<Seq<char>>
    decreases a,
{
    if 0 <= a < tree.nodes.len() {
        let next = parts_at(tree, a, source, parts);
        match tree.nodes@[a].parent {
            Some(p) => if p < a {
                parts_upward(tree, p as int, source, next)
            } else {
                next
            },
            None => next,
        }
    } else {
        parts
    }
}

/// The names of the definitions that enclose node `v`, outermost first.
pub open spec fn enclosing_parts(tree: SyntaxTree, v: int, source: Seq<u8>) -> Seq<Seq<char>> {
    match tree.nodes@[v].parent {
        Some(p) => if p < v {
            parts_upward(tree, p as int, source, Seq::empty()).reverse()
        } else {
            Seq::empty()
        },
        None => Seq::empty(),
    }
}

/// The names that make up a definition's qualified name: those enclosing it, then its own
/// unless the innermost enclosing name is already its own.
pub open spec fn symbol_parts(tree: SyntaxTree, v: int, own: Seq<char>, source: Seq<u8>) -> Seq<Seq<char>> {
    let parts = enclosing_parts(tree, v, source);
    if parts.len() > 0 && parts.last() == own {
        parts
    } else {
        parts.push(own)
    }
}

/// Appends a text unless there is none or it repeats the last part.
fn push_distinct_text(parts: &mut Vec<String>, text: Option<String>)
    ensures
        texts(final(parts)@) == push_distinct(
            texts(old(parts)@),
            match text {
                Some(t) => Some(t@),
                None => None,
            },
        ),
{
    if let Some(t) = text {
        let repeats = parts.len() > 0 && str_eq(parts[parts.len() - 1].as_str(), t.as_str());
        if !repeats {
            let ghost before = parts@;
            parts.push(t);
            proof {
                assert(texts(parts@) =~= texts(before).push(t@));
            }
        }
    }
}

/// The names of the definitions that enclose a node, outermost first.
pub fn enclosing_symbol_parts(tree: &SyntaxTree, v: usize, source: &[u8]) -> (parts: Vec<String>)
    requires
        tree.wf(),
        v < tree.nodes.len(),
    ensures
        texts(parts@) == enclosing_parts(*tree, v as int, source@),
{
    let mut upward: Vec<String> = Vec::new();
    let mut current = match tree.nodes[v].parent {
        Some(p) => p,
        None => {
            return upward;
        },
    };
    let ghost target = parts_upward(*tree, current as int, source@, Seq::empty());
    proof {
        assert(texts(upward@) =~= Seq::<Seq<char>>::empty());
    }
    loop
        invariant_except_break
            tree.wf(),
            current < tree.nodes.len(),
            parts_upward(*tree, current as int, source@, texts(upward@)) == target,
        ensures
            texts(upward@) == target,
        decreases current,
    {
        let ghost before = texts(upward@);
        if str_eq(tree.nodes[current].kind.as_str(), "impl_item") {
            if let Some(t) = child_by_field(tree, current, "type") {
                push_distinct_text(&mut upward, text_of(tree, t, source));
            }
        }
        if let Some(n) = child_by_field(tree, current, "name") {
            push_distinct_text(&mut upward, text_of(tree, n, source));
        }
        proof {
            assert(texts(upward@) == parts_at(*tree, current as int, source@, before));
        }
        match tree.nodes[current].parent {
            Some(p) => {
                current = p;
            },
            None => {
                break;
            },
        }
    }
    let mut parts: Vec<String> = Vec::new();
    let mut k: usize = upward.len();
    while k > 0
        invariant
            k <= upward.len(),
            texts(parts@) == texts(upward@).subrange(k as int, upward.len() as int).reverse(),
        decreases k,
    {
        k -= 1;
        let ghost before = parts@;
        let item = upward[k].clone();
        parts.push(item);
        proof {
            let all = texts(upward@);
            let s1 = all.subrange(k as int, upward.len() as int);
            let s0 = all.subrange(k + 1, upward.len() as int);
            assert(texts(parts@) =~= texts(before).push(item@));
            assert(item@ == all[k as int]);
            assert(s1.reverse() =~= s0.reverse().push(all[k as int]));
        }
    }
    parts
}

/// The names that make up a definition's qualified name.
pub fn symbol_parts_of(tree: &SyntaxTree, v: usize, own: &str, source: &[u8]) -> (parts: Vec<String>)
    requires
        tree.wf(),
        v < tree.nodes.len(),
    ensures
        texts(parts@) == symbol_parts(*tree, v as int, own@, source@),
{
    let mut parts = enclosing_symbol_parts(tree, v, source);
    let repeats = parts.len() > 0 && str_eq(parts[parts.len() - 1].as_str(), own);
    if !repeats {
        let ghost before = parts@;
        parts.push(own.to_owned());
        proof {
            assert(texts(parts@) =~= texts(before).push(own@));
        }
    }
    parts
}

/// The qualified name built from a file, a root and a list of names.
pub fn fqn_from_parts(file: &str, root: &str, parts: &Vec<String>) -> (fqn: String)
    ensures
        fqn@ == fqn_text(file@, root@, texts(parts@)),
{
    let mut refs: Vec<&str> = Vec::new();
    let mut i: usize = 0;
    while i < parts.len()
        invariant
            i <= parts.len(),
            str_views(refs@) == texts(parts@).take(i as int),
        decreases parts.len() - i,
    {
        let ghost before = refs@;
        let part = parts[i].as_str();
        refs.push(part);
        proof {
            assert(part@ == texts(parts@)[i as int]);
            assert(str_views(refs@) =~= str_views(before).push(part@));
            assert(str_views(refs@) =~= texts(parts@).take(i + 1));
        }
        i += 1;
    }
    proof {
        assert(texts(parts@).take(parts.len() as int) =~= texts(parts@));
    }
    build_fqn(file, root, refs.as_slice())
}

/// A path names a test file: it runs through a `tests` directory, has a Go, TypeScript or
/// JavaScript test suffix, or its file name starts with `test_`.
pub open spec fn is_test_path(path: Seq<char>) -> bool {
    ||| contains_seq(path, "/tests/"@)
    ||| contains_seq(path, "\\tests\\"@)
    ||| ends_with(path, "_test.go"@)
    ||| ends_with(path, ".spec.ts"@)
    ||| ends_with(path, ".spec.js"@)
    ||| ends_with(path, ".test.ts"@)
    ||| ends_with(path, ".test.js"@)
    ||| match file_name_of(path) {
        Some(name) => starts_with(name, "test_"@),
        None => false,
    }
}

/// Whether a path names a test file.
pub fn path_is_test(path: &str) -> (test: bool)
    ensures
        test == is_test_path(path@),
{
    let chars = chars_of(path);
    if chars_contain(&chars, &chars_of("/tests/")) || chars_contain(&chars, &chars_of("\\tests\\"))
        || chars_end_with(&chars, &chars_of("_test.go")) || chars_end_with(&chars, &chars_of(".spec.ts"))
        || chars_end_with(&chars, &chars_of(".spec.js")) || chars_end_with(&chars, &chars_of(".test.ts"))
        || chars_end_with(&chars, &chars_of(".test.js")) {
        return true;
    }
    match file_name_chars(path) {
        Some(name) => chars_start_with(&name, &chars_of("test_")),
        None => false,
    }
}

} // verus!
