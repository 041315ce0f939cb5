//! Syntax trees as plain data: tree-sitter parses a file, and its tree is copied, node by
//! node, into a vector the extractors read.

use vstd::prelude::*;

verus! {

/// One node of a syntax tree.
#[derive(Debug, Clone, PartialEq, Eq)]
pub struct SyntaxNode {
    /// The grammar's name for the node (`function_declaration`, `identifier`, `(`, ...).
    pub kind: String,
    /// The field under which the node sits in its parent, if any.
    pub field: Option<String>,
    /// Whether the grammar names the node (punctuation and keywords are anonymous).
    pub named: bool,
    /// The position of the parent node, if any.
    pub parent: Option<usize>,
    /// The positions of the child nodes, in source order.
    pub children: Vec<usize>,
    pub start_byte: usize,
    pub end_byte: usize,
    /// The first and last line of the node, counting from zero.
    pub start_row: usize,
    pub end_row: usize,
}

/// A syntax tree whose root, when there is one, is the node at position zero; every node
/// comes after its parent.
#[derive(Debug, Clone, PartialEq, Eq)]
pub struct SyntaxTree {
    pub nodes: Vec<SyntaxNode>,
}

impl SyntaxTree {
    /// Parents come before their children, and every child position is a node.
    pub open spec fn wf(&self) -> bool {
        &&& forall|i: int| 0 <= i < self.nodes.len() ==> match (#[trigger] self.nodes@[i]).parent {
            Some(p) => p < i,
            None => true,
        }
        &&& forall|i: int, k: int| 0 <= i < self.nodes.len() && 0 <= k < self.nodes@[i].children.len()
            ==> #[trigger] self.nodes@[i].children@[k] < self.nodes.len()
    }

    /// A whole tree: well-formed, with its root at position zero and linked both ways.
    pub open spec fn is_tree(&self) -> bool {
        &&& self.wf()
        &&& self.nodes.len() >= 1
        &&& tree_links(self.nodes@)
    }
}

/// Only the first node lacks a parent; each node's children are exactly the nodes whose
/// parent it is, in increasing position.
pub open spec fn tree_links(nodes: Seq<SyntaxNode>) -> bool {
    &&& forall|i: int| 0 <= i < nodes.len() ==> ((#[trigger] nodes[i]).parent is None <==> i == 0)
    &&& forall|i: int, k: int| 0 <= i < nodes.len() && 0 <= k < nodes[i].children.len()
        ==> nodes[#[trigger] nodes[i].children@[k] as int].parent == Some(i as usize)
    &&& forall|j: int| 0 <= j < nodes.len() && (#[trigger] nodes[j]).parent is Some
        ==> nodes[nodes[j].parent->0 as int].children@.contains(j as usize)
    &&& forall|i: int, k1: int, k2: int| 0 <= i < nodes.len() && 0 <= k1 < k2 < nodes[i].children.len()
        ==> #[trigger] nodes[i].children@[k1] < #[trigger] nodes[i].children@[k2]
}

/// Appending a node under an existing parent, and listing it last among that parent's
/// children, keeps a tree a tree.
proof fn lemma_attach(old: SyntaxTree, new: SyntaxTree, p: usize)
    requires
        old.is_tree(),
        p < old.nodes.len(),
        new.nodes.len() == old.nodes.len() + 1,
        forall|i: int| 0 <= i < old.nodes.len() && i != p ==> new.nodes@[i] == old.nodes@[i],
        new.nodes@[p as int].parent == old.nodes@[p as int].parent,
        new.nodes@[p as int].children@ == old.nodes@[p as int].children@.push(old.nodes.len() as usize),
        new.nodes@[old.nodes.len() as int].parent == Some(p),
        new.nodes@[old.nodes.len() as int].children@.len() == 0,
    ensures
        new.is_tree(),
{
    let n = old.nodes.len() as int;
    let o = old.nodes@;
    let m = new.nodes@;
    assert forall|i: int| 0 <= i < m.len() implies match (#[trigger] m[i]).parent {
        Some(q) => q < i,
        None => true,
    } by {
        if i < n {
            assert(m[i].parent == o[i].parent);
        }
    }
    assert forall|i: int, k: int| 0 <= i < m.len() && 0 <= k < m[i].children.len()
        implies #[trigger] m[i].children@[k] < m.len() && m[m[i].children@[k] as int].parent == Some(i as usize) by {
        if i != p {
            assert(m[i] == o[i]);
            assert(o[i].children@[k] < n);
            assert(m[o[i].children@[k] as int].parent == o[o[i].children@[k] as int].parent);
        } else if k < o[i].children.len() {
            assert(m[i].children@[k] == o[i].children@[k]);
            assert(o[i].children@[k] < n);
            assert(o[i].children@[k] != p);
            assert(m[o[i].children@[k] as int] == o[o[i].children@[k] as int]);
        }
    }
    assert forall|i: int| 0 <= i < m.len() implies ((#[trigger] m[i]).parent is None <==> i == 0) by {
        if i < n {
            assert(m[i].parent == o[i].parent);
        }
    }
    assert forall|j: int| 0 <= j < m.len() && (#[trigger] m[j]).parent is Some
        implies m[m[j].parent->0 as int].children@.contains(j as usize) by {
        if j == n {
            assert(m[p as int].children@[o[p as int].children.len() as int] == j as usize);
        } else {
            assert(m[j].parent == o[j].parent);
            let q = o[j].parent->0;
            assert(o[q as int].children@.contains(j as usize));
            let k = choose|k: int| 0 <= k < o[q as int].children@.len() && o[q as int].children@[k] == j as usize;
            if q == p {
                assert(m[q as int].children@[k] == j as usize);
            } else {
                assert(m[q as int] == o[q as int]);
            }
        }
    }
    assert forall|i: int, k1: int, k2: int| 0 <= i < m.len() && 0 <= k1 < k2 < m[i].children.len()
        implies #[trigger] m[i].children@[k1] < #[trigger] m[i].children@[k2] by {
        if i != p {
            assert(m[i] == o[i]);
        } else {
            assert(m[i].children@[k1] == o[i].children@[k1]);
            if k2 < o[i].children.len() {
                assert(m[i].children@[k2] == o[i].children@[k2]);
            } else {
                assert(o[i].children@[k1] < n);
            }
        }
    }
}

/// A tree-sitter grammar the scanner parses with.
#[derive(Debug, Clone, Copy, PartialEq, Eq, Structural)]
pub enum Grammar {
    JavaScript,
    TypeScript,
    Tsx,
    Python,
    Go,
    Rust,
}

#[verifier::external_type_specification]
#[verifier::external_body]
pub struct ExTree(tree_sitter::Tree);

/// What a node holds as plain data, its children aside: kind, field, whether named, parent
/// position, bytes and rows.
pub open spec fn same_node(a: SyntaxNode, b: SyntaxNode) -> bool {
    &&& a.kind@ == b.kind@
    &&& field_view(a.field) == field_view(b.field)
    &&& a.named == b.named
    &&& a.parent == b.parent
    &&& a.start_byte == b.start_byte
    &&& a.end_byte == b.end_byte
    &&& a.start_row == b.start_row
    &&& a.end_row == b.end_row
}

/// A field name as text.
pub open spec fn field_view(field: Option<String>) -> Option<Seq<char>> {
    match field {
        Some(name) => Some(name@),
        None => None,
    }
}

/// A tree holds, node for node and in the same positions, the given nodes.
pub open spec fn copies(t: SyntaxTree, nodes: Seq<SyntaxNode>) -> bool {
    &&& t.nodes.len() == nodes.len()
    &&& forall|i: int| 0 <= i < nodes.len() ==> same_node(#[trigger] t.nodes@[i], nodes[i])
}

/// The nodes a tree-sitter tree holds, in its descendant order (the root, then every
/// visible node in preorder), each as plain data; the children lists are not part of it.
pub uninterp spec fn tree_nodes(tree: tree_sitter::Tree) -> Seq<SyntaxNode>;

/// The nodes of the tree tree-sitter makes of a source with a grammar, in descendant order.
pub uninterp spec fn parsed_nodes(grammar: Grammar, source: Seq<u8>) -> Seq<SyntaxNode>;

/// Makes a `tree_sitter::Parser`, sets the JavaScript grammar of `tree_sitter_javascript`
/// and calls `Parser::parse`. `set_language` refuses a grammar only when its ABI version lies
/// outside 13..=15 or it has no lexer, and this grammar's `parser.c` is ABI 15 with a lexer;
/// `parse` gives no tree only when no grammar is set (no timeout or cancellation is used).
/// So the contract claims a tree: the one tree-sitter makes of this source with this grammar.
#[verifier::external_body]
fn parse_javascript(source: &[u8]) -> (tree: Option<tree_sitter::Tree>)
    ensures
        tree is Some,
        tree_nodes(tree->0) == parsed_nodes(Grammar::JavaScript, source@),
{
    let mut parser = tree_sitter::Parser::new();
    parser.set_language(&tree_sitter_javascript::LANGUAGE.into()).ok()?;
    parser.parse(source, None)
}

/// As `parse_javascript`, with the TypeScript grammar of `tree_sitter_typescript` (ABI 14,
/// with a lexer).
#[verifier::external_body]
fn parse_typescript(source: &[u8]) -> (tree: Option<tree_sitter::Tree>)
    ensures
        tree is Some,
        tree_nodes(tree->0) == parsed_nodes(Grammar::TypeScript, source@),
{
    let mut parser = tree_sitter::Parser::new();
    parser.set_language(&tree_sitter_typescript::LANGUAGE_TYPESCRIPT.into()).ok()?;
    parser.parse(source, None)
}

/// As `parse_javascript`, with the TSX grammar of `tree_sitter_typescript` (ABI 14, with a
/// lexer).
#[verifier::external_body]
fn parse_tsx(source: &[u8]) -> (tree: Option<tree_sitter::Tree>)
    ensures
        tree is Some,
        tree_nodes(tree->0) == parsed_nodes(Grammar::Tsx, source@),
{
    let mut parser = tree_sitter::Parser::new();
    parser.set_language(&tree_sitter_typescript::LANGUAGE_TSX.into()).ok()?;
    parser.parse(source, None)
}

/// As `parse_javascript`, with the grammar of `tree_sitter_python` (ABI 15, with a lexer).
#[verifier::external_body]
fn parse_python(source: &[u8]) -> (tree: Option<tree_sitter::Tree>)
    ensures
        tree is Some,
        tree_nodes(tree->0) == parsed_nodes(Grammar::Python, source@),
{
    let mut parser = tree_sitter::Parser::new();
    parser.set_language(&tree_sitter_python::LANGUAGE.into()).ok()?;
    parser.parse(source, None)
}

/// As `parse_javascript`, with the grammar of `tree_sitter_go` (ABI 15, with a lexer).
#[verifier::external_body]
fn parse_go(source: &[u8]) -> (tree: Option<tree_sitter::Tree>)
    ensures
        tree is Some,
        tree_nodes(tree->0) == parsed_nodes(Grammar::Go, source@),
{
    let mut parser = tree_sitter::Parser::new();
    parser.set_language(&tree_sitter_go::LANGUAGE.into()).ok()?;
    parser.parse(source, None)
}

/// As `parse_javascript`, with the grammar of `tree_sitter_rust` (ABI 15, with a lexer).
#[verifier::external_body]
fn parse_rust(source: &[u8]) -> (tree: Option<tree_sitter::Tree>)
    ensures
        tree is Some,
        tree_nodes(tree->0) == parsed_nodes(Grammar::Rust, source@),
{
    let mut parser = tree_sitter::Parser::new();
    parser.set_language(&tree_sitter_rust::LANGUAGE.into()).ok()?;
    parser.parse(source, None)
}

/// Calls `tree_sitter::Node::descendant_count` on the tree's root node: the number of nodes
/// in descendant order, the root included.
#[verifier::external_body]
fn node_count(tree: &tree_sitter::Tree) -> (count: usize)
    ensures
        count == tree_nodes(*tree).len(),
        count >= 1,
{
    tree.root_node().descendant_count()
}

/// Moves a fresh `tree_sitter::TreeCursor` to the node at `index` in descendant order
/// (`goto_descendant`) and reads `field_name` and, of `node()`, `kind`, `is_named`, the bytes
/// and the rows; then `goto_parent` and `descendant_index` give its parent's position. The
/// root, at position zero, is the only node without a parent, and every parent comes before
/// its children in descendant order.
#[verifier::external_body]
fn node_record(tree: &tree_sitter::Tree, index: usize) -> (node: SyntaxNode)
    requires
        index < tree_nodes(*tree).len(),
    ensures
        same_node(node, tree_nodes(*tree)[index as int]),
        node.children@.len() == 0,
        (node.parent is None) == (index == 0),
        node.parent matches Some(p) ==> p < index,
{
    let mut cursor = tree.walk();
    cursor.goto_descendant(index);
    let field = cursor.field_name().map(|name| name.to_owned());
    let found = cursor.node();
    let parent = cursor.goto_parent().then_some(cursor.descendant_index());
    let (start, end) = (found.start_position(), found.end_position());
    SyntaxNode { kind: found.kind().to_owned(), field, named: found.is_named(), parent,
        children: Vec::new(), start_byte: found.start_byte(), end_byte: found.end_byte(),
        start_row: start.row, end_row: end.row }
}

/// Copies a tree-sitter tree, node by node in descendant order, into plain data: the root
/// comes first, every other node after its parent, and each node lists its children in order.
fn copy_tree(tree: &tree_sitter::Tree) -> (copy: SyntaxTree)
    ensures
        copy.is_tree(),
        copies(copy, tree_nodes(*tree)),
{
    let count = node_count(tree);
    let ghost source_nodes = tree_nodes(*tree);
    let mut nodes: Vec<SyntaxNode> = Vec::new();
    let mut i: usize = 0;
    while i < count
        invariant
            i <= count,
            count == source_nodes.len(),
            source_nodes == tree_nodes(*tree),
            nodes.len() == i,
            (SyntaxTree { nodes }).wf(),
            tree_links(nodes@),
            forall|j: int| 0 <= j < i ==> same_node(#[trigger] nodes@[j], source_nodes[j]),
        decreases count - i,
    {
        let record = node_record(tree, i);
        let ghost old_tree = SyntaxTree { nodes };
        let parent = record.parent;
        nodes.push(record);
        if let Some(p) = parent {
            let ghost before = nodes@;
            nodes[p].children.push(i);
            proof {
                assert forall|k: int| 0 <= k < old_tree.nodes.len() && k != p implies nodes@[k] == old_tree.nodes@[k] by {
                    assert(nodes@[k] == before[k]);
                }
                lemma_attach(old_tree, SyntaxTree { nodes }, p);
                assert forall|j: int| 0 <= j < i + 1 implies same_node(#[trigger] nodes@[j], source_nodes[j]) by {
                    if j == p {
                        assert(nodes@[j].kind == before[j].kind);
                    } else {
                        assert(nodes@[j] == before[j]);
                    }
                }
            }
        } else {
            proof {
                assert(nodes@[0].children@.len() == 0);
                assert(tree_links(nodes@));
            }
        }
        i += 1;
    }
    SyntaxTree { nodes }
}

/// Parses a source file with a grammar and copies the tree: always a tree, node for node the
/// one tree-sitter makes of the source with that grammar.
pub fn parse_source(grammar: Grammar, source: &[u8]) -> (tree: Option<SyntaxTree>)
    ensures
        tree matches Some(t) && t.is_tree() && copies(t, parsed_nodes(grammar, source@)),
{
    let parsed = match grammar {
        Grammar::JavaScript => parse_javascript(source),
        Grammar::TypeScript => parse_typescript(source),
        Grammar::Tsx => parse_tsx(source),
        Grammar::Python => parse_python(source),
        Grammar::Go => parse_go(source),
        Grammar::Rust => parse_rust(source),
    };
    match parsed {
        Some(tree) => Some(copy_tree(&tree)),
        None => None,
    }
}

} // verus!
