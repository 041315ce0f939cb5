//! The directed graph of `petgraph`, as the library uses it: nodes weighted by the
//! position of the symbol they stand for, edges without weights.

use petgraph::graph::{Graph, NodeIndex};
use petgraph::visit::{Dfs, Walker};
use petgraph::Directed;
use vstd::prelude::*;

verus! {

#[verifier::external_type_specification]
#[verifier::external_body]
#[verifier::reject_recursive_types(N)]
#[verifier::reject_recursive_types(E)]
#[verifier::reject_recursive_types(Ty)]
#[verifier::reject_recursive_types(Ix)]
pub struct ExGraph<N, E, Ty, Ix>(Graph<N, E, Ty, Ix>);

#[verifier::external_type_specification]
#[verifier::external_body]
pub struct ExDirected(Directed);

/// The graph type: directed, node weights are symbol positions, indices are `usize`.
pub type SymbolDiGraph = Graph<usize, (), Directed, usize>;

/// The node weights of a graph, in node-index order.
pub uninterp spec fn digraph_nodes(g: Graph<usize, (), Directed, usize>) -> Seq<usize>;

/// The edges of a graph as (source, target) node indices, in edge-index order.
pub uninterp spec fn digraph_edges(g: Graph<usize, (), Directed, usize>) -> Seq<(usize, usize)>;

/// Some edge goes from `a` to `b`.
pub open spec fn has_edge(edges: Seq<(usize, usize)>, a: usize, b: usize) -> bool {
    exists|k: int| 0 <= k < edges.len() && #[trigger] edges[k] == (a, b)
}

/// Every consecutive pair of `path` is an edge.
pub open spec fn is_path(edges: Seq<(usize, usize)>, path: Seq<usize>) -> bool {
    &&& path.len() >= 1
    &&& forall|i: int| 0 <= i < path.len() - 1 ==> has_edge(edges, #[trigger] path[i], path[i + 1])
}

/// `v` can be reached from `u` by following edges (every node reaches itself).
pub open spec fn reaches(edges: Seq<(usize, usize)>, u: usize, v: usize) -> bool {
    exists|path: Seq<usize>| #[trigger] is_path(edges, path) && path[0] == u && path.last() == v
}

/// `u` and `v` reach each other: they lie in one strongly connected component.
pub open spec fn mutually_reach(edges: Seq<(usize, usize)>, u: usize, v: usize) -> bool {
    reaches(edges, u, v) && reaches(edges, v, u)
}

/// Every edge joins two of the first `n` nodes.
pub open spec fn edges_within(edges: Seq<(usize, usize)>, n: int) -> bool {
    forall|k: int| 0 <= k < edges.len() ==> (#[trigger] edges[k]).0 < n && edges[k].1 < n
}

/// Creates an empty directed graph (`Graph::default`).
#[verifier::external_body]
pub(crate) fn new_digraph() -> (g: SymbolDiGraph)
    ensures
        digraph_nodes(g) == Seq::<usize>::empty(),
        digraph_edges(g) == Seq::<(usize, usize)>::empty(),
{
    Graph::default()
}

/// Adds a node with the given weight (`Graph::add_node`) and returns its index.
#[verifier::external_body]
pub(crate) fn add_graph_node(g: &mut SymbolDiGraph, weight: usize) -> (idx: usize)
    ensures
        digraph_nodes(*final(g)) == digraph_nodes(*old(g)).push(weight),
        digraph_edges(*final(g)) == digraph_edges(*old(g)),
        idx == digraph_nodes(*old(g)).len(),
{
    g.add_node(weight).index()
}

/// Adds an edge from `a` to `b` (`Graph::add_edge`).
#[verifier::external_body]
pub(crate) fn add_graph_edge(g: &mut SymbolDiGraph, a: usize, b: usize)
    requires
        a < digraph_nodes(*old(g)).len(),
        b < digraph_nodes(*old(g)).len(),
    ensures
        digraph_nodes(*final(g)) == digraph_nodes(*old(g)),
        digraph_edges(*final(g)) == digraph_edges(*old(g)).push((a, b)),
{
    g.add_edge(NodeIndex::new(a), NodeIndex::new(b), ());
}

/// Whether an edge from `a` to `b` exists (`Graph::find_edge`).
#[verifier::external_body]
pub(crate) fn graph_has_edge(g: &SymbolDiGraph, a: usize, b: usize) -> (found: bool)
    ensures
        found == has_edge(digraph_edges(*g), a, b),
{
    g.find_edge(NodeIndex::new(a), NodeIndex::new(b)).is_some()
}

/// The edges as (source, target) pairs in edge-index order (`Graph::raw_edges`).
#[verifier::external_body]
pub(crate) fn graph_edge_list(g: &SymbolDiGraph) -> (pairs: Vec<(usize, usize)>)
    ensures
        pairs@ == digraph_edges(*g),
{
    g.raw_edges().iter().map(|edge| (edge.source().index(), edge.target().index())).collect()
}

/// The nodes a depth-first search from `start` visits (`Dfs`): each node reachable from
/// `start`, once.
#[verifier::external_body]
pub(crate) fn graph_dfs(g: &SymbolDiGraph, start: usize) -> (visited: Vec<usize>)
    requires
        start < digraph_nodes(*g).len(),
        edges_within(digraph_edges(*g), digraph_nodes(*g).len() as int),
    ensures
        forall|v: usize|
            visited@.contains(v) <==> (v < digraph_nodes(*g).len() && reaches(digraph_edges(*g), start, v)),
        visited@.no_duplicates(),
{
    Dfs::new(g, NodeIndex::new(start)).iter(g).map(|node: NodeIndex<usize>| node.index()).collect()
}

/// The views of a list of node lists.
pub open spec fn node_lists(lists: Seq<Vec<usize>>) -> Seq<Seq<usize>> {
    lists.map_values(|l: Vec<usize>| l@)
}

/// `v` appears somewhere in the lists.
pub open spec fn listed(c: Seq<Seq<usize>>, v: usize) -> bool {
    exists|i: int, j: int| 0 <= i < c.len() && 0 <= j < c[i].len() && #[trigger] c[i][j] == v
}

/// `c` splits the first `n` nodes into strongly connected components: each node appears
/// exactly once, and two nodes share a list exactly when they reach each other.
pub open spec fn is_scc_partition(edges: Seq<(usize, usize)>, n: int, c: Seq<Seq<usize>>) -> bool {
    &&& forall|i: int, j: int| 0 <= i < c.len() && 0 <= j < c[i].len() ==> #[trigger] c[i][j] < n
    &&& forall|v: usize| v < n ==> #[trigger] listed(c, v)
    &&& forall|i1: int, j1: int, i2: int, j2: int|
        0 <= i1 < c.len() && 0 <= j1 < c[i1].len() && 0 <= i2 < c.len() && 0 <= j2 < c[i2].len()
            && #[trigger] c[i1][j1] == #[trigger] c[i2][j2] ==> i1 == i2 && j1 == j2
    &&& forall|i1: int, j1: int, i2: int, j2: int|
        0 <= i1 < c.len() && 0 <= j1 < c[i1].len() && 0 <= i2 < c.len() && 0 <= j2 < c[i2].len()
            ==> (mutually_reach(edges, #[trigger] c[i1][j1], #[trigger] c[i2][j2]) <==> i1 == i2)
}

/// The strongly connected components (`petgraph::algo::kosaraju_scc`): every node lies in
/// exactly one component, and two nodes share a component exactly when they reach each other.
#[verifier::external_body]
pub(crate) fn graph_components(g: &SymbolDiGraph) -> (comps: Vec<Vec<usize>>)
    requires
        edges_within(digraph_edges(*g), digraph_nodes(*g).len() as int),
    ensures
        is_scc_partition(digraph_edges(*g), digraph_nodes(*g).len() as int, node_lists(comps@)),
{
    petgraph::algo::kosaraju_scc(g).into_iter().map(
        |comp: Vec<NodeIndex<usize>>| comp.into_iter().map(|node: NodeIndex<usize>| node.index()).collect(),
    ).collect()
}

} // verus!
