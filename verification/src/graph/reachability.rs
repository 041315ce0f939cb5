//! Which symbols the entry points reach.

use vstd::prelude::*;

use crate::parse::types::Symbol;
use crate::text::str_eq;

use super::digraph::{graph_dfs, has_edge, is_path, reaches};
use super::SymbolGraph;

verus! {

/// The symbol at node `e` carries one of the entry-point names.
pub open spec fn is_entry(syms: Seq<Symbol>, entries: Seq<String>, e: int) -> bool {
    exists|k: int| 0 <= k < entries.len() && (#[trigger] entries[k])@ == syms[e].name@
}

/// Node `v` is reached from some entry point among the first `upto` nodes.
pub open spec fn reached_before(
    syms: Seq<Symbol>,
    edges: Seq<(usize, usize)>,
    entries: Seq<String>,
    upto: int,
    v: usize,
) -> bool {
    exists|e: int| 0 <= e < upto && is_entry(syms, entries, e) && #[trigger] reaches(edges, e as usize, v)
}

/// Node `v` is reached from some entry point.
pub open spec fn reached(syms: Seq<Symbol>, edges: Seq<(usize, usize)>, entries: Seq<String>, v: usize) -> bool {
    reached_before(syms, edges, entries, syms.len() as int, v)
}

/// A path to `u` followed by an edge from `u` to `v` is a path to `v`.
pub proof fn lemma_reaches_step(edges: Seq<(usize, usize)>, e: usize, u: usize, v: usize)
    requires
        reaches(edges, e, u),
        has_edge(edges, u, v),
    ensures
        reaches(edges, e, v),
{
    let path = choose|path: Seq<usize>| #[trigger] is_path(edges, path) && path[0] == e && path.last() == u;
    let longer = path.push(v);
    assert forall|i: int| 0 <= i < longer.len() - 1 implies has_edge(edges, #[trigger] longer[i], longer[i + 1]) by {
        if i < path.len() - 1 {
            assert(longer[i] == path[i] && longer[i + 1] == path[i + 1]);
        }
    }
    assert(is_path(edges, longer));
}

/// Every node reaches itself.
pub proof fn lemma_reaches_self(edges: Seq<(usize, usize)>, v: usize)
    ensures
        reaches(edges, v, v),
{
    assert(is_path(edges, seq![v]));
}

/// Whether the symbol at node `e` carries one of the entry-point names.
fn entry_named(symbol: &Symbol, entry_names: &Vec<String>) -> (found: bool)
    ensures
        found == exists|k: int| 0 <= k < entry_names.len() && (#[trigger] entry_names@[k])@ == symbol.name@,
{
    let mut k: usize = 0;
    while k < entry_names.len()
        invariant
            k <= entry_names.len(),
            forall|j: int| 0 <= j < k ==> (#[trigger] entry_names@[j])@ != symbol.name@,
        decreases entry_names.len() - k,
    {
        if str_eq(entry_names[k].as_str(), symbol.name.as_str()) {
            return true;
        }
        k += 1;
    }
    false
}

/// Marks every node reached from a symbol named like an entry point (`main`, `handler`, ...):
/// `marks[v]` holds exactly when some entry symbol reaches `v` along call edges.
pub fn find_reachable(graph: &SymbolGraph, entry_names: &Vec<String>) -> (marks: Vec<bool>)
    requires
        graph.wf(),
    ensures
        marks.len() == graph.nodes().len(),
        forall|v: usize| v < marks.len() ==> (#[trigger] marks@[v as int] <==> reached(graph.nodes(), graph.edges(), entry_names@, v)),
        forall|u: usize, v: usize| u < marks.len() && v < marks.len() && marks@[u as int] && #[trigger] has_edge(graph.edges(), u, v) ==> marks@[v as int],
{
    let n = graph.node_count();
    let g = graph.digraph();
    let ghost syms = graph.nodes();
    let ghost edges = graph.edges();
    let mut marks: Vec<bool> = Vec::new();
    while marks.len() < n
        invariant
            marks.len() <= n,
            forall|v: int| 0 <= v < marks.len() ==> !(#[trigger] marks@[v]),
        decreases n - marks.len(),
    {
        marks.push(false);
    }
    let mut e: usize = 0;
    while e < n
        invariant
            n == syms.len(),
            syms == graph.nodes(),
            edges == graph.edges(),
            e <= n,
            marks.len() == n,
            super::digraph::digraph_edges(*g) == edges,
            super::digraph::digraph_nodes(*g).len() == n,
            super::digraph::edges_within(super::digraph::digraph_edges(*g), n as int),
            forall|v: usize| v < n ==> (#[trigger] marks@[v as int] <==> reached_before(syms, edges, entry_names@, e as int, v)),
        decreases n - e,
    {
        if entry_named(graph.symbol(e), entry_names) {
            let visited = graph_dfs(g, e);
            let ghost before = marks@;
            let mut k: usize = 0;
            while k < visited.len()
                invariant
                    marks.len() == n,
                    k <= visited.len(),
                    forall|v: usize| #[trigger] visited@.contains(v) <==> (v < n && reaches(edges, e, v)),
                    forall|v: usize| v < n ==> (#[trigger] marks@[v as int] <==> (before[v as int] || exists|j: int| 0 <= j < k && visited@[j] == v)),
                decreases visited.len() - k,
            {
                let v = visited[k];
                assert(visited@.contains(v));
                marks.set(v, true);
                proof {
                    assert forall|w: usize| w < n implies (#[trigger] marks@[w as int] <==> (before[w as int] || exists|j: int| 0 <= j < k + 1 && visited@[j] == w)) by {
                        if w != v {
                            if exists|j: int| 0 <= j < k + 1 && visited@[j] == w {
                                let j = choose|j: int| 0 <= j < k + 1 && visited@[j] == w;
                                assert(j < k);
                            }
                        }
                    }
                }
                k += 1;
            }
            proof {
                assert forall|v: usize| v < n implies (#[trigger] marks@[v as int] <==> reached_before(syms, edges, entry_names@, e + 1, v)) by {
                    if reached_before(syms, edges, entry_names@, e + 1, v) {
                        let e2 = choose|e2: int| 0 <= e2 < e + 1 && is_entry(syms, entry_names@, e2) && #[trigger] reaches(edges, e2 as usize, v);
                        if e2 == e {
                            assert(visited@.contains(v));
                            let j = choose|j: int| 0 <= j < visited.len() && visited@[j] == v;
                        } else {
                            assert(reached_before(syms, edges, entry_names@, e as int, v));
                        }
                    }
                    if marks@[v as int] {
                        if !before[v as int] {
                            let j = choose|j: int| 0 <= j < visited.len() && visited@[j] == v;
                            assert(visited@.contains(v));
                            assert(is_entry(syms, entry_names@, e as int));
                            assert(reaches(edges, (e as int) as usize, v));
                        } else {
                            let e2 = choose|e2: int| 0 <= e2 < e && is_entry(syms, entry_names@, e2) && #[trigger] reaches(edges, e2 as usize, v);
                            assert(0 <= e2 < e + 1 && is_entry(syms, entry_names@, e2) && reaches(edges, e2 as usize, v));
                        }
                    }
                }
            }
        } else {
            proof {
                assert forall|v: usize| v < n implies (#[trigger] marks@[v as int] <==> reached_before(syms, edges, entry_names@, e + 1, v)) by {
                    if reached_before(syms, edges, entry_names@, e + 1, v) {
                        let e2 = choose|e2: int| 0 <= e2 < e + 1 && is_entry(syms, entry_names@, e2) && #[trigger] reaches(edges, e2 as usize, v);
                        if e2 == e {
                            assert(false);
                        }
                    }
                    if reached_before(syms, edges, entry_names@, e as int, v) {
                        let e2 = choose|e2: int| 0 <= e2 < e && is_entry(syms, entry_names@, e2) && #[trigger] reaches(edges, e2 as usize, v);
                        assert(reached_before(syms, edges, entry_names@, e + 1, v));
                    }
                }
            }
        }
        e += 1;
    }
    proof {
        assert forall|u: usize, v: usize| u < marks.len() && v < marks.len() && marks@[u as int] && #[trigger] has_edge(edges, u, v) implies marks@[v as int] by {
            let e2 = choose|e2: int| 0 <= e2 < n && is_entry(syms, entry_names@, e2) && #[trigger] reaches(edges, e2 as usize, u);
            lemma_reaches_step(edges, e2 as usize, u, v);
        }
    }
    marks
}

} // verus!
