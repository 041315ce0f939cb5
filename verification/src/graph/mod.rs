//! The reference graph: one node per symbol, one edge per resolved call.

pub mod digraph;
pub mod reachability;
pub mod properties;

use vstd::prelude::*;

use crate::index::{texts, TextIndex};
use crate::parse::types::{Reference, Symbol};

use self::digraph::{
    add_graph_edge, add_graph_node, digraph_edges, digraph_nodes, edges_within, graph_components,
    graph_edge_list, graph_has_edge, has_edge, is_scc_partition, listed, mutually_reach,
    new_digraph, node_lists, SymbolDiGraph,
};

verus! {

/// The symbols of a scan and the calls between them.
///
/// Node `i` of the graph stands for `symbols[i]`; an edge from `a` to `b` records that code
/// inside symbol `a` calls a name that symbol `b` defines.
pub struct SymbolGraph {
    graph: SymbolDiGraph,
    symbols: Vec<Symbol>,
}

/// `s` is the last symbol whose fully qualified name is `fqn`.
pub open spec fn is_source_of(syms: Seq<Symbol>, fqn: Seq<char>, s: int) -> bool {
    &&& 0 <= s < syms.len()
    &&& syms[s].fqn@ == fqn
    &&& forall|j: int| s < j < syms.len() ==> (#[trigger] syms[j]).fqn@ != fqn
}

/// Reference `r` calls for an edge from `a` to `b`: `a` is the symbol the call sits in and
/// `b` is a symbol with the called name.
pub open spec fn wanted_by(syms: Seq<Symbol>, refs: Seq<Reference>, r: int, a: usize, b: usize) -> bool {
    &&& is_source_of(syms, refs[r].source_fqn@, a as int)
    &&& b < syms.len()
    &&& syms[b as int].name@ == refs[r].target_name@
}

/// One of the first `upto` references calls for an edge from `a` to `b`.
pub open spec fn wanted_before(
    syms: Seq<Symbol>,
    refs: Seq<Reference>,
    upto: int,
    a: usize,
    b: usize,
) -> bool {
    exists|r: int| 0 <= r < upto && #[trigger] wanted_by(syms, refs, r, a, b)
}

/// Some reference calls for an edge from `a` to `b`.
pub open spec fn reference_edge(syms: Seq<Symbol>, refs: Seq<Reference>, a: usize, b: usize) -> bool {
    wanted_before(syms, refs, refs.len() as int, a, b)
}

impl SymbolGraph {
    /// The graph's invariant: node `i` carries weight `i`, every edge joins two nodes, and no
    /// edge appears twice.
    pub closed spec fn wf(&self) -> bool {
        &&& digraph_nodes(self.graph).len() == self.symbols@.len()
        &&& forall|i: int| 0 <= i < self.symbols@.len() ==> #[trigger] digraph_nodes(self.graph)[i] == i
        &&& edges_within(digraph_edges(self.graph), self.symbols@.len() as int)
        &&& digraph_edges(self.graph).no_duplicates()
    }

    /// The symbols, by node index.
    pub closed spec fn nodes(&self) -> Seq<Symbol> {
        self.symbols@
    }

    /// The edges as (caller, callee) node indices.
    pub closed spec fn edges(&self) -> Seq<(usize, usize)> {
        digraph_edges(self.graph)
    }

    /// A well-formed graph's edges join its nodes and never repeat.
    pub proof fn lemma_wf(&self)
        requires
            self.wf(),
        ensures
            edges_within(self.edges(), self.nodes().len() as int),
            self.edges().no_duplicates(),
    {
    }

    /// The number of nodes.
    pub fn node_count(&self) -> (n: usize)
        ensures
            n == self.nodes().len(),
    {
        self.symbols.len()
    }

    /// The symbol at node `idx`.
    pub fn symbol(&self, idx: usize) -> (symbol: &Symbol)
        requires
            idx < self.nodes().len(),
        ensures
            *symbol == self.nodes()[idx as int],
    {
        &self.symbols[idx]
    }

    /// All symbols, by node index.
    pub fn symbols(&self) -> (symbols: &Vec<Symbol>)
        ensures
            symbols@ == self.nodes(),
    {
        &self.symbols
    }

    /// Whether an edge goes from `a` to `b`.
    pub fn has_edge(&self, a: usize, b: usize) -> (found: bool)
        ensures
            found == has_edge(self.edges(), a, b),
    {
        graph_has_edge(&self.graph, a, b)
    }

    /// The edges as (caller, callee) pairs.
    pub fn edge_list(&self) -> (pairs: Vec<(usize, usize)>)
        ensures
            pairs@ == self.edges(),
    {
        graph_edge_list(&self.graph)
    }

    /// The underlying `petgraph` graph.
    pub fn digraph(&self) -> (g: &SymbolDiGraph)
        requires
            self.wf(),
        ensures
            digraph_edges(*g) == self.edges(),
            digraph_nodes(*g).len() == self.nodes().len(),
            edges_within(digraph_edges(*g), digraph_nodes(*g).len() as int),
    {
        &self.graph
    }

    /// The node of the last symbol whose fully qualified name is `fqn`, if any.
    pub fn index_of_fqn(&self, fqn: &str) -> (idx: Option<usize>)
        ensures
            match idx {
                Some(i) => is_source_of(self.nodes(), fqn@, i as int),
                None => forall|j: int| 0 <= j < self.nodes().len() ==> (#[trigger] self.nodes()[j]).fqn@ != fqn@,
            },
    {
        let mut i = self.symbols.len();
        while i > 0
            invariant
                i <= self.symbols.len(),
                forall|j: int| i <= j < self.symbols.len() ==> (#[trigger] self.symbols@[j]).fqn@ != fqn@,
            decreases i,
        {
            if crate::text::str_eq(self.symbols[i - 1].fqn.as_str(), fqn) {
                return Some(i - 1);
            }
            i -= 1;
        }
        None
    }
}

/// Whether the largest element of an increasing list bounds all of it.
proof fn lemma_increasing_last(s: Seq<usize>, k: int)
    requires
        forall|a: int, b: int| 0 <= a < b < s.len() ==> s[a] < s[b],
        0 <= k < s.len(),
    ensures
        s[k] <= s[s.len() - 1],
{
}

/// Builds the reference graph: one node per symbol, in order, and an edge from the symbol a
/// reference sits in (the last symbol with the reference's source name) to every symbol with
/// the called name, each edge once.
pub fn build_graph(symbols: Vec<Symbol>, references: Vec<Reference>) -> (g: SymbolGraph)
    ensures
        g.wf(),
        g.nodes() == symbols@,
        forall|a: usize, b: usize|
            #[trigger] has_edge(g.edges(), a, b) <==> reference_edge(symbols@, references@, a, b),
{
    let n = symbols.len();
    let mut graph = new_digraph();
    let mut fqns: Vec<String> = Vec::new();
    let mut names: Vec<String> = Vec::new();
    let mut i: usize = 0;
    while i < n
        invariant
            n == symbols.len(),
            i <= n,
            digraph_nodes(graph).len() == i,
            forall|k: int| 0 <= k < i ==> #[trigger] digraph_nodes(graph)[k] == k,
            digraph_edges(graph) == Seq::<(usize, usize)>::empty(),
            fqns.len() == i,
            names.len() == i,
            forall|k: int| 0 <= k < i ==> (#[trigger] fqns@[k])@ == symbols@[k].fqn@,
            forall|k: int| 0 <= k < i ==> (#[trigger] names@[k])@ == symbols@[k].name@,
        decreases n - i,
    {
        add_graph_node(&mut graph, i);
        fqns.push(symbols[i].fqn.clone());
        names.push(symbols[i].name.clone());
        i += 1;
    }
    let fqn_index = TextIndex::build(&fqns);
    let name_index = TextIndex::build(&names);
    let ghost syms = symbols@;
    let ghost refs = references@;

    let mut r: usize = 0;
    while r < references.len()
        invariant
            syms == symbols@,
            refs == references@,
            n == symbols.len(),
            fqns.len() == n,
            names.len() == n,
            forall|k: int| 0 <= k < n ==> (#[trigger] fqns@[k])@ == syms[k].fqn@,
            forall|k: int| 0 <= k < n ==> (#[trigger] names@[k])@ == syms[k].name@,
            fqn_index.indexes(texts(fqns@)),
            name_index.indexes(texts(names@)),
            r <= references.len(),
            digraph_nodes(graph).len() == n,
            forall|k: int| 0 <= k < n ==> #[trigger] digraph_nodes(graph)[k] == k,
            edges_within(digraph_edges(graph), n as int),
            digraph_edges(graph).no_duplicates(),
            forall|a: usize, b: usize|
                #[trigger] has_edge(digraph_edges(graph), a, b) <==> wanted_before(syms, refs, r as int, a, b),
        decreases references.len() - r,
    {
        let sources = fqn_index.positions_of(&fqns, references[r].source_fqn.as_str());
        if sources.len() > 0 {
            let s = sources[sources.len() - 1];
            proof {
                assert(sources@.contains(s));
                assert forall|j: int| s < j < syms.len() implies (#[trigger] syms[j]).fqn@
                    != refs[r as int].source_fqn@ by {
                    if syms[j].fqn@ == refs[r as int].source_fqn@ {
                        assert(fqns@[j]@ == syms[j].fqn@);
                        assert(sources@.contains(j as usize));
                        let k = choose|k: int| 0 <= k < sources.len() && sources@[k] == j as usize;
                        lemma_increasing_last(sources@, k);
                    }
                }
                assert(is_source_of(syms, refs[r as int].source_fqn@, s as int));
            }
            let targets = name_index.positions_of(&names, references[r].target_name.as_str());
            let mut t: usize = 0;
            while t < targets.len()
                invariant
                    syms == symbols@,
                    refs == references@,
                    r < references.len(),
                    n == symbols.len(),
                    s < n,
                    is_source_of(syms, refs[r as int].source_fqn@, s as int),
                    forall|x: usize| #[trigger]
                        targets@.contains(x) <==> (x < names.len() && names@[x as int]@ == refs[r as int].target_name@),
                    forall|k: int| 0 <= k < n ==> (#[trigger] names@[k])@ == syms[k].name@,
                    names.len() == n,
                    t <= targets.len(),
                    digraph_nodes(graph).len() == n,
                    forall|k: int| 0 <= k < n ==> #[trigger] digraph_nodes(graph)[k] == k,
                    edges_within(digraph_edges(graph), n as int),
                    digraph_edges(graph).no_duplicates(),
                    forall|a: usize, b: usize|
                        #[trigger] has_edge(digraph_edges(graph), a, b) <==> (wanted_before(syms, refs, r as int, a, b)
                            || (a == s && exists|k: int| 0 <= k < t && targets@[k] == b)),
                decreases targets.len() - t,
            {
                let target = targets[t];
                assert(targets@.contains(target));
                let ghost before = digraph_edges(graph);
                if !graph_has_edge(&graph, s, target) {
                    add_graph_edge(&mut graph, s, target);
                    proof {
                        let after = digraph_edges(graph);
                        assert(!before.contains((s, target)));
                        assert forall|a: usize, b: usize| #[trigger] has_edge(after, a, b) <==> (
                            wanted_before(syms, refs, r as int, a, b) || (a == s && exists|k: int|
                                0 <= k < t + 1 && targets@[k] == b)) by {
                            if has_edge(after, a, b) {
                                let k = choose|k: int| 0 <= k < after.len() && after[k] == (a, b);
                                if k < before.len() {
                                    assert(has_edge(before, a, b));
                                } else {
                                    assert(targets@[t as int] == b);
                                }
                            }
                            if a == s && exists|k: int| 0 <= k < t + 1 && targets@[k] == b {
                                let k = choose|k: int| 0 <= k < t + 1 && targets@[k] == b;
                                if k == t {
                                    assert(after[after.len() - 1] == (a, b));
                                } else {
                                    assert(has_edge(before, a, b));
                                    let m = choose|m: int| 0 <= m < before.len() && before[m] == (a, b);
                                    assert(after[m] == (a, b));
                                }
                            }
                            if wanted_before(syms, refs, r as int, a, b) {
                                assert(has_edge(before, a, b));
                                let m = choose|m: int| 0 <= m < before.len() && before[m] == (a, b);
                                assert(after[m] == (a, b));
                            }
                        }
                    }
                } else {
                    proof {
                        assert forall|a: usize, b: usize| #[trigger] has_edge(before, a, b) <==> (
                            wanted_before(syms, refs, r as int, a, b) || (a == s && exists|k: int|
                                0 <= k < t + 1 && targets@[k] == b)) by {
                            if a == s && exists|k: int| 0 <= k < t + 1 && targets@[k] == b {
                                let k = choose|k: int| 0 <= k < t + 1 && targets@[k] == b;
                                if k < t {
                                    assert(exists|k2: int| 0 <= k2 < t && targets@[k2] == b);
                                }
                            }
                        }
                    }
                }
                t += 1;
            }
            proof {
                let edges = digraph_edges(graph);
                assert forall|a: usize, b: usize| #[trigger] has_edge(edges, a, b) <==> wanted_before(
                    syms,
                    refs,
                    r + 1,
                    a,
                    b,
                ) by {
                    if a == s && exists|k: int| 0 <= k < t && targets@[k] == b {
                        let k = choose|k: int| 0 <= k < t && targets@[k] == b;
                        assert(targets@.contains(b));
                        assert(names@[b as int]@ == syms[b as int].name@);
                        assert(wanted_by(syms, refs, r as int, a, b));
                    }
                    if wanted_before(syms, refs, r + 1, a, b) {
                        let q = choose|q: int| 0 <= q < r + 1 && #[trigger] wanted_by(syms, refs, q, a, b);
                        if q == r {
                            assert(a == s);
                            assert(names@[b as int]@ == syms[b as int].name@);
                            assert(targets@.contains(b));
                            let k = choose|k: int| 0 <= k < targets.len() && targets@[k] == b;
                        } else {
                            assert(wanted_before(syms, refs, r as int, a, b));
                        }
                    }
                    if wanted_before(syms, refs, r as int, a, b) {
                        let q = choose|q: int| 0 <= q < r && #[trigger] wanted_by(syms, refs, q, a, b);
                        assert(wanted_before(syms, refs, r + 1, a, b));
                    }
                }
            }
        } else {
            proof {
                let edges = digraph_edges(graph);
                assert forall|a: usize, b: usize| #[trigger] has_edge(edges, a, b) <==> wanted_before(
                    syms,
                    refs,
                    r + 1,
                    a,
                    b,
                ) by {
                    if wanted_before(syms, refs, r + 1, a, b) {
                        let q = choose|q: int| 0 <= q < r + 1 && #[trigger] wanted_by(syms, refs, q, a, b);
                        if q == r {
                            assert(fqns@[a as int]@ == syms[a as int].fqn@);
                            assert(sources@.contains(a));
                        }
                    }
                    if wanted_before(syms, refs, r as int, a, b) {
                        let q = choose|q: int| 0 <= q < r && #[trigger] wanted_by(syms, refs, q, a, b);
                        assert(wanted_before(syms, refs, r + 1, a, b));
                    }
                }
            }
        }
        r += 1;
    }
    SymbolGraph { graph, symbols }
}

/// Some edge ends at `v`.
pub open spec fn has_caller(edges: Seq<(usize, usize)>, v: usize) -> bool {
    exists|k: int| 0 <= k < edges.len() && (#[trigger] edges[k]).1 == v
}

/// Every edge that ends at `v` starts at a test symbol.
pub open spec fn called_only_from_tests(syms: Seq<Symbol>, edges: Seq<(usize, usize)>, v: usize) -> bool {
    forall|k: int| 0 <= k < edges.len() && (#[trigger] edges[k]).1 == v ==> syms[edges[k].0 as int].is_test
}

/// Node `v` is a dead candidate: not reached from an entry point, not itself a test, and
/// called, if at all, only from tests.
pub open spec fn is_dead_candidate(
    syms: Seq<Symbol>,
    edges: Seq<(usize, usize)>,
    reachable: Seq<bool>,
    v: usize,
) -> bool {
    &&& !reachable[v as int]
    &&& !syms[v as int].is_test
    &&& called_only_from_tests(syms, edges, v)
}

/// The number of edges among the first `upto` that end at `v`.
pub open spec fn incoming_count(edges: Seq<(usize, usize)>, v: usize, upto: int) -> nat
    decreases upto,
{
    if upto <= 0 {
        0
    } else {
        incoming_count(edges, v, upto - 1) + if edges[upto - 1].1 == v {
            1nat
        } else {
            0nat
        }
    }
}

/// The number of edges that end at `v`.
pub open spec fn in_degree(edges: Seq<(usize, usize)>, v: usize) -> nat {
    incoming_count(edges, v, edges.len() as int)
}

/// Node `v` belongs to a dead cycle: its strongly connected component has another member,
/// no member is reached from an entry point, and every call into the component comes from
/// inside it.
pub open spec fn in_dead_cycle(
    syms: Seq<Symbol>,
    edges: Seq<(usize, usize)>,
    reachable: Seq<bool>,
    v: usize,
) -> bool {
    &&& exists|u: usize| u < syms.len() && u != v && #[trigger] mutually_reach(edges, u, v)
    &&& forall|u: usize| u < syms.len() && #[trigger] mutually_reach(edges, u, v) ==> !reachable[u as int]
    &&& forall|k: int|
        0 <= k < edges.len() && #[trigger] mutually_reach(edges, edges[k].1, v) ==> mutually_reach(
            edges,
            edges[k].0,
            v,
        )
}

/// Whether each node has a caller that is not a test, and whether it has any caller.
fn caller_flags(graph: &SymbolGraph) -> (flags: (Vec<bool>, Vec<bool>))
    requires
        graph.wf(),
    ensures
        flags.0.len() == graph.nodes().len(),
        flags.1.len() == graph.nodes().len(),
        forall|v: usize| v < graph.nodes().len() ==> (#[trigger] flags.0@[v as int] <==> !called_only_from_tests(graph.nodes(), graph.edges(), v)),
        forall|v: usize| v < graph.nodes().len() ==> (#[trigger] flags.1@[v as int] <==> has_caller(graph.edges(), v)),
{
    let n = graph.node_count();
    let pairs = graph.edge_list();
    let ghost syms = graph.nodes();
    let mut live: Vec<bool> = Vec::new();
    let mut called: Vec<bool> = Vec::new();
    while live.len() < n
        invariant
            live.len() <= n,
            called.len() == live.len(),
            forall|v: int| 0 <= v < live.len() ==> !(#[trigger] live@[v]),
            forall|v: int| 0 <= v < called.len() ==> !(#[trigger] called@[v]),
        decreases n - live.len(),
    {
        live.push(false);
        called.push(false);
    }
    let mut k: usize = 0;
    while k < pairs.len()
        invariant
            n == syms.len(),
            syms == graph.nodes(),
            pairs@ == graph.edges(),
            edges_within(pairs@, n as int),
            live.len() == n,
            called.len() == n,
            k <= pairs.len(),
            forall|v: usize| v < n ==> (#[trigger] live@[v as int] <==> exists|j: int| 0 <= j < k && pairs@[j].1 == v && !syms[pairs@[j].0 as int].is_test),
            forall|v: usize| v < n ==> (#[trigger] called@[v as int] <==> exists|j: int| 0 <= j < k && pairs@[j].1 == v),
        decreases pairs.len() - k,
    {
        let (source, target) = pairs[k];
        assert(pairs@[k as int].0 < n && pairs@[k as int].1 < n);
        called.set(target, true);
        if !graph.symbol(source).is_test {
            live.set(target, true);
        }
        proof {
            assert forall|v: usize| v < n implies (#[trigger] live@[v as int] <==> exists|j: int| 0 <= j < k + 1 && pairs@[j].1 == v && !syms[pairs@[j].0 as int].is_test) by {
                if exists|j: int| 0 <= j < k + 1 && pairs@[j].1 == v && !syms[pairs@[j].0 as int].is_test {
                    let j = choose|j: int| 0 <= j < k + 1 && pairs@[j].1 == v && !syms[pairs@[j].0 as int].is_test;
                    if j < k {
                        assert(exists|j2: int| 0 <= j2 < k && pairs@[j2].1 == v && !syms[pairs@[j2].0 as int].is_test);
                    }
                }
            }
            assert forall|v: usize| v < n implies (#[trigger] called@[v as int] <==> exists|j: int| 0 <= j < k + 1 && pairs@[j].1 == v) by {
                if exists|j: int| 0 <= j < k + 1 && pairs@[j].1 == v {
                    let j = choose|j: int| 0 <= j < k + 1 && pairs@[j].1 == v;
                    if j < k {
                        assert(exists|j2: int| 0 <= j2 < k && pairs@[j2].1 == v);
                    }
                }
            }
        }
        k += 1;
    }
    proof {
        assert forall|v: usize| v < n implies (#[trigger] live@[v as int] <==> !called_only_from_tests(syms, pairs@, v)) by {
            if !called_only_from_tests(syms, pairs@, v) {
                let j = choose|j: int| 0 <= j < pairs.len() && (#[trigger] pairs@[j]).1 == v && !syms[pairs@[j].0 as int].is_test;
            }
        }
        assert forall|v: usize| v < n implies (#[trigger] called@[v as int] <==> has_caller(pairs@, v)) by {
            if has_caller(pairs@, v) {
                let j = choose|j: int| 0 <= j < pairs.len() && (#[trigger] pairs@[j]).1 == v;
            }
        }
    }
    (live, called)
}

/// The dead candidates in increasing node order: symbols not reached from an entry point,
/// not tests themselves, and called only from tests if at all.
pub fn find_dead_candidates(graph: &SymbolGraph, reachable: &Vec<bool>) -> (dead: Vec<usize>)
    requires
        graph.wf(),
        reachable.len() == graph.nodes().len(),
    ensures
        forall|a: int, b: int| 0 <= a < b < dead.len() ==> dead@[a] < dead@[b],
        forall|v: usize| #[trigger] dead@.contains(v) <==> (v < graph.nodes().len() && is_dead_candidate(graph.nodes(), graph.edges(), reachable@, v)),
{
    let n = graph.node_count();
    let (live, _called) = caller_flags(graph);
    let mut dead: Vec<usize> = Vec::new();
    let mut v: usize = 0;
    while v < n
        invariant
            n == graph.nodes().len(),
            live.len() == n,
            reachable.len() == n,
            forall|w: usize| w < n ==> (#[trigger] live@[w as int] <==> !called_only_from_tests(graph.nodes(), graph.edges(), w)),
            v <= n,
            forall|a: int, b: int| 0 <= a < b < dead.len() ==> dead@[a] < dead@[b],
            forall|a: int| 0 <= a < dead.len() ==> dead@[a] < v,
            forall|w: usize| #[trigger] dead@.contains(w) <==> (w < v && is_dead_candidate(graph.nodes(), graph.edges(), reachable@, w)),
        decreases n - v,
    {
        if !reachable[v] && !graph.symbol(v).is_test && !live[v] {
            let ghost before = dead@;
            dead.push(v);
            proof {
                assert forall|w: usize| #[trigger] dead@.contains(w) <==> (w < v + 1 && is_dead_candidate(graph.nodes(), graph.edges(), reachable@, w)) by {
                    if dead@.contains(w) && w != v {
                        let i = choose|i: int| 0 <= i < dead.len() && dead@[i] == w;
                        assert(before.contains(w));
                    }
                    if w < v + 1 && is_dead_candidate(graph.nodes(), graph.edges(), reachable@, w) {
                        if w == v {
                            assert(dead@[dead.len() - 1] == w);
                        } else {
                            assert(before.contains(w));
                            let i = choose|i: int| 0 <= i < before.len() && before[i] == w;
                            assert(dead@[i] == w);
                        }
                    }
                }
            }
        }
        v += 1;
    }
    dead
}

/// Marks the dead candidates that have callers, all of them tests.
pub fn find_test_only(graph: &SymbolGraph, dead_candidates: &Vec<usize>) -> (marks: Vec<bool>)
    requires
        graph.wf(),
    ensures
        marks.len() == graph.nodes().len(),
        forall|v: usize| v < marks.len() ==> (#[trigger] marks@[v as int] <==> (dead_candidates@.contains(v)
            && has_caller(graph.edges(), v) && called_only_from_tests(graph.nodes(), graph.edges(), v))),
{
    let n = graph.node_count();
    let (live, called) = caller_flags(graph);
    let mut marks: Vec<bool> = Vec::new();
    while marks.len() < n
        invariant
            marks.len() <= n,
            forall|v: int| 0 <= v < marks.len() ==> !(#[trigger] marks@[v]),
        decreases n - marks.len(),
    {
        marks.push(false);
    }
    let mut i: usize = 0;
    while i < dead_candidates.len()
        invariant
            n == graph.nodes().len(),
            live.len() == n,
            called.len() == n,
            marks.len() == n,
            forall|w: usize| w < n ==> (#[trigger] live@[w as int] <==> !called_only_from_tests(graph.nodes(), graph.edges(), w)),
            forall|w: usize| w < n ==> (#[trigger] called@[w as int] <==> has_caller(graph.edges(), w)),
            i <= dead_candidates.len(),
            forall|v: usize| v < n ==> (#[trigger] marks@[v as int] <==> ((exists|j: int| 0 <= j < i && dead_candidates@[j] == v)
                && has_caller(graph.edges(), v) && called_only_from_tests(graph.nodes(), graph.edges(), v))),
        decreases dead_candidates.len() - i,
    {
        let v = dead_candidates[i];
        if v < n && called[v] && !live[v] {
            marks.set(v, true);
        }
        proof {
            assert forall|w: usize| w < n implies (#[trigger] marks@[w as int] <==> ((exists|j: int| 0 <= j < i + 1 && dead_candidates@[j] == w)
                && has_caller(graph.edges(), w) && called_only_from_tests(graph.nodes(), graph.edges(), w))) by {
                if exists|j: int| 0 <= j < i + 1 && dead_candidates@[j] == w {
                    let j = choose|j: int| 0 <= j < i + 1 && dead_candidates@[j] == w;
                    if j < i {
                        assert(exists|j2: int| 0 <= j2 < i && dead_candidates@[j2] == w);
                    }
                }
            }
        }
        i += 1;
    }
    proof {
        assert forall|v: usize| v < n implies (#[trigger] marks@[v as int] <==> (dead_candidates@.contains(v)
            && has_caller(graph.edges(), v) && called_only_from_tests(graph.nodes(), graph.edges(), v))) by {
            if dead_candidates@.contains(v) {
                let j = choose|j: int| 0 <= j < dead_candidates.len() && dead_candidates@[j] == v;
            }
        }
    }
    marks
}

/// The number of calls into each node.
pub fn in_degrees(graph: &SymbolGraph) -> (counts: Vec<usize>)
    requires
        graph.wf(),
    ensures
        counts.len() == graph.nodes().len(),
        forall|v: usize| v < counts.len() ==> #[trigger] counts@[v as int] == in_degree(graph.edges(), v),
{
    let n = graph.node_count();
    let pairs = graph.edge_list();
    let mut counts: Vec<usize> = Vec::new();
    while counts.len() < n
        invariant
            counts.len() <= n,
            forall|v: int| 0 <= v < counts.len() ==> #[trigger] counts@[v] == 0,
        decreases n - counts.len(),
    {
        counts.push(0);
    }
    let mut k: usize = 0;
    while k < pairs.len()
        invariant
            n == graph.nodes().len(),
            pairs@ == graph.edges(),
            edges_within(pairs@, n as int),
            counts.len() == n,
            k <= pairs.len(),
            forall|v: usize| v < n ==> #[trigger] counts@[v as int] == incoming_count(pairs@, v, k as int),
            forall|v: usize| v < n ==> #[trigger] incoming_count(pairs@, v, k as int) <= k,
        decreases pairs.len() - k,
    {
        let target = pairs[k].1;
        assert(pairs@[k as int].1 < n);
        assert(incoming_count(pairs@, target, k as int) <= k);
        counts.set(target, counts[target] + 1);
        proof {
            assert forall|v: usize| v < n implies #[trigger] incoming_count(pairs@, v, k + 1) <= k + 1 by {
                assert(incoming_count(pairs@, v, k as int) <= k);
            }
        }
        k += 1;
    }
    counts
}

/// Node `v` is recorded in `comp` as belonging to a list of `c` that holds it.
pub open spec fn placed(c: Seq<Seq<usize>>, comp: Seq<usize>, v: usize) -> bool {
    &&& 0 <= comp[v as int] < c.len()
    &&& exists|j: int| 0 <= j < c[comp[v as int] as int].len() && #[trigger] c[comp[v as int] as int][j] == v
}

/// Node `v` appears in one of the first `i` lists of `c`.
pub open spec fn in_first(c: Seq<Seq<usize>>, i: int, v: usize) -> bool {
    exists|a: int, b: int| 0 <= a < i && 0 <= b < c[a].len() && #[trigger] c[a][b] == v
}

/// Node `v` appears among the first `j` entries of list `i` of `c`.
pub open spec fn in_row(c: Seq<Seq<usize>>, i: int, j: int, v: usize) -> bool {
    exists|b: int| 0 <= b < j && #[trigger] c[i][b] == v
}

/// Which component each node lies in.
fn component_of(comps: &Vec<Vec<usize>>, n: usize) -> (comp: Vec<usize>)
    requires
        forall|i: int, j: int| 0 <= i < comps.len() && 0 <= j < comps@[i].len() ==> #[trigger] node_lists(comps@)[i][j] < n,
        forall|v: usize| v < n ==> #[trigger] listed(node_lists(comps@), v),
    ensures
        comp.len() == n,
        forall|v: usize| v < n ==> #[trigger] placed(node_lists(comps@), comp@, v),
{
    let ghost c = node_lists(comps@);
    let mut comp: Vec<usize> = Vec::new();
    while comp.len() < n
        invariant
            comp.len() <= n,
        decreases n - comp.len(),
    {
        comp.push(0);
    }
    let mut i: usize = 0;
    while i < comps.len()
        invariant
            c == node_lists(comps@),
            comp.len() == n,
            i <= comps.len(),
            forall|a: int, b: int| 0 <= a < comps.len() && 0 <= b < comps@[a].len() ==> #[trigger] c[a][b] < n,
            forall|v: usize| v < n && #[trigger] in_first(c, i as int, v) ==> placed(c, comp@, v),
        decreases comps.len() - i,
    {
        let members = &comps[i];
        assert(members@ == c[i as int]);
        let mut j: usize = 0;
        while j < members.len()
            invariant
                c == node_lists(comps@),
                members@ == c[i as int],
                i < comps.len(),
                comp.len() == n,
                j <= members.len(),
                forall|a: int, b: int| 0 <= a < comps.len() && 0 <= b < comps@[a].len() ==> #[trigger] c[a][b] < n,
                forall|v: usize| v < n && (in_first(c, i as int, v) || in_row(c, i as int, j as int, v)) ==> #[trigger] placed(c, comp@, v),
            decreases members.len() - j,
        {
            let v = members[j];
            assert(c[i as int][j as int] < n);
            let ghost before = comp@;
            comp.set(v, i);
            proof {
                assert(c[comp@[v as int] as int][j as int] == v);
                assert(placed(c, comp@, v));
                assert forall|w: usize| w < n && (in_first(c, i as int, w) || in_row(c, i as int, j + 1, w)) implies #[trigger] placed(c, comp@, w) by {
                    if w != v {
                        assert(comp@[w as int] == before[w as int]);
                        if in_row(c, i as int, j + 1, w) {
                            let b = choose|b: int| 0 <= b < j + 1 && #[trigger] c[i as int][b] == w;
                            assert(b < j);
                            assert(in_row(c, i as int, j as int, w));
                        }
                        assert(placed(c, before, w));
                        let k = choose|k: int| 0 <= k < c[before[w as int] as int].len() && #[trigger] c[before[w as int] as int][k] == w;
                        assert(c[comp@[w as int] as int][k] == w);
                    }
                }
            }
            j += 1;
        }
        proof {
            assert forall|v: usize| v < n && #[trigger] in_first(c, i + 1, v) implies placed(c, comp@, v) by {
                let (a, b) = choose|a: int, b: int| 0 <= a < i + 1 && 0 <= b < c[a].len() && #[trigger] c[a][b] == v;
                if a == i {
                    assert(in_row(c, i as int, j as int, v));
                } else {
                    assert(in_first(c, i as int, v));
                }
            }
        }
        i += 1;
    }
    proof {
        assert forall|v: usize| v < n implies #[trigger] placed(c, comp@, v) by {
            assert(listed(c, v));
            let (a, b) = choose|a: int, b: int| 0 <= a < c.len() && 0 <= b < c[a].len() && #[trigger] c[a][b] == v;
            assert(in_first(c, comps.len() as int, v));
        }
    }
    comp
}

proof fn lemma_same_component(
    edges: Seq<(usize, usize)>,
    n: int,
    c: Seq<Seq<usize>>,
    comp: Seq<usize>,
    u: usize,
    v: usize,
)
    requires
        is_scc_partition(edges, n, c),
        placed(c, comp, u),
        placed(c, comp, v),
    ensures
        mutually_reach(edges, u, v) <==> comp[u as int] == comp[v as int],
{
    let iu = comp[u as int] as int;
    let iv = comp[v as int] as int;
    let ju = choose|j: int| 0 <= j < c[iu].len() && #[trigger] c[iu][j] == u;
    let jv = choose|j: int| 0 <= j < c[iv].len() && #[trigger] c[iv][j] == v;
    assert(mutually_reach(edges, c[iu][ju], c[iv][jv]) <==> iu == iv);
}

proof fn lemma_component_size(
    edges: Seq<(usize, usize)>,
    n: int,
    c: Seq<Seq<usize>>,
    comp: Seq<usize>,
    v: usize,
)
    requires
        is_scc_partition(edges, n, c),
        comp.len() == n,
        forall|w: usize| w < n ==> #[trigger] placed(c, comp, w),
        v < n,
    ensures
        c[comp[v as int] as int].len() > 1 <==> exists|u: usize| u < n && u != v && #[trigger] comp[u as int] == comp[v as int],
{
    let i = comp[v as int] as int;
    assert(placed(c, comp, v));
    let jv = choose|j: int| 0 <= j < c[i].len() && #[trigger] c[i][j] == v;
    if c[i].len() > 1 {
        let other: int = if jv == 0 { 1 } else { 0 };
        let u = c[i][other];
        assert(u < n);
        assert(u != v);
        assert(placed(c, comp, u));
        let ju = choose|j: int| 0 <= j < c[comp[u as int] as int].len() && #[trigger] c[comp[u as int] as int][j] == u;
        assert(c[comp[u as int] as int][ju] == c[i][other]);
        assert(comp[u as int] == comp[v as int]);
    }
    if exists|u: usize| u < n && u != v && #[trigger] comp[u as int] == comp[v as int] {
        let u = choose|u: usize| u < n && u != v && #[trigger] comp[u as int] == comp[v as int];
        assert(placed(c, comp, u));
        let ju = choose|j: int| 0 <= j < c[i].len() && #[trigger] c[i][j] == u;
        assert(ju != jv);
    }
}

/// Marks the members of dead cycles: strongly connected components of more than one symbol
/// that no entry point reaches and that no symbol outside them calls.
pub fn find_dead_cycles(graph: &SymbolGraph, reachable: &Vec<bool>) -> (marks: Vec<bool>)
    requires
        graph.wf(),
        reachable.len() == graph.nodes().len(),
    ensures
        marks.len() == graph.nodes().len(),
        forall|v: usize| v < marks.len() ==> (#[trigger] marks@[v as int] <==> in_dead_cycle(graph.nodes(), graph.edges(), reachable@, v)),
{
    let n = graph.node_count();
    let g = graph.digraph();
    let comps = graph_components(g);
    let ghost c = node_lists(comps@);
    let ghost edges = graph.edges();
    let comp = component_of(&comps, n);
    let m = comps.len();

    let mut reached_any: Vec<bool> = Vec::new();
    let mut external: Vec<bool> = Vec::new();
    while reached_any.len() < m
        invariant
            reached_any.len() <= m,
            external.len() == reached_any.len(),
            forall|i: int| 0 <= i < reached_any.len() ==> !(#[trigger] reached_any@[i]),
            forall|i: int| 0 <= i < external.len() ==> !(#[trigger] external@[i]),
        decreases m - reached_any.len(),
    {
        reached_any.push(false);
        external.push(false);
    }

    let mut v: usize = 0;
    while v < n
        invariant
            c == node_lists(comps@),
            m == comps.len(),
            comp.len() == n,
            reachable.len() == n,
            forall|w: usize| w < n ==> #[trigger] placed(c, comp@, w),
            reached_any.len() == m,
            v <= n,
            forall|i: int| 0 <= i < m ==> (#[trigger] reached_any@[i] <==> exists|u: usize| u < v && comp@[u as int] == i && reachable@[u as int]),
        decreases n - v,
    {
        assert(placed(c, comp@, v));
        let i = comp[v];
        if reachable[v] {
            reached_any.set(i, true);
        }
        proof {
            assert forall|k: int| 0 <= k < m implies (#[trigger] reached_any@[k] <==> exists|u: usize| u < v + 1 && comp@[u as int] == k && reachable@[u as int]) by {
                if exists|u: usize| u < v + 1 && comp@[u as int] == k && reachable@[u as int] {
                    let u = choose|u: usize| u < v + 1 && comp@[u as int] == k && reachable@[u as int];
                    if u < v {
                        assert(exists|u2: usize| u2 < v && comp@[u2 as int] == k && reachable@[u2 as int]);
                    }
                }
            }
        }
        v += 1;
    }

    let pairs = graph.edge_list();
    proof {
        graph.lemma_wf();
    }
    let mut k: usize = 0;
    while k < pairs.len()
        invariant
            c == node_lists(comps@),
            m == comps.len(),
            comp.len() == n,
            pairs@ == edges,
            edges_within(edges, n as int),
            forall|w: usize| w < n ==> #[trigger] placed(c, comp@, w),
            external.len() == m,
            k <= pairs.len(),
            forall|i: int| 0 <= i < m ==> (#[trigger] external@[i] <==> exists|j: int| 0 <= j < k && comp@[edges[j].1 as int] == i && comp@[edges[j].0 as int] != i),
        decreases pairs.len() - k,
    {
        let (source, target) = pairs[k];
        assert(edges[k as int].0 < n && edges[k as int].1 < n);
        assert(placed(c, comp@, source));
        assert(placed(c, comp@, target));
        if comp[source] != comp[target] {
            external.set(comp[target], true);
        }
        proof {
            assert forall|i: int| 0 <= i < m implies (#[trigger] external@[i] <==> exists|j: int| 0 <= j < k + 1 && comp@[edges[j].1 as int] == i && comp@[edges[j].0 as int] != i) by {
                if exists|j: int| 0 <= j < k + 1 && comp@[edges[j].1 as int] == i && comp@[edges[j].0 as int] != i {
                    let j = choose|j: int| 0 <= j < k + 1 && comp@[edges[j].1 as int] == i && comp@[edges[j].0 as int] != i;
                    if j < k {
                        assert(exists|j2: int| 0 <= j2 < k && comp@[edges[j2].1 as int] == i && comp@[edges[j2].0 as int] != i);
                    }
                }
            }
        }
        k += 1;
    }

    let mut marks: Vec<bool> = Vec::new();
    let mut w: usize = 0;
    while w < n
        invariant
            c == node_lists(comps@),
            is_scc_partition(edges, n as int, c),
            edges == graph.edges(),
            n == graph.nodes().len(),
            m == comps.len(),
            comp.len() == n,
            reachable.len() == n,
            edges_within(edges, n as int),
            forall|x: usize| x < n ==> #[trigger] placed(c, comp@, x),
            reached_any.len() == m,
            external.len() == m,
            forall|i: int| 0 <= i < m ==> (#[trigger] reached_any@[i] <==> exists|u: usize| u < n && comp@[u as int] == i && reachable@[u as int]),
            forall|i: int| 0 <= i < m ==> (#[trigger] external@[i] <==> exists|j: int| 0 <= j < edges.len() && comp@[edges[j].1 as int] == i && comp@[edges[j].0 as int] != i),
            w <= n,
            marks.len() == w,
            forall|x: usize| x < w ==> (#[trigger] marks@[x as int] <==> in_dead_cycle(graph.nodes(), edges, reachable@, x)),
        decreases n - w,
    {
        assert(placed(c, comp@, w));
        let i = comp[w];
        let mark = comps[i].len() > 1 && !reached_any[i] && !external[i];
        proof {
            let syms = graph.nodes();
            lemma_component_size(edges, n as int, c, comp@, w);
            assert forall|u: usize| u < n implies (#[trigger] mutually_reach(edges, u, w) <==> comp@[u as int] == comp@[w as int]) by {
                lemma_same_component(edges, n as int, c, comp@, u, w);
            }
            let clause1 = exists|u: usize| u < syms.len() && u != w && #[trigger] mutually_reach(edges, u, w);
            let clause2 = forall|u: usize| u < syms.len() && #[trigger] mutually_reach(edges, u, w) ==> !reachable@[u as int];
            let clause3 = forall|j: int| 0 <= j < edges.len() && #[trigger] mutually_reach(edges, edges[j].1, w) ==> mutually_reach(edges, edges[j].0, w);
            if clause1 {
                let u = choose|u: usize| u < syms.len() && u != w && #[trigger] mutually_reach(edges, u, w);
                assert(comp@[u as int] == comp@[w as int]);
            }
            if comps@[i as int]@.len() > 1 {
                let u = choose|u: usize| u < n && u != w && #[trigger] comp@[u as int] == comp@[w as int];
                assert(mutually_reach(edges, u, w));
            }
            if reached_any@[i as int] {
                let u = choose|u: usize| u < n && comp@[u as int] == i && reachable@[u as int];
                assert(mutually_reach(edges, u, w));
            }
            if !clause2 {
                let u = choose|u: usize| u < syms.len() && #[trigger] mutually_reach(edges, u, w) && reachable@[u as int];
                assert(comp@[u as int] == i);
            }
            if external@[i as int] {
                let j = choose|j: int| 0 <= j < edges.len() && comp@[edges[j].1 as int] == i && comp@[edges[j].0 as int] != i;
                assert(edges[j].0 < n && edges[j].1 < n);
                assert(mutually_reach(edges, edges[j].1, w));
                assert(!mutually_reach(edges, edges[j].0, w));
            }
            if !clause3 {
                let j = choose|j: int| 0 <= j < edges.len() && #[trigger] mutually_reach(edges, edges[j].1, w) && !mutually_reach(edges, edges[j].0, w);
                assert(edges[j].0 < n && edges[j].1 < n);
                assert(comp@[edges[j].1 as int] == i);
                assert(comp@[edges[j].0 as int] != i);
            }
            assert(mark == in_dead_cycle(syms, edges, reachable@, w));
        }
        marks.push(mark);
        w += 1;
    }
    marks
}

} // verus!
