//! What the graph analyses promise together: entry points and their callees are reached,
//! and what is reached is never dead.

use vstd::prelude::*;

use crate::parse::types::Symbol;

use super::digraph::{has_edge, mutually_reach, reaches};
use super::reachability::{is_entry, lemma_reaches_self, lemma_reaches_step, reached};
use super::{in_dead_cycle, is_dead_candidate};

verus! {

/// Every symbol named like an entry point is reached.
pub proof fn lemma_entries_are_reached(syms: Seq<Symbol>, edges: Seq<(usize, usize)>, entries: Seq<String>, e: usize)
    requires
        e < syms.len(),
        is_entry(syms, entries, e as int),
    ensures
        reached(syms, edges, entries, e),
{
    lemma_reaches_self(edges, e);
    assert(reaches(edges, (e as int) as usize, e));
}

/// Whatever a reached symbol calls is reached too.
pub proof fn lemma_callees_of_reached_are_reached(
    syms: Seq<Symbol>,
    edges: Seq<(usize, usize)>,
    entries: Seq<String>,
    u: usize,
    v: usize,
)
    requires
        reached(syms, edges, entries, u),
        has_edge(edges, u, v),
    ensures
        reached(syms, edges, entries, v),
{
    let e = choose|e: int| 0 <= e < syms.len() && is_entry(syms, entries, e) && #[trigger] reaches(edges, e as usize, u);
    lemma_reaches_step(edges, e as usize, u, v);
}

/// With the reachability marks the entry points give, no dead candidate is reached, none is
/// an entry point, and none is called by a reached symbol.
pub proof fn lemma_dead_candidates_are_unreached(
    syms: Seq<Symbol>,
    edges: Seq<(usize, usize)>,
    entries: Seq<String>,
    marks: Seq<bool>,
    v: usize,
)
    requires
        marks.len() == syms.len(),
        forall|w: usize| w < marks.len() ==> (#[trigger] marks[w as int] <==> reached(syms, edges, entries, w)),
        v < syms.len(),
        is_dead_candidate(syms, edges, marks, v),
    ensures
        !reached(syms, edges, entries, v),
        !is_entry(syms, entries, v as int),
        forall|u: usize| u < syms.len() && #[trigger] has_edge(edges, u, v) ==> !reached(syms, edges, entries, u),
{
    if is_entry(syms, entries, v as int) {
        lemma_entries_are_reached(syms, edges, entries, v);
    }
    assert forall|u: usize| u < syms.len() && #[trigger] has_edge(edges, u, v) implies !reached(syms, edges, entries, u) by {
        if reached(syms, edges, entries, u) {
            lemma_callees_of_reached_are_reached(syms, edges, entries, u, v);
        }
    }
}

/// A member of a dead cycle is not reached, and neither is any symbol of its cycle.
pub proof fn lemma_dead_cycle_members_are_unreached(
    syms: Seq<Symbol>,
    edges: Seq<(usize, usize)>,
    marks: Seq<bool>,
    v: usize,
)
    requires
        v < syms.len(),
        in_dead_cycle(syms, edges, marks, v),
    ensures
        !marks[v as int],
        forall|u: usize| u < syms.len() && #[trigger] mutually_reach(edges, u, v) ==> !marks[u as int],
        exists|u: usize| u < syms.len() && u != v && #[trigger] mutually_reach(edges, u, v),
{
    lemma_reaches_self(edges, v);
    assert(mutually_reach(edges, v, v));
}

} // verus!
