//! Scoring: the discrete score factors, git-history arithmetic and the assembly of findings.

pub mod static_score;
pub mod git_history;
pub mod ranking;

use vstd::prelude::*;

use crate::graph::{in_degree, in_degrees, is_dead_candidate, SymbolGraph};
use crate::parse::types::{Finding, FindingTag};

use self::git_history::GitScore;
use self::ranking::{lemma_ranked, limited, rank_findings, ranked};

verus! {

/// Which findings are kept, and how many.
///
/// `min_confidence` is in hundredths; a `top` of zero keeps every finding.
#[derive(Debug, Clone, Copy, PartialEq, Eq)]
pub struct FindingFilters {
    pub ignore_exports: bool,
    pub min_age_secs: Option<u64>,
    pub min_confidence: u32,
    pub top: usize,
}

/// Why a dead candidate is reported: a dead cycle first, then an unused export, then a
/// symbol only tests call, else plain dead code.
pub open spec fn candidate_tag(graph: SymbolGraph, cycles: Seq<bool>, test_only: Seq<bool>, v: usize) -> FindingTag {
    if cycles[v as int] {
        FindingTag::InDeadCycle
    } else if graph.nodes()[v as int].is_exported {
        FindingTag::ExportedUnused
    } else if test_only[v as int] {
        FindingTag::TestOnly
    } else {
        FindingTag::Dead
    }
}

/// The git score of a node, or a zero score when history gave none.
pub open spec fn score_or_default(scores: Seq<Option<GitScore>>, v: usize) -> GitScore {
    match scores[v as int] {
        Some(score) => score,
        None => GitScore { age_secs: 0, commits_90d: 0 },
    }
}

/// The finding a dead candidate yields before any filter.
pub open spec fn candidate_finding(
    graph: SymbolGraph,
    cycles: Seq<bool>,
    test_only: Seq<bool>,
    scores: Seq<Option<GitScore>>,
    confidences: Seq<u32>,
    v: usize,
) -> Finding {
    Finding {
        symbol: graph.nodes()[v as int],
        tag: candidate_tag(graph, cycles, test_only, v),
        confidence: confidences[v as int],
        deadness_age_secs: score_or_default(scores, v).age_secs,
        commits_90d: score_or_default(scores, v).commits_90d,
        in_degree: in_degree(graph.edges(), v) as usize,
    }
}

/// The finding passes the filters: not an ignored export, old enough, confident enough.
pub open spec fn kept(finding: Finding, filters: FindingFilters) -> bool {
    &&& !(filters.ignore_exports && finding.tag == FindingTag::ExportedUnused)
    &&& match filters.min_age_secs {
        Some(min_age) => finding.deadness_age_secs >= min_age,
        None => true,
    }
    &&& finding.confidence >= filters.min_confidence
}

/// The findings of the candidates that pass the filters, in candidate order.
pub open spec fn kept_findings(
    graph: SymbolGraph,
    candidates: Seq<usize>,
    cycles: Seq<bool>,
    test_only: Seq<bool>,
    scores: Seq<Option<GitScore>>,
    confidences: Seq<u32>,
    filters: FindingFilters,
) -> Seq<Finding>
    decreases candidates.len(),
{
    if candidates.len() == 0 {
        Seq::empty()
    } else {
        let before = kept_findings(graph, candidates.drop_last(), cycles, test_only, scores, confidences, filters);
        let finding = candidate_finding(graph, cycles, test_only, scores, confidences, candidates.last());
        if kept(finding, filters) {
            before.push(finding)
        } else {
            before
        }
    }
}

/// Turns the dead candidates into findings: tags each, attaches its callers, git score and
/// confidence (hundredths, per node), drops those the filters reject, puts the most confident
/// first (ties in candidate order) and keeps the `top` first when `top` is set.
pub fn assemble_findings(
    graph: &SymbolGraph,
    dead_candidates: &Vec<usize>,
    dead_cycles: &Vec<bool>,
    test_only: &Vec<bool>,
    git_scores: &Vec<Option<GitScore>>,
    confidences: &Vec<u32>,
    filters: FindingFilters,
) -> (findings: Vec<Finding>)
    requires
        graph.wf(),
        dead_cycles.len() == graph.nodes().len(),
        test_only.len() == graph.nodes().len(),
        git_scores.len() == graph.nodes().len(),
        confidences.len() == graph.nodes().len(),
        forall|i: int| 0 <= i < dead_candidates.len() ==> #[trigger] dead_candidates@[i] < graph.nodes().len(),
    ensures
        findings@ == limited(
            ranked(kept_findings(*graph, dead_candidates@, dead_cycles@, test_only@, git_scores@, confidences@, filters)),
            filters.top,
        ),
{
    let counts = in_degrees(graph);
    let ghost n = graph.nodes().len();
    let mut rows: Vec<Finding> = Vec::new();
    let mut i: usize = 0;
    while i < dead_candidates.len()
        invariant
            graph.wf(),
            n == graph.nodes().len(),
            counts.len() == n,
            forall|v: usize| v < counts.len() ==> #[trigger] counts@[v as int] == in_degree(graph.edges(), v),
            dead_cycles.len() == n,
            test_only.len() == n,
            git_scores.len() == n,
            confidences.len() == n,
            forall|j: int| 0 <= j < dead_candidates.len() ==> #[trigger] dead_candidates@[j] < n,
            i <= dead_candidates.len(),
            rows@ == kept_findings(*graph, dead_candidates@.take(i as int), dead_cycles@, test_only@, git_scores@, confidences@, filters),
        decreases dead_candidates.len() - i,
    {
        let v = dead_candidates[i];
        let symbol = graph.symbol(v);
        let tag = if dead_cycles[v] {
            FindingTag::InDeadCycle
        } else if symbol.is_exported {
            FindingTag::ExportedUnused
        } else if test_only[v] {
            FindingTag::TestOnly
        } else {
            FindingTag::Dead
        };
        let score = match git_scores[v] {
            Some(score) => score,
            None => GitScore { age_secs: 0, commits_90d: 0 },
        };
        let old_enough = match filters.min_age_secs {
            Some(min_age) => score.age_secs >= min_age,
            None => true,
        };
        let ignored = filters.ignore_exports && tag == FindingTag::ExportedUnused;
        proof {
            assert(dead_candidates@.take(i + 1).drop_last() =~= dead_candidates@.take(i as int));
        }
        if !ignored && old_enough && confidences[v] >= filters.min_confidence {
            rows.push(
                Finding {
                    symbol: symbol.duplicate(),
                    tag,
                    confidence: confidences[v],
                    deadness_age_secs: score.age_secs,
                    commits_90d: score.commits_90d,
                    in_degree: counts[v],
                },
            );
        }
        i += 1;
    }
    proof {
        assert(dead_candidates@.take(dead_candidates.len() as int) =~= dead_candidates@);
    }
    let mut findings = rank_findings(rows);
    if filters.top > 0 && filters.top < findings.len() {
        findings.truncate(filters.top);
    }
    findings
}

/// The findings assembled from these inputs.
pub open spec fn assembled(
    graph: SymbolGraph,
    candidates: Seq<usize>,
    cycles: Seq<bool>,
    test_only: Seq<bool>,
    scores: Seq<Option<GitScore>>,
    confidences: Seq<u32>,
    filters: FindingFilters,
) -> Seq<Finding> {
    limited(ranked(kept_findings(graph, candidates, cycles, test_only, scores, confidences, filters)), filters.top)
}

/// Every kept finding passes the filters and is the finding of one of the candidates.
proof fn lemma_kept_findings(
    graph: SymbolGraph,
    candidates: Seq<usize>,
    cycles: Seq<bool>,
    test_only: Seq<bool>,
    scores: Seq<Option<GitScore>>,
    confidences: Seq<u32>,
    filters: FindingFilters,
)
    ensures
        forall|i: int| 0 <= i < kept_findings(graph, candidates, cycles, test_only, scores, confidences, filters).len() ==> {
            let f = #[trigger] kept_findings(graph, candidates, cycles, test_only, scores, confidences, filters)[i];
            &&& kept(f, filters)
            &&& exists|c: int| 0 <= c < candidates.len() && f == candidate_finding(graph, cycles, test_only, scores, confidences, #[trigger] candidates[c])
        },
        forall|c: int| 0 <= c < candidates.len() && kept(candidate_finding(graph, cycles, test_only, scores, confidences, #[trigger] candidates[c]), filters)
            ==> kept_findings(graph, candidates, cycles, test_only, scores, confidences, filters).contains(
            candidate_finding(graph, cycles, test_only, scores, confidences, candidates[c]),
        ),
    decreases candidates.len(),
{
    if candidates.len() > 0 {
        let before = candidates.drop_last();
        lemma_kept_findings(graph, before, cycles, test_only, scores, confidences, filters);
        let rows = kept_findings(graph, candidates, cycles, test_only, scores, confidences, filters);
        let prev = kept_findings(graph, before, cycles, test_only, scores, confidences, filters);
        assert forall|i: int| 0 <= i < rows.len() implies {
            let f = #[trigger] rows[i];
            &&& kept(f, filters)
            &&& exists|c: int| 0 <= c < candidates.len() && f == candidate_finding(graph, cycles, test_only, scores, confidences, #[trigger] candidates[c])
        } by {
            if i < prev.len() {
                assert(rows[i] == prev[i]);
                let c = choose|c: int| 0 <= c < before.len() && prev[i] == candidate_finding(graph, cycles, test_only, scores, confidences, #[trigger] before[c]);
                assert(candidates[c] == before[c]);
            } else {
                assert(rows[i] == candidate_finding(graph, cycles, test_only, scores, confidences, candidates[candidates.len() - 1]));
            }
        }
        assert forall|c: int| 0 <= c < candidates.len() && kept(candidate_finding(graph, cycles, test_only, scores, confidences, #[trigger] candidates[c]), filters)
            implies rows.contains(candidate_finding(graph, cycles, test_only, scores, confidences, candidates[c])) by {
            let f = candidate_finding(graph, cycles, test_only, scores, confidences, candidates[c]);
            if c < before.len() {
                assert(candidates[c] == before[c]);
                let k = choose|k: int| 0 <= k < prev.len() && prev[k] == f;
                assert(rows[k] == f);
            } else {
                assert(rows[rows.len() - 1] == f);
            }
        }
    }
}

/// What every list of findings satisfies: each finding passes the filters and is the finding
/// of a dead candidate, the most confident come first, and there are no more than `top` when
/// `top` is set; without a `top`, every candidate whose finding passes the filters is
/// reported.
pub proof fn lemma_assembled(
    graph: SymbolGraph,
    candidates: Seq<usize>,
    cycles: Seq<bool>,
    test_only: Seq<bool>,
    scores: Seq<Option<GitScore>>,
    confidences: Seq<u32>,
    filters: FindingFilters,
)
    ensures
        forall|i: int| 0 <= i < assembled(graph, candidates, cycles, test_only, scores, confidences, filters).len() ==> {
            let f = #[trigger] assembled(graph, candidates, cycles, test_only, scores, confidences, filters)[i];
            &&& kept(f, filters)
            &&& exists|c: int| 0 <= c < candidates.len() && f == candidate_finding(graph, cycles, test_only, scores, confidences, #[trigger] candidates[c])
        },
        forall|i: int, j: int| 0 <= i < j < assembled(graph, candidates, cycles, test_only, scores, confidences, filters).len() ==>
            assembled(graph, candidates, cycles, test_only, scores, confidences, filters)[i].confidence
                >= assembled(graph, candidates, cycles, test_only, scores, confidences, filters)[j].confidence,
        filters.top > 0 ==> assembled(graph, candidates, cycles, test_only, scores, confidences, filters).len() <= filters.top,
        filters.top == 0 ==> forall|c: int|
            0 <= c < candidates.len() && kept(candidate_finding(graph, cycles, test_only, scores, confidences, #[trigger] candidates[c]), filters)
                ==> assembled(graph, candidates, cycles, test_only, scores, confidences, filters).contains(
                candidate_finding(graph, cycles, test_only, scores, confidences, candidates[c]),
            ),
{
    let rows = kept_findings(graph, candidates, cycles, test_only, scores, confidences, filters);
    let out = assembled(graph, candidates, cycles, test_only, scores, confidences, filters);
    lemma_kept_findings(graph, candidates, cycles, test_only, scores, confidences, filters);
    lemma_ranked(rows);
    assert forall|i: int| 0 <= i < out.len() implies {
        let f = #[trigger] out[i];
        &&& kept(f, filters)
        &&& exists|c: int| 0 <= c < candidates.len() && f == candidate_finding(graph, cycles, test_only, scores, confidences, #[trigger] candidates[c])
    } by {
        assert(out[i] == ranked(rows)[i]);
        assert(rows.contains(ranked(rows)[i]));
        let k = choose|k: int| 0 <= k < rows.len() && rows[k] == out[i];
        assert(rows[k] == out[i]);
    }
    assert forall|i: int, j: int| 0 <= i < j < out.len() implies out[i].confidence >= out[j].confidence by {
        assert(out[i] == ranked(rows)[i]);
        assert(out[j] == ranked(rows)[j]);
    }
    if filters.top == 0 {
        assert forall|c: int|
            0 <= c < candidates.len() && kept(candidate_finding(graph, cycles, test_only, scores, confidences, #[trigger] candidates[c]), filters)
                implies out.contains(candidate_finding(graph, cycles, test_only, scores, confidences, candidates[c])) by {
            let f = candidate_finding(graph, cycles, test_only, scores, confidences, candidates[c]);
            let k = choose|k: int| 0 <= k < rows.len() && rows[k] == f;
            assert(ranked(rows).contains(rows[k]));
        }
    }
}

/// How a reported finding is tagged: a dead cycle first; else an exported symbol is an unused
/// export, whatever calls it; else a symbol only tests call is test-only; else plain dead
/// code. With exports ignored, no exported symbol outside a dead cycle is reported.
pub proof fn lemma_finding_tags(
    graph: SymbolGraph,
    candidates: Seq<usize>,
    cycles: Seq<bool>,
    test_only: Seq<bool>,
    scores: Seq<Option<GitScore>>,
    confidences: Seq<u32>,
    filters: FindingFilters,
)
    ensures
        forall|i: int| 0 <= i < assembled(graph, candidates, cycles, test_only, scores, confidences, filters).len() ==> {
            let f = #[trigger] assembled(graph, candidates, cycles, test_only, scores, confidences, filters)[i];
            exists|k: int| #![trigger candidates[k]] 0 <= k < candidates.len() && {
                let c = candidates[k] as int;
                let exported = graph.nodes()[c].is_exported;
                &&& f.symbol == graph.nodes()[c]
                &&& cycles[c] ==> f.tag == FindingTag::InDeadCycle
                &&& !cycles[c] && exported ==> f.tag == FindingTag::ExportedUnused
                &&& !cycles[c] && !exported && test_only[c] ==> f.tag == FindingTag::TestOnly
                &&& !cycles[c] && !exported && !test_only[c] ==> f.tag == FindingTag::Dead
                &&& filters.ignore_exports ==> cycles[c] || !exported
            }
        },
{
    lemma_assembled(graph, candidates, cycles, test_only, scores, confidences, filters);
    let out = assembled(graph, candidates, cycles, test_only, scores, confidences, filters);
    assert forall|i: int| 0 <= i < out.len() implies {
        let f = #[trigger] out[i];
        exists|k: int| #![trigger candidates[k]] 0 <= k < candidates.len() && {
            let c = candidates[k] as int;
            let exported = graph.nodes()[c].is_exported;
            &&& f.symbol == graph.nodes()[c]
            &&& cycles[c] ==> f.tag == FindingTag::InDeadCycle
            &&& !cycles[c] && exported ==> f.tag == FindingTag::ExportedUnused
            &&& !cycles[c] && !exported && test_only[c] ==> f.tag == FindingTag::TestOnly
            &&& !cycles[c] && !exported && !test_only[c] ==> f.tag == FindingTag::Dead
            &&& filters.ignore_exports ==> cycles[c] || !exported
        }
    } by {
        let k = choose|k: int|
            0 <= k < candidates.len() && out[i] == candidate_finding(graph, cycles, test_only, scores, confidences, #[trigger] candidates[k]);
        assert(kept(out[i], filters));
    }
}

/// The finding reports node `c`: its symbol, which no entry point reaches and which is not a
/// test, tagged as part of a dead cycle exactly when the node is marked so.
pub open spec fn reports_unreached_node(graph: SymbolGraph, reachable: Seq<bool>, cycles: Seq<bool>, f: Finding, c: usize) -> bool {
    &&& c < graph.nodes().len()
    &&& f.symbol == graph.nodes()[c as int]
    &&& !reachable[c as int]
    &&& !graph.nodes()[c as int].is_test
    &&& (f.tag == FindingTag::InDeadCycle <==> cycles[c as int])
}

/// The finding reports some node that no entry point reaches and that is not a test.
pub open spec fn reports_unreached(graph: SymbolGraph, reachable: Seq<bool>, cycles: Seq<bool>, f: Finding) -> bool {
    exists|c: usize| #[trigger] reports_unreached_node(graph, reachable, cycles, f, c)
}

/// Findings assembled from dead candidates report dead code: each is the finding of a symbol
/// that no entry point reaches and that is not a test, tagged as part of a dead cycle exactly
/// when its symbol is marked so.
pub proof fn lemma_findings_report_dead_code(
    graph: SymbolGraph,
    reachable: Seq<bool>,
    candidates: Seq<usize>,
    cycles: Seq<bool>,
    test_only: Seq<bool>,
    scores: Seq<Option<GitScore>>,
    confidences: Seq<u32>,
    filters: FindingFilters,
)
    requires
        forall|i: int| 0 <= i < candidates.len() ==> #[trigger] candidates[i] < graph.nodes().len() && is_dead_candidate(
            graph.nodes(),
            graph.edges(),
            reachable,
            candidates[i],
        ),
    ensures
        forall|i: int| 0 <= i < assembled(graph, candidates, cycles, test_only, scores, confidences, filters).len() ==> reports_unreached(
            graph,
            reachable,
            cycles,
            #[trigger] assembled(graph, candidates, cycles, test_only, scores, confidences, filters)[i],
        ),
{
    lemma_assembled(graph, candidates, cycles, test_only, scores, confidences, filters);
    let out = assembled(graph, candidates, cycles, test_only, scores, confidences, filters);
    assert forall|i: int| 0 <= i < out.len() implies reports_unreached(graph, reachable, cycles, #[trigger] out[i]) by {
        let k = choose|k: int|
            0 <= k < candidates.len() && out[i] == candidate_finding(graph, cycles, test_only, scores, confidences, #[trigger] candidates[k]);
        let c = candidates[k];
        assert(reports_unreached_node(graph, reachable, cycles, out[i], c));
    }
}

} // verus!
