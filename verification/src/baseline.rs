//! Baselines: the findings a team has accepted, so that only new ones are reported.

use vstd::prelude::*;

use crate::index::{texts, TextIndex};
use crate::parse::types::Finding;

verus! {

/// The baseline names this fully qualified name.
pub open spec fn in_baseline(baseline: Seq<String>, fqn: Seq<char>) -> bool {
    exists|i: int| 0 <= i < baseline.len() && (#[trigger] baseline[i])@ == fqn
}

/// The finding is new: its symbol is not in the baseline.
pub open spec fn is_new_finding(baseline: Seq<String>) -> spec_fn(Finding) -> bool {
    |f: Finding| !in_baseline(baseline, f.symbol.fqn@)
}

/// The findings whose symbols the baseline does not name, in their original order.
pub fn diff_findings(current: Vec<Finding>, baseline_fqns: Vec<String>) -> (new_findings: Vec<Finding>)
    ensures
        new_findings@ == current@.filter(is_new_finding(baseline_fqns@)),
{
    let index = TextIndex::build(&baseline_fqns);
    let ghost pred = is_new_finding(baseline_fqns@);
    let mut new_findings: Vec<Finding> = Vec::new();
    let mut i: usize = 0;
    while i < current.len()
        invariant
            index.indexes(texts(baseline_fqns@)),
            pred == is_new_finding(baseline_fqns@),
            i <= current.len(),
            new_findings@ == current@.take(i as int).filter(pred),
        decreases current.len() - i,
    {
        let finding = &current[i];
        let hits = index.positions_of(&baseline_fqns, finding.symbol.fqn.as_str());
        proof {
            assert(current@.take(i + 1) =~= current@.take(i as int).push(current@[i as int]));
            current@.take(i as int).lemma_filter_push(current@[i as int], pred);
            if hits.len() > 0 {
                assert(hits@.contains(hits@[0]));
                assert(in_baseline(baseline_fqns@, finding.symbol.fqn@));
            } else {
                assert forall|j: int| 0 <= j < baseline_fqns.len() implies (#[trigger] baseline_fqns@[j])@ != finding.symbol.fqn@ by {
                    if baseline_fqns@[j]@ == finding.symbol.fqn@ {
                        assert(hits@.contains(j as usize));
                    }
                }
            }
        }
        if hits.len() == 0 {
            new_findings.push(finding.duplicate());
        }
        i += 1;
    }
    proof {
        assert(current@.take(current.len() as int) =~= current@);
    }
    new_findings
}

/// A finding is reported against a baseline exactly when its symbol is not in it, and the
/// reported findings keep their order: diffing against an empty baseline changes nothing, and
/// diffing against the findings' own names leaves nothing.
pub proof fn lemma_diff_against_baseline(current: Seq<Finding>, baseline: Seq<String>)
    ensures
        forall|i: int| 0 <= i < current.filter(is_new_finding(baseline)).len() ==>
            !in_baseline(baseline, (#[trigger] current.filter(is_new_finding(baseline))[i]).symbol.fqn@),
        forall|i: int| 0 <= i < current.len() && !in_baseline(baseline, current[i].symbol.fqn@) ==>
            current.filter(is_new_finding(baseline)).contains(#[trigger] current[i]),
        baseline.len() == 0 ==> current.filter(is_new_finding(baseline)) == current,
        (forall|i: int| 0 <= i < current.len() ==> in_baseline(baseline, (#[trigger] current[i]).symbol.fqn@))
            ==> current.filter(is_new_finding(baseline)).len() == 0,
    decreases current.len(),
{
    let pred = is_new_finding(baseline);
    broadcast use vstd::seq_lib::group_filter_ensures;
    reveal(Seq::filter);
    if current.len() > 0 {
        let before = current.drop_last();
        lemma_diff_against_baseline(before, baseline);
        assert forall|i: int| 0 <= i < current.len() && !in_baseline(baseline, current[i].symbol.fqn@) implies
            current.filter(pred).contains(#[trigger] current[i]) by {
            if i < before.len() {
                assert(before[i] == current[i]);
                assert(before.filter(pred).contains(before[i]));
                let k = choose|k: int| 0 <= k < before.filter(pred).len() && before.filter(pred)[k] == before[i];
                assert(current.filter(pred)[k] == current[i]);
            } else {
                assert(current.filter(pred)[current.filter(pred).len() - 1] == current[i]);
            }
        }
        if baseline.len() == 0 {
            assert(before.push(current.last()) =~= current);
        }
        if forall|i: int| 0 <= i < current.len() ==> in_baseline(baseline, (#[trigger] current[i]).symbol.fqn@) {
            assert forall|i: int| 0 <= i < before.len() implies in_baseline(baseline, (#[trigger] before[i]).symbol.fqn@) by {
                assert(before[i] == current[i]);
            }
            assert(in_baseline(baseline, current[current.len() - 1].symbol.fqn@));
        }
    }
}

} // verus!
