//! Ordering findings: most confident first, ties kept in their original order.

use vstd::prelude::*;

use crate::parse::types::Finding;

verus! {

/// The highest confidence among the findings (zero when there are none).
pub open spec fn highest_confidence(rows: Seq<Finding>) -> u32
    decreases rows.len(),
{
    if rows.len() == 0 {
        0
    } else {
        let before = highest_confidence(rows.drop_last());
        if rows.last().confidence > before {
            rows.last().confidence
        } else {
            before
        }
    }
}

/// The finding has exactly this confidence.
pub open spec fn has_confidence(c: u32) -> spec_fn(Finding) -> bool {
    |f: Finding| f.confidence == c
}

/// The finding's confidence is below this one.
pub open spec fn below_confidence(c: u32) -> spec_fn(Finding) -> bool {
    |f: Finding| f.confidence < c
}

/// The findings ordered by confidence, highest first; findings of equal confidence keep
/// their relative order.
pub open spec fn ranked(rows: Seq<Finding>) -> Seq<Finding>
    decreases rows.len(),
{
    if rows.len() == 0 {
        rows
    } else {
        let c = highest_confidence(rows);
        let rest = rows.filter(below_confidence(c));
        if rest.len() < rows.len() {
            rows.filter(has_confidence(c)) + ranked(rest)
        } else {
            rows
        }
    }
}

/// The first `top` findings when `top` is set and smaller than their number; all otherwise.
pub open spec fn limited(rows: Seq<Finding>, top: usize) -> Seq<Finding> {
    if 0 < top && top < rows.len() {
        rows.take(top as int)
    } else {
        rows
    }
}

/// Every confidence is at most the highest, and a nonempty list holds it.
pub proof fn lemma_highest(rows: Seq<Finding>)
    ensures
        forall|i: int| 0 <= i < rows.len() ==> #[trigger] rows[i].confidence <= highest_confidence(rows),
        rows.len() > 0 ==> exists|i: int| 0 <= i < rows.len() && #[trigger] rows[i].confidence == highest_confidence(rows),
    decreases rows.len(),
{
    if rows.len() > 0 {
        let before = rows.drop_last();
        lemma_highest(before);
        assert forall|i: int| 0 <= i < rows.len() implies #[trigger] rows[i].confidence <= highest_confidence(rows) by {
            if i < rows.len() - 1 {
                assert(rows[i] == before[i]);
            }
        }
        if rows.last().confidence > highest_confidence(before) {
            assert(rows[rows.len() - 1].confidence == highest_confidence(rows));
        } else if before.len() > 0 {
            let j = choose|j: int| 0 <= j < before.len() && #[trigger] before[j].confidence == highest_confidence(before);
            assert(rows[j] == before[j]);
        } else {
            assert(rows[0].confidence == highest_confidence(rows));
        }
    }
}

/// Filtering out an element that fails the predicate shortens the sequence.
proof fn lemma_filter_drops(rows: Seq<Finding>, pred: spec_fn(Finding) -> bool, i: int)
    requires
        0 <= i < rows.len(),
        !pred(rows[i]),
    ensures
        rows.filter(pred).len() < rows.len(),
    decreases rows.len(),
{
    reveal(Seq::filter);
    let before = rows.drop_last();
    before.lemma_filter_len(pred);
    if i < rows.len() - 1 {
        assert(before[i] == rows[i]);
        lemma_filter_drops(before, pred, i);
    }
}

/// A filter whose predicate holds everywhere changes nothing.
proof fn lemma_filter_all(rows: Seq<Finding>, pred: spec_fn(Finding) -> bool)
    requires
        forall|i: int| 0 <= i < rows.len() ==> pred(#[trigger] rows[i]),
    ensures
        rows.filter(pred) == rows,
    decreases rows.len(),
{
    reveal(Seq::filter);
    if rows.len() > 0 {
        let before = rows.drop_last();
        assert forall|i: int| 0 <= i < before.len() implies pred(#[trigger] before[i]) by {
            assert(before[i] == rows[i]);
        }
        lemma_filter_all(before, pred);
        assert(before.push(rows.last()) =~= rows);
    }
}

/// A filter whose predicate holds nowhere leaves nothing.
proof fn lemma_filter_none(rows: Seq<Finding>, pred: spec_fn(Finding) -> bool)
    requires
        forall|i: int| 0 <= i < rows.len() ==> !pred(#[trigger] rows[i]),
    ensures
        rows.filter(pred) == Seq::<Finding>::empty(),
    decreases rows.len(),
{
    reveal(Seq::filter);
    if rows.len() > 0 {
        let before = rows.drop_last();
        assert forall|i: int| 0 <= i < before.len() implies !pred(#[trigger] before[i]) by {
            assert(before[i] == rows[i]);
        }
        lemma_filter_none(before, pred);
    }
}

/// Filtering twice, where the second predicate implies the first, is filtering once.
proof fn lemma_filter_twice(rows: Seq<Finding>, outer: spec_fn(Finding) -> bool, inner: spec_fn(Finding) -> bool)
    requires
        forall|f: Finding| #[trigger] inner(f) ==> outer(f),
    ensures
        rows.filter(outer).filter(inner) == rows.filter(inner),
    decreases rows.len(),
{
    reveal(Seq::filter);
    if rows.len() > 0 {
        let before = rows.drop_last();
        lemma_filter_twice(before, outer, inner);
        before.filter(outer).lemma_filter_push(rows.last(), inner);
    }
}

/// Every element of a filter satisfies the predicate and comes from the sequence.
proof fn lemma_filter_members(rows: Seq<Finding>, pred: spec_fn(Finding) -> bool)
    ensures
        forall|i: int| 0 <= i < rows.filter(pred).len() ==> pred(#[trigger] rows.filter(pred)[i]),
        forall|i: int| 0 <= i < rows.filter(pred).len() ==> rows.contains(#[trigger] rows.filter(pred)[i]),
    decreases rows.len(),
{
    reveal(Seq::filter);
    if rows.len() > 0 {
        let before = rows.drop_last();
        lemma_filter_members(before, pred);
        let out = rows.filter(pred);
        assert forall|i: int| 0 <= i < out.len() implies pred(#[trigger] out[i]) && rows.contains(out[i]) by {
            if i < before.filter(pred).len() {
                assert(out[i] == before.filter(pred)[i]);
                let j = choose|j: int| 0 <= j < before.len() && before[j] == out[i];
                assert(rows[j] == out[i]);
            } else {
                assert(out[i] == rows.last());
                assert(rows[rows.len() - 1] == out[i]);
            }
        }
    }
}

/// Ranking keeps exactly the findings of each confidence, in their order, and puts higher
/// confidences first.
pub proof fn lemma_ranked(rows: Seq<Finding>)
    ensures
        forall|k: u32| #[trigger] ranked(rows).filter(has_confidence(k)) == rows.filter(has_confidence(k)),
        forall|i: int, j: int| 0 <= i < j < ranked(rows).len() ==> ranked(rows)[i].confidence >= ranked(rows)[j].confidence,
        forall|i: int| 0 <= i < ranked(rows).len() ==> rows.contains(#[trigger] ranked(rows)[i]),
        forall|i: int| 0 <= i < rows.len() ==> ranked(rows).contains(#[trigger] rows[i]),
        ranked(rows).len() == rows.len(),
    decreases rows.len(),
{
    if rows.len() > 0 {
        let c = highest_confidence(rows);
        lemma_highest(rows);
        let w = choose|w: int| 0 <= w < rows.len() && #[trigger] rows[w].confidence == c;
        lemma_filter_drops(rows, below_confidence(c), w);
        let top = rows.filter(has_confidence(c));
        let rest = rows.filter(below_confidence(c));
        lemma_ranked(rest);
        let out = ranked(rows);
        assert(out == top + ranked(rest));
        lemma_filter_members(rows, has_confidence(c));
        lemma_filter_members(rows, below_confidence(c));
        assert forall|k: u32| #[trigger] out.filter(has_confidence(k)) == rows.filter(has_confidence(k)) by {
            Seq::filter_distributes_over_add(top, ranked(rest), has_confidence(k));
            if k == c {
                lemma_filter_all(top, has_confidence(k));
                assert forall|i: int| 0 <= i < rest.len() implies !has_confidence(k)(#[trigger] rest[i]) by {}
                lemma_filter_none(rest, has_confidence(k));
                assert(out.filter(has_confidence(k)) =~= top);
            } else {
                assert forall|i: int| 0 <= i < top.len() implies !has_confidence(k)(#[trigger] top[i]) by {}
                lemma_filter_none(top, has_confidence(k));
                if k < c {
                    lemma_filter_twice(rows, below_confidence(c), has_confidence(k));
                } else {
                    assert forall|i: int| 0 <= i < rows.len() implies !has_confidence(k)(#[trigger] rows[i]) by {}
                    lemma_filter_none(rows, has_confidence(k));
                    assert forall|i: int| 0 <= i < rest.len() implies !has_confidence(k)(#[trigger] rest[i]) by {}
                    lemma_filter_none(rest, has_confidence(k));
                }
                assert(out.filter(has_confidence(k)) =~= rest.filter(has_confidence(k)));
            }
        }
        assert forall|i: int| 0 <= i < out.len() implies rows.contains(#[trigger] out[i]) by {
            if i >= top.len() {
                assert(out[i] == ranked(rest)[i - top.len()]);
                assert(rest.contains(ranked(rest)[i - top.len()]));
                let j = choose|j: int| 0 <= j < rest.len() && rest[j] == out[i];
                assert(rows.contains(rest[j]));
            }
        }
        assert forall|i: int, j: int| 0 <= i < j < out.len() implies out[i].confidence >= out[j].confidence by {
            if i < top.len() {
                assert(out[i] == top[i]);
                if j >= top.len() {
                    assert(out[j] == ranked(rest)[j - top.len()]);
                    assert(rest.contains(ranked(rest)[j - top.len()]));
                    let r = choose|r: int| 0 <= r < rest.len() && rest[r] == out[j];
                    assert(below_confidence(c)(rest[r]));
                } else {
                    assert(out[j] == top[j]);
                }
            } else {
                assert(out[i] == ranked(rest)[i - top.len()]);
                assert(out[j] == ranked(rest)[j - top.len()]);
            }
        }
        rows.lemma_filter_len(has_confidence(c));
        assert(top.len() + rest.len() == rows.len()) by {
            lemma_filter_split(rows, c);
        }
        assert forall|i: int| 0 <= i < rows.len() implies out.contains(#[trigger] rows[i]) by {
            let k = rows[i].confidence;
            rows.lemma_filter_contains(has_confidence(k), i);
            assert(out.filter(has_confidence(k)).contains(rows[i]));
            lemma_filter_members(out, has_confidence(k));
            let j = choose|j: int| 0 <= j < out.filter(has_confidence(k)).len() && out.filter(has_confidence(k))[j] == rows[i];
            assert(out.contains(out.filter(has_confidence(k))[j]));
        }
    }
}

/// The findings of one confidence and those below it make up a list whose highest
/// confidence is that one.
proof fn lemma_filter_split(rows: Seq<Finding>, c: u32)
    requires
        forall|i: int| 0 <= i < rows.len() ==> #[trigger] rows[i].confidence <= c,
    ensures
        rows.filter(has_confidence(c)).len() + rows.filter(below_confidence(c)).len() == rows.len(),
    decreases rows.len(),
{
    reveal(Seq::filter);
    if rows.len() > 0 {
        let before = rows.drop_last();
        assert forall|i: int| 0 <= i < before.len() implies #[trigger] before[i].confidence <= c by {
            assert(before[i] == rows[i]);
        }
        lemma_filter_split(before, c);
    }
}

/// The highest confidence among the findings.
fn highest_confidence_of(rows: &Vec<Finding>) -> (c: u32)
    ensures
        c == highest_confidence(rows@),
{
    let mut best: u32 = 0;
    let mut i: usize = 0;
    while i < rows.len()
        invariant
            i <= rows.len(),
            best == highest_confidence(rows@.take(i as int)),
        decreases rows.len() - i,
    {
        proof {
            assert(rows@.take(i + 1).drop_last() =~= rows@.take(i as int));
        }
        if rows[i].confidence > best {
            best = rows[i].confidence;
        }
        i += 1;
    }
    proof {
        assert(rows@.take(rows.len() as int) =~= rows@);
    }
    best
}

/// Orders findings by confidence, highest first, keeping ties in their original order.
pub fn rank_findings(rows: Vec<Finding>) -> (out: Vec<Finding>)
    ensures
        out@ == ranked(rows@),
{
    let ghost all = rows@;
    let mut out: Vec<Finding> = Vec::new();
    let mut rest = rows;
    while rest.len() > 0
        invariant
            out@ + ranked(rest@) == ranked(all),
        decreases rest.len(),
    {
        let c = highest_confidence_of(&rest);
        proof {
            lemma_highest(rest@);
            let w = choose|w: int| 0 <= w < rest@.len() && #[trigger] rest@[w].confidence == c;
            lemma_filter_drops(rest@, below_confidence(c), w);
        }
        let ghost out0 = out@;
        let ghost rest0 = rest@;
        let mut next: Vec<Finding> = Vec::new();
        let mut i: usize = 0;
        while i < rest.len()
            invariant
                rest@ == rest0,
                c == highest_confidence(rest0),
                forall|k: int| 0 <= k < rest0.len() ==> #[trigger] rest0[k].confidence <= c,
                i <= rest.len(),
                out@ == out0 + rest0.take(i as int).filter(has_confidence(c)),
                next@ == rest0.take(i as int).filter(below_confidence(c)),
            decreases rest.len() - i,
        {
            let row = rest[i].duplicate();
            proof {
                assert(rest0.take(i + 1) =~= rest0.take(i as int).push(rest0[i as int]));
                rest0.take(i as int).lemma_filter_push(rest0[i as int], has_confidence(c));
                rest0.take(i as int).lemma_filter_push(rest0[i as int], below_confidence(c));
            }
            if row.confidence < c {
                next.push(row);
            } else {
                out.push(row);
                proof {
                    assert(out@ =~= out0 + rest0.take(i + 1).filter(has_confidence(c)));
                }
            }
            i += 1;
        }
        proof {
            assert(rest0.take(rest0.len() as int) =~= rest0);
            assert(ranked(rest0) == rest0.filter(has_confidence(c)) + ranked(rest0.filter(below_confidence(c))));
            assert(out0 + ranked(rest0) =~= out@ + ranked(next@));
        }
        rest = next;
    }
    proof {
        assert(out@ + ranked(rest@) =~= out@);
    }
    out
}

} // verus!
