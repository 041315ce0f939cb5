//! Wildcard matching for exclusion patterns.
//!
//! A pattern is matched byte by byte against a candidate; `*` matches any
//! (possibly empty) run of bytes, `/` included, and every other byte matches
//! itself.

use vstd::prelude::*;
use vstd::string::StringSliceAdditionalSpecFns;

verus! {

/// The wildcard byte.
pub const STAR: u8 = 42u8;

/// Whether the suffix of `p` from `i` matches the suffix of `c` from `j`.
pub open spec fn glob_from(p: Seq<u8>, c: Seq<u8>, i: int, j: int) -> bool
    decreases p.len() - i + c.len() - j,
{
    if i < 0 || j < 0 || i > p.len() || j > c.len() {
        false
    } else if i == p.len() {
        j == c.len()
    } else if p[i] == STAR {
        glob_from(p, c, i + 1, j) || (j < c.len() && glob_from(p, c, i, j + 1))
    } else {
        j < c.len() && p[i] == c[j] && glob_from(p, c, i + 1, j + 1)
    }
}

/// Whether the whole of `p` matches the whole of `c`.
pub open spec fn glob_matches(p: Seq<u8>, c: Seq<u8>) -> bool {
    glob_from(p, c, 0, 0)
}

/// The `len` bytes of `p` from `a` hold no wildcard and equal the bytes of `c` from `b`.
pub open spec fn literal_run(p: Seq<u8>, c: Seq<u8>, a: int, b: int, len: int) -> bool {
    forall|k: int| 0 <= k < len ==> p[a + k] != STAR && #[trigger] p[a + k] == c[b + k]
}

proof fn lemma_star_expands(p: Seq<u8>, c: Seq<u8>, s: int, j: int)
    requires
        0 <= s < p.len(),
        p[s] == STAR,
        0 <= j <= c.len(),
    ensures
        glob_from(p, c, s, j) == exists|k: int| j <= k <= c.len() && #[trigger] glob_from(p, c, s + 1, k),
    decreases c.len() - j,
{
    if j < c.len() {
        lemma_star_expands(p, c, s, j + 1);
        if glob_from(p, c, s, j) {
            if glob_from(p, c, s + 1, j) {
                assert(glob_from(p, c, s + 1, j));
            } else {
                let k = choose|k: int| j + 1 <= k <= c.len() && #[trigger] glob_from(p, c, s + 1, k);
                assert(glob_from(p, c, s + 1, k));
            }
        }
        if exists|k: int| j <= k <= c.len() && #[trigger] glob_from(p, c, s + 1, k) {
            let k = choose|k: int| j <= k <= c.len() && #[trigger] glob_from(p, c, s + 1, k);
            if k > j {
                assert(exists|k2: int| j + 1 <= k2 <= c.len() && #[trigger] glob_from(p, c, s + 1, k2));
            }
        }
    } else {
        if glob_from(p, c, s, j) {
            assert(glob_from(p, c, s + 1, j));
        }
    }
}

proof fn lemma_literal_run(p: Seq<u8>, c: Seq<u8>, a: int, b: int, len: int)
    requires
        0 <= a,
        0 <= len,
        a + len <= p.len(),
        0 <= b <= c.len(),
        forall|k: int| 0 <= k < len ==> #[trigger] p[a + k] != STAR,
    ensures
        glob_from(p, c, a, b) == (b + len <= c.len() && literal_run(p, c, a, b, len) && glob_from(
            p,
            c,
            a + len,
            b + len,
        )),
    decreases len,
{
    if len > 0 {
        assert(p[a + 0] != STAR);
        if b < c.len() {
            assert forall|k: int| 0 <= k < len - 1 implies #[trigger] p[(a + 1) + k] != STAR by {
                assert(p[a + (k + 1)] != STAR);
            }
            lemma_literal_run(p, c, a + 1, b + 1, len - 1);
            if literal_run(p, c, a, b, len) {
                assert(p[a + 0] == c[b + 0]);
                assert forall|k: int| 0 <= k < len - 1 implies p[(a + 1) + k] != STAR && #[trigger] p[(a
                    + 1) + k] == c[(b + 1) + k] by {
                    assert(p[a + (k + 1)] == c[b + (k + 1)]);
                }
            }
            if p[a] == c[b] && literal_run(p, c, a + 1, b + 1, len - 1) {
                assert forall|k: int| 0 <= k < len implies p[a + k] != STAR && #[trigger] p[a + k] == c[b
                    + k] by {
                    if k > 0 {
                        assert(p[(a + 1) + (k - 1)] == c[(b + 1) + (k - 1)]);
                    }
                }
            }
        }
    } else {
        assert(literal_run(p, c, a, b, len));
    }
}

proof fn lemma_star_monotone(p: Seq<u8>, c: Seq<u8>, i: int, j: int, k: int)
    requires
        0 <= i < p.len(),
        p[i] == STAR,
        0 <= j <= k <= c.len(),
        glob_from(p, c, i, k),
    ensures
        glob_from(p, c, i, j),
    decreases k - j,
{
    if j < k {
        lemma_star_monotone(p, c, i, j + 1, k);
    }
}

proof fn lemma_tail_stars(p: Seq<u8>, c: Seq<u8>, i: int)
    requires
        0 <= i <= p.len(),
    ensures
        glob_from(p, c, i, c.len() as int) == forall|k: int| i <= k < p.len() ==> #[trigger] p[k] == STAR,
    decreases p.len() - i,
{
    if i < p.len() {
        lemma_tail_stars(p, c, i + 1);
        if forall|k: int| i <= k < p.len() ==> #[trigger] p[k] == STAR {
            assert(p[i] == STAR);
        }
    }
}

/// Matches `candidate` against `pattern`, where `*` stands for any run of bytes; the answer is
/// the same for the pattern with each `**` written as `*`.
pub fn wildcard_match(pattern: &str, candidate: &str) -> (matched: bool)
    ensures
        matched == glob_matches(pattern.spec_bytes(), candidate.spec_bytes()),
        matched == glob_matches(collapse_double_stars(pattern.spec_bytes()), candidate.spec_bytes()),
{
    proof {
        lemma_collapsing_double_stars_keeps_matches(pattern.spec_bytes(), candidate.spec_bytes());
    }
    let p = pattern.as_bytes();
    let c = candidate.as_bytes();
    let ghost ps = p@;
    let ghost cs = c@;
    let ghost full = glob_from(ps, cs, 0, 0);

    let mut pattern_index: usize = 0;
    let mut candidate_index: usize = 0;
    let mut last_star: Option<usize> = None;
    let mut last_match: usize = 0;
    let ghost mut base: int = 0;

    while candidate_index < c.len()
        invariant
            ps == p@,
            cs == c@,
            ps == pattern.spec_bytes(),
            cs == candidate.spec_bytes(),
            full == glob_from(ps, cs, 0, 0),
            pattern_index <= p.len(),
            candidate_index <= c.len(),
            last_star is None ==> full == glob_from(ps, cs, pattern_index as int, candidate_index as int)
                && base == candidate_index,
            last_star matches Some(s) ==> {
                &&& s < pattern_index
                &&& ps[s as int] == STAR
                &&& last_match <= candidate_index
                &&& candidate_index - last_match == pattern_index - (s + 1)
                &&& literal_run(ps, cs, s + 1, last_match as int, pattern_index - (s + 1))
                &&& full == glob_from(ps, cs, s as int, last_match as int)
                &&& base == last_match
            },
        decreases c.len() - base, p.len() - pattern_index + c.len() - candidate_index,
    {
        if pattern_index < p.len() && (p[pattern_index] == c[candidate_index] || p[pattern_index]
            == STAR) {
            if p[pattern_index] == STAR {
                proof {
                    if let Some(s) = last_star {
                        let len = pattern_index - (s + 1);
                        lemma_star_expands(ps, cs, s as int, last_match as int);
                        assert forall|k: int| 0 <= k < len implies #[trigger] ps[(s + 1) + k] != STAR by {
                            assert(ps[(s + 1) + k] == cs[last_match + k]);
                        }
                        lemma_literal_run(ps, cs, s + 1, last_match as int, len);
                        if full {
                            let k = choose|k: int|
                                last_match <= k <= cs.len() && #[trigger] glob_from(ps, cs, s + 1, k);
                            lemma_literal_run(ps, cs, s + 1, k, len);
                            lemma_star_monotone(
                                ps,
                                cs,
                                pattern_index as int,
                                candidate_index as int,
                                k + len,
                            );
                        }
                        if glob_from(ps, cs, pattern_index as int, candidate_index as int) {
                            assert(glob_from(ps, cs, s + 1, last_match as int));
                        }
                    }
                }
                last_star = Some(pattern_index);
                last_match = candidate_index;
                proof {
                    base = candidate_index as int;
                    assert(literal_run(ps, cs, pattern_index + 1, last_match as int, 0));
                }
                pattern_index += 1;
            } else {
                proof {
                    if let Some(s) = last_star {
                        assert forall|k: int| 0 <= k < (pattern_index + 1) - (s + 1) implies ps[(s + 1) + k]
                            != STAR && #[trigger] ps[(s + 1) + k] == cs[last_match + k] by {
                            if k < pattern_index - (s + 1) {
                                assert(ps[(s + 1) + k] == cs[last_match + k]);
                            }
                        }
                    } else {
                        base = candidate_index + 1;
                    }
                }
                pattern_index += 1;
                candidate_index += 1;
            }
        } else if let Some(star_index) = last_star {
            proof {
                let s = star_index as int;
                let len = pattern_index - (s + 1);
                assert forall|k: int| 0 <= k < len implies #[trigger] ps[(s + 1) + k] != STAR by {
                    assert(ps[(s + 1) + k] == cs[last_match + k]);
                }
                lemma_literal_run(ps, cs, s + 1, last_match as int, len);
                assert(!glob_from(ps, cs, pattern_index as int, candidate_index as int));
                assert(literal_run(ps, cs, s + 1, last_match + 1, 0));
                base = last_match + 1;
            }
            pattern_index = star_index + 1;
            last_match += 1;
            candidate_index = last_match;
        } else {
            assert(!glob_from(ps, cs, pattern_index as int, candidate_index as int));
            proof {
                lemma_collapsing_double_stars_keeps_matches(ps, cs);
            }
            return false;
        }
    }

    proof {
        if let Some(s) = last_star {
            let len = pattern_index - (s + 1);
            lemma_star_expands(ps, cs, s as int, last_match as int);
            assert forall|k: int| 0 <= k < len implies #[trigger] ps[(s + 1) + k] != STAR by {
                assert(ps[(s + 1) + k] == cs[last_match + k]);
            }
            lemma_literal_run(ps, cs, s + 1, last_match as int, len);
            if full {
                let k = choose|k: int| last_match <= k <= cs.len() && #[trigger] glob_from(ps, cs, s + 1, k);
                lemma_literal_run(ps, cs, s + 1, k, len);
            }
        }
        lemma_tail_stars(ps, cs, pattern_index as int);
    }
    let ghost stop = pattern_index;
    while pattern_index < p.len() && p[pattern_index] == STAR
        invariant
            ps == p@,
            stop <= pattern_index <= p.len(),
            forall|k: int| stop <= k < pattern_index ==> #[trigger] ps[k] == STAR,
        decreases p.len() - pattern_index,
    {
        pattern_index += 1;
    }
    pattern_index == p.len()
}

/// A pattern with each `**`, taken from left to right without overlap, written as `*`.
pub open spec fn collapse_double_stars(p: Seq<u8>) -> Seq<u8>
    decreases p.len(),
{
    if p.len() == 0 {
        p
    } else if p.len() >= 2 && p[0] == STAR && p[1] == STAR {
        seq![STAR] + collapse_double_stars(p.subrange(2, p.len() as int))
    } else {
        seq![p[0]] + collapse_double_stars(p.subrange(1, p.len() as int))
    }
}

/// Matching depends only on the rest of the pattern from the current position.
proof fn lemma_glob_suffix(p: Seq<u8>, q: Seq<u8>, c: Seq<u8>, i: int, i2: int, j: int)
    requires
        0 <= i <= p.len(),
        0 <= i2 <= q.len(),
        p.subrange(i, p.len() as int) == q.subrange(i2, q.len() as int),
    ensures
        glob_from(p, c, i, j) == glob_from(q, c, i2, j),
    decreases p.len() - i + c.len() - j,
{
    if j < 0 || j > c.len() {
    } else if i == p.len() {
        assert(q.subrange(i2, q.len() as int).len() == 0);
    } else {
        assert(p.subrange(i, p.len() as int).len() == p.len() - i);
        assert(q.subrange(i2, q.len() as int).len() == q.len() - i2);
        assert(i2 < q.len());
        assert(p[i] == p.subrange(i, p.len() as int)[0]);
        assert(q[i2] == q.subrange(i2, q.len() as int)[0]);
        assert(p.subrange(i + 1, p.len() as int) =~= p.subrange(i, p.len() as int).subrange(1, p.len() - i));
        assert(q.subrange(i2 + 1, q.len() as int) =~= q.subrange(i2, q.len() as int).subrange(1, q.len() - i2));
        lemma_glob_suffix(p, q, c, i + 1, i2 + 1, j);
        if j < c.len() {
            lemma_glob_suffix(p, q, c, i + 1, i2 + 1, j + 1);
            lemma_glob_suffix(p, q, c, i, i2, j + 1);
        }
    }
}

/// Two wildcards in a row match what one does.
proof fn lemma_double_star(p: Seq<u8>, c: Seq<u8>, i: int, j: int)
    requires
        0 <= i,
        i + 1 < p.len(),
        p[i] == STAR,
        p[i + 1] == STAR,
        0 <= j <= c.len(),
    ensures
        glob_from(p, c, i, j) == glob_from(p, c, i + 1, j),
{
    lemma_star_expands(p, c, i, j);
    lemma_star_expands(p, c, i + 1, j);
    if glob_from(p, c, i, j) {
        let k = choose|k: int| j <= k <= c.len() && #[trigger] glob_from(p, c, i + 1, k);
        lemma_star_monotone(p, c, i + 1, j, k);
    }
}

/// Writing each `**` of a pattern as `*` changes none of its matches.
pub proof fn lemma_collapsing_double_stars_keeps_matches(p: Seq<u8>, c: Seq<u8>)
    ensures
        glob_matches(collapse_double_stars(p), c) == glob_matches(p, c),
{
    lemma_collapse_from(p, c, 0);
}

proof fn lemma_collapse_from(p: Seq<u8>, c: Seq<u8>, j: int)
    requires
        0 <= j <= c.len(),
    ensures
        glob_from(collapse_double_stars(p), c, 0, j) == glob_from(p, c, 0, j),
    decreases p.len(),
{
    let q = collapse_double_stars(p);
    if p.len() == 0 {
    } else if p.len() >= 2 && p[0] == STAR && p[1] == STAR {
        let r = p.subrange(2, p.len() as int);
        let cr = collapse_double_stars(r);
        lemma_double_star(p, c, 0, j);
        let star_r = seq![STAR] + r;
        assert(p.subrange(1, p.len() as int) =~= star_r.subrange(0, star_r.len() as int));
        lemma_glob_suffix(p, star_r, c, 1, 0, j);
        lemma_star_expands(star_r, c, 0, j);
        lemma_star_expands(q, c, 0, j);
        assert forall|k: int| j <= k <= c.len() implies #[trigger] glob_from(star_r, c, 1, k) == glob_from(q, c, 1, k) by {
            assert(star_r.subrange(1, star_r.len() as int) =~= r.subrange(0, r.len() as int));
            assert(q.subrange(1, q.len() as int) =~= cr.subrange(0, cr.len() as int));
            lemma_glob_suffix(star_r, r, c, 1, 0, k);
            lemma_glob_suffix(q, cr, c, 1, 0, k);
            lemma_collapse_from(r, c, k);
        }
        if glob_from(q, c, 0, j) {
            let k = choose|k: int| j <= k <= c.len() && #[trigger] glob_from(q, c, 1, k);
            assert(glob_from(star_r, c, 1, k));
        }
        if glob_from(star_r, c, 0, j) {
            let k = choose|k: int| j <= k <= c.len() && #[trigger] glob_from(star_r, c, 1, k);
            assert(glob_from(q, c, 1, k));
        }
    } else {
        let r = p.subrange(1, p.len() as int);
        let cr = collapse_double_stars(r);
        assert(q[0] == p[0]);
        assert forall|k: int| 0 <= k <= c.len() implies #[trigger] glob_from(p, c, 1, k) == glob_from(q, c, 1, k) by {
            assert(p.subrange(1, p.len() as int) =~= r.subrange(0, r.len() as int));
            assert(q.subrange(1, q.len() as int) =~= cr.subrange(0, cr.len() as int));
            lemma_glob_suffix(p, r, c, 1, 0, k);
            lemma_glob_suffix(q, cr, c, 1, 0, k);
            lemma_collapse_from(r, c, k);
        }
        if p[0] == STAR {
            lemma_star_expands(p, c, 0, j);
            lemma_star_expands(q, c, 0, j);
            if glob_from(q, c, 0, j) {
                let k = choose|k: int| j <= k <= c.len() && #[trigger] glob_from(q, c, 1, k);
                assert(glob_from(p, c, 1, k));
            }
            if glob_from(p, c, 0, j) {
                let k = choose|k: int| j <= k <= c.len() && #[trigger] glob_from(p, c, 1, k);
                assert(glob_from(q, c, 1, k));
            }
        } else {
            if j < c.len() {
                assert(glob_from(p, c, 1, j + 1) == glob_from(q, c, 1, j + 1));
            }
        }
    }
}

} // verus!
