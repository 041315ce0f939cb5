//! A hash index from texts to the positions at which they occur in a list.

use std::collections::hash_map::DefaultHasher;
use std::collections::HashMap;
use std::hash::Hasher;
use vstd::prelude::*;
use vstd::std_specs::hash::DefaultHasherAdditionalSpecFns;
use vstd::string::StringSliceAdditionalSpecFns;

verus! {

broadcast use vstd::std_specs::hash::group_hash_axioms;

/// The hash of a text: `DefaultHasher` fed with its UTF-8 bytes in one write.
pub open spec fn text_hash(s: Seq<char>) -> u64 {
    DefaultHasher::spec_finish(seq![vstd::utf8::encode_utf8(s)])
}

/// Hashes a text.
pub fn hash_text(s: &str) -> (h: u64)
    ensures
        h == text_hash(s@),
{
    let mut hasher = DefaultHasher::new();
    hasher.write(s.as_bytes());
    let h = hasher.finish();
    assert(seq![s.spec_bytes()] =~= Seq::<Seq<u8>>::empty().push(s.spec_bytes()));
    h
}

/// The views of a list of strings.
pub open spec fn texts(keys: Seq<String>) -> Seq<Seq<char>> {
    keys.map_values(|k: String| k@)
}

/// The positions below `upto` whose text hashes to `h`, in increasing order.
pub open spec fn bucket(keys: Seq<Seq<char>>, h: u64, upto: int) -> Seq<usize>
    decreases upto,
{
    if upto <= 0 {
        Seq::empty()
    } else {
        let before = bucket(keys, h, upto - 1);
        if text_hash(keys[upto - 1]) == h {
            before.push((upto - 1) as usize)
        } else {
            before
        }
    }
}

proof fn lemma_bucket(keys: Seq<Seq<char>>, h: u64, upto: int)
    requires
        0 <= upto <= keys.len(),
        keys.len() <= usize::MAX,
    ensures
        forall|x: usize| #[trigger]
            bucket(keys, h, upto).contains(x) <==> (x < upto && text_hash(keys[x as int]) == h),
        forall|a: int, b: int|
            0 <= a < b < bucket(keys, h, upto).len() ==> bucket(keys, h, upto)[a] < bucket(
                keys,
                h,
                upto,
            )[b],
        forall|a: int| 0 <= a < bucket(keys, h, upto).len() ==> bucket(keys, h, upto)[a] < upto,
    decreases upto,
{
    if upto > 0 {
        lemma_bucket(keys, h, upto - 1);
        let before = bucket(keys, h, upto - 1);
        if text_hash(keys[upto - 1]) == h {
            assert forall|x: usize| #[trigger]
                before.push((upto - 1) as usize).contains(x) <==> (x < upto && text_hash(
                    keys[x as int],
                ) == h) by {
                if x == upto - 1 {
                    assert(before.push((upto - 1) as usize)[before.len() as int] == x);
                } else if before.push((upto - 1) as usize).contains(x) {
                    let i = choose|i: int|
                        0 <= i < before.len() + 1 && #[trigger] before.push((upto - 1) as usize)[i] == x;
                    assert(before[i] == x);
                    assert(before.contains(x));
                } else if x < upto && text_hash(keys[x as int]) == h {
                    assert(before.contains(x));
                    let i = choose|i: int| 0 <= i < before.len() && #[trigger] before[i] == x;
                    assert(before.push((upto - 1) as usize)[i] == x);
                }
            }
        }
    }
}

/// A hash index over a list of texts: for each hash, the positions holding a text with that hash.
pub struct TextIndex {
    buckets: HashMap<u64, Vec<usize>>,
}

impl TextIndex {
    /// The index describes exactly the texts `keys`.
    pub closed spec fn indexes(&self, keys: Seq<Seq<char>>) -> bool {
        &&& keys.len() <= usize::MAX
        &&& forall|h: u64| #[trigger]
            self.buckets@.contains_key(h) ==> self.buckets@[h]@ == bucket(keys, h, keys.len() as int)
        &&& forall|h: u64| #[trigger]
            self.buckets@.contains_key(h) || bucket(keys, h, keys.len() as int).len() == 0
    }

    /// Builds the index of `keys`.
    pub fn build(keys: &Vec<String>) -> (index: Self)
        ensures
            index.indexes(texts(keys@)),
    {
        let ghost all = texts(keys@);
        let mut buckets: HashMap<u64, Vec<usize>> = HashMap::new();
        let mut i: usize = 0;
        while i < keys.len()
            invariant
                all == texts(keys@),
                i <= keys.len(),
                forall|h: u64| #[trigger]
                    buckets@.contains_key(h) ==> buckets@[h]@ == bucket(all, h, i as int),
                forall|h: u64| #[trigger] buckets@.contains_key(h) || bucket(all, h, i as int).len() == 0,
            decreases keys.len() - i,
        {
            let h = hash_text(keys[i].as_str());
            assert(all[i as int] == keys@[i as int]@);
            let ghost old_buckets = buckets@;
            let mut positions = match buckets.remove(&h) {
                Some(existing) => existing,
                None => Vec::new(),
            };
            positions.push(i);
            buckets.insert(h, positions);
            proof {
                assert forall|g: u64| #[trigger] buckets@.contains_key(g) implies buckets@[g]@ == bucket(
                    all,
                    g,
                    i + 1,
                ) by {
                    if g != h {
                        assert(old_buckets.contains_key(g));
                    }
                }
                assert forall|g: u64| #[trigger]
                    buckets@.contains_key(g) || bucket(all, g, i + 1).len() == 0 by {
                    if g != h {
                        if !old_buckets.contains_key(g) {
                            assert(bucket(all, g, i as int).len() == 0);
                        }
                    }
                }
            }
            i += 1;
        }
        TextIndex { buckets }
    }

    /// The positions of `keys` that hold exactly the text `q`, in increasing order.
    pub fn positions_of(&self, keys: &Vec<String>, q: &str) -> (found: Vec<usize>)
        requires
            self.indexes(texts(keys@)),
        ensures
            forall|a: int, b: int| 0 <= a < b < found.len() ==> found@[a] < found@[b],
            forall|x: usize| #[trigger]
                found@.contains(x) <==> (x < keys.len() && keys@[x as int]@ == q@),
    {
        let ghost all = texts(keys@);
        let h = hash_text(q);
        proof {
            lemma_bucket(all, h, keys.len() as int);
        }
        let mut found: Vec<usize> = Vec::new();
        match self.buckets.get(&h) {
            None => {
                proof {
                    assert forall|x: usize| #[trigger] found@.contains(x) <==> (x < keys.len()
                        && keys@[x as int]@ == q@) by {
                        if x < keys.len() && keys@[x as int]@ == q@ {
                            assert(all[x as int] == q@);
                            assert(bucket(all, h, keys.len() as int).contains(x));
                        }
                    }
                }
                found
            },
            Some(positions) => {
                let ghost b = bucket(all, h, keys.len() as int);
                assert(positions@ == b);
                let mut k: usize = 0;
                while k < positions.len()
                    invariant
                        all == texts(keys@),
                        positions@ == b,
                        forall|x: usize| #[trigger] b.contains(x) <==> (x < keys.len() && text_hash(all[x as int]) == h),
                        forall|a: int, c: int| 0 <= a < c < b.len() ==> b[a] < b[c],
                        forall|a: int| 0 <= a < b.len() ==> b[a] < keys.len(),
                        h == text_hash(q@),
                        k <= positions.len(),
                        forall|a: int, c: int| 0 <= a < c < found.len() ==> found@[a] < found@[c],
                        forall|a: int| 0 <= a < found.len() ==> exists|j: int| 0 <= j < k && #[trigger] found@[a] == b[j],
                        forall|x: usize| #[trigger]
                            found@.contains(x) <==> (exists|j: int| 0 <= j < k && #[trigger] b[j] == x) && keys@[x as int]@ == q@,
                    decreases positions.len() - k,
                {
                    let p = positions[k];
                    assert(b.contains(p));
                    if keys[p].as_str().to_owned() == q.to_owned() {
                        let ghost old_found = found@;
                        found.push(p);
                        proof {
                            assert forall|a: int, c: int| 0 <= a < c < found.len() implies found@[a] < found@[c] by {
                                if c == found.len() - 1 {
                                    let j = choose|j: int| 0 <= j < k && #[trigger] old_found[a] == b[j];
                                }
                            }
                            assert forall|x: usize| #[trigger] found@.contains(x) <==> (exists|j: int| 0 <= j < k + 1 && #[trigger] b[j] == x) && keys@[x as int]@ == q@ by {
                                if found@.contains(x) {
                                    let i = choose|i: int| 0 <= i < found.len() && #[trigger] found@[i] == x;
                                    if i < old_found.len() {
                                        assert(old_found.contains(x));
                                    }
                                }
                                if (exists|j: int| 0 <= j < k + 1 && #[trigger] b[j] == x) && keys@[x as int]@ == q@ {
                                    let j = choose|j: int| 0 <= j < k + 1 && #[trigger] b[j] == x;
                                    if j < k {
                                        assert(old_found.contains(x));
                                        let i = choose|i: int| 0 <= i < old_found.len() && #[trigger] old_found[i] == x;
                                        assert(found@[i] == x);
                                    } else {
                                        assert(found@[found.len() - 1] == x);
                                    }
                                }
                            }
                            assert forall|a: int| 0 <= a < found.len() implies exists|j: int| 0 <= j < k + 1 && #[trigger] found@[a] == b[j] by {
                                if a == found.len() - 1 {
                                    assert(found@[a] == b[k as int]);
                                }
                            }
                        }
                    } else {
                        proof {
                            assert forall|x: usize| #[trigger] found@.contains(x) <==> (exists|j: int| 0 <= j < k + 1 && #[trigger] b[j] == x) && keys@[x as int]@ == q@ by {
                                if (exists|j: int| 0 <= j < k + 1 && #[trigger] b[j] == x) && keys@[x as int]@ == q@ {
                                    let j = choose|j: int| 0 <= j < k + 1 && #[trigger] b[j] == x;
                                    if j == k {
                                        assert(false);
                                    }
                                }
                            }
                        }
                    }
                    k += 1;
                }
                proof {
                    assert forall|x: usize| #[trigger] found@.contains(x) <==> (x < keys.len()
                        && keys@[x as int]@ == q@) by {
                        if x < keys.len() && keys@[x as int]@ == q@ {
                            assert(all[x as int] == q@);
                            assert(b.contains(x));
                            let j = choose|j: int| 0 <= j < b.len() && #[trigger] b[j] == x;
                        }
                        if found@.contains(x) {
                            let j = choose|j: int| 0 <= j < k && #[trigger] b[j] == x;
                        }
                    }
                }
                found
            },
        }
    }
}

} // verus!
