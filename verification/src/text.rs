//! Character-level helpers shared by the path, glob and parsing code.

use vstd::prelude::*;

verus! {

/// Returns the characters of a string slice as a vector.
#[verifier::external_body]
pub(crate) fn chars_of(s: &str) -> (chars: Vec<char>)
    ensures
        chars@ == s@,
{
    s.chars().collect()
}

/// Builds an owned string from a slice of characters.
#[verifier::external_body]
pub(crate) fn string_from_chars(chars: &[char]) -> (s: String)
    ensures
        s@ == chars@,
{
    chars.iter().collect()
}

/// Character-wise equality of two string slices.
pub fn str_eq(a: &str, b: &str) -> (equal: bool)
    ensures
        equal == (a@ == b@),
{
    let left = a.to_owned();
    let right = b.to_owned();
    left == right
}

/// Whether `s` ends with `suffix`.
pub open spec fn ends_with(s: Seq<char>, suffix: Seq<char>) -> bool {
    suffix.len() <= s.len() && s.subrange(s.len() - suffix.len(), s.len() as int) == suffix
}

/// Whether `s` starts with `prefix`.
pub open spec fn starts_with(s: Seq<char>, prefix: Seq<char>) -> bool {
    prefix.len() <= s.len() && s.subrange(0, prefix.len() as int) == prefix
}

/// Whether `needle` occurs somewhere inside `s`.
pub open spec fn contains_seq(s: Seq<char>, needle: Seq<char>) -> bool {
    exists|i: int|
        0 <= i <= s.len() - needle.len() && #[trigger] s.subrange(i, i + needle.len()) == needle
}

/// Checks whether `s` ends with `suffix`.
pub fn chars_end_with(s: &Vec<char>, suffix: &Vec<char>) -> (result: bool)
    ensures
        result == ends_with(s@, suffix@),
{
    if suffix.len() > s.len() {
        return false;
    }
    let offset = s.len() - suffix.len();
    let mut i: usize = 0;
    while i < suffix.len()
        invariant
            offset + suffix.len() == s.len(),
            i <= suffix.len(),
            forall|k: int| 0 <= k < i ==> s@[offset + k] == suffix@[k],
        decreases suffix.len() - i,
    {
        if s[offset + i] != suffix[i] {
            assert(s@.subrange(offset as int, s.len() as int)[i as int] != suffix@[i as int]);
            return false;
        }
        i += 1;
    }
    assert(s@.subrange(offset as int, s.len() as int) =~= suffix@);
    true
}

/// Checks whether `s` starts with `prefix`.
pub fn chars_start_with(s: &Vec<char>, prefix: &Vec<char>) -> (result: bool)
    ensures
        result == starts_with(s@, prefix@),
{
    if prefix.len() > s.len() {
        return false;
    }
    let mut i: usize = 0;
    while i < prefix.len()
        invariant
            prefix.len() <= s.len(),
            i <= prefix.len(),
            forall|k: int| 0 <= k < i ==> s@[k] == prefix@[k],
        decreases prefix.len() - i,
    {
        if s[i] != prefix[i] {
            assert(s@.subrange(0, prefix.len() as int)[i as int] != prefix@[i as int]);
            return false;
        }
        i += 1;
    }
    assert(s@.subrange(0, prefix.len() as int) =~= prefix@);
    true
}

/// Checks whether `needle` occurs inside `s`.
pub fn chars_contain(s: &Vec<char>, needle: &Vec<char>) -> (result: bool)
    ensures
        result == contains_seq(s@, needle@),
{
    if needle.len() > s.len() {
        return false;
    }
    if needle.len() == 0 {
        assert(s@.subrange(0, 0) =~= needle@);
        assert(s@.subrange(0, 0 + needle.len()) == needle@);
        return true;
    }
    let last = s.len() - needle.len();
    let mut start: usize = 0;
    while start <= last
        invariant
            last + needle.len() == s.len(),
            needle.len() > 0,
            start <= last + 1,
            forall|i: int| 0 <= i < start ==> #[trigger] s@.subrange(i, i + needle.len()) != needle@,
        decreases last + 1 - start,
    {
        let mut k: usize = 0;
        let mut same = true;
        while k < needle.len()
            invariant
                start <= last,
                last + needle.len() == s.len(),
                k <= needle.len(),
                same ==> forall|m: int| 0 <= m < k ==> s@[start + m] == needle@[m],
                !same ==> s@.subrange(start as int, start + needle.len()) != needle@,
            decreases needle.len() - k,
        {
            if s[start + k] != needle[k] {
                assert(s@.subrange(start as int, start + needle.len())[k as int] != needle@[k as int]);
                same = false;
            }
            k += 1;
        }
        if same {
            assert(s@.subrange(start as int, start + needle.len()) =~= needle@);
            return true;
        }
        start += 1;
    }
    proof {
        assert forall|i: int| 0 <= i <= s.len() - needle.len() implies #[trigger] s@.subrange(i, i + needle.len()) != needle@ by {}
    }
    false
}

/// A fresh copy of a character vector.
pub fn copy_chars(v: &Vec<char>) -> (out: Vec<char>)
    ensures
        out@ == v@,
{
    vstd::slice::slice_to_vec(v.as_slice())
}

/// Element-wise equality of two character vectors.
pub fn chars_equal(a: &Vec<char>, b: &Vec<char>) -> (equal: bool)
    ensures
        equal == (a@ == b@),
{
    if a.len() != b.len() {
        return false;
    }
    let mut i: usize = 0;
    while i < a.len()
        invariant
            a.len() == b.len(),
            i <= a.len(),
            forall|k: int| 0 <= k < i ==> a@[k] == b@[k],
        decreases a.len() - i,
    {
        if a[i] != b[i] {
            return false;
        }
        i += 1;
    }
    assert(a@ =~= b@);
    true
}

} // verus!
