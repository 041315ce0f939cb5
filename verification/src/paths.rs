//! A textual model of file paths: separators, components, prefixes and joins.
//!
//! Both `/` and `\` separate components, so paths written on either platform
//! are read the same way.

use vstd::prelude::*;

use crate::text::{chars_equal, chars_of, copy_chars, string_from_chars};

verus! {

/// A `.` or `..` part begins at position `i`.
pub open spec fn dot_part_at(path: Seq<char>, i: int) -> bool {
    &&& i == 0 || path[i - 1] == '/'
    &&& path[i] == '.'
    &&& i + 1 == path.len() || path[i + 1] == '/' || (path[i + 1] == '.' && (i + 2 == path.len() || path[i + 2] == '/'))
}

/// A relative path written the same way on every platform: named parts joined by single
/// slashes, with no backslash, no colon, and no `.` or `..` part.
pub open spec fn plain_relative(path: Seq<char>) -> bool {
    &&& path.len() > 0
    &&& path[0] != '/'
    &&& path.last() != '/'
    &&& forall|i: int| 0 <= i < path.len() ==> #[trigger] path[i] != '\\' && path[i] != ':'
    &&& forall|i: int| 0 <= i < path.len() - 1 ==> !(#[trigger] path[i] == '/' && path[i + 1] == '/')
    &&& forall|i: int| 0 <= i < path.len() ==> !#[trigger] dot_part_at(path, i)
}

/// Calls `path_slash::PathExt::to_slash_lossy` on the path and takes the text: on Unix the
/// path as written (`to_string_lossy`), on Windows its components joined by `/`. Which of the
/// two depends on the platform the crate is built for; on a plain relative path both give
/// the path as written, and that is all the contract claims.
#[verifier::external_body]
pub(crate) fn display_path(path: &str) -> (shown: String)
    ensures
        plain_relative(path@) ==> shown@ == path@,
{
    path_slash::PathExt::to_slash_lossy(std::path::Path::new(path)).into_owned()
}

/// The path with every backslash turned into a forward slash.
pub open spec fn slashed(s: Seq<char>) -> Seq<char> {
    s.map_values(|ch: char| if ch == '\\' { '/' } else { ch })
}

/// The pieces of `s` between forward slashes, empty pieces included.
pub open spec fn segments(s: Seq<char>) -> Seq<Seq<char>>
    decreases s.len(),
{
    if s.len() == 0 {
        seq![Seq::<char>::empty()]
    } else {
        let rest = segments(s.drop_last());
        if s.last() == '/' {
            rest.push(Seq::<char>::empty())
        } else {
            rest.update(rest.len() - 1, rest.last().push(s.last()))
        }
    }
}

/// A segment that names something: neither empty nor the current directory.
pub open spec fn is_named_segment(seg: Seq<char>) -> bool {
    seg.len() > 0 && seg != seq!['.']
}

/// The named segments, in order.
pub open spec fn named_segments(segs: Seq<Seq<char>>) -> Seq<Seq<char>>
    decreases segs.len(),
{
    if segs.len() == 0 {
        Seq::empty()
    } else {
        let rest = named_segments(segs.drop_last());
        if is_named_segment(segs.last()) {
            rest.push(segs.last())
        } else {
            rest
        }
    }
}

/// The components of a slashed path: a leading `/` or `.` marker, then the named segments.
pub open spec fn components(s: Seq<char>) -> Seq<Seq<char>> {
    let segs = segments(s);
    let lead = if s.len() > 0 && s[0] == '/' {
        seq![seq!['/']]
    } else if segs[0] == seq!['.'] {
        seq![seq!['.']]
    } else {
        Seq::<Seq<char>>::empty()
    };
    lead + named_segments(segs)
}

/// The components of a path as written.
pub open spec fn path_components(path: Seq<char>) -> Seq<Seq<char>> {
    components(slashed(path))
}

/// The components of `file` after those of `root`, when `root`'s components begin `file`'s.
pub open spec fn strip_components(file: Seq<Seq<char>>, root: Seq<Seq<char>>) -> Option<
    Seq<Seq<char>>,
> {
    if root.len() <= file.len() && file.subrange(0, root.len() as int) == root {
        Some(file.subrange(root.len() as int, file.len() as int))
    } else {
        None
    }
}

/// The parts joined with `sep` between consecutive parts.
pub open spec fn join_with(parts: Seq<Seq<char>>, sep: Seq<char>) -> Seq<char>
    decreases parts.len(),
{
    if parts.len() == 0 {
        Seq::empty()
    } else if parts.len() == 1 {
        parts[0]
    } else {
        join_with(parts.drop_last(), sep) + sep + parts.last()
    }
}

/// The components of `file` below `root`, if `file` lies under `root`.
pub open spec fn relative_components(file: Seq<char>, root: Seq<char>) -> Option<Seq<Seq<char>>> {
    strip_components(path_components(file), path_components(root))
}

/// How a file is shown relative to a root: its components below the root joined by `/`,
/// or the whole slashed path when it does not lie under the root.
pub open spec fn relative_text(file: Seq<char>, root: Seq<char>) -> Seq<char> {
    match relative_components(file, root) {
        Some(rest) => join_with(rest, seq!['/']),
        None => slashed(file),
    }
}

/// The vector views of a vector of character vectors.
pub open spec fn views(v: Seq<Vec<char>>) -> Seq<Seq<char>> {
    v.map_values(|x: Vec<char>| x@)
}

proof fn lemma_views_push(v: Seq<Vec<char>>, x: Vec<char>)
    ensures
        views(v.push(x)) == views(v).push(x@),
{
    assert(views(v.push(x)) =~= views(v).push(x@));
}

/// A vector holding exactly one character.
fn single_char(ch: char) -> (out: Vec<char>)
    ensures
        out@ == seq![ch],
{
    let mut out: Vec<char> = Vec::new();
    out.push(ch);
    assert(out@ =~= seq![ch]);
    out
}

/// The characters of `path` with backslashes turned into slashes.
pub fn slashed_chars(path: &str) -> (out: Vec<char>)
    ensures
        out@ == slashed(path@),
{
    let chars = chars_of(path);
    let mut out: Vec<char> = Vec::new();
    let mut i: usize = 0;
    while i < chars.len()
        invariant
            chars@ == path@,
            i <= chars.len(),
            out@ == slashed(chars@.subrange(0, i as int)),
        decreases chars.len() - i,
    {
        let ch = chars[i];
        if ch == '\\' {
            out.push('/');
        } else {
            out.push(ch);
        }
        assert(chars@.subrange(0, i + 1) =~= chars@.subrange(0, i as int).push(ch));
        assert(slashed(chars@.subrange(0, i + 1)) =~= slashed(chars@.subrange(0, i as int)).push(
            if ch == '\\' { '/' } else { ch },
        ));
        i += 1;
    }
    assert(chars@.subrange(0, chars.len() as int) =~= chars@);
    out
}

/// Splits slashed characters into the pieces between slashes.
pub fn split_segments(s: &Vec<char>) -> (segs: Vec<Vec<char>>)
    ensures
        views(segs@) == segments(s@),
        segs@.len() >= 1,
{
    let mut done: Vec<Vec<char>> = Vec::new();
    let mut current: Vec<char> = Vec::new();
    let mut i: usize = 0;
    assert(s@.subrange(0, 0) =~= Seq::<char>::empty());
    assert(views(done@).push(current@) =~= segments(s@.subrange(0, 0)));
    while i < s.len()
        invariant
            i <= s.len(),
            views(done@).push(current@) == segments(s@.subrange(0, i as int)),
        decreases s.len() - i,
    {
        let ch = s[i];
        let ghost before = s@.subrange(0, i as int);
        assert(s@.subrange(0, i + 1).drop_last() =~= before);
        assert(s@.subrange(0, i + 1).last() == ch);
        if ch == '/' {
            let finished = current;
            done.push(finished);
            current = Vec::new();
            assert(views(done@).push(current@) =~= segments(before).push(Seq::<char>::empty()));
        } else {
            current.push(ch);
            assert(views(done@).push(current@) =~= segments(before).update(
                segments(before).len() - 1,
                segments(before).last().push(ch),
            ));
        }
        i += 1;
    }
    done.push(current);
    assert(s@.subrange(0, s.len() as int) =~= s@);
    done
}

/// Whether a character vector is exactly one dot.
fn is_single_dot(seg: &Vec<char>) -> (result: bool)
    ensures
        result == (seg@ == seq!['.']),
{
    if seg.len() == 1 && seg[0] == '.' {
        assert(seg@ =~= seq!['.']);
        true
    } else {
        false
    }
}

/// The components of a path as written: a leading `/` or `.` marker, then its named segments.
pub fn components_of(path: &str) -> (comps: Vec<Vec<char>>)
    ensures
        views(comps@) == path_components(path@),
{
    let chars = slashed_chars(path);
    let segs = split_segments(&chars);
    let mut comps: Vec<Vec<char>> = Vec::new();
    if chars.len() > 0 && chars[0] == '/' {
        comps.push(single_char('/'));
    } else if is_single_dot(&segs[0]) {
        comps.push(single_char('.'));
    }
    let ghost lead = views(comps@);
    assert(segs@[0]@ == segments(chars@)[0]);
    proof {
        let segs_spec = segments(chars@);
        if chars@.len() > 0 && chars@[0] == '/' {
            assert(lead =~= seq![seq!['/']]);
        } else if segs_spec[0] == seq!['.'] {
            assert(lead =~= seq![seq!['.']]);
        } else {
            assert(lead =~= Seq::<Seq<char>>::empty());
        }
    }
    let mut i: usize = 0;
    assert(segs@.subrange(0, 0) =~= Seq::<Vec<char>>::empty());
    assert(views(segs@.subrange(0, 0)) =~= Seq::<Seq<char>>::empty());
    assert(views(comps@) =~= lead + named_segments(views(segs@.subrange(0, 0))));
    while i < segs.len()
        invariant
            i <= segs.len(),
            views(comps@) == lead + named_segments(views(segs@.subrange(0, i as int))),
        decreases segs.len() - i,
    {
        let ghost before = views(segs@.subrange(0, i as int));
        assert(views(segs@.subrange(0, i + 1)).drop_last() =~= before);
        assert(views(segs@.subrange(0, i + 1)).last() == segs@[i as int]@);
        if segs[i].len() > 0 && !is_single_dot(&segs[i]) {
            let ghost old_comps = comps@;
            let seg = copy_chars(&segs[i]);
            comps.push(seg);
            proof {
                lemma_views_push(old_comps, seg);
            }
            assert(views(comps@) =~= lead + named_segments(before).push(segs@[i as int]@));
        }
        i += 1;
    }
    assert(segs@.subrange(0, segs.len() as int) =~= segs@);
    assert(views(segs@) == segments(chars@));
    comps
}

/// Appends `part` to `out`.
pub fn push_all(out: &mut Vec<char>, part: &Vec<char>)
    ensures
        final(out)@ == old(out)@ + part@,
{
    let mut i: usize = 0;
    while i < part.len()
        invariant
            i <= part.len(),
            out@ == old(out)@ + part@.subrange(0, i as int),
        decreases part.len() - i,
    {
        out.push(part[i]);
        assert(part@.subrange(0, i + 1) =~= part@.subrange(0, i as int).push(part@[i as int]));
        i += 1;
    }
    assert(part@.subrange(0, part.len() as int) =~= part@);
}

/// The parts `parts[from..]` joined with `sep` between consecutive parts.
pub fn join_parts(parts: &Vec<Vec<char>>, from: usize, sep: &Vec<char>) -> (out: Vec<char>)
    requires
        from <= parts.len(),
    ensures
        out@ == join_with(views(parts@.subrange(from as int, parts.len() as int)), sep@),
{
    let mut out: Vec<char> = Vec::new();
    let mut i: usize = from;
    assert(views(parts@.subrange(from as int, from as int)) =~= Seq::<Seq<char>>::empty());
    while i < parts.len()
        invariant
            from <= i <= parts.len(),
            out@ == join_with(views(parts@.subrange(from as int, i as int)), sep@),
        decreases parts.len() - i,
    {
        let ghost before = views(parts@.subrange(from as int, i as int));
        let ghost after = views(parts@.subrange(from as int, i + 1));
        assert(after.drop_last() =~= before);
        assert(after.last() == parts@[i as int]@);
        if i > from {
            push_all(&mut out, sep);
        } else {
            assert(after =~= seq![parts@[i as int]@]);
        }
        push_all(&mut out, &parts[i]);
        i += 1;
    }
    out
}

/// How `file` is shown relative to `root` (see [`relative_text`]).
pub fn relative_chars(file: &str, root: &str) -> (out: Vec<char>)
    ensures
        out@ == relative_text(file@, root@),
{
    match strip_root(file, root) {
        Some(rest) => {
            let sep = single_char('/');
            let out = join_parts(&rest, 0, &sep);
            assert(rest@.subrange(0, rest.len() as int) =~= rest@);
            out
        },
        None => slashed_chars(file),
    }
}

/// The components of `file` below `root`, when `root`'s components begin `file`'s.
pub fn strip_root(file: &str, root: &str) -> (rest: Option<Vec<Vec<char>>>)
    ensures
        match rest {
            Some(r) => relative_components(file@, root@) == Some(views(r@)),
            None => relative_components(file@, root@) is None,
        },
{
    let file_comps = components_of(file);
    let root_comps = components_of(root);
    if root_comps.len() > file_comps.len() {
        return None;
    }
    let mut i: usize = 0;
    while i < root_comps.len()
        invariant
            root_comps.len() <= file_comps.len(),
            views(file_comps@) == path_components(file@),
            views(root_comps@) == path_components(root@),
            i <= root_comps.len(),
            forall|k: int| 0 <= k < i ==> file_comps@[k]@ == root_comps@[k]@,
        decreases root_comps.len() - i,
    {
        if !chars_equal(&file_comps[i], &root_comps[i]) {
            proof {
                let fv = views(file_comps@);
                let rv = views(root_comps@);
                assert(fv[i as int] == file_comps@[i as int]@);
                assert(rv[i as int] == root_comps@[i as int]@);
                assert(fv.subrange(0, rv.len() as int)[i as int] != rv[i as int]);
            }
            return None;
        }
        i += 1;
    }
    let mut rest: Vec<Vec<char>> = Vec::new();
    let mut j: usize = root_comps.len();
    while j < file_comps.len()
        invariant
            root_comps.len() <= j <= file_comps.len(),
            views(rest@) == views(file_comps@).subrange(root_comps.len() as int, j as int),
        decreases file_comps.len() - j,
    {
        let ghost old_rest = rest@;
        let comp = copy_chars(&file_comps[j]);
        rest.push(comp);
        proof {
            lemma_views_push(old_rest, comp);
        }
        assert(views(rest@) =~= views(file_comps@).subrange(root_comps.len() as int, j + 1));
        j += 1;
    }
    proof {
        let fv = views(file_comps@);
        let rv = views(root_comps@);
        assert forall|k: int| 0 <= k < rv.len() implies fv.subrange(0, rv.len() as int)[k] == rv[k] by {
            assert(fv[k] == file_comps@[k]@);
        }
        assert(fv.subrange(0, rv.len() as int) =~= rv);
    }
    Some(rest)
}

/// The slashed text of `file` relative to `root`, as an owned string.
pub fn relative_string(file: &str, root: &str) -> (out: String)
    ensures
        out@ == relative_text(file@, root@),
{
    let chars = relative_chars(file, root);
    string_from_chars(chars.as_slice())
}

} // verus!
