//! Configuration values that carry no scores: the output format, the ignore lists, where a
//! TOML error is, and the home-directory shorthand of paths.

use vstd::prelude::*;

use vstd::string::StringSliceAdditionalSpecFns;

use crate::format::push_str;
use crate::text::{chars_of, starts_with, string_from_chars};

verus! {

/// How findings are written out.
#[derive(Debug, Clone, Copy, PartialEq, Eq, Structural)]
pub enum OutputFormat {
    Table,
    Json,
    Sarif,
    Csv,
}

impl Default for OutputFormat {
    /// The table is the default format.
    fn default() -> (format: OutputFormat)
        ensures
            format == OutputFormat::Table,
    {
        OutputFormat::Table
    }
}

/// Names, files and decorators whose symbols are never reported.
#[derive(Debug, Clone, PartialEq, Eq)]
pub struct IgnoreConfig {
    pub names: Vec<String>,
    pub files: Vec<String>,
    pub decorators: Vec<String>,
}

impl Default for IgnoreConfig {
    /// Nothing is ignored by default.
    fn default() -> (ignore: IgnoreConfig)
        ensures
            ignore.names@.len() == 0,
            ignore.files@.len() == 0,
            ignore.decorators@.len() == 0,
    {
        IgnoreConfig { names: Vec::new(), files: Vec::new(), decorators: Vec::new() }
    }
}

/// The number of line feeds among the bytes.
pub open spec fn newline_count(bytes: Seq<u8>) -> nat
    decreases bytes.len(),
{
    if bytes.len() == 0 {
        0
    } else {
        newline_count(bytes.drop_last()) + if bytes.last() == 10u8 {
            1nat
        } else {
            0nat
        }
    }
}

/// The line of a byte offset, counting from one; offsets past the end count as the end.
pub open spec fn line_at(bytes: Seq<u8>, index: int) -> nat {
    let end = if index < bytes.len() { index } else { bytes.len() as int };
    newline_count(bytes.take(end)) + 1
}

/// The number of line-feed characters in a text.
pub open spec fn newline_chars(chars: Seq<char>) -> nat
    decreases chars.len(),
{
    if chars.len() == 0 {
        0
    } else {
        (if chars[0] == '\n' { 1nat } else { 0nat }) + newline_chars(chars.drop_first())
    }
}

/// Line feeds add up over a concatenation of bytes.
proof fn lemma_newline_count_concat(a: Seq<u8>, b: Seq<u8>)
    ensures
        newline_count(a + b) == newline_count(a) + newline_count(b),
    decreases b.len(),
{
    if b.len() > 0 {
        lemma_newline_count_concat(a, b.drop_last());
        assert((a + b).drop_last() =~= a + b.drop_last());
    } else {
        assert(a + b =~= a);
    }
}

/// The encoding of a character holds a line-feed byte exactly when the character is a line
/// feed: every byte of a longer encoding has its high bit set.
proof fn lemma_newline_count_scalar(c: char)
    ensures
        newline_count(vstd::utf8::encode_scalar(c as u32)) == (if c == '\n' { 1nat } else { 0nat }),
{
    let v = c as u32;
    reveal_with_fuel(newline_count, 5);
    assert(vstd::utf8::is_scalar(v)) by {
        vstd::utf8::char_is_scalar(c);
    }
    if vstd::utf8::has_width_1_encoding(v) {
        assert(((v & 0x7F) as u8 == 10u8) == (v == 10u32)) by (bit_vector)
            requires
                v <= 0x7F,
        ;
        assert((c == '\n') == (v == 10u32));
    } else {
        assert(vstd::utf8::leading_byte_width_2(v) >= 0x80u8) by (bit_vector);
        assert(vstd::utf8::leading_byte_width_3(v) >= 0x80u8) by (bit_vector);
        assert(vstd::utf8::leading_byte_width_4(v) >= 0x80u8) by (bit_vector);
        assert(vstd::utf8::last_continuation_byte(v) >= 0x80u8) by (bit_vector);
        assert(vstd::utf8::second_last_continuation_byte(v) >= 0x80u8) by (bit_vector);
        assert(vstd::utf8::third_last_continuation_byte(v) >= 0x80u8) by (bit_vector);
        assert(c != '\n');
    }
}

/// Counting line-feed bytes up to a character boundary of a text's UTF-8 encoding counts
/// the line-feed characters of the text before that boundary: the boundary ends the
/// encoding of some first `k` characters.
pub proof fn lemma_newline_bytes_are_newline_chars(chars: Seq<char>, index: int)
    requires
        vstd::utf8::is_char_boundary(vstd::utf8::encode_utf8(chars), index),
    ensures
        exists|k: int| #![trigger chars.take(k)]
            0 <= k <= chars.len() && vstd::utf8::encode_utf8(chars).take(index) == vstd::utf8::encode_utf8(chars.take(k))
                && newline_count(vstd::utf8::encode_utf8(chars).take(index)) == newline_chars(chars.take(k)),
    decreases chars.len(),
{
    broadcast use vstd::utf8::encode_utf8_valid_utf8;

    let bytes = vstd::utf8::encode_utf8(chars);
    if index == 0 {
        assert(bytes.take(0) =~= vstd::utf8::encode_utf8(chars.take(0)));
        assert(chars.take(0) =~= Seq::<char>::empty());
    } else {
        assert(bytes.len() > 0);
        assert(chars.len() > 0);
        vstd::utf8::encode_utf8_first_scalar(chars);
        let rest = chars.drop_first();
        let head = vstd::utf8::encode_scalar(chars[0] as u32);
        assert(bytes =~= head + vstd::utf8::encode_utf8(rest));
        assert(vstd::utf8::pop_first_scalar(bytes) =~= vstd::utf8::encode_utf8(rest));
        let w = head.len() as int;
        assert(index <= bytes.len());
        assert(vstd::utf8::is_char_boundary(vstd::utf8::encode_utf8(rest), index - w));
        assert(index - w >= 0);
        assert(index - w <= vstd::utf8::encode_utf8(rest).len());
        lemma_newline_bytes_are_newline_chars(rest, index - w);
        let k = choose|k: int| #![trigger rest.take(k)]
            0 <= k <= rest.len() && vstd::utf8::encode_utf8(rest).take(index - w) == vstd::utf8::encode_utf8(rest.take(k))
                && newline_count(vstd::utf8::encode_utf8(rest).take(index - w)) == newline_chars(rest.take(k));
        let front = chars.take(k + 1);
        assert(front.drop_first() =~= rest.take(k));
        assert(front[0] == chars[0]);
        assert(bytes.take(index) =~= head + vstd::utf8::encode_utf8(rest).take(index - w));
        lemma_newline_count_concat(head, vstd::utf8::encode_utf8(rest).take(index - w));
        lemma_newline_count_scalar(chars[0]);
        assert(vstd::utf8::encode_utf8(front) =~= head + vstd::utf8::encode_utf8(rest.take(k)));
    }
}

/// The line, counting from one, of a byte offset into a text: one more than the line feeds
/// before it, counted as bytes or, equally, as the characters before that boundary.
pub fn line_number(content: &str, index: usize) -> (line: usize)
    requires
        vstd::utf8::is_char_boundary(
            content.spec_bytes(),
            if index < content.spec_bytes().len() { index as int } else { content.spec_bytes().len() as int },
        ),
        content.spec_bytes().len() < usize::MAX,
    ensures
        line == line_at(content.spec_bytes(), index as int),
        exists|k: int| #![trigger content@.take(k)]
            0 <= k <= content@.len() && vstd::utf8::encode_utf8(content@.take(k)) == content.spec_bytes().take(
                if index < content.spec_bytes().len() { index as int } else { content.spec_bytes().len() as int },
            ) && line == newline_chars(content@.take(k)) + 1,
{
    proof {
        lemma_newline_bytes_are_newline_chars(
            content@,
            if index < content.spec_bytes().len() { index as int } else { content.spec_bytes().len() as int },
        );
    }
    let bytes = content.as_bytes();
    let end = if index < bytes.len() { index } else { bytes.len() };
    let mut count: usize = 0;
    let mut i: usize = 0;
    while i < end
        invariant
            end <= bytes.len() < usize::MAX,
            i <= end,
            count == newline_count(bytes@.take(i as int)),
            count <= i,
        decreases end - i,
    {
        proof {
            assert(bytes@.take(i + 1).drop_last() =~= bytes@.take(i as int));
        }
        if bytes[i] == 10u8 {
            count += 1;
        }
        i += 1;
    }
    count + 1
}

/// A path with a leading `~` read against the home and cache directories: `~` alone is the
/// home directory (else the cache directory, else the path as written); `~/rest` is `rest`
/// under the home directory (else the cache directory itself, else the path as written);
/// any other path stays as it is.
pub open spec fn home_expanded(path: Seq<char>, home: Option<Seq<char>>, cache: Option<Seq<char>>) -> Seq<char> {
    if path == "~"@ {
        match home {
            Some(h) => h,
            None => match cache {
                Some(c) => c,
                None => path,
            },
        }
    } else if starts_with(path, "~/"@) {
        match home {
            Some(h) => joined_path(h, path.subrange(2, path.len() as int)),
            None => match cache {
                Some(c) => c,
                None => path,
            },
        }
    } else {
        path
    }
}

/// `rest` joined under `base`: an absolute `rest` replaces `base`; otherwise a `/` separates
/// them unless `base` is empty or already ends with one.
pub open spec fn joined_path(base: Seq<char>, rest: Seq<char>) -> Seq<char> {
    if rest.len() > 0 && rest[0] == '/' {
        rest
    } else if base.len() > 0 && base.last() != '/' {
        base + seq!['/'] + rest
    } else {
        base + rest
    }
}

/// The text of an optional string.
pub open spec fn text_of(o: Option<String>) -> Option<Seq<char>> {
    match o {
        Some(s) => Some(s@),
        None => None,
    }
}

/// Reads a leading `~` against the given home and cache directories.
pub fn expand_home_with(path: &str, home: Option<String>, cache: Option<String>) -> (expanded: String)
    ensures
        expanded@ == home_expanded(path@, text_of(home), text_of(cache)),
{
    let chars = chars_of(path);
    let tilde = chars_of("~");
    let tilde_slash = chars_of("~/");
    proof {
        reveal_strlit("~/");
    }
    if crate::text::chars_equal(&chars, &tilde) {
        return match home {
            Some(h) => h,
            None => match cache {
                Some(c) => c,
                None => path.to_owned(),
            },
        };
    }
    if crate::text::chars_start_with(&chars, &tilde_slash) {
        return match home {
            Some(h) => {
                let base = chars_of(h.as_str());
                let mut out: Vec<char> = Vec::new();
                let mut rest: Vec<char> = Vec::new();
                let mut i: usize = 2;
                while i < chars.len()
                    invariant
                        2 <= i <= chars.len(),
                        rest@ == chars@.subrange(2, i as int),
                    decreases chars.len() - i,
                {
                    rest.push(chars[i]);
                    proof {
                        assert(rest@ =~= chars@.subrange(2, i + 1));
                    }
                    i += 1;
                }
                if rest.len() > 0 && rest[0] == '/' {
                    out = rest;
                } else {
                    crate::paths::push_all(&mut out, &base);
                    if base.len() > 0 && base[base.len() - 1] != '/' {
                        out.push('/');
                    }
                    crate::paths::push_all(&mut out, &rest);
                }
                proof {
                    assert(out@ =~= joined_path(h@, path@.subrange(2, path@.len() as int)));
                }
                string_from_chars(out.as_slice())
            },
            None => match cache {
                Some(c) => c,
                None => path.to_owned(),
            },
        };
    }
    path.to_owned()
}

/// Calls `dirs::home_dir`; the answer depends on the environment, so nothing is promised
/// of it.
#[verifier::external_body]
fn home_dir() -> (home: Option<String>) {
    dirs::home_dir().map(|p| p.to_string_lossy().into_owned())
}

/// Calls `dirs::cache_dir`; the answer depends on the environment, so nothing is promised
/// of it.
#[verifier::external_body]
fn cache_dir() -> (cache: Option<String>) {
    dirs::cache_dir().map(|p| p.to_string_lossy().into_owned())
}

/// Reads a leading `~` against this user's home and cache directories.
pub fn expand_home(path: &str) -> (expanded: String)
    ensures
        exists|home: Option<Seq<char>>, cache: Option<Seq<char>>| expanded@ == #[trigger] home_expanded(path@, home, cache),
        path@ != "~"@ && !starts_with(path@, "~/"@) ==> expanded@ == path@,
{
    let home = home_dir();
    let cache = cache_dir();
    let ghost h = text_of(home);
    let ghost c = text_of(cache);
    let expanded = expand_home_with(path, home, cache);
    assert(expanded@ == home_expanded(path@, h, c));
    expanded
}

/// `graveyard` under a cache directory, or under `~/.cache` when there is none.
pub open spec fn graveyard_cache_dir(cache: Option<Seq<char>>) -> Seq<char> {
    match cache {
        Some(c) => joined_path(c, "graveyard"@),
        None => joined_path("~/.cache"@, "graveyard"@),
    }
}

/// The cache directory used when none is configured: `graveyard` under the user's cache
/// directory, or under `~/.cache` when there is none.
pub fn default_cache_dir() -> (dir: String)
    ensures
        exists|cache: Option<Seq<char>>| dir@ == #[trigger] graveyard_cache_dir(cache),
{
    let cache = cache_dir();
    let ghost c = text_of(cache);
    let base = match cache {
        Some(c) => c,
        None => "~/.cache".to_owned(),
    };
    let dir = join_path(base.as_str(), "graveyard");
    assert(dir@ == graveyard_cache_dir(c));
    dir
}

/// Joins `rest` under `base`.
pub fn join_path(base: &str, rest: &str) -> (joined: String)
    ensures
        joined@ == joined_path(base@, rest@),
{
    let base_chars = chars_of(base);
    let rest_chars = chars_of(rest);
    let mut out: Vec<char> = Vec::new();
    if rest_chars.len() > 0 && rest_chars[0] == '/' {
        return rest.to_owned();
    }
    push_str(&mut out, base);
    if base_chars.len() > 0 && base_chars[base_chars.len() - 1] != '/' {
        out.push('/');
    }
    push_str(&mut out, rest);
    string_from_chars(out.as_slice())
}

} // verus!
