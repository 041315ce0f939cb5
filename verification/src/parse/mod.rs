//! Symbol and reference extraction, per language, and the key a parse is cached under.

pub mod types;
pub mod syntax;
pub mod nodes;
pub mod javascript;
pub mod typescript;
pub mod python;
pub mod go;
pub mod rust_lang;

use vstd::prelude::*;

use crate::format::{push_decimal, push_str};
use crate::parse::go::{extract_go, extracted_go};
use crate::parse::javascript::{extract_javascript, extracted_script};
use crate::parse::python::{extract_python, extracted_python};
use crate::parse::rust_lang::{extract_rust, extracted_rust};
use crate::parse::syntax::Grammar;
use crate::parse::types::{Reference, Symbol};
use crate::parse::typescript::{extract_typescript, extracted_typescript};
use crate::walker::{extension_chars, extension_of, file_name_chars, file_name_of, Language};

verus! {

/// A TSX file: its extension is `tsx`.
pub open spec fn is_tsx_path(path: Seq<char>) -> bool {
    match file_name_of(path) {
        Some(name) => extension_of(name) == Some("tsx"@),
        None => false,
    }
}

/// Whether a path has the `tsx` extension.
fn has_tsx_extension(path: &str) -> (tsx: bool)
    ensures
        tsx == is_tsx_path(path@),
{
    let name = match file_name_chars(path) {
        Some(name) => name,
        None => return false,
    };
    match extension_chars(&name) {
        Some(ext) => crate::text::chars_equal(&ext, &crate::text::chars_of("tsx")),
        None => false,
    }
}

/// Extracts the symbols and references of a file with the extractor of its language;
/// TypeScript files with the `tsx` extension are read with the TSX grammar.
pub fn dispatch_extract(path: &str, root: &str, source: &[u8], language: Language) -> (items: (Vec<Symbol>, Vec<Reference>))
    ensures
        match language {
            Language::Python => extracted_python(items, path@, root@, source@),
            Language::JavaScript => extracted_script(items, path@, root@, source@, Grammar::JavaScript, "javascript"@),
            Language::TypeScript => extracted_typescript(items, path@, root@, source@, is_tsx_path(path@)),
            Language::Go => extracted_go(items, path@, root@, source@),
            Language::Rust => extracted_rust(items, path@, root@, source@),
        },
{
    match language {
        Language::Python => extract_python(path, root, source),
        Language::JavaScript => extract_javascript(path, root, source),
        Language::TypeScript => extract_typescript(path, root, source, has_tsx_extension(path)),
        Language::Go => extract_go(path, root, source),
        Language::Rust => extract_rust(path, root, source),
    }
}

/// The name of the SHA-256 digest of some bytes.
pub uninterp spec fn sha256_digest(data: Seq<u8>) -> Seq<u8>;

/// Calls `sha2::Sha256::digest`: the result is the named digest of the bytes, 32 bytes long.
#[verifier::external_body]
fn sha256(data: &[u8]) -> (digest: Vec<u8>)
    ensures
        digest@ == sha256_digest(data@),
        digest@.len() == 32,
{
    <sha2::Sha256 as sha2::Digest>::digest(data).to_vec()
}

/// The two lower-case hexadecimal digits of a byte.
pub open spec fn hex_pair(b: u8) -> Seq<char> {
    seq![hex_digit((b / 16) as nat), hex_digit((b % 16) as nat)]
}

/// A lower-case hexadecimal digit.
pub open spec fn hex_digit(d: nat) -> char {
    if d < 10 {
        crate::format::digit_char(d)
    } else if d == 10 {
        'a'
    } else if d == 11 {
        'b'
    } else if d == 12 {
        'c'
    } else if d == 13 {
        'd'
    } else if d == 14 {
        'e'
    } else {
        'f'
    }
}

/// Bytes written as lower-case hexadecimal, two digits each.
pub open spec fn hex_text(bytes: Seq<u8>) -> Seq<char>
    decreases bytes.len(),
{
    if bytes.len() == 0 {
        Seq::empty()
    } else {
        hex_text(bytes.drop_last()) + hex_pair(bytes.last())
    }
}

/// The text a parse is cached under: the file's path, its modification time and the head
/// commit, joined by colons.
pub open spec fn cache_key_text(path: Seq<char>, mtime_secs: u64, git_head: Seq<char>) -> Seq<char> {
    path + seq![':'] + crate::format::decimal(mtime_secs as nat) + seq![':'] + git_head
}

/// A lower-case hexadecimal digit.
fn hex_char(d: u8) -> (c: char)
    requires
        d < 16,
    ensures
        c == hex_digit(d as nat),
{
    match d {
        0 => '0',
        1 => '1',
        2 => '2',
        3 => '3',
        4 => '4',
        5 => '5',
        6 => '6',
        7 => '7',
        8 => '8',
        9 => '9',
        10 => 'a',
        11 => 'b',
        12 => 'c',
        13 => 'd',
        14 => 'e',
        _ => 'f',
    }
}

/// The key a file's parse is cached under: the SHA-256 digest, in hexadecimal, of its path,
/// modification time (in seconds) and the head commit joined by colons.
pub fn build_cache_key(path: &str, mtime_secs: u64, git_head: &str) -> (key: String)
    ensures
        key@ == hex_text(sha256_digest(vstd::utf8::encode_utf8(cache_key_text(path@, mtime_secs, git_head@)))),
{
    let mut text: Vec<char> = Vec::new();
    push_str(&mut text, path);
    text.push(':');
    push_decimal(&mut text, mtime_secs);
    text.push(':');
    push_str(&mut text, git_head);
    proof {
        assert(text@ =~= cache_key_text(path@, mtime_secs, git_head@));
    }
    let joined = crate::text::string_from_chars(text.as_slice());
    let digest = sha256(joined.as_str().as_bytes());
    let mut out: Vec<char> = Vec::new();
    let mut i: usize = 0;
    while i < digest.len()
        invariant
            i <= digest.len(),
            out@ == hex_text(digest@.take(i as int)),
        decreases digest.len() - i,
    {
        proof {
            assert(digest@.take(i + 1).drop_last() =~= digest@.take(i as int));
        }
        let b = digest[i];
        out.push(hex_char(b / 16));
        out.push(hex_char(b % 16));
        proof {
            assert(out@ =~= hex_text(digest@.take(i + 1)));
        }
        i += 1;
    }
    proof {
        assert(digest@.take(digest.len() as int) =~= digest@);
    }
    crate::text::string_from_chars(out.as_slice())
}

} // verus!
