//! Repository walking decisions: which files are scanned, in which language, and which
//! languages a repository uses.

use vstd::prelude::*;

use crate::glob::{glob_matches, wildcard_match};
use crate::paths::{components_of, path_components, relative_components, relative_string, relative_text, strip_root, views};
use crate::text::{chars_end_with, chars_equal, chars_of, ends_with, str_eq};

verus! {

/// A source language the scanner understands.
#[derive(Debug, Clone, Copy, PartialEq, Eq, Hash, Structural)]
pub enum Language {
    Python,
    JavaScript,
    TypeScript,
    Go,
    Rust,
}

/// The canonical lower-case name of a language.
pub open spec fn language_name(language: Language) -> Seq<char> {
    match language {
        Language::Python => "python"@,
        Language::JavaScript => "javascript"@,
        Language::TypeScript => "typescript"@,
        Language::Go => "go"@,
        Language::Rust => "rust"@,
    }
}

/// The last component of a path, unless it is the root, `.` or `..`.
pub open spec fn file_name_of(path: Seq<char>) -> Option<Seq<char>> {
    let comps = path_components(path);
    if comps.len() == 0 {
        None
    } else {
        let last = comps.last();
        if last == seq!['/'] || last == seq!['.'] || last == seq!['.', '.'] {
            None
        } else {
            Some(last)
        }
    }
}

/// The position of the last `.` in a name, or -1 when it has none.
pub open spec fn last_dot(name: Seq<char>) -> int
    decreases name.len(),
{
    if name.len() == 0 {
        -1
    } else if name.last() == '.' {
        name.len() - 1
    } else {
        last_dot(name.drop_last())
    }
}

/// What follows the last `.` of a file name, unless the name has no `.` but a leading one.
pub open spec fn extension_of(name: Seq<char>) -> Option<Seq<char>> {
    let dot = last_dot(name);
    if dot <= 0 {
        None
    } else {
        Some(name.subrange(dot + 1, name.len() as int))
    }
}

/// The language of a file by its extension; minified scripts (`.min.js`) have none.
pub open spec fn language_of_path(path: Seq<char>) -> Option<Language> {
    match file_name_of(path) {
        None => None,
        Some(name) => match extension_of(name) {
            None => None,
            Some(ext) => if ext == "py"@ {
                Some(Language::Python)
            } else if ext == "js"@ || ext == "mjs"@ || ext == "cjs"@ {
                if ends_with(name, ".min.js"@) {
                    None
                } else {
                    Some(Language::JavaScript)
                }
            } else if ext == "ts"@ || ext == "tsx"@ {
                Some(Language::TypeScript)
            } else if ext == "go"@ {
                Some(Language::Go)
            } else if ext == "rs"@ {
                Some(Language::Rust)
            } else {
                None
            },
        },
    }
}

/// A file whose name ends in `.js` (and is more than `.js` alone) is a JavaScript file unless
/// its name ends in `.min.js`.
pub proof fn lemma_js_files_are_javascript(path: Seq<char>, name: Seq<char>)
    requires
        file_name_of(path) == Some(name),
        name.len() > 3,
        ends_with(name, ".js"@),
        !ends_with(name, ".min.js"@),
    ensures
        language_of_path(path) == Some(Language::JavaScript),
{
    reveal_strlit(".js");
    reveal_strlit("js");
    reveal_strlit("py");
    let n = name.len() as int;
    let tail = name.subrange(n - 3, n);
    assert(tail == ".js"@);
    assert(name[n - 1] == tail[2]);
    assert(name[n - 2] == tail[1]);
    assert(name[n - 3] == tail[0]);
    assert(name.drop_last().last() == name[n - 2]);
    assert(name.drop_last().drop_last().last() == name[n - 3]);
    assert(last_dot(name.drop_last().drop_last()) == n - 3);
    assert(last_dot(name.drop_last()) == n - 3);
    assert(last_dot(name) == n - 3);
    assert(name.subrange(n - 2, n) =~= "js"@);
    assert(extension_of(name) == Some("js"@));
    assert("js"@ != "py"@) by {
        assert("js"@[0] != "py"@[0]);
    }
}

/// Whether two character vectors spell the given string slice.
fn chars_are(chars: &Vec<char>, text: &str) -> (same: bool)
    ensures
        same == (chars@ == text@),
{
    let expected = chars_of(text);
    chars_equal(chars, &expected)
}

/// The last named component of a path, when there is one.
pub(crate) fn file_name_chars(path: &str) -> (name: Option<Vec<char>>)
    ensures
        match name {
            Some(n) => file_name_of(path@) == Some(n@),
            None => file_name_of(path@) is None,
        },
{
    let comps = components_of(path);
    if comps.len() == 0 {
        return None;
    }
    let last = &comps[comps.len() - 1];
    proof {
        assert(views(comps@).last() == last@);
        reveal_strlit("/");
        reveal_strlit(".");
        reveal_strlit("..");
        assert("/"@ =~= seq!['/']);
        assert("."@ =~= seq!['.']);
        assert(".."@ =~= seq!['.', '.']);
    }
    if chars_are(last, "/") || chars_are(last, ".") || chars_are(last, "..") {
        None
    } else {
        Some(crate::text::copy_chars(last))
    }
}

/// The extension of a file name.
pub(crate) fn extension_chars(name: &Vec<char>) -> (ext: Option<Vec<char>>)
    ensures
        match ext {
            Some(e) => extension_of(name@) == Some(e@),
            None => extension_of(name@) is None,
        },
{
    let mut i: usize = name.len();
    proof {
        assert(name@.subrange(0, name.len() as int) =~= name@);
    }
    while i > 0 && name[i - 1] != '.'
        invariant
            i <= name.len(),
            last_dot(name@) == last_dot(name@.subrange(0, i as int)),
        decreases i,
    {
        proof {
            assert(name@.subrange(0, i as int).drop_last() =~= name@.subrange(0, i - 1));
        }
        i -= 1;
    }
    proof {
        if i == 0 {
            assert(name@.subrange(0, 0) =~= Seq::<char>::empty());
        }
    }
    if i <= 1 {
        return None;
    }
    let mut ext: Vec<char> = Vec::new();
    let mut k: usize = i;
    while k < name.len()
        invariant
            i <= k <= name.len(),
            ext@ == name@.subrange(i as int, k as int),
        decreases name.len() - k,
    {
        ext.push(name[k]);
        proof {
            assert(ext@ =~= name@.subrange(i as int, k + 1));
        }
        k += 1;
    }
    Some(ext)
}

impl Language {
    /// Returns the canonical lower-case name of the language.
    pub fn as_str(self) -> (name: &'static str)
        ensures
            name@ == language_name(self),
    {
        match self {
            Language::Python => "python",
            Language::JavaScript => "javascript",
            Language::TypeScript => "typescript",
            Language::Go => "go",
            Language::Rust => "rust",
        }
    }

    /// The language of a file, by its extension.
    pub fn from_path(path: &str) -> (language: Option<Language>)
        ensures
            language == language_of_path(path@),
    {
        let name = match file_name_chars(path) {
            Some(name) => name,
            None => return None,
        };
        let ext = match extension_chars(&name) {
            Some(ext) => ext,
            None => return None,
        };
        if chars_are(&ext, "py") {
            Some(Language::Python)
        } else if chars_are(&ext, "js") || chars_are(&ext, "mjs") || chars_are(&ext, "cjs") {
            let minified = chars_of(".min.js");
            if chars_end_with(&name, &minified) {
                None
            } else {
                Some(Language::JavaScript)
            }
        } else if chars_are(&ext, "ts") || chars_are(&ext, "tsx") {
            Some(Language::TypeScript)
        } else if chars_are(&ext, "go") {
            Some(Language::Go)
        } else if chars_are(&ext, "rs") {
            Some(Language::Rust)
        } else {
            None
        }
    }
}

/// A set of languages.
#[derive(Debug, Clone, Copy, PartialEq, Eq)]
pub struct LanguageSet {
    python: bool,
    javascript: bool,
    typescript: bool,
    go: bool,
    rust: bool,
}

impl View for LanguageSet {
    type V = Set<Language>;

    closed spec fn view(&self) -> Set<Language> {
        Set::new(|l: Language| self.has(l))
    }
}

impl LanguageSet {
    /// The set holds the language.
    pub closed spec fn has(self, language: Language) -> bool {
        match language {
            Language::Python => self.python,
            Language::JavaScript => self.javascript,
            Language::TypeScript => self.typescript,
            Language::Go => self.go,
            Language::Rust => self.rust,
        }
    }

    /// The empty set.
    pub fn new() -> (set: LanguageSet)
        ensures
            set@ == Set::<Language>::empty(),
    {
        let set = LanguageSet { python: false, javascript: false, typescript: false, go: false, rust: false };
        proof {
            assert(set@ =~= Set::<Language>::empty());
        }
        set
    }

    /// Adds a language.
    pub fn insert(&mut self, language: Language)
        ensures
            final(self)@ == old(self)@.insert(language),
    {
        match language {
            Language::Python => self.python = true,
            Language::JavaScript => self.javascript = true,
            Language::TypeScript => self.typescript = true,
            Language::Go => self.go = true,
            Language::Rust => self.rust = true,
        }
        proof {
            assert(self@ =~= old(self)@.insert(language));
        }
    }

    /// Whether the set holds a language.
    pub fn contains(&self, language: Language) -> (found: bool)
        ensures
            found == self@.contains(language),
    {
        match language {
            Language::Python => self.python,
            Language::JavaScript => self.javascript,
            Language::TypeScript => self.typescript,
            Language::Go => self.go,
            Language::Rust => self.rust,
        }
    }

    /// Whether the set is empty.
    pub fn is_empty(&self) -> (empty: bool)
        ensures
            empty == (self@ == Set::<Language>::empty()),
    {
        let empty = !(self.python || self.javascript || self.typescript || self.go || self.rust);
        proof {
            if empty {
                assert(self@ =~= Set::<Language>::empty());
            } else {
                if self.python {
                    assert(self@.contains(Language::Python));
                } else if self.javascript {
                    assert(self@.contains(Language::JavaScript));
                } else if self.typescript {
                    assert(self@.contains(Language::TypeScript));
                } else if self.go {
                    assert(self@.contains(Language::Go));
                } else {
                    assert(self@.contains(Language::Rust));
                }
            }
        }
        empty
    }

    /// The languages both sets hold.
    pub fn intersect(&self, other: &LanguageSet) -> (both: LanguageSet)
        ensures
            both@ == self@.intersect(other@),
    {
        let both = LanguageSet {
            python: self.python && other.python,
            javascript: self.javascript && other.javascript,
            typescript: self.typescript && other.typescript,
            go: self.go && other.go,
            rust: self.rust && other.rust,
        };
        proof {
            assert(both@ =~= self@.intersect(other@));
        }
        both
    }
}

/// The languages named, by their canonical names, in a list of language names.
pub open spec fn named_languages(values: Seq<String>) -> Set<Language> {
    Set::new(|l: Language| exists|i: int| 0 <= i < values.len() && (#[trigger] values[i])@ == language_name(l))
}

/// The languages a list of names enables; unknown names are ignored.
pub fn enabled_languages(values: &Vec<String>) -> (enabled: LanguageSet)
    ensures
        enabled@ == named_languages(values@),
{
    let mut enabled = LanguageSet::new();
    let mut i: usize = 0;
    while i < values.len()
        invariant
            i <= values.len(),
            forall|l: Language| #[trigger] enabled@.contains(l) <==> exists|j: int| 0 <= j < i && (#[trigger] values@[j])@ == language_name(l),
        decreases values.len() - i,
    {
        let ghost before = enabled@;
        let value = values[i].as_str();
        if str_eq(value, Language::Python.as_str()) {
            enabled.insert(Language::Python);
        }
        if str_eq(value, Language::JavaScript.as_str()) {
            enabled.insert(Language::JavaScript);
        }
        if str_eq(value, Language::TypeScript.as_str()) {
            enabled.insert(Language::TypeScript);
        }
        if str_eq(value, Language::Go.as_str()) {
            enabled.insert(Language::Go);
        }
        if str_eq(value, Language::Rust.as_str()) {
            enabled.insert(Language::Rust);
        }
        proof {
            assert forall|l: Language| #[trigger] enabled@.contains(l) <==> (before.contains(l) || value@ == language_name(l)) by {}
            assert forall|l: Language| #[trigger] enabled@.contains(l) <==> exists|j: int| 0 <= j < i + 1 && (#[trigger] values@[j])@ == language_name(l) by {
                if exists|j: int| 0 <= j < i + 1 && (#[trigger] values@[j])@ == language_name(l) {
                    let j = choose|j: int| 0 <= j < i + 1 && (#[trigger] values@[j])@ == language_name(l);
                    if j < i {
                        assert(before.contains(l));
                    }
                }
            }
        }
        i += 1;
    }
    proof {
        assert(enabled@ =~= named_languages(values@));
    }
    enabled
}

/// Which manifest files stand at a repository's root.
#[derive(Debug, Clone, Copy, PartialEq, Eq, Structural)]
pub struct ManifestMarkers {
    pub pyproject_toml: bool,
    pub setup_py: bool,
    pub package_json: bool,
    pub go_mod: bool,
    pub cargo_toml: bool,
}

/// The languages a repository's manifests announce.
pub open spec fn manifest_languages(markers: ManifestMarkers) -> Set<Language> {
    Set::new(
        |l: Language|
            match l {
                Language::Python => markers.pyproject_toml || markers.setup_py,
                Language::JavaScript => markers.package_json,
                Language::TypeScript => markers.package_json,
                Language::Go => markers.go_mod,
                Language::Rust => markers.cargo_toml,
            },
    )
}

/// The languages of the files among a directory's entries.
pub open spec fn entry_languages(entries: Seq<String>) -> Set<Language> {
    Set::new(|l: Language| exists|i: int| 0 <= i < entries.len() && language_of_path((#[trigger] entries[i])@) == Some(l))
}

/// The languages a repository uses: those its manifests announce, or, when they announce
/// none, those of the files at its root; either way only the enabled ones.
pub open spec fn detected_languages(markers: ManifestMarkers, root_entries: Seq<String>, enabled: Set<Language>) -> Set<Language> {
    let found = if manifest_languages(markers) == Set::<Language>::empty() {
        entry_languages(root_entries)
    } else {
        manifest_languages(markers)
    };
    found.intersect(enabled)
}

/// Decides which languages a repository uses, from the manifests at its root and, when
/// those say nothing, the paths of the entries of its root directory.
pub fn detect_languages(markers: &ManifestMarkers, root_entries: &Vec<String>, enabled: &LanguageSet) -> (languages: LanguageSet)
    ensures
        languages@ == detected_languages(*markers, root_entries@, enabled@),
{
    let mut found = LanguageSet::new();
    if markers.pyproject_toml || markers.setup_py {
        found.insert(Language::Python);
    }
    if markers.package_json {
        found.insert(Language::JavaScript);
        found.insert(Language::TypeScript);
    }
    if markers.go_mod {
        found.insert(Language::Go);
    }
    if markers.cargo_toml {
        found.insert(Language::Rust);
    }
    proof {
        assert(found@ =~= manifest_languages(*markers));
    }
    if found.is_empty() {
        let mut i: usize = 0;
        while i < root_entries.len()
            invariant
                i <= root_entries.len(),
                forall|l: Language| #[trigger] found@.contains(l) <==> exists|j: int| 0 <= j < i && language_of_path((#[trigger] root_entries@[j])@) == Some(l),
            decreases root_entries.len() - i,
        {
            let ghost before = found@;
            if let Some(language) = Language::from_path(root_entries[i].as_str()) {
                found.insert(language);
            }
            proof {
                assert forall|l: Language| #[trigger] found@.contains(l) <==> exists|j: int| 0 <= j < i + 1 && language_of_path((#[trigger] root_entries@[j])@) == Some(l) by {
                    if exists|j: int| 0 <= j < i + 1 && language_of_path((#[trigger] root_entries@[j])@) == Some(l) {
                        let j = choose|j: int| 0 <= j < i + 1 && language_of_path((#[trigger] root_entries@[j])@) == Some(l);
                        if j < i {
                            assert(before.contains(l));
                        }
                    }
                }
            }
            i += 1;
        }
        proof {
            assert(found@ =~= entry_languages(root_entries@));
        }
    }
    found.intersect(enabled)
}

/// A relative path component that names a hidden entry: it starts with `.` and is not `.`.
pub open spec fn is_hidden_component(comp: Seq<char>) -> bool {
    comp.len() > 0 && comp[0] == '.' && comp != seq!['.']
}

/// Some of the components names a hidden entry.
pub open spec fn has_hidden_component(comps: Seq<Seq<char>>) -> bool {
    exists|i: int| 0 <= i < comps.len() && is_hidden_component(#[trigger] comps[i])
}

/// A path below the root passes through a hidden entry.
pub open spec fn hidden_below(path: Seq<char>, root: Seq<char>) -> bool {
    match relative_components(path, root) {
        Some(rest) => has_hidden_component(rest),
        None => false,
    }
}

/// Whether the part of a path below the root passes through a hidden file or directory.
pub fn is_hidden_path(root: &str, path: &str) -> (hidden: bool)
    ensures
        hidden == hidden_below(path@, root@),
{
    let rest = match strip_root(path, root) {
        Some(rest) => rest,
        None => return false,
    };
    let mut i: usize = 0;
    while i < rest.len()
        invariant
            i <= rest.len(),
            relative_components(path@, root@) == Some(views(rest@)),
            forall|j: int| 0 <= j < i ==> !is_hidden_component(#[trigger] views(rest@)[j]),
        decreases rest.len() - i,
    {
        let comp = &rest[i];
        proof {
            assert(views(rest@)[i as int] == comp@);
            reveal_strlit(".");
            assert("."@ =~= seq!['.']);
        }
        if comp.len() > 0 && comp[0] == '.' && !chars_are(comp, ".") {
            proof {
                let r = views(rest@);
                assert(is_hidden_component(r[i as int]));
                assert(0 <= i < r.len());
                assert(has_hidden_component(r));
            }
            return true;
        }
        i += 1;
    }
    false
}

/// The directory names that are never scanned.
pub open spec fn is_default_excluded(comp: Seq<char>) -> bool {
    comp == "node_modules"@ || comp == "__pycache__"@ || comp == "target"@ || comp == "dist"@ || comp == "build"@
        || comp == "vendor"@ || comp == ".git"@
}

/// Whether a path passes through a directory that is never scanned (dependencies, build
/// output, VCS metadata).
pub fn has_default_excluded_component(path: &str) -> (excluded: bool)
    ensures
        excluded == exists|i: int| 0 <= i < path_components(path@).len() && is_default_excluded(#[trigger] path_components(path@)[i]),
{
    let comps = components_of(path);
    let mut i: usize = 0;
    while i < comps.len()
        invariant
            i <= comps.len(),
            views(comps@) == path_components(path@),
            forall|j: int| 0 <= j < i ==> !is_default_excluded(#[trigger] views(comps@)[j]),
        decreases comps.len() - i,
    {
        let comp = &comps[i];
        proof {
            assert(views(comps@)[i as int] == comp@);
        }
        if chars_are(comp, "node_modules") || chars_are(comp, "__pycache__") || chars_are(comp, "target") || chars_are(comp, "dist")
            || chars_are(comp, "build") || chars_are(comp, "vendor") || chars_are(comp, ".git") {
            return true;
        }
        i += 1;
    }
    false
}

/// A path below the root matches one of the configured exclusion globs.
pub open spec fn excluded_by_patterns(path: Seq<char>, root: Seq<char>, patterns: Seq<String>) -> bool {
    relative_components(path, root) is Some && exists|j: int|
        0 <= j < patterns.len() && glob_matches(
            vstd::utf8::encode_utf8((#[trigger] patterns[j])@),
            vstd::utf8::encode_utf8(relative_text(path, root)),
        )
}

/// Whether the path, relative to the root and written with `/`, matches an exclusion glob.
pub fn is_excluded_by_config(root: &str, path: &str, patterns: &Vec<String>) -> (excluded: bool)
    ensures
        excluded == excluded_by_patterns(path@, root@, patterns@),
{
    if strip_root(path, root).is_none() {
        return false;
    }
    let relative = relative_string(path, root);
    let mut j: usize = 0;
    while j < patterns.len()
        invariant
            j <= patterns.len(),
            relative@ == relative_text(path@, root@),
            relative_components(path@, root@) is Some,
            forall|k: int| 0 <= k < j ==> !glob_matches(
                vstd::utf8::encode_utf8((#[trigger] patterns@[k])@),
                vstd::utf8::encode_utf8(relative_text(path@, root@)),
            ),
        decreases patterns.len() - j,
    {
        if wildcard_match(patterns[j].as_str(), relative.as_str()) {
            return true;
        }
        j += 1;
    }
    false
}

/// The first bytes of a file mark it as binary when they hold a zero byte.
pub fn contains_nul(head: &[u8]) -> (binary: bool)
    ensures
        binary == exists|i: int| 0 <= i < head.len() && head[i] == 0,
{
    let mut i: usize = 0;
    while i < head.len()
        invariant
            i <= head.len(),
            forall|j: int| 0 <= j < i ==> head[j] != 0,
        decreases head.len() - i,
    {
        if head[i] == 0 {
            return true;
        }
        i += 1;
    }
    false
}

/// The walk skips a path without reading it: hidden below the root, inside a directory that
/// is never scanned, or excluded by the configuration.
pub open spec fn skipped_path(root: Seq<char>, path: Seq<char>, patterns: Seq<String>) -> bool {
    ||| hidden_below(path, root)
    ||| exists|i: int| 0 <= i < path_components(path).len() && is_default_excluded(#[trigger] path_components(path)[i])
    ||| excluded_by_patterns(path, root, patterns)
}

/// Whether the walk skips a path before looking at its contents.
pub fn is_skipped_path(root: &str, path: &str, patterns: &Vec<String>) -> (skipped: bool)
    ensures
        skipped == skipped_path(root@, path@, patterns@),
{
    is_hidden_path(root, path) || has_default_excluded_component(path) || is_excluded_by_config(root, path, patterns)
}

/// The language a walked file is scanned as: none when its first bytes show it is binary,
/// when its extension names no language, or when that language is not enabled.
pub open spec fn scanned_language(path: Seq<char>, head: Seq<u8>, enabled: Set<Language>) -> Option<Language> {
    if exists|i: int| 0 <= i < head.len() && head[i] == 0 {
        None
    } else {
        match language_of_path(path) {
            Some(l) => if enabled.contains(l) {
                Some(l)
            } else {
                None
            },
            None => None,
        }
    }
}

/// Decides the language a walked file is scanned as, from its path and its first bytes.
pub fn file_language(path: &str, head: &[u8], enabled: &LanguageSet) -> (language: Option<Language>)
    ensures
        language == scanned_language(path@, head@, enabled@),
{
    if contains_nul(head) {
        return None;
    }
    match Language::from_path(path) {
        Some(l) => if enabled.contains(l) {
            Some(l)
        } else {
            None
        },
        None => None,
    }
}

} // verus!
