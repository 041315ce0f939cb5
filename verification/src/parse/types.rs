//! The data the scanner extracts and reports: symbols, references and findings.

use vstd::prelude::*;

use crate::paths::{join_parts, join_with, relative_chars, relative_text, views};
use crate::text::{chars_of, string_from_chars};

verus! {

/// What kind of definition a symbol is.
#[derive(Debug, Clone, Copy, PartialEq, Eq, Structural)]
pub enum SymbolKind {
    Function,
    Method,
    Class,
    Struct,
    Enum,
    Variable,
    Interface,
    TypeAlias,
}

/// The display name of a symbol kind.
pub open spec fn symbol_kind_name(kind: SymbolKind) -> Seq<char> {
    match kind {
        SymbolKind::Function => "function"@,
        SymbolKind::Method => "method"@,
        SymbolKind::Class => "class"@,
        SymbolKind::Struct => "struct"@,
        SymbolKind::Enum => "enum"@,
        SymbolKind::Variable => "variable"@,
        SymbolKind::Interface => "interface"@,
        SymbolKind::TypeAlias => "type_alias"@,
    }
}

impl SymbolKind {
    /// The display name of the kind.
    pub fn as_str(&self) -> (name: &'static str)
        ensures
            name@ == symbol_kind_name(*self),
    {
        match self {
            SymbolKind::Function => "function",
            SymbolKind::Method => "method",
            SymbolKind::Class => "class",
            SymbolKind::Struct => "struct",
            SymbolKind::Enum => "enum",
            SymbolKind::Variable => "variable",
            SymbolKind::Interface => "interface",
            SymbolKind::TypeAlias => "type_alias",
        }
    }

    /// The display name of the kind, as an owned string.
    pub fn to_string(&self) -> (name: String)
        ensures
            name@ == symbol_kind_name(*self),
    {
        self.as_str().to_owned()
    }
}

/// Why a symbol is reported.
#[derive(Debug, Clone, Copy, PartialEq, Eq, Structural)]
pub enum FindingTag {
    Dead,
    ExportedUnused,
    InDeadCycle,
    TestOnly,
}

/// The display name of a finding tag.
pub open spec fn finding_tag_name(tag: FindingTag) -> Seq<char> {
    match tag {
        FindingTag::Dead => "dead"@,
        FindingTag::ExportedUnused => "exported_unused"@,
        FindingTag::InDeadCycle => "in_dead_cycle"@,
        FindingTag::TestOnly => "test_only"@,
    }
}

impl FindingTag {
    /// The display name of the tag.
    pub fn as_str(&self) -> (name: &'static str)
        ensures
            name@ == finding_tag_name(*self),
    {
        match self {
            FindingTag::Dead => "dead",
            FindingTag::ExportedUnused => "exported_unused",
            FindingTag::InDeadCycle => "in_dead_cycle",
            FindingTag::TestOnly => "test_only",
        }
    }

    /// The display name of the tag, as an owned string.
    pub fn to_string(&self) -> (name: String)
        ensures
            name@ == finding_tag_name(*self),
    {
        self.as_str().to_owned()
    }
}

/// A definition found in a source file.
#[derive(Debug, Clone, PartialEq, Eq)]
pub struct Symbol {
    pub fqn: String,
    pub name: String,
    pub kind: SymbolKind,
    pub language: String,
    pub file: String,
    pub line_start: u32,
    pub line_end: u32,
    pub is_exported: bool,
    pub is_test: bool,
}

impl Symbol {
    /// A copy of the symbol, field for field.
    pub fn duplicate(&self) -> (copy: Symbol)
        ensures
            copy == *self,
    {
        Symbol {
            fqn: self.fqn.clone(),
            name: self.name.clone(),
            kind: self.kind,
            language: self.language.clone(),
            file: self.file.clone(),
            line_start: self.line_start,
            line_end: self.line_end,
            is_exported: self.is_exported,
            is_test: self.is_test,
        }
    }
}

/// What a symbol says, as text.
pub struct SymbolView {
    pub fqn: Seq<char>,
    pub name: Seq<char>,
    pub kind: SymbolKind,
    pub language: Seq<char>,
    pub file: Seq<char>,
    pub line_start: u32,
    pub line_end: u32,
    pub is_exported: bool,
    pub is_test: bool,
}

impl View for Symbol {
    type V = SymbolView;

    open spec fn view(&self) -> SymbolView {
        SymbolView {
            fqn: self.fqn@,
            name: self.name@,
            kind: self.kind,
            language: self.language@,
            file: self.file@,
            line_start: self.line_start,
            line_end: self.line_end,
            is_exported: self.is_exported,
            is_test: self.is_test,
        }
    }
}

/// The views of a list of symbols.
pub open spec fn symbol_views(symbols: Seq<Symbol>) -> Seq<SymbolView> {
    symbols.map_values(|s: Symbol| s@)
}

/// A call from inside one symbol to a name.
#[derive(Debug, Clone, PartialEq, Eq)]
pub struct Reference {
    pub source_fqn: String,
    pub target_name: String,
    pub file: String,
    pub line: u32,
}

/// What a reference says, as text.
pub struct ReferenceView {
    pub source_fqn: Seq<char>,
    pub target_name: Seq<char>,
    pub file: Seq<char>,
    pub line: u32,
}

impl View for Reference {
    type V = ReferenceView;

    open spec fn view(&self) -> ReferenceView {
        ReferenceView {
            source_fqn: self.source_fqn@,
            target_name: self.target_name@,
            file: self.file@,
            line: self.line,
        }
    }
}

/// The views of a list of references.
pub open spec fn reference_views(references: Seq<Reference>) -> Seq<ReferenceView> {
    references.map_values(|r: Reference| r@)
}

/// A reported dead symbol with the evidence behind its score.
///
/// `confidence` is in hundredths (a score of 0.87 is 87); `deadness_age_secs` is the
/// time since the symbol's lines were last touched, in seconds.
#[derive(Debug, Clone, PartialEq, Eq)]
pub struct Finding {
    pub symbol: Symbol,
    pub tag: FindingTag,
    pub confidence: u32,
    pub deadness_age_secs: u64,
    pub commits_90d: usize,
    pub in_degree: usize,
}

impl Finding {
    /// A copy of the finding, field for field.
    pub fn duplicate(&self) -> (copy: Finding)
        ensures
            copy == *self,
    {
        Finding {
            symbol: self.symbol.duplicate(),
            tag: self.tag,
            confidence: self.confidence,
            deadness_age_secs: self.deadness_age_secs,
            commits_90d: self.commits_90d,
            in_degree: self.in_degree,
        }
    }
}

/// The fully qualified name of a definition: its file relative to the root, then the
/// enclosing names, all joined by `::`.
pub open spec fn fqn_text(file: Seq<char>, root: Seq<char>, parts: Seq<Seq<char>>) -> Seq<char> {
    join_with(seq![relative_text(file, root)] + parts, "::"@)
}

/// The views of a list of string slices.
pub open spec fn str_views(parts: Seq<&str>) -> Seq<Seq<char>> {
    parts.map_values(|p: &str| p@)
}

/// Builds the fully qualified name of a definition in `file` under `root`.
pub fn build_fqn(file: &str, root: &str, parts: &[&str]) -> (fqn: String)
    ensures
        fqn@ == fqn_text(file@, root@, str_views(parts@)),
{
    let mut pieces: Vec<Vec<char>> = Vec::new();
    pieces.push(relative_chars(file, root));
    let mut i: usize = 0;
    while i < parts.len()
        invariant
            i <= parts.len(),
            views(pieces@) == seq![relative_text(file@, root@)] + str_views(parts@).subrange(0, i as int),
        decreases parts.len() - i,
    {
        let ghost before = pieces@;
        let part = chars_of(parts[i]);
        pieces.push(part);
        proof {
            assert(views(before.push(part)) =~= views(before).push(part@));
            assert(str_views(parts@).subrange(0, i + 1) =~= str_views(parts@).subrange(0, i as int).push(
                parts@[i as int]@,
            ));
        }
        i += 1;
    }
    let sep = chars_of("::");
    let joined = join_parts(&pieces, 0, &sep);
    proof {
        assert(str_views(parts@).subrange(0, parts.len() as int) =~= str_views(parts@));
        assert(pieces@.subrange(0, pieces.len() as int) =~= pieces@);
    }
    string_from_chars(joined.as_slice())
}

} // verus!
