//! The SARIF rules and the result each finding becomes.

use vstd::prelude::*;

use crate::format::{push_str, push_two_decimals, two_decimals};
use crate::parse::types::{Finding, FindingTag};
use crate::paths::{display_path, plain_relative, push_all};
use crate::text::{chars_of, string_from_chars};

verus! {

/// The rule identifier of a tag.
pub open spec fn rule_id(tag: FindingTag) -> Seq<char> {
    match tag {
        FindingTag::Dead => "GY001"@,
        FindingTag::ExportedUnused => "GY002"@,
        FindingTag::InDeadCycle => "GY003"@,
        FindingTag::TestOnly => "GY004"@,
    }
}

/// The rule name of a tag.
pub open spec fn rule_name(tag: FindingTag) -> Seq<char> {
    match tag {
        FindingTag::Dead => "Dead"@,
        FindingTag::ExportedUnused => "ExportedUnused"@,
        FindingTag::InDeadCycle => "InDeadCycle"@,
        FindingTag::TestOnly => "TestOnly"@,
    }
}

/// The short description of a tag's rule.
pub open spec fn rule_description(tag: FindingTag) -> Seq<char> {
    match tag {
        FindingTag::Dead => "Symbol appears unreachable"@,
        FindingTag::ExportedUnused => "Exported symbol has no internal callers"@,
        FindingTag::InDeadCycle => "Symbol is only referenced within a dead cycle"@,
        FindingTag::TestOnly => "Symbol is only referenced from tests"@,
    }
}

/// The identifier, name and description of the rule a tag reports under.
pub fn rule_metadata(tag: FindingTag) -> (meta: (&'static str, &'static str, &'static str))
    ensures
        meta.0@ == rule_id(tag),
        meta.1@ == rule_name(tag),
        meta.2@ == rule_description(tag),
{
    match tag {
        FindingTag::Dead => ("GY001", "Dead", "Symbol appears unreachable"),
        FindingTag::ExportedUnused => ("GY002", "ExportedUnused", "Exported symbol has no internal callers"),
        FindingTag::InDeadCycle => ("GY003", "InDeadCycle", "Symbol is only referenced within a dead cycle"),
        FindingTag::TestOnly => ("GY004", "TestOnly", "Symbol is only referenced from tests"),
    }
}

/// A rule of the SARIF report.
#[derive(Debug, Clone, Copy, PartialEq, Eq)]
pub struct SarifRule {
    pub id: &'static str,
    pub name: &'static str,
    pub description: &'static str,
}

/// The rule a tag reports under.
pub open spec fn rule_of(rule: SarifRule, tag: FindingTag) -> bool {
    rule.id@ == rule_id(tag) && rule.name@ == rule_name(tag) && rule.description@ == rule_description(tag)
}

/// The rule findings with this tag are reported under.
pub fn rule_for_tag(tag: FindingTag) -> (rule: SarifRule)
    ensures
        rule_of(rule, tag),
{
    let (id, name, description) = rule_metadata(tag);
    SarifRule { id, name, description }
}

/// Every rule, one per tag, in the order dead, exported-unused, dead-cycle, test-only.
pub fn all_rules() -> (rules: Vec<SarifRule>)
    ensures
        rules.len() == 4,
        rule_of(rules@[0], FindingTag::Dead),
        rule_of(rules@[1], FindingTag::ExportedUnused),
        rule_of(rules@[2], FindingTag::InDeadCycle),
        rule_of(rules@[3], FindingTag::TestOnly),
{
    let mut rules: Vec<SarifRule> = Vec::new();
    rules.push(rule_for_tag(FindingTag::Dead));
    rules.push(rule_for_tag(FindingTag::ExportedUnused));
    rules.push(rule_for_tag(FindingTag::InDeadCycle));
    rules.push(rule_for_tag(FindingTag::TestOnly));
    rules
}

/// The result a finding becomes in the SARIF report.
#[derive(Debug, Clone, PartialEq, Eq)]
pub struct SarifResult {
    pub rule_id: &'static str,
    pub level: &'static str,
    pub message: String,
    pub uri: String,
    pub start_line: u32,
}

/// The severity of a finding: an error from confidence 0.80, a warning below.
pub open spec fn level_of(confidence: u32) -> Seq<char> {
    if confidence >= 80 {
        "error"@
    } else {
        "warning"@
    }
}

/// The message of a finding's result.
pub open spec fn result_message(f: Finding) -> Seq<char> {
    f.symbol.fqn@ + " appears to be dead code (confidence "@ + two_decimals(f.confidence as nat) + ")"@
}

/// The artifact location of a file as shown.
pub open spec fn file_uri(shown_file: Seq<char>) -> Seq<char> {
    "file:///"@ + shown_file
}

/// The SARIF result of a finding whose file is shown as `shown_file`: its tag's rule, its
/// severity, a message naming the symbol and its confidence, and where the symbol starts.
pub fn sarif_result(f: &Finding, shown_file: &str) -> (result: SarifResult)
    ensures
        result.rule_id@ == rule_id(f.tag),
        result.level@ == level_of(f.confidence),
        result.message@ == result_message(*f),
        result.uri@ == file_uri(shown_file@),
        result.start_line == f.symbol.line_start,
{
    let (rule_id, _, _) = rule_metadata(f.tag);
    let level = if f.confidence >= 80 { "error" } else { "warning" };
    let mut message = chars_of(f.symbol.fqn.as_str());
    push_str(&mut message, " appears to be dead code (confidence ");
    push_two_decimals(&mut message, f.confidence as u64);
    push_str(&mut message, ")");
    let mut uri = chars_of("file:///");
    let file = chars_of(shown_file);
    push_all(&mut uri, &file);
    SarifResult {
        rule_id,
        level,
        message: string_from_chars(message.as_slice()),
        uri: string_from_chars(uri.as_slice()),
        start_line: f.symbol.line_start,
    }
}

/// The SARIF result of a finding, its file as `path_slash` shows it on this platform (as
/// written, for a plain relative path).
pub fn result_for_finding(f: &Finding) -> (result: SarifResult)
    ensures
        result.rule_id@ == rule_id(f.tag),
        result.level@ == level_of(f.confidence),
        result.message@ == result_message(*f),
        exists|shown: Seq<char>| result.uri@ == file_uri(shown),
        plain_relative(f.symbol.file@) ==> result.uri@ == file_uri(f.symbol.file@),
        result.start_line == f.symbol.line_start,
{
    let shown = display_path(f.symbol.file.as_str());
    sarif_result(f, shown.as_str())
}

} // verus!
