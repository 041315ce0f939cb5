//! The table report: one padded line per finding between a header and a footer, with ANSI
//! colours from `owo-colors` when they are wanted.

use vstd::prelude::*;

use crate::format::{decimal, push_decimal, push_str, push_two_decimals, two_decimals};
use crate::index::texts;
use crate::output::csv::{shown_files_of, shows_files};
use crate::parse::types::{finding_tag_name, Finding};
use crate::paths::{display_path, plain_relative, push_all};
use crate::text::{chars_of, string_from_chars};

verus! {

/// How strongly a confidence is highlighted in the table.
#[derive(Debug, Clone, Copy, PartialEq, Eq, Structural)]
pub enum ConfidenceBand {
    High,
    Medium,
    Low,
}

/// The band of a confidence in hundredths: high from 0.90, medium from 0.70, low below.
pub open spec fn band_of(confidence: u32) -> ConfidenceBand {
    if confidence >= 90 {
        ConfidenceBand::High
    } else if confidence >= 70 {
        ConfidenceBand::Medium
    } else {
        ConfidenceBand::Low
    }
}

/// The band a confidence (in hundredths) is highlighted with.
pub fn confidence_band(confidence: u32) -> (band: ConfidenceBand)
    ensures
        band == band_of(confidence),
{
    if confidence >= 90 {
        ConfidenceBand::High
    } else if confidence >= 70 {
        ConfidenceBand::Medium
    } else {
        ConfidenceBand::Low
    }
}

/// A fully qualified name shortened to at most `max_chars` characters, the last of which
/// is an ellipsis when it was cut.
pub open spec fn truncated(fqn: Seq<char>, max_chars: usize) -> Seq<char> {
    if fqn.len() <= max_chars {
        fqn
    } else {
        let visible = if max_chars == 0 { 0 } else { max_chars - 1 };
        fqn.take(visible) + seq!['\u{2026}']
    }
}

/// Shortens a fully qualified name for the table.
pub fn truncate_fqn(fqn: &str, max_chars: usize) -> (shown: String)
    ensures
        shown@ == truncated(fqn@, max_chars),
{
    let chars = chars_of(fqn);
    if chars.len() <= max_chars {
        return fqn.to_owned();
    }
    let visible = if max_chars == 0 { 0 } else { max_chars - 1 };
    let mut out: Vec<char> = Vec::new();
    let mut i: usize = 0;
    while i < visible
        invariant
            i <= visible < chars.len(),
            out@ == chars@.take(i as int),
        decreases visible - i,
    {
        out.push(chars[i]);
        proof {
            assert(out@ =~= chars@.take(i + 1));
        }
        i += 1;
    }
    out.push('\u{2026}');
    string_from_chars(out.as_slice())
}

/// Where a finding is: its file as shown, a colon and its first line.
pub open spec fn location_text(shown_file: Seq<char>, line: u32) -> Seq<char> {
    shown_file + seq![':'] + decimal(line as nat)
}

/// The location column for a file as shown and a line.
pub fn location_of(shown_file: &str, line: u32) -> (label: String)
    ensures
        label@ == location_text(shown_file@, line),
{
    let mut out = chars_of(shown_file);
    out.push(':');
    push_decimal(&mut out, line as u64);
    string_from_chars(out.as_slice())
}

/// The location column of a finding: its file as `path_slash` shows it on this platform (as
/// written, for a plain relative path), a colon and its first line.
pub fn location_label(file: &str, line: u32) -> (label: String)
    ensures
        exists|shown: Seq<char>| label@ == location_text(shown, line),
        plain_relative(file@) ==> label@ == location_text(file@, line),
{
    let shown = display_path(file);
    location_of(shown.as_str(), line)
}

/// `n` spaces.
pub open spec fn spaces(n: nat) -> Seq<char> {
    Seq::new(n, |i: int| ' ')
}

/// A cell of at least `width` characters: the text, then spaces up to the width.
pub open spec fn padded(text: Seq<char>, width: nat) -> Seq<char> {
    if text.len() >= width {
        text
    } else {
        text + spaces((width - text.len()) as nat)
    }
}

/// The text in red, as `owo-colors` writes it.
pub open spec fn red(text: Seq<char>) -> Seq<char> {
    "\x1b[31m"@ + text + "\x1b[39m"@
}

/// The text in yellow, as `owo-colors` writes it.
pub open spec fn yellow(text: Seq<char>) -> Seq<char> {
    "\x1b[33m"@ + text + "\x1b[39m"@
}

/// The text in white, as `owo-colors` writes it.
pub open spec fn white(text: Seq<char>) -> Seq<char> {
    "\x1b[37m"@ + text + "\x1b[39m"@
}

/// The text in green, as `owo-colors` writes it.
pub open spec fn green(text: Seq<char>) -> Seq<char> {
    "\x1b[32m"@ + text + "\x1b[39m"@
}

/// The text in bold, as `owo-colors` writes it.
pub open spec fn bold(text: Seq<char>) -> Seq<char> {
    "\x1b[1m"@ + text + "\x1b[0m"@
}

/// The text underlined, as `owo-colors` writes it.
pub open spec fn underlined(text: Seq<char>) -> Seq<char> {
    "\x1b[4m"@ + text + "\x1b[0m"@
}

/// Calls `owo_colors::OwoColorize::red` and writes the result: the red code, the text, the
/// code that resets the foreground colour.
#[verifier::external_body]
fn paint_red(text: &str) -> (painted: String)
    ensures
        painted@ == red(text@),
{
    format!("{}", owo_colors::OwoColorize::red(&text))
}

/// Calls `owo_colors::OwoColorize::yellow` and writes the result.
#[verifier::external_body]
fn paint_yellow(text: &str) -> (painted: String)
    ensures
        painted@ == yellow(text@),
{
    format!("{}", owo_colors::OwoColorize::yellow(&text))
}

/// Calls `owo_colors::OwoColorize::white` and writes the result.
#[verifier::external_body]
fn paint_white(text: &str) -> (painted: String)
    ensures
        painted@ == white(text@),
{
    format!("{}", owo_colors::OwoColorize::white(&text))
}

/// Calls `owo_colors::OwoColorize::green` and writes the result.
#[verifier::external_body]
fn paint_green(text: &str) -> (painted: String)
    ensures
        painted@ == green(text@),
{
    format!("{}", owo_colors::OwoColorize::green(&text))
}

/// Calls `owo_colors::OwoColorize::bold` and writes the result: the bold code, the text,
/// the code that resets every style.
#[verifier::external_body]
fn paint_bold(text: &str) -> (painted: String)
    ensures
        painted@ == bold(text@),
{
    format!("{}", owo_colors::OwoColorize::bold(&text))
}

/// Calls `owo_colors::OwoColorize::underline` and writes the result.
#[verifier::external_body]
fn paint_underline(text: &str) -> (painted: String)
    ensures
        painted@ == underlined(text@),
{
    format!("{}", owo_colors::OwoColorize::underline(&text))
}

/// The header line's text.
pub open spec fn header_text() -> Seq<char> {
    "CONFIDENCE  TAG               AGE         LOCATION                  FQN"@
}

/// The confidence cell of a row: the confidence with two decimals, padded to 10, coloured by
/// its band when colours are on.
pub open spec fn confidence_cell(confidence: u32, color: bool) -> Seq<char> {
    let cell = padded(two_decimals(confidence as nat), 10);
    if !color {
        cell
    } else {
        match band_of(confidence) {
            ConfidenceBand::High => red(cell),
            ConfidenceBand::Medium => yellow(cell),
            ConfidenceBand::Low => white(cell),
        }
    }
}

/// One row: confidence, tag, age, location and name, two spaces apart.
pub open spec fn table_row(f: Finding, shown_file: Seq<char>, age: Seq<char>, color: bool) -> Seq<char> {
    confidence_cell(f.confidence, color) + "  "@ + padded(finding_tag_name(f.tag), 16) + "  "@ + padded(age, 10) + "  "@
        + padded(location_text(shown_file, f.symbol.line_start), 24) + "  "@ + truncated(f.symbol.fqn@, 60) + seq!['\n']
}

/// The rows of the findings, in order.
pub open spec fn table_rows(findings: Seq<Finding>, shown_files: Seq<Seq<char>>, ages: Seq<Seq<char>>, color: bool) -> Seq<char>
    decreases findings.len(),
{
    if findings.len() == 0 {
        Seq::empty()
    } else {
        table_rows(findings.drop_last(), shown_files.drop_last(), ages.drop_last(), color) + table_row(
            findings.last(),
            shown_files.last(),
            ages.last(),
            color,
        )
    }
}

/// The header line, bold and underlined when colours are on.
pub open spec fn table_header(color: bool) -> Seq<char> {
    (if color { underlined(bold(header_text())) } else { header_text() }) + seq!['\n']
}

/// The footer line: how many findings, and the thresholds they were found under.
pub open spec fn table_footer(count: nat, min_confidence: Seq<char>, min_age: Seq<char>, color: bool) -> Seq<char> {
    let footer = "Found "@ + decimal(count) + " dead symbol(s) \u{2014} min-confidence "@ + min_confidence + ", min-age "@
        + min_age;
    (if color { bold(footer) } else { footer }) + seq!['\n']
}

/// The line shown when nothing was found.
pub open spec fn nothing_found(min_confidence: Seq<char>, color: bool) -> Seq<char> {
    let message = "\u{2713} No dead code found above confidence "@ + min_confidence;
    (if color { green(message) } else { message }) + seq!['\n']
}

/// The table report: the line saying nothing was found, or the header, one row per finding
/// and the footer.
pub open spec fn table_text(
    findings: Seq<Finding>,
    shown_files: Seq<Seq<char>>,
    ages: Seq<Seq<char>>,
    min_confidence: Seq<char>,
    min_age: Seq<char>,
    color: bool,
) -> Seq<char> {
    if findings.len() == 0 {
        nothing_found(min_confidence, color)
    } else {
        table_header(color) + table_rows(findings, shown_files, ages, color) + table_footer(
            findings.len(),
            min_confidence,
            min_age,
            color,
        )
    }
}

/// Appends a text padded with spaces to `width` characters.
fn push_padded(out: &mut Vec<char>, text: &Vec<char>, width: usize)
    ensures
        final(out)@ == old(out)@ + padded(text@, width as nat),
{
    let ghost start = out@;
    push_all(out, text);
    let mut n: usize = text.len();
    while n < width
        invariant
            text.len() <= n <= width || (n == text.len() && n >= width),
            out@ == start + text@ + spaces((n - text.len()) as nat),
        decreases width - n,
    {
        out.push(' ');
        proof {
            assert(out@ =~= start + text@ + spaces((n + 1 - text.len()) as nat));
        }
        n += 1;
    }
    proof {
        if text.len() >= width {
            assert(out@ =~= start + text@);
        }
    }
}

/// Appends a text painted by one of the colour wrappers, or as it is.
fn push_painted(out: &mut Vec<char>, painted: String)
    ensures
        final(out)@ == old(out)@ + painted@,
{
    let chars = chars_of(painted.as_str());
    push_all(out, &chars);
}

/// Appends the confidence cell of a row.
fn push_confidence_cell(out: &mut Vec<char>, confidence: u32, color: bool)
    ensures
        final(out)@ == old(out)@ + confidence_cell(confidence, color),
{
    let mut digits: Vec<char> = Vec::new();
    push_two_decimals(&mut digits, confidence as u64);
    let mut cell: Vec<char> = Vec::new();
    push_padded(&mut cell, &digits, 10);
    if !color {
        push_all(out, &cell);
    } else {
        let text = string_from_chars(cell.as_slice());
        let painted = match confidence_band(confidence) {
            ConfidenceBand::High => paint_red(text.as_str()),
            ConfidenceBand::Medium => paint_yellow(text.as_str()),
            ConfidenceBand::Low => paint_white(text.as_str()),
        };
        push_painted(out, painted);
    }
}

/// Appends one row.
fn push_table_row(out: &mut Vec<char>, f: &Finding, shown_file: &str, age: &str, color: bool)
    ensures
        final(out)@ == old(out)@ + table_row(*f, shown_file@, age@, color),
{
    let ghost start = out@;
    push_confidence_cell(out, f.confidence, color);
    push_str(out, "  ");
    push_padded(out, &chars_of(f.tag.as_str()), 16);
    push_str(out, "  ");
    push_padded(out, &chars_of(age), 10);
    push_str(out, "  ");
    let location = location_of(shown_file, f.symbol.line_start);
    push_padded(out, &chars_of(location.as_str()), 24);
    push_str(out, "  ");
    let name = truncate_fqn(f.symbol.fqn.as_str(), 60);
    push_all(out, &chars_of(name.as_str()));
    out.push('\n');
    proof {
        assert(out@ =~= start + table_row(*f, shown_file@, age@, color));
    }
}

/// The table report with each finding's file shown as the text at its position in
/// `shown_files` and its age as the text at its position in `ages`; `min_confidence` and
/// `min_age` are the thresholds as written in the header and footer.
pub fn table_layout(
    findings: &Vec<Finding>,
    shown_files: &Vec<String>,
    ages: &Vec<String>,
    min_confidence: &str,
    min_age: &str,
    color: bool,
) -> (report: String)
    requires
        shown_files.len() == findings.len(),
        ages.len() == findings.len(),
    ensures
        report@ == table_text(findings@, texts(shown_files@), texts(ages@), min_confidence@, min_age@, color),
{
    let mut out: Vec<char> = Vec::new();
    if findings.len() == 0 {
        let mut message: Vec<char> = Vec::new();
        push_str(&mut message, "\u{2713} No dead code found above confidence ");
        push_str(&mut message, min_confidence);
        if color {
            push_painted(&mut out, paint_green(string_from_chars(message.as_slice()).as_str()));
        } else {
            push_all(&mut out, &message);
        }
        out.push('\n');
        proof {
            assert(out@ =~= nothing_found(min_confidence@, color));
        }
        return string_from_chars(out.as_slice());
    }
    if color {
        let header = paint_bold("CONFIDENCE  TAG               AGE         LOCATION                  FQN");
        push_painted(&mut out, paint_underline(header.as_str()));
    } else {
        push_str(&mut out, "CONFIDENCE  TAG               AGE         LOCATION                  FQN");
    }
    out.push('\n');
    let ghost head = out@;
    assert(head == table_header(color));
    let ghost files = texts(shown_files@);
    let ghost age_texts = texts(ages@);
    let mut i: usize = 0;
    while i < findings.len()
        invariant
            i <= findings.len(),
            shown_files.len() == findings.len(),
            ages.len() == findings.len(),
            files == texts(shown_files@),
            age_texts == texts(ages@),
            out@ == head + table_rows(findings@.take(i as int), files.take(i as int), age_texts.take(i as int), color),
        decreases findings.len() - i,
    {
        proof {
            assert(findings@.take(i + 1).drop_last() =~= findings@.take(i as int));
            assert(files.take(i + 1).drop_last() =~= files.take(i as int));
            assert(age_texts.take(i + 1).drop_last() =~= age_texts.take(i as int));
        }
        push_table_row(&mut out, &findings[i], shown_files[i].as_str(), ages[i].as_str(), color);
        proof {
            assert(out@ =~= head + table_rows(findings@.take(i + 1), files.take(i + 1), age_texts.take(i + 1), color));
        }
        i += 1;
    }
    proof {
        assert(findings@.take(findings.len() as int) =~= findings@);
        assert(files.take(findings.len() as int) =~= files);
        assert(age_texts.take(findings.len() as int) =~= age_texts);
    }
    let ghost body = out@;
    let mut footer: Vec<char> = Vec::new();
    push_str(&mut footer, "Found ");
    push_decimal(&mut footer, findings.len() as u64);
    push_str(&mut footer, " dead symbol(s) \u{2014} min-confidence ");
    push_str(&mut footer, min_confidence);
    push_str(&mut footer, ", min-age ");
    push_str(&mut footer, min_age);
    if color {
        push_painted(&mut out, paint_bold(string_from_chars(footer.as_slice()).as_str()));
    } else {
        push_all(&mut out, &footer);
    }
    out.push('\n');
    proof {
        assert(out@ =~= body + table_footer(findings.len() as nat, min_confidence@, min_age@, color));
    }
    string_from_chars(out.as_slice())
}

/// The table report, each finding's file as `path_slash` shows it on this platform (as
/// written, for a plain relative path) and its age as the text at its position in `ages`.
pub fn table_report(findings: &Vec<Finding>, ages: &Vec<String>, min_confidence: &str, min_age: &str, color: bool) -> (report: String)
    requires
        ages.len() == findings.len(),
    ensures
        exists|shown_files: Seq<Seq<char>>|
            shows_files(findings@, shown_files) && report@ == table_text(
                findings@,
                shown_files,
                texts(ages@),
                min_confidence@,
                min_age@,
                color,
            ),
{
    let shown_files = shown_files_of(findings);
    table_layout(findings, &shown_files, ages, min_confidence, min_age, color)
}

} // verus!
