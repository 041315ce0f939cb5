//! Command-line values: the baseline and languages commands, log verbosity and durations.

use vstd::prelude::*;

use crate::format::{decimal, digit_char, push_str};
use crate::text::{chars_of, ends_with, string_from_chars};
use crate::walker::{language_name, Language, LanguageSet};

verus! {

/// Arguments of `graveyard baseline`.
#[derive(Debug, Clone, PartialEq, Eq)]
pub struct BaselineArgs {
    pub verbose: u8,
    pub command: BaselineCommand,
}

impl BaselineArgs {
    /// How many times `-v` was given.
    pub fn verbose(&self) -> (count: u8)
        ensures
            count == self.verbose,
    {
        self.verbose
    }
}

/// The baseline subcommands.
#[derive(Debug, Clone, PartialEq, Eq)]
pub enum BaselineCommand {
    Save(BaselineSaveArgs),
    Diff(BaselineDiffArgs),
}

/// Arguments of `graveyard baseline save`.
#[derive(Debug, Clone, PartialEq, Eq)]
pub struct BaselineSaveArgs {
    pub path: String,
    pub output: String,
}

/// Arguments of `graveyard baseline diff`.
#[derive(Debug, Clone, PartialEq, Eq)]
pub struct BaselineDiffArgs {
    pub path: String,
    pub baseline: String,
    pub ci: bool,
}

/// Arguments of `graveyard languages`.
#[derive(Debug, Clone, PartialEq, Eq)]
pub struct LanguagesArgs {
    pub path: String,
    pub verbose: u8,
}

/// What a baseline command does.
#[derive(Debug, Clone, PartialEq, Eq)]
pub enum BaselineStep {
    /// Scan `path` with default settings at this verbosity and save the findings to `output`.
    SaveScan { path: String, output: String, verbose: u8 },
    /// Scan `path` and report only the findings that the baseline file `baseline` does not
    /// list, failing the run on any when `ci` is set.
    NoteDiff { path: String, baseline: String, ci: bool },
}

/// Decides what a baseline command does: `save` scans its path and saves the findings to
/// its output; `diff` scans its path and reports the findings its baseline does not list.
pub fn run(args: BaselineArgs) -> (step: BaselineStep)
    ensures
        match args.command {
            BaselineCommand::Save(save) => step == BaselineStep::SaveScan {
                path: save.path,
                output: save.output,
                verbose: args.verbose,
            },
            BaselineCommand::Diff(diff) => step == BaselineStep::NoteDiff {
                path: diff.path,
                baseline: diff.baseline,
                ci: diff.ci,
            },
        },
{
    match args.command {
        BaselineCommand::Save(save) => BaselineStep::SaveScan { path: save.path, output: save.output, verbose: args.verbose },
        BaselineCommand::Diff(diff) => BaselineStep::NoteDiff { path: diff.path, baseline: diff.baseline, ci: diff.ci },
    }
}

/// How log output is filtered: from the environment's setting when `from_env` holds and it
/// has one, else by `directive`.
#[derive(Debug, Clone, Copy, PartialEq, Eq)]
pub struct LogFilter {
    pub from_env: bool,
    pub directive: &'static str,
}

/// The log filter for a verbosity: the environment's or warnings without `-v`, debug with
/// one, trace with more.
pub fn log_filter(verbose: u8) -> (filter: LogFilter)
    ensures
        filter.from_env == (verbose == 0),
        verbose == 0 ==> filter.directive@ == "graveyard=warn"@,
        verbose == 1 ==> filter.directive@ == "graveyard=debug"@,
        verbose >= 2 ==> filter.directive@ == "graveyard=trace"@,
{
    match verbose {
        0 => LogFilter { from_env: true, directive: "graveyard=warn" },
        1 => LogFilter { from_env: false, directive: "graveyard=debug" },
        _ => LogFilter { from_env: false, directive: "graveyard=trace" },
    }
}

/// A span of time: whole seconds and the nanoseconds beyond them.
#[derive(Debug, Clone, Copy, PartialEq, Eq, Structural)]
pub struct DurationValue {
    pub secs: u64,
    pub nanos: u32,
}

/// The value of a string of decimal digits.
pub open spec fn digits_value(s: Seq<char>) -> nat
    decreases s.len(),
{
    if s.len() == 0 {
        0
    } else {
        digits_value(s.drop_last()) * 10 + ((s.last() as nat) - ('0' as nat)) as nat
    }
}

/// Every character is a decimal digit.
pub open spec fn all_digits(s: Seq<char>) -> bool {
    forall|i: int| 0 <= i < s.len() ==> '0' <= #[trigger] s[i] <= '9'
}

/// The unsigned 64-bit number a string spells: an optional `+`, then one or more decimal
/// digits whose value fits.
pub open spec fn parsed_u64(s: Seq<char>) -> Option<u64> {
    let body = if s.len() > 0 && s[0] == '+' { s.subrange(1, s.len() as int) } else { s };
    if body.len() > 0 && all_digits(body) && digits_value(body) <= u64::MAX {
        Some(digits_value(body) as u64)
    } else {
        None
    }
}

/// More digits never make the value smaller.
proof fn lemma_digits_grow(s: Seq<char>, k: int)
    requires
        0 <= k <= s.len(),
        all_digits(s),
    ensures
        digits_value(s.take(k)) <= digits_value(s),
    decreases s.len() - k,
{
    if k < s.len() {
        lemma_digits_grow(s, k + 1);
        assert(s.take(k + 1).drop_last() =~= s.take(k));
    } else {
        assert(s.take(k) =~= s);
    }
}

/// Reads an unsigned 64-bit number written in decimal.
pub fn parse_u64(text: &Vec<char>) -> (value: Option<u64>)
    ensures
        value == parsed_u64(text@),
{
    let start: usize = if text.len() > 0 && text[0] == '+' { 1 } else { 0 };
    let ghost body = if text@.len() > 0 && text@[0] == '+' { text@.subrange(1, text@.len() as int) } else { text@ };
    proof {
        if start == 0 {
            assert(body =~= text@.subrange(0, text@.len() as int));
        }
    }
    if start >= text.len() {
        return None;
    }
    let mut acc: u64 = 0;
    let mut i: usize = start;
    while i < text.len()
        invariant
            start <= i <= text.len(),
            body == text@.subrange(start as int, text@.len() as int),
            body == (if text@.len() > 0 && text@[0] == '+' { text@.subrange(1, text@.len() as int) } else { text@ }),
            all_digits(body.take(i - start)),
            acc == digits_value(body.take(i - start)),
        decreases text.len() - i,
    {
        let ch = text[i];
        proof {
            assert(body.take(i - start + 1).drop_last() =~= body.take(i - start));
            assert(body[i - start] == ch);
        }
        if ch < '0' || ch > '9' {
            proof {
                if all_digits(body) {
                    assert('0' <= body[i - start] <= '9');
                }
            }
            return None;
        }
        let d: u64 = (ch as u32 - '0' as u32) as u64;
        if acc > (u64::MAX - d) / 10 {
            proof {
                assert(all_digits(body.take(i - start + 1)));
                assert(digits_value(body.take(i - start + 1)) > u64::MAX) by (nonlinear_arith)
                    requires
                        digits_value(body.take(i - start + 1)) == acc * 10 + d,
                        acc > (u64::MAX - d) / 10,
                        d <= 9,
                ;
                if all_digits(body) {
                    lemma_digits_grow(body, i - start + 1);
                }
            }
            return None;
        }
        acc = acc * 10 + d;
        proof {
            assert(all_digits(body.take(i - start + 1)));
        }
        i += 1;
    }
    proof {
        assert(body.take(i - start) =~= body);
    }
    Some(acc)
}

/// The name of what `humantime::parse_duration` makes of a text: whole seconds and
/// nanoseconds, or nothing when it rejects the text.
pub uninterp spec fn humantime_duration(text: Seq<char>) -> Option<(u64, u32)>;

/// The value of the ASCII digits of a text read together as one number, whatever stands
/// between them.
pub open spec fn all_digits_value(s: Seq<char>) -> nat
    decreases s.len(),
{
    if s.len() == 0 {
        0
    } else if '0' <= s.last() && s.last() <= '9' {
        all_digits_value(s.drop_last()) * 10 + ((s.last() as nat) - ('0' as nat)) as nat
    } else {
        all_digits_value(s.drop_last())
    }
}

/// The number of ASCII digits in a text.
pub open spec fn digit_count(s: Seq<char>) -> nat
    decreases s.len(),
{
    if s.len() == 0 {
        0
    } else if '0' <= s.last() && s.last() <= '9' {
        digit_count(s.drop_last()) + 1
    } else {
        digit_count(s.drop_last())
    }
}

/// Seconds in humantime's longest unit, the year of 365.25 days.
pub const HUMANTIME_YEAR_SECS: u64 = 31557600u64;

/// The largest digit measure a text may have for humantime to read it safely.
pub const HUMANTIME_DIGIT_LIMIT: u64 = 584542046090u64;

/// No sum of the spans a text writes can reach `u64::MAX` seconds: every number humantime
/// reads is made of some of the text's digits, adds at most its value in years plus a year
/// for its fraction, and carries at most two seconds of nanoseconds, so
/// (all digits read as one number + twice their count) years stay below `u64::MAX` seconds.
pub open spec fn humantime_bounded(text: Seq<char>) -> bool {
    all_digits_value(text) + 2 * digit_count(text) <= HUMANTIME_DIGIT_LIMIT
}

/// Adding characters never lowers the digit measure of a text.
proof fn lemma_digit_measure_grows(s: Seq<char>, t: Seq<char>)
    requires
        s.len() <= t.len(),
        s == t.take(s.len() as int),
    ensures
        all_digits_value(s) <= all_digits_value(t),
        digit_count(s) <= digit_count(t),
    decreases t.len() - s.len(),
{
    if s.len() < t.len() {
        let u = t.drop_last();
        assert(s == u.take(s.len() as int));
        lemma_digit_measure_grows(s, u);
    } else {
        assert(s =~= t);
    }
}

/// Whether a text is within humantime's safe digit measure.
pub fn is_humantime_bounded(text: &str) -> (bounded: bool)
    ensures
        bounded == humantime_bounded(text@),
{
    let chars = chars_of(text);
    let mut value: u64 = 0;
    let mut count: u64 = 0;
    let mut i: usize = 0;
    while i < chars.len()
        invariant
            i <= chars.len(),
            chars@ == text@,
            value == all_digits_value(chars@.take(i as int)),
            count == digit_count(chars@.take(i as int)),
            value + 2 * count <= HUMANTIME_DIGIT_LIMIT,
        decreases chars.len() - i,
    {
        let c = chars[i];
        assert(chars@.take(i + 1).drop_last() =~= chars@.take(i as int));
        if '0' <= c && c <= '9' {
            let d: u64 = (c as u64) - ('0' as u64);
            if value * 10 + d + 2 * count + 2 > HUMANTIME_DIGIT_LIMIT {
                proof {
                    lemma_digit_measure_grows(chars@.take(i + 1), chars@);
                    assert(chars@.take(chars.len() as int) =~= chars@);
                }
                return false;
            }
            value = value * 10 + d;
            count = count + 1;
        }
        i += 1;
    }
    assert(chars@.take(i as int) =~= chars@);
    true
}

/// Calls `humantime::parse_duration`: the result is the named value for the text. The call
/// panics (in `Duration::new`) when its running total reaches `u64::MAX` seconds with a
/// whole second of nanoseconds still to carry; texts whose spans could add up that far are
/// left out.
#[verifier::external_body]
fn parse_humantime(text: &str) -> (parsed: Option<(u64, u32)>)
    requires
        humantime_bounded(text@),
    ensures
        parsed == humantime_duration(text@),
{
    match humantime::parse_duration(text) {
        Ok(duration) => Some((duration.as_secs(), duration.subsec_nanos())),
        Err(_) => None,
    }
}

/// Seconds in a 30-day month.
pub const MONTH_SECS: u64 = 2592000u64;

/// Seconds in a 365-day year.
pub const YEAR_SECS: u64 = 31536000u64;

/// The text before a suffix of `n` characters.
pub open spec fn without_last(s: Seq<char>, n: int) -> Seq<char> {
    s.subrange(0, s.len() - n)
}

/// The duration a text spells: a number of months (`6mo`) or years (`1y`), else whatever
/// humantime reads (`7d`, `30d`, `2h 30m`) from a text within its safe digit measure.
pub open spec fn duration_of(input: Seq<char>) -> Option<DurationValue> {
    if ends_with(input, "mo"@) {
        match parsed_u64(without_last(input, 2)) {
            Some(n) => Some(DurationValue { secs: (n * MONTH_SECS) as u64, nanos: 0 }),
            None => None,
        }
    } else if ends_with(input, "y"@) {
        match parsed_u64(without_last(input, 1)) {
            Some(n) => Some(DurationValue { secs: (n * YEAR_SECS) as u64, nanos: 0 }),
            None => None,
        }
    } else if humantime_bounded(input) {
        match humantime_duration(input) {
            Some(parts) => Some(DurationValue { secs: parts.0, nanos: parts.1 }),
            None => None,
        }
    } else {
        None
    }
}

/// A month or year count that is written out fits in 64-bit seconds.
pub open spec fn duration_in_range(input: Seq<char>) -> bool {
    if ends_with(input, "mo"@) {
        match parsed_u64(without_last(input, 2)) {
            Some(n) => n * MONTH_SECS <= u64::MAX,
            None => true,
        }
    } else if ends_with(input, "y"@) {
        match parsed_u64(without_last(input, 1)) {
            Some(n) => n * YEAR_SECS <= u64::MAX,
            None => true,
        }
    } else {
        true
    }
}

/// A digit's character reads back as the digit.
proof fn lemma_digit_char_reads_back(d: nat)
    requires
        d < 10,
    ensures
        '0' <= digit_char(d) <= '9',
        (digit_char(d) as nat) - ('0' as nat) == d,
{
}

/// A number's decimal text is all digits and reads back as that number.
pub proof fn lemma_decimal_reads_back(n: nat)
    ensures
        decimal(n).len() > 0,
        all_digits(decimal(n)),
        digits_value(decimal(n)) == n,
    decreases n,
{
    if n < 10 {
        lemma_digit_char_reads_back(n);
        assert(decimal(n).drop_last() =~= Seq::<char>::empty());
        assert(digits_value(Seq::<char>::empty()) == 0);
        assert(digits_value(decimal(n)) == digits_value(decimal(n).drop_last()) * 10 + ((decimal(n).last() as nat) - ('0' as nat)) as nat);
    } else {
        assert(n == (n / 10) * 10 + n % 10) by (nonlinear_arith);
        lemma_decimal_reads_back(n / 10);
        lemma_digit_char_reads_back(n % 10);
        let s = decimal(n);
        assert(s.drop_last() =~= decimal(n / 10));
        assert(s.last() == digit_char(n % 10));
        assert(digits_value(s) == digits_value(s.drop_last()) * 10 + ((s.last() as nat) - ('0' as nat)) as nat);
    }
}

/// A month count written `<n>mo` and a year count written `<n>y` read back as that many
/// 30-day months or 365-day years, whenever the seconds fit in 64 bits.
pub proof fn lemma_month_and_year_counts_read_back(n: u64)
    ensures
        n * MONTH_SECS <= u64::MAX ==> duration_in_range(decimal(n as nat) + "mo"@) && duration_of(
            decimal(n as nat) + "mo"@,
        ) == Some(DurationValue { secs: (n * MONTH_SECS) as u64, nanos: 0 }),
        n * YEAR_SECS <= u64::MAX ==> duration_in_range(decimal(n as nat) + "y"@) && duration_of(
            decimal(n as nat) + "y"@,
        ) == Some(DurationValue { secs: (n * YEAR_SECS) as u64, nanos: 0 }),
{
    reveal_strlit("mo");
    reveal_strlit("y");
    lemma_decimal_reads_back(n as nat);
    let digits = decimal(n as nat);
    let months = digits + "mo"@;
    let years = digits + "y"@;
    assert(months.subrange(months.len() - 2, months.len() as int) =~= "mo"@);
    assert(without_last(months, 2) =~= digits);
    assert(years.subrange(years.len() - 1, years.len() as int) =~= "y"@);
    assert(without_last(years, 1) =~= digits);
    assert(years.last() == 'y');
    assert(!ends_with(years, "mo"@)) by {
        if ends_with(years, "mo"@) {
            assert(years.subrange(years.len() - 2, years.len() as int)[1] == years.last());
        }
    }
    assert(digits[0] != '+');
    assert(parsed_u64(digits) == Some(n));
}

/// The message for a duration that cannot be read.
pub open spec fn invalid_duration_text(input: Seq<char>) -> Seq<char> {
    "invalid duration \""@ + input + "\" \u{2014} use formats like 7d, 30d, 6mo, 1y"@
}

/// The error message for a duration that cannot be read.
pub fn invalid_duration(input: &str) -> (message: String)
    ensures
        message@ == invalid_duration_text(input@),
{
    let mut out: Vec<char> = Vec::new();
    push_str(&mut out, "invalid duration \"");
    push_str(&mut out, input);
    push_str(&mut out, "\" \u{2014} use formats like 7d, 30d, 6mo, 1y");
    string_from_chars(out.as_slice())
}

/// The characters of a text without its last `n`.
fn chars_without_last(chars: &Vec<char>, n: usize) -> (head: Vec<char>)
    requires
        n <= chars.len(),
    ensures
        head@ == without_last(chars@, n as int),
{
    let mut head: Vec<char> = Vec::new();
    let end = chars.len() - n;
    let mut i: usize = 0;
    while i < end
        invariant
            end == chars.len() - n,
            i <= end,
            head@ == chars@.take(i as int),
        decreases end - i,
    {
        head.push(chars[i]);
        proof {
            assert(head@ =~= chars@.take(i + 1));
        }
        i += 1;
    }
    proof {
        assert(head@ =~= without_last(chars@, n as int));
    }
    head
}

/// The count before a month or year suffix, when the text has such a suffix.
fn suffix_count(input: &str) -> (count: (u8, Option<u64>))
    ensures
        ends_with(input@, "mo"@) ==> count.0 == 1 && count.1 == parsed_u64(without_last(input@, 2)),
        !ends_with(input@, "mo"@) && ends_with(input@, "y"@) ==> count.0 == 2 && count.1 == parsed_u64(without_last(input@, 1)),
        !ends_with(input@, "mo"@) && !ends_with(input@, "y"@) ==> count.0 == 0 && count.1 is None,
{
    let chars = chars_of(input);
    let months = chars_of("mo");
    let years = chars_of("y");
    proof {
        reveal_strlit("mo");
        reveal_strlit("y");
    }
    if crate::text::chars_end_with(&chars, &months) {
        let head = chars_without_last(&chars, 2);
        (1, parse_u64(&head))
    } else if crate::text::chars_end_with(&chars, &years) {
        let head = chars_without_last(&chars, 1);
        (2, parse_u64(&head))
    } else {
        (0, None)
    }
}

/// Whether a month or year count fits in 64-bit seconds; other texts always do.
pub fn duration_fits(input: &str) -> (fits: bool)
    ensures
        fits == duration_in_range(input@),
{
    let (kind, count) = suffix_count(input);
    match count {
        Some(n) => if kind == 1 {
            proof {
                assert((n <= u64::MAX / MONTH_SECS) == (n * MONTH_SECS <= u64::MAX)) by (nonlinear_arith);
            }
            n <= u64::MAX / MONTH_SECS
        } else {
            proof {
                assert((n <= u64::MAX / YEAR_SECS) == (n * YEAR_SECS <= u64::MAX)) by (nonlinear_arith);
            }
            n <= u64::MAX / YEAR_SECS
        },
        None => true,
    }
}

/// Reads a duration given on the command line or in the configuration: `6mo` is six
/// 30-day months, `1y` one 365-day year, and anything else is read by humantime.
pub fn parse_duration_arg(input: &str) -> (parsed: Result<DurationValue, String>)
    requires
        duration_in_range(input@),
    ensures
        match parsed {
            Ok(d) => duration_of(input@) == Some(d),
            Err(message) => duration_of(input@) is None && message@ == invalid_duration_text(input@),
        },
{
    let (kind, count) = suffix_count(input);
    if kind == 1 {
        return match count {
            Some(n) => Ok(DurationValue { secs: n * MONTH_SECS, nanos: 0 }),
            None => Err(invalid_duration(input)),
        };
    }
    if kind == 2 {
        return match count {
            Some(n) => Ok(DurationValue { secs: n * YEAR_SECS, nanos: 0 }),
            None => Err(invalid_duration(input)),
        };
    }
    if !is_humantime_bounded(input) {
        return Err(invalid_duration(input));
    }
    match parse_humantime(input) {
        Some((secs, nanos)) => Ok(DurationValue { secs, nanos }),
        None => Err(invalid_duration(input)),
    }
}

/// The languages in alphabetical order of their names.
pub open spec fn alphabetical_languages() -> Seq<Language> {
    seq![Language::Go, Language::JavaScript, Language::Python, Language::Rust, Language::TypeScript]
}

/// The names of the languages of `set` among the first `upto` in alphabetical order.
pub open spec fn names_in_order(set: Set<Language>, upto: int) -> Seq<Seq<char>>
    decreases upto,
{
    if upto <= 0 {
        Seq::empty()
    } else {
        let before = names_in_order(set, upto - 1);
        let l = alphabetical_languages()[upto - 1];
        if set.contains(l) {
            before.push(language_name(l))
        } else {
            before
        }
    }
}

/// The names `graveyard languages` prints: those of the detected languages, sorted.
pub fn sorted_language_names(languages: &LanguageSet) -> (names: Vec<&'static str>)
    ensures
        names@.map_values(|n: &'static str| n@) == names_in_order(languages@, 5),
{
    let order = [Language::Go, Language::JavaScript, Language::Python, Language::Rust, Language::TypeScript];
    let mut names: Vec<&'static str> = Vec::new();
    let mut k: usize = 0;
    while k < 5
        invariant
            k <= 5,
            order@ == alphabetical_languages(),
            names@.map_values(|n: &'static str| n@) == names_in_order(languages@, k as int),
        decreases 5 - k,
    {
        let l = order[k];
        if languages.contains(l) {
            let ghost before = names@;
            names.push(l.as_str());
            proof {
                assert(names@.map_values(|n: &'static str| n@) =~= before.map_values(|n: &'static str| n@).push(language_name(l)));
            }
        }
        k += 1;
    }
    names
}

} // verus!
