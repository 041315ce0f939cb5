//! The CSV report.

use vstd::prelude::*;

use crate::format::{decimal, push_decimal, push_str, push_two_decimals, two_decimals};
use crate::parse::types::{finding_tag_name, symbol_kind_name, Finding};
use crate::index::texts;
use crate::paths::{display_path, plain_relative, push_all};
use crate::text::{chars_of, string_from_chars};

verus! {

/// A character that forces a CSV field into quotes.
pub open spec fn is_special(ch: char) -> bool {
    ch == ',' || ch == '"' || ch == '\n' || ch == '\r'
}

/// The text holds a character that forces quoting.
pub open spec fn needs_quoting(s: Seq<char>) -> bool {
    exists|i: int| 0 <= i < s.len() && is_special(#[trigger] s[i])
}

/// The text with every double quote doubled.
pub open spec fn doubled_quotes(s: Seq<char>) -> Seq<char>
    decreases s.len(),
{
    if s.len() == 0 {
        s
    } else if s.last() == '"' {
        doubled_quotes(s.drop_last()) + seq!['"', '"']
    } else {
        doubled_quotes(s.drop_last()).push(s.last())
    }
}

/// A CSV field: the text itself, or, when it holds a comma, quote or line break, the text
/// in double quotes with its quotes doubled.
pub open spec fn csv_field(s: Seq<char>) -> Seq<char> {
    if needs_quoting(s) {
        seq!['"'] + doubled_quotes(s) + seq!['"']
    } else {
        s
    }
}

/// Appends a field's text, quoted and escaped when needed.
fn push_field(out: &mut Vec<char>, value: &Vec<char>)
    ensures
        final(out)@ == old(out)@ + csv_field(value@),
{
    let mut special = false;
    let mut i: usize = 0;
    while i < value.len()
        invariant
            i <= value.len(),
            special == exists|j: int| 0 <= j < i && is_special(#[trigger] value@[j]),
        decreases value.len() - i,
    {
        let ch = value[i];
        if ch == ',' || ch == '"' || ch == '\n' || ch == '\r' {
            special = true;
        }
        i += 1;
    }
    if !special {
        push_all(out, value);
        return;
    }
    let ghost start = out@;
    out.push('"');
    let mut k: usize = 0;
    while k < value.len()
        invariant
            k <= value.len(),
            out@ == start + seq!['"'] + doubled_quotes(value@.take(k as int)),
        decreases value.len() - k,
    {
        proof {
            assert(value@.take(k + 1).drop_last() =~= value@.take(k as int));
        }
        let ch = value[k];
        if ch == '"' {
            out.push('"');
            out.push('"');
        } else {
            out.push(ch);
        }
        proof {
            assert(out@ =~= start + seq!['"'] + doubled_quotes(value@.take(k + 1)));
        }
        k += 1;
    }
    out.push('"');
    proof {
        assert(value@.take(value.len() as int) =~= value@);
        assert(out@ =~= start + csv_field(value@));
    }
}

/// Quotes a CSV field when it holds a comma, quote or line break, doubling its quotes.
pub fn escape_csv(value: &str) -> (field: String)
    ensures
        field@ == csv_field(value@),
{
    let chars = chars_of(value);
    let mut out: Vec<char> = Vec::new();
    push_field(&mut out, &chars);
    proof {
        assert(out@ =~= csv_field(value@));
    }
    string_from_chars(out.as_slice())
}

/// The first line of the report.
pub open spec fn csv_header() -> Seq<char> {
    "fqn,name,file,line_start,line_end,language,kind,tag,confidence,deadness_age_days,in_degree\n"@
}

/// Two to the power `n`.
pub open spec fn two_to(n: nat) -> nat
    decreases n,
{
    if n == 0 {
        1
    } else {
        2 * two_to((n - 1) as nat)
    }
}

/// Powers of two are positive and grow with the exponent.
proof fn lemma_two_to_grows(a: nat, b: nat)
    requires
        a <= b,
    ensures
        1 <= two_to(a) <= two_to(b),
    decreases b,
{
    if a < b {
        lemma_two_to_grows(a, (b - 1) as nat);
    } else if a > 0 {
        lemma_two_to_grows((a - 1) as nat, (a - 1) as nat);
    }
}

/// The powers of two the day arithmetic starts from.
proof fn lemma_two_to_values()
    ensures
        two_to(0) == 1,
        two_to(10) == 1024,
        two_to(52) == 4503599627370496,
        two_to(53) == 9007199254740992,
{
    reveal_with_fuel(two_to, 54);
}

/// `num / den` rounded to the nearest integer, ties to the even one.
pub open spec fn round_half_even(num: nat, den: nat) -> nat {
    let q = num / den;
    let r = num % den;
    if 2 * r < den {
        q
    } else if 2 * r > den || q % 2 == 1 {
        q + 1
    } else {
        q
    }
}

/// The least `e` from `e` on, up to 11, with `n < 2^(53 + e)`: how many low bits of a 64-bit
/// number a double cannot hold.
pub open spec fn precision_shift(n: nat, e: nat) -> nat
    decreases 11 - e,
{
    if e >= 11 || n < two_to(53 + e) {
        e
    } else {
        precision_shift(n, e + 1)
    }
}

/// A 64-bit number as a double: the nearest double, ties to even.
pub open spec fn as_double(n: nat) -> nat {
    let e = precision_shift(n, 0);
    round_half_even(n, two_to(e)) * two_to(e)
}

/// The least `k` from `k` on, up to 70, with `x * 2^k >= 2^52 * 86400`: the scale at which
/// the day count `x / 86400` has 53 significant bits.
pub open spec fn day_scale(x: nat, k: nat) -> nat
    decreases 70 - k,
{
    if k >= 70 || x * two_to(k) >= two_to(52) * 86400 {
        k
    } else {
        day_scale(x, k + 1)
    }
}

/// An age in seconds as days in hundredths, as `{:.2}` writes the double
/// `age_secs as f64 / 86400.0`: the seconds are rounded to the nearest double, their quotient
/// by 86400 to 53 significant bits, and that quotient to hundredths, each time to the nearest
/// value with ties to even.
pub open spec fn age_hundredths(age_secs: u64) -> nat {
    if age_secs == 0 {
        0
    } else {
        let x = as_double(age_secs as nat);
        let k = day_scale(x, 0);
        let m = round_half_even(x * two_to(k), 86400);
        round_half_even(m * 100, two_to(k))
    }
}

/// The symbol's part of a report line: its name, simple name and file as shown.
pub open spec fn csv_names(f: Finding, shown_file: Seq<char>) -> Seq<char> {
    csv_field(f.symbol.fqn@) + seq![','] + csv_field(f.symbol.name@) + seq![','] + csv_field(shown_file) + seq![',']
}

/// The lines, language and kind of the symbol in a report line.
pub open spec fn csv_place(f: Finding) -> Seq<char> {
    decimal(f.symbol.line_start as nat) + seq![','] + decimal(f.symbol.line_end as nat) + seq![','] + csv_field(f.symbol.language@)
        + seq![','] + csv_field(symbol_kind_name(f.symbol.kind)) + seq![',']
}

/// The verdict part of a report line: tag, confidence, age in days and callers.
pub open spec fn csv_verdict(f: Finding) -> Seq<char> {
    csv_field(finding_tag_name(f.tag)) + seq![','] + two_decimals(f.confidence as nat) + seq![',']
        + two_decimals(age_hundredths(f.deadness_age_secs)) + seq![','] + decimal(f.in_degree as nat) + seq!['\n']
}

/// One report line: the symbol's name, file as shown, lines, language, kind, tag,
/// confidence, age in days and callers, separated by commas.
pub open spec fn csv_row(f: Finding, shown_file: Seq<char>) -> Seq<char> {
    csv_names(f, shown_file) + csv_place(f) + csv_verdict(f)
}

/// The lines of the findings, in order, each with its file as shown in `shown_files`.
pub open spec fn csv_rows(findings: Seq<Finding>, shown_files: Seq<Seq<char>>) -> Seq<char>
    decreases findings.len(),
{
    if findings.len() == 0 {
        Seq::empty()
    } else {
        csv_rows(findings.drop_last(), shown_files.drop_last()) + csv_row(findings.last(), shown_files.last())
    }
}

/// `num / den` rounded to the nearest integer, ties to even.
fn round_half_even_exec(num: u128, den: u128) -> (r: u128)
    requires
        0 < den <= 0x1_0000_0000_0000_0000_0000,
        num <= 0x1_0000_0000_0000_0000_0000,
    ensures
        r == round_half_even(num as nat, den as nat),
        (num as int) / (den as int) <= r <= (num as int) / (den as int) + 1,
        r * den <= num + den,
{
    let q = num / den;
    let rem = num % den;
    assert(q * den <= num) by (nonlinear_arith)
        requires
            q == num / den,
            den > 0,
    ;
    if 2 * rem < den {
        q
    } else if 2 * rem > den || q % 2 == 1 {
        assert((q + 1) * den <= num + den) by (nonlinear_arith)
            requires
                q * den <= num,
        ;
        q + 1
    } else {
        q
    }
}

/// A number of seconds as the double nearest to it.
fn seconds_as_double(secs: u64) -> (x: u128)
    requires
        secs >= 1,
    ensures
        x == as_double(secs as nat),
        1 <= x <= 0x1_0000_0000_0000_0800,
{
    proof {
        lemma_two_to_values();
    }
    let n = secs as u128;
    let mut pe: u128 = 1;
    let mut limit: u128 = 9007199254740992;
    let mut e: u64 = 0;
    while e < 11 && n >= limit
        invariant
            n == secs,
            e <= 11,
            pe == two_to(e as nat),
            limit == two_to(53 + e as nat),
            limit <= 0x2_0000_0000_0000_0000,
            pe <= 2048,
            pe >= 1,
            two_to(10) == 1024,
            e > 0 ==> n >= pe,
            precision_shift(n as nat, 0) == precision_shift(n as nat, e as nat),
        decreases 11 - e,
    {
        assert(two_to((e + 1) as nat) == 2 * two_to(e as nat));
        assert(two_to((53 + e + 1) as nat) == 2 * two_to((53 + e) as nat));
        proof {
            lemma_two_to_grows(e as nat, 10);
            lemma_two_to_grows((e + 1) as nat, (53 + e) as nat);
        }
        pe = pe * 2;
        limit = limit * 2;
        e = e + 1;
    }
    assert(precision_shift(n as nat, e as nat) == e as nat);
    let rounded = round_half_even_exec(n, pe);
    assert(rounded >= 1) by (nonlinear_arith)
        requires
            rounded >= (n as int) / (pe as int),
            n >= pe,
            pe >= 1,
    ;
    assert(rounded * pe <= 0x1_0000_0000_0000_0800) by (nonlinear_arith)
        requires
            rounded * pe <= n + pe,
            n <= 0xFFFF_FFFF_FFFF_FFFF,
            pe <= 2048,
    ;
    assert(rounded * pe >= 1) by (nonlinear_arith)
        requires
            rounded >= 1,
            pe >= 1,
    ;
    rounded * pe
}

/// The scale at which a day count has 53 significant bits, as an exponent and its power.
fn day_scale_exec(x: u128) -> (scaled: (u64, u128))
    requires
        1 <= x <= 0x1_0000_0000_0000_0800,
    ensures
        scaled.0 == day_scale(x as nat, 0),
        scaled.1 == two_to(scaled.0 as nat),
        1 <= scaled.1 <= 2 * 389111007804810854400,
        x * scaled.1 <= 2 * 389111007804810854400,
{
    proof {
        lemma_two_to_values();
    }
    let target: u128 = 389111007804810854400;
    let mut pk: u128 = 1;
    let mut k: u64 = 0;
    loop
        invariant
            1 <= x <= 0x1_0000_0000_0000_0800,
            target == two_to(52) * 86400,
            target == 389111007804810854400,
            k <= 70,
            pk == two_to(k as nat),
            1 <= pk <= 2 * target,
            x * pk <= 2 * target,
            day_scale(x as nat, 0) == day_scale(x as nat, k as nat),
        ensures
            1 <= pk <= 2 * target,
            pk == two_to(k as nat),
            x * pk <= 2 * target,
            day_scale(x as nat, 0) == k as nat,
        decreases 70 - k,
    {
        if k >= 70 {
            break;
        }
        let product = x * pk;
        if product >= target {
            break;
        }
        assert(two_to((k + 1) as nat) == 2 * two_to(k as nat));
        assert(pk <= x * pk) by (nonlinear_arith)
            requires
                x >= 1,
        ;
        assert(x * (pk * 2) == 2 * (x * pk)) by (nonlinear_arith);
        pk = pk * 2;
        k = k + 1;
    }
    (k, pk)
}

/// Days in hundredths for a number of seconds, as the double quotient prints with two
/// decimals.
fn age_in_hundredths(age_secs: u64) -> (h: u64)
    ensures
        h == age_hundredths(age_secs),
{
    if age_secs == 0 {
        return 0;
    }
    let x = seconds_as_double(age_secs);
    let (k, pk) = day_scale_exec(x);
    let m = round_half_even_exec(x * pk, 86400);
    assert(m <= 9007199254740993) by (nonlinear_arith)
        requires
            m <= (x * pk) / 86400int + 1,
            x * pk <= 2 * 389111007804810854400,
    ;
    let h = round_half_even_exec(m * 100, pk);
    assert(h <= m * 100 + 1) by (nonlinear_arith)
        requires
            h <= (m * 100) / (pk as int) + 1,
            pk >= 1,
    ;
    h as u64
}

/// Appends the symbol's names and file as shown, each followed by a comma.
fn push_names(out: &mut Vec<char>, f: &Finding, shown_file: &str)
    ensures
        final(out)@ == old(out)@ + csv_names(*f, shown_file@),
{
    let ghost start = out@;
    push_field(out, &chars_of(f.symbol.fqn.as_str()));
    out.push(',');
    push_field(out, &chars_of(f.symbol.name.as_str()));
    out.push(',');
    push_field(out, &chars_of(shown_file));
    out.push(',');
    proof {
        assert(out@ =~= start + csv_names(*f, shown_file@));
    }
}

/// Appends the symbol's lines, language and kind, each followed by a comma.
fn push_place(out: &mut Vec<char>, f: &Finding)
    ensures
        final(out)@ == old(out)@ + csv_place(*f),
{
    let ghost start = out@;
    push_decimal(out, f.symbol.line_start as u64);
    out.push(',');
    push_decimal(out, f.symbol.line_end as u64);
    out.push(',');
    push_field(out, &chars_of(f.symbol.language.as_str()));
    out.push(',');
    push_field(out, &chars_of(f.symbol.kind.as_str()));
    out.push(',');
    proof {
        assert(out@ =~= start + csv_place(*f));
    }
}

/// Appends the tag, confidence, age and callers, then the line break.
fn push_verdict(out: &mut Vec<char>, f: &Finding)
    ensures
        final(out)@ == old(out)@ + csv_verdict(*f),
{
    let ghost start = out@;
    push_field(out, &chars_of(f.tag.as_str()));
    out.push(',');
    push_two_decimals(out, f.confidence as u64);
    out.push(',');
    push_two_decimals(out, age_in_hundredths(f.deadness_age_secs));
    out.push(',');
    push_decimal(out, f.in_degree as u64);
    out.push('\n');
    proof {
        assert(out@ =~= start + csv_verdict(*f));
    }
}

/// Appends one report line.
fn push_row(out: &mut Vec<char>, f: &Finding, shown_file: &str)
    ensures
        final(out)@ == old(out)@ + csv_row(*f, shown_file@),
{
    let ghost start = out@;
    push_names(out, f, shown_file);
    push_place(out, f);
    push_verdict(out, f);
    proof {
        assert(out@ =~= start + csv_row(*f, shown_file@));
    }
}

/// The CSV report with each finding's file shown as the text at its position in
/// `shown_files`: the header line, then one line per finding.
pub fn csv_report(findings: &Vec<Finding>, shown_files: &Vec<String>) -> (report: String)
    requires
        shown_files.len() == findings.len(),
    ensures
        report@ == csv_header() + csv_rows(findings@, texts(shown_files@)),
{
    let mut out: Vec<char> = Vec::new();
    push_str(&mut out, "fqn,name,file,line_start,line_end,language,kind,tag,confidence,deadness_age_days,in_degree\n");
    let ghost files = texts(shown_files@);
    let mut i: usize = 0;
    while i < findings.len()
        invariant
            i <= findings.len(),
            shown_files.len() == findings.len(),
            files == texts(shown_files@),
            out@ == csv_header() + csv_rows(findings@.take(i as int), files.take(i as int)),
        decreases findings.len() - i,
    {
        proof {
            assert(findings@.take(i + 1).drop_last() =~= findings@.take(i as int));
            assert(files.take(i + 1).drop_last() =~= files.take(i as int));
        }
        push_row(&mut out, &findings[i], shown_files[i].as_str());
        proof {
            assert(out@ =~= csv_header() + csv_rows(findings@.take(i + 1), files.take(i + 1)));
        }
        i += 1;
    }
    proof {
        assert(findings@.take(findings.len() as int) =~= findings@);
        assert(files.take(findings.len() as int) =~= files);
    }
    string_from_chars(out.as_slice())
}

/// Each shown file is the finding's own file whenever that is a plain relative path.
pub open spec fn shows_files(findings: Seq<Finding>, shown_files: Seq<Seq<char>>) -> bool {
    &&& shown_files.len() == findings.len()
    &&& forall|i: int| 0 <= i < findings.len() && plain_relative((#[trigger] findings[i]).symbol.file@)
        ==> shown_files[i] == findings[i].symbol.file@
}

/// The files of the findings as `path_slash` shows them on this platform.
pub(crate) fn shown_files_of(findings: &Vec<Finding>) -> (shown: Vec<String>)
    ensures
        shows_files(findings@, texts(shown@)),
{
    let mut shown: Vec<String> = Vec::new();
    let mut i: usize = 0;
    while i < findings.len()
        invariant
            i <= findings.len(),
            shown.len() == i,
            forall|j: int| 0 <= j < i && plain_relative((#[trigger] findings@[j]).symbol.file@)
                ==> shown@[j]@ == findings@[j].symbol.file@,
        decreases findings.len() - i,
    {
        shown.push(display_path(findings[i].symbol.file.as_str()));
        i += 1;
    }
    shown
}

/// The CSV report: the header line, then one line per finding, each finding's file as
/// `path_slash` shows it on this platform (as written, for a plain relative path).
pub fn render_csv(findings: &Vec<Finding>) -> (report: String)
    ensures
        exists|shown_files: Seq<Seq<char>>|
            shows_files(findings@, shown_files) && report@ == csv_header() + csv_rows(findings@, shown_files),
{
    let shown_files = shown_files_of(findings);
    csv_report(findings, &shown_files)
}

/// The text with every doubled double quote read back as one.
pub open spec fn undoubled(s: Seq<char>) -> Seq<char>
    decreases s.len(),
{
    if s.len() >= 2 && s.last() == '"' && s[s.len() - 2] == '"' {
        undoubled(s.subrange(0, s.len() - 2)).push('"')
    } else if s.len() > 0 {
        undoubled(s.drop_last()).push(s.last())
    } else {
        s
    }
}

/// The text a CSV field holds: inside quotes with its doubled quotes undone, or as it is.
pub open spec fn csv_field_text(field: Seq<char>) -> Seq<char> {
    if field.len() >= 2 && field[0] == '"' && field.last() == '"' {
        undoubled(field.subrange(1, field.len() - 1))
    } else {
        field
    }
}

/// Undoing doubled quotes gives back the text they were doubled in.
proof fn lemma_undoubled(s: Seq<char>)
    ensures
        undoubled(doubled_quotes(s)) == s,
    decreases s.len(),
{
    if s.len() > 0 {
        lemma_undoubled(s.drop_last());
        let d = doubled_quotes(s);
        if s.last() == '"' {
            assert(d.subrange(0, d.len() - 2) =~= doubled_quotes(s.drop_last()));
        } else {
            assert(d.drop_last() =~= doubled_quotes(s.drop_last()));
        }
        assert(s.drop_last().push(s.last()) =~= s);
    }
}

/// An escaped field reads back as the text it escapes, so every value survives the report.
pub proof fn lemma_csv_field_reads_back(s: Seq<char>)
    ensures
        csv_field_text(csv_field(s)) == s,
{
    if needs_quoting(s) {
        let field = csv_field(s);
        lemma_undoubled(s);
        assert(field.subrange(1, field.len() - 1) =~= doubled_quotes(s));
    } else if s.len() >= 2 && s[0] == '"' {
        assert(is_special(s[0]));
    }
}

} // verus!
