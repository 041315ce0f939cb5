use graveyard::output::csv::{csv_report, escape_csv, render_csv};
use graveyard::output::sarif::{all_rules, result_for_finding, rule_for_tag, rule_metadata, sarif_result};
use graveyard::output::table::{confidence_band, location_label, location_of, table_report, truncate_fqn, ConfidenceBand};
use graveyard::parse::types::{Finding, FindingTag, Symbol, SymbolKind};

fn finding(fqn: &str, name: &str, confidence: u32, age_days: u64) -> Finding {
    Finding {
        symbol: Symbol {
            fqn: fqn.to_string(),
            name: name.to_string(),
            kind: SymbolKind::Function,
            language: "rust".to_string(),
            file: "src/main.rs".to_string(),
            line_start: 1,
            line_end: 2,
            is_exported: false,
            is_test: false,
        },
        tag: FindingTag::Dead,
        confidence,
        deadness_age_secs: age_days * 86_400,
        commits_90d: 1,
        in_degree: 0,
    }
}

#[test]
fn render_csv_writes_header_and_escapes_fields() {
    let output = render_csv(&vec![finding("src/main.rs::candidate,with,comma", "candidate,with,comma", 75, 90)]);

    assert!(output.starts_with(
        "fqn,name,file,line_start,line_end,language,kind,tag,confidence,deadness_age_days,in_degree"
    ));
    assert!(output.contains("\"src/main.rs::candidate,with,comma\""));
    assert!(output.contains("\"candidate,with,comma\""));
}

#[test]
fn csv_rows_hold_every_column() {
    let output = render_csv(&vec![finding("src/main.rs::f", "f", 75, 90)]);

    assert_eq!(
        output,
        "fqn,name,file,line_start,line_end,language,kind,tag,confidence,deadness_age_days,in_degree\n\
         src/main.rs::f,f,src/main.rs,1,2,rust,function,dead,0.75,90.00,0\n"
    );
}

#[test]
fn csv_fields_double_their_quotes() {
    assert_eq!(escape_csv("plain"), "plain");
    assert_eq!(escape_csv("say \"hi\""), "\"say \"\"hi\"\"\"");
    assert_eq!(escape_csv("two\nlines"), "\"two\nlines\"");
}

#[test]
fn long_names_are_cut_with_an_ellipsis() {
    let fqn = "src/main.rs::very_long_symbol_name_that_should_be_truncated_in_the_table_renderer";
    let shown = truncate_fqn(fqn, 60);
    assert_eq!(shown.chars().count(), 60);
    assert!(shown.ends_with('…'));
    assert_eq!(truncate_fqn("short", 60), "short");
}

#[test]
fn confidence_bands_and_locations() {
    assert_eq!(confidence_band(95), ConfidenceBand::High);
    assert_eq!(confidence_band(70), ConfidenceBand::Medium);
    assert_eq!(confidence_band(69), ConfidenceBand::Low);
    assert_eq!(location_label("src/main.rs", 42), "src/main.rs:42");
}

#[test]
fn sarif_rules_and_results() {
    let rules = all_rules();
    let ids: Vec<&str> = rules.iter().map(|r| r.id).collect();
    assert_eq!(ids, vec!["GY001", "GY002", "GY003", "GY004"]);
    assert_eq!(rule_for_tag(FindingTag::TestOnly).name, "TestOnly");
    assert_eq!(rule_metadata(FindingTag::InDeadCycle).2, "Symbol is only referenced within a dead cycle");

    let strong = result_for_finding(&finding("src/main.rs::f", "f", 80, 1));
    assert_eq!(strong.level, "error");
    assert_eq!(strong.message, "src/main.rs::f appears to be dead code (confidence 0.80)");
    assert_eq!(strong.uri, "file:///src/main.rs");
    assert_eq!(strong.start_line, 1);
    assert_eq!(result_for_finding(&finding("src/main.rs::f", "f", 79, 1)).level, "warning");
}

#[test]
fn csv_ages_print_as_the_days_double_does() {
    let secs: Vec<u64> = vec![
        0, 1, 432, 864, 10_800, 32_400, 86_400, 86_832, 129_600, 1_000_000, 7_776_000, 123_456_789, 9_007_199_254_740_993,
        u64::MAX,
    ];
    for age in secs {
        let mut f = finding("src/main.rs::f", "f", 75, 0);
        f.deadness_age_secs = age;
        let output = render_csv(&vec![f]);
        let expected = format!("{:.2}", age as f64 / 86_400.0);
        assert!(output.contains(&format!(",0.75,{expected},0\n")), "age {age}: {output}");
    }
}

#[test]
fn reports_show_files_as_given() {
    let f = finding("pkg/mod.rs::f", "f", 95, 1);
    let report = csv_report(&vec![f.clone()], &vec!["pkg/mod.rs".to_string()]);
    assert!(report.ends_with("pkg/mod.rs::f,f,pkg/mod.rs,1,2,rust,function,dead,0.95,1.00,0\n"));
    assert_eq!(location_of("pkg/mod.rs", 42), "pkg/mod.rs:42");
    assert_eq!(sarif_result(&f, "pkg/mod.rs").uri, "file:///pkg/mod.rs");
    assert_eq!(location_label("src/main.rs", 7), "src/main.rs:7");
}

#[test]
fn render_table_formats_rows_and_footer() {
    let mut f = finding(
        "src/main.rs::very_long_symbol_name_that_should_be_truncated_in_the_table_renderer",
        "very_long_symbol_name_that_should_be_truncated_in_the_table_renderer",
        95,
        400,
    );
    f.symbol.line_start = 42;
    f.symbol.line_end = 45;
    let output = table_report(&vec![f], &vec!["1.1 years".to_string()], "0.5", "none", true);

    assert!(output.contains("CONFIDENCE"));
    assert!(output.contains("src/main.rs:42"));
    assert!(output.contains("1.1 years"));
    assert!(output.contains("Found 1 dead symbol(s)"));
    assert!(output.contains("…"));
}

#[test]
fn render_table_reports_empty_results() {
    let output = table_report(&vec![], &vec![], "0.5", "none", true);

    assert!(output.contains("No dead code found above confidence 0.5"));
}

#[test]
fn tables_lay_out_rows_and_colours() {
    let mut f = finding("src/main.rs::f", "f", 95, 400);
    f.symbol.line_start = 42;
    let plain = table_report(&vec![f.clone()], &vec!["1.1 years".to_string()], "0.5", "none", false);
    assert_eq!(
        plain,
        "CONFIDENCE  TAG               AGE         LOCATION                  FQN\n\
         0.95        dead              1.1 years   src/main.rs:42            src/main.rs::f\n\
         Found 1 dead symbol(s) — min-confidence 0.5, min-age none\n"
    );
    let colored = table_report(&vec![f], &vec!["1.1 years".to_string()], "0.5", "none", true);
    assert!(colored.starts_with("\x1b[4m\x1b[1mCONFIDENCE"));
    assert!(colored.contains("\x1b[31m0.95      \x1b[39m"));
    assert!(colored.ends_with("\x1b[0m\n"));
    assert_eq!(
        table_report(&vec![], &vec![], "0.5", "none", false),
        "✓ No dead code found above confidence 0.5\n"
    );
    assert_eq!(
        table_report(&vec![], &vec![], "0.5", "none", true),
        "\x1b[32m✓ No dead code found above confidence 0.5\x1b[39m\n"
    );
}
