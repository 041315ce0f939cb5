use graveyard::cli::{
    duration_fits, invalid_duration, is_humantime_bounded, log_filter, parse_duration_arg, parse_u64, run, sorted_language_names, BaselineArgs,
    BaselineCommand, BaselineDiffArgs, BaselineSaveArgs, BaselineStep, DurationValue,
};
use graveyard::walker::{Language, LanguageSet};
use std::time::Duration;

fn as_std(value: DurationValue) -> Duration {
    Duration::new(value.secs, value.nanos)
}

#[test]
fn parses_month_duration() {
    assert_eq!(
        as_std(parse_duration_arg("6mo").expect("duration should parse")),
        Duration::from_secs(180 * 24 * 60 * 60)
    );
}

#[test]
fn parses_year_duration() {
    assert_eq!(
        as_std(parse_duration_arg("1y").expect("duration should parse")),
        Duration::from_secs(365 * 24 * 60 * 60)
    );
}

#[test]
fn other_durations_are_read_by_humantime() {
    assert_eq!(as_std(parse_duration_arg("7d").unwrap()), Duration::from_secs(7 * 86_400));
    assert_eq!(as_std(parse_duration_arg("2h 30m").unwrap()), Duration::from_secs(9_000));
    assert_eq!(as_std(parse_duration_arg("0").unwrap()), Duration::ZERO);
}

#[test]
fn unreadable_durations_name_the_input() {
    let error = parse_duration_arg("soon").expect_err("duration should fail");
    assert_eq!(error, "invalid duration \"soon\" — use formats like 7d, 30d, 6mo, 1y");
    assert_eq!(parse_duration_arg("xmo").unwrap_err(), invalid_duration("xmo"));
    assert_eq!(parse_duration_arg("y").unwrap_err(), invalid_duration("y"));
}

#[test]
fn huge_month_counts_do_not_fit() {
    assert!(duration_fits("6mo"));
    assert!(!duration_fits("99999999999999mo"));
    assert!(duration_fits("soon"));
}

#[test]
fn decimal_numbers_follow_the_standard_parser() {
    let chars = |s: &str| s.chars().collect::<Vec<char>>();
    assert_eq!(parse_u64(&chars("42")), Some(42));
    assert_eq!(parse_u64(&chars("+7")), Some(7));
    assert_eq!(parse_u64(&chars("18446744073709551615")), Some(u64::MAX));
    assert_eq!(parse_u64(&chars("18446744073709551616")), None);
    assert_eq!(parse_u64(&chars("")), None);
    assert_eq!(parse_u64(&chars("+")), None);
    assert_eq!(parse_u64(&chars("4 2")), None);
}

#[test]
fn baseline_save_scans_and_diff_only_notes() {
    let save = BaselineArgs {
        verbose: 2,
        command: BaselineCommand::Save(BaselineSaveArgs { path: "repo".to_string(), output: "b.json".to_string() }),
    };
    assert_eq!(save.verbose(), 2);
    assert_eq!(
        run(save),
        BaselineStep::SaveScan { path: "repo".to_string(), output: "b.json".to_string(), verbose: 2 }
    );

    let diff = BaselineArgs {
        verbose: 0,
        command: BaselineCommand::Diff(BaselineDiffArgs { path: ".".to_string(), baseline: "b.json".to_string(), ci: true }),
    };
    assert_eq!(
        run(diff),
        BaselineStep::NoteDiff { path: ".".to_string(), baseline: "b.json".to_string(), ci: true }
    );
}

#[test]
fn verbosity_picks_the_log_filter() {
    assert!(log_filter(0).from_env);
    assert_eq!(log_filter(0).directive, "graveyard=warn");
    assert_eq!(log_filter(1).directive, "graveyard=debug");
    assert_eq!(log_filter(5).directive, "graveyard=trace");
}

#[test]
fn language_names_are_sorted() {
    let mut set = LanguageSet::new();
    set.insert(Language::TypeScript);
    set.insert(Language::Python);
    set.insert(Language::Go);
    assert_eq!(sorted_language_names(&set), vec!["go", "python", "typescript"]);
}

#[test]
fn durations_that_could_overflow_humantime_are_rejected() {
    assert!(is_humantime_bounded("100000000000ns"));
    assert!(!is_humantime_bounded("18446744073709551615s 1000000000ns"));
    let text = "18446744073709551615s 500ms 500ms";
    assert_eq!(parse_duration_arg(text).unwrap_err(), invalid_duration(text));
    assert_eq!(as_std(parse_duration_arg("100000000000ns").unwrap()), Duration::from_secs(100));
}
