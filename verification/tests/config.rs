use graveyard::config::{expand_home, expand_home_with, join_path, line_number, IgnoreConfig, OutputFormat};
use graveyard::error::{exit_code, gate_exit_code, ConfigError, ErrorKind, UsageError};

#[test]
fn line_numbers_count_line_feeds_before_the_offset() {
    let content = "a = 1\nb = [\nc";
    assert_eq!(line_number(content, 0), 1);
    assert_eq!(line_number(content, 6), 2);
    assert_eq!(line_number(content, 12), 3);
    assert_eq!(line_number(content, 500), 3);
}

#[test]
fn home_shorthand_expands_against_the_given_directories() {
    let home = Some("/home/alice".to_string());
    let cache = Some("/home/alice/.cache".to_string());
    assert_eq!(expand_home_with("~", home.clone(), cache.clone()), "/home/alice");
    assert_eq!(expand_home_with("~/x/y", home.clone(), cache.clone()), "/home/alice/x/y");
    assert_eq!(expand_home_with("~/x", None, cache.clone()), "/home/alice/.cache");
    assert_eq!(expand_home_with("~", None, None), "~");
    assert_eq!(expand_home_with("/abs", home, cache), "/abs");
    assert_eq!(expand_home("relative/dir"), "relative/dir");
    assert_eq!(join_path("/base/", "child"), "/base/child");
    assert_eq!(join_path("/base", "/abs"), "/abs");
}

#[test]
fn configuration_defaults() {
    assert_eq!(OutputFormat::default(), OutputFormat::Table);
    let ignore = IgnoreConfig::default();
    assert!(ignore.names.is_empty() && ignore.files.is_empty() && ignore.decorators.is_empty());
}

#[test]
fn errors_map_to_exit_codes() {
    assert_eq!(exit_code(ErrorKind::Config), 2);
    assert_eq!(exit_code(ErrorKind::Usage), 2);
    assert_eq!(exit_code(ErrorKind::Other), 3);
    assert_eq!(ConfigError::new("bad".to_string()).text(), "bad");
    assert_eq!(UsageError::new("wrong".to_string()).text(), "wrong");
}

#[test]
fn the_ci_gate_fails_only_on_findings() {
    assert_eq!(gate_exit_code(true, 2), 1);
    assert_eq!(gate_exit_code(true, 0), 0);
    assert_eq!(gate_exit_code(false, 5), 0);
}

#[test]
fn line_numbers_count_newlines_before_the_offset() {
    assert_eq!(line_number("[graveyard]\nmin_confidence =\n", 28), 2);
    assert_eq!(line_number("é\nb", 3), 2);
    assert_eq!(line_number("é\nb", 2), 1);
    assert_eq!(line_number("a\nb", 99), 2);
}
