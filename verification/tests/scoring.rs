use graveyard::graph::reachability::find_reachable;
use graveyard::graph::{build_graph, find_dead_candidates, find_dead_cycles, find_test_only};
use graveyard::parse::types::{FindingTag, Reference, Symbol, SymbolKind};
use graveyard::scoring::git_history::{
    age_secs_from_history, commit_count_from_history, file_cache_key, hunk_to_range, ranges_overlap, FileTouch,
    GitScore, LineRange,
};
use graveyard::scoring::static_score::{churn_factor, ref_factor, scope_factor};
use graveyard::scoring::{assemble_findings, FindingFilters};

const DAY: u64 = 86_400;

fn symbol(name: &str, is_exported: bool, is_test: bool) -> Symbol {
    Symbol {
        fqn: format!("src/main.rs::{name}"),
        name: name.to_string(),
        kind: SymbolKind::Function,
        language: "rust".to_string(),
        file: "src/main.rs".to_string(),
        line_start: 1,
        line_end: 1,
        is_exported,
        is_test,
    }
}

fn kind_symbol(kind: SymbolKind, is_exported: bool) -> Symbol {
    Symbol { kind, ..symbol("candidate", is_exported, false) }
}

fn defaults() -> FindingFilters {
    FindingFilters { ignore_exports: false, min_age_secs: None, min_confidence: 50, top: 0 }
}

#[test]
fn assemble_findings_tags_and_sorts_candidates() {
    let graph = build_graph(
        vec![
            symbol("cycle_dead", false, false),
            symbol("exported_dead", true, false),
            symbol("test_helper", false, true),
            symbol("test_only_dead", false, false),
        ],
        vec![Reference {
            source_fqn: "src/main.rs::test_helper".to_string(),
            target_name: "test_only_dead".to_string(),
            file: "src/main.rs".to_string(),
            line: 1,
        }],
    );
    let dead_candidates = vec![0, 1, 3];
    let dead_cycles = vec![true, false, false, false];
    let test_only = vec![false, false, false, true];
    let old = Some(GitScore { age_secs: 730 * DAY, commits_90d: 0 });
    let git_scores = vec![old, old, None, old];
    // The default weights (0.35 age, 0.30 callers, 0.20 scope, 0.15 churn) give 1.00 to the
    // private uncalled symbol, 0.88 to the exported one and 0.85 to the one a test calls.
    let confidences = vec![100, 88, 0, 85];

    let findings =
        assemble_findings(&graph, &dead_candidates, &dead_cycles, &test_only, &git_scores, &confidences, defaults());

    assert_eq!(findings.len(), 3);
    assert_eq!(findings[0].tag, FindingTag::InDeadCycle);
    assert_eq!(findings[1].tag, FindingTag::ExportedUnused);
    assert_eq!(findings[2].tag, FindingTag::TestOnly);
    assert_eq!(findings[0].confidence as f64 / 100.0, 1.0);
    assert!(findings[1].confidence > findings[2].confidence);
}

#[test]
fn assemble_findings_applies_filters_and_top_limit() {
    let graph = build_graph(
        vec![
            symbol("strong_dead", false, false),
            symbol("exported_dead", true, false),
            symbol("young_dead", false, false),
            symbol("weak_dead", true, false),
        ],
        Vec::new(),
    );
    let dead_candidates = vec![0, 1, 2, 3];
    let git_scores = vec![
        Some(GitScore { age_secs: 730 * DAY, commits_90d: 0 }),
        Some(GitScore { age_secs: 730 * DAY, commits_90d: 0 }),
        Some(GitScore { age_secs: 10 * DAY, commits_90d: 0 }),
        Some(GitScore { age_secs: 0, commits_90d: 3 }),
    ];
    // Under the default weights: 1.00, 0.88, and for the ten-day-old private symbol 0.66;
    // the exported symbol with no age and three recent commits scores 0.38.
    let confidences = vec![100, 88, 66, 38];
    let filters = FindingFilters { ignore_exports: true, min_age_secs: Some(30 * DAY), min_confidence: 80, top: 1 };

    let findings =
        assemble_findings(&graph, &dead_candidates, &vec![false; 4], &vec![false; 4], &git_scores, &confidences, filters);

    assert_eq!(findings.len(), 1);
    assert_eq!(findings[0].symbol.fqn, "src/main.rs::strong_dead");
    assert_eq!(findings[0].tag, FindingTag::Dead);
}

#[test]
fn assembled_ties_keep_candidate_order_and_missing_history_counts_as_zero() {
    let graph = build_graph(vec![symbol("a", false, false), symbol("b", false, false), symbol("c", false, false)], Vec::new());
    let findings = assemble_findings(
        &graph,
        &vec![0, 1, 2],
        &vec![false; 3],
        &vec![false; 3],
        &vec![None, None, None],
        &vec![70, 90, 70],
        defaults(),
    );

    let names: Vec<&str> = findings.iter().map(|f| f.symbol.name.as_str()).collect();
    assert_eq!(names, vec!["b", "a", "c"]);
    assert!(findings.iter().all(|f| f.deadness_age_secs == 0 && f.commits_90d == 0 && f.in_degree == 0));
}

#[test]
fn pipeline_from_graph_to_findings() {
    let graph = build_graph(
        vec![symbol("main", false, false), symbol("used", false, false), symbol("unused", false, false)],
        vec![Reference {
            source_fqn: "src/main.rs::main".to_string(),
            target_name: "used".to_string(),
            file: "src/main.rs".to_string(),
            line: 2,
        }],
    );
    let reachable = find_reachable(&graph, &vec!["main".to_string()]);
    let dead = find_dead_candidates(&graph, &reachable);
    let cycles = find_dead_cycles(&graph, &reachable);
    let test_only = find_test_only(&graph, &dead);
    let findings =
        assemble_findings(&graph, &dead, &cycles, &test_only, &vec![None; 3], &vec![95, 95, 95], defaults());

    assert_eq!(findings.len(), 1);
    assert_eq!(findings[0].symbol.name, "unused");
    assert_eq!(findings[0].tag, FindingTag::Dead);
}

#[test]
fn ref_factor_uses_bucketed_in_degree_scores() {
    assert_eq!(ref_factor(0) as f64 / 100.0, 1.0);
    assert_eq!(ref_factor(1) as f64 / 100.0, 0.5);
    assert_eq!(ref_factor(2) as f64 / 100.0, 0.0);
}

#[test]
fn scope_factor_penalizes_exported_symbols_and_methods() {
    assert_eq!(scope_factor(&kind_symbol(SymbolKind::Function, true)) as f64 / 100.0, 0.4);
    assert_eq!(scope_factor(&kind_symbol(SymbolKind::Method, false)) as f64 / 100.0, 0.6);
    assert_eq!(scope_factor(&kind_symbol(SymbolKind::Function, false)) as f64 / 100.0, 1.0);
}

#[test]
fn churn_factor_uses_recent_commit_buckets() {
    assert_eq!(churn_factor(0) as f64 / 100.0, 1.0);
    assert_eq!(churn_factor(2) as f64 / 100.0, 0.5);
    assert_eq!(churn_factor(3) as f64 / 100.0, 0.0);
}

#[test]
fn hunks_cover_their_new_lines_or_their_start() {
    assert_eq!(hunk_to_range(10, 3, 1, 0), LineRange { start: 10, end: 12 });
    assert_eq!(hunk_to_range(10, 0, 4, 2), LineRange { start: 4, end: 5 });
    assert_eq!(hunk_to_range(10, 0, 4, 0), LineRange { start: 4, end: 4 });
    assert!(ranges_overlap(1, 5, 5, 9));
    assert!(!ranges_overlap(1, 4, 5, 9));
}

#[test]
fn age_comes_from_the_newest_touch_of_the_lines() {
    let now = 1_000_000_000i64;
    let history = vec![
        FileTouch { timestamp: now - 10, ranges: vec![LineRange { start: 50, end: 60 }] },
        FileTouch { timestamp: now - 100, ranges: vec![LineRange { start: 1, end: 3 }] },
        FileTouch { timestamp: now - 1000, ranges: Vec::new() },
    ];

    assert_eq!(age_secs_from_history(2, 4, &history, now), 100);
    assert_eq!(age_secs_from_history(20, 30, &history, now), 1000);
    assert_eq!(age_secs_from_history(2, 4, &Vec::new(), now), 0);
    assert_eq!(age_secs_from_history(2, 4, &history, now - 200), 0);
}

#[test]
fn churn_counts_touches_in_the_last_ninety_days() {
    let now = 2_000_000_000i64;
    let day = 86_400i64;
    let history = vec![
        FileTouch { timestamp: now - 5 * day, ranges: Vec::new() },
        FileTouch { timestamp: now - 30 * day, ranges: Vec::new() },
        FileTouch { timestamp: now - 140 * day, ranges: Vec::new() },
    ];

    assert_eq!(commit_count_from_history(&history, now), 2);
}

#[test]
fn cache_keys_use_the_path_inside_the_work_tree() {
    assert_eq!(file_cache_key("/repo/src/a.py", "/repo/", "/repo", "abc"), "src/a.py:abc");
    assert_eq!(file_cache_key("/other/a.py", "/repo", "/other", "abc"), "a.py:abc");
}
