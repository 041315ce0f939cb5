use graveyard::baseline::diff_findings;
use graveyard::parse::types::{Finding, FindingTag, Symbol, SymbolKind};

fn sample_finding() -> Finding {
    Finding {
        symbol: Symbol {
            fqn: "src/main.rs::old_fn".to_string(),
            name: "old_fn".to_string(),
            kind: SymbolKind::Function,
            language: "rust".to_string(),
            file: "src/main.rs".to_string(),
            line_start: 10,
            line_end: 12,
            is_exported: false,
            is_test: false,
        },
        tag: FindingTag::Dead,
        confidence: 82,
        deadness_age_secs: 300 * 86_400,
        commits_90d: 1,
        in_degree: 0,
    }
}

#[test]
fn diff_findings_returns_only_new_fqns() {
    let mut new_finding = sample_finding();
    new_finding.symbol.fqn = "src/main.rs::brand_new".to_string();
    new_finding.symbol.name = "brand_new".to_string();
    let current = vec![sample_finding(), new_finding.clone()];
    let baseline = vec!["src/main.rs::old_fn".to_string()];

    let diff = diff_findings(current, baseline);

    assert_eq!(diff, vec![new_finding]);
}

#[test]
fn diff_against_an_empty_baseline_keeps_everything_in_order() {
    let mut second = sample_finding();
    second.symbol.fqn = "src/main.rs::second".to_string();
    let current = vec![sample_finding(), second.clone()];

    let diff = diff_findings(current.clone(), Vec::new());

    assert_eq!(diff, current);
}

#[test]
fn diff_against_own_names_leaves_nothing() {
    let current = vec![sample_finding(), sample_finding()];

    let diff = diff_findings(current, vec!["src/main.rs::old_fn".to_string()]);

    assert!(diff.is_empty());
}
