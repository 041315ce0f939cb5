use graveyard::glob::wildcard_match;
use graveyard::walker::{
    contains_nul, detect_languages, enabled_languages, file_language, has_default_excluded_component, is_excluded_by_config,
    is_hidden_path, is_skipped_path, Language, LanguageSet, ManifestMarkers,
};

fn all_enabled() -> LanguageSet {
    enabled_languages(&vec![
        "python".to_string(),
        "javascript".to_string(),
        "typescript".to_string(),
        "go".to_string(),
        "rust".to_string(),
    ])
}

fn no_markers() -> ManifestMarkers {
    ManifestMarkers { pyproject_toml: false, setup_py: false, package_json: false, go_mod: false, cargo_toml: false }
}

#[test]
fn languages_come_from_extensions() {
    assert_eq!(Language::from_path("src/a.py"), Some(Language::Python));
    assert_eq!(Language::from_path("web/app.mjs"), Some(Language::JavaScript));
    assert_eq!(Language::from_path("web/bundle.min.js"), None);
    assert_eq!(Language::from_path("ui/view.tsx"), Some(Language::TypeScript));
    assert_eq!(Language::from_path("cmd/main.go"), Some(Language::Go));
    assert_eq!(Language::from_path("src/lib.rs"), Some(Language::Rust));
    assert_eq!(Language::from_path("README.md"), None);
    assert_eq!(Language::from_path(".py"), None);
    assert_eq!(Language::from_path("src/.."), None);
    assert_eq!(Language::Python.as_str(), "python");
}

#[test]
fn enabled_languages_ignore_unknown_names() {
    let set = enabled_languages(&vec!["rust".to_string(), "cobol".to_string()]);
    assert!(set.contains(Language::Rust));
    assert!(!set.contains(Language::Python));
}

#[test]
fn detects_languages_from_manifests() {
    let markers = ManifestMarkers { pyproject_toml: true, setup_py: false, package_json: true, go_mod: true, cargo_toml: true };
    let languages = detect_languages(&markers, &Vec::new(), &all_enabled());

    assert!(languages.contains(Language::Python));
    assert!(languages.contains(Language::JavaScript));
    assert!(languages.contains(Language::TypeScript));
    assert!(languages.contains(Language::Go));
    assert!(languages.contains(Language::Rust));
}

#[test]
fn falls_back_to_extension_detection_without_manifests() {
    let entries = vec!["/tmp/x/orphan.py".to_string(), "/tmp/x/orphan.rs".to_string()];
    let languages = detect_languages(&no_markers(), &entries, &all_enabled());

    assert!(languages.contains(Language::Python));
    assert!(languages.contains(Language::Rust));
    assert!(!languages.contains(Language::Go));
}

#[test]
fn detection_keeps_only_enabled_languages() {
    let markers = ManifestMarkers { cargo_toml: true, go_mod: true, ..no_markers() };
    let languages = detect_languages(&markers, &Vec::new(), &enabled_languages(&vec!["go".to_string()]));

    assert!(languages.contains(Language::Go));
    assert!(!languages.contains(Language::Rust));
}

#[test]
fn walk_skips_hidden_default_and_configured_paths() {
    assert!(is_hidden_path("/repo", "/repo/.github/x.py"));
    assert!(!is_hidden_path("/repo", "/repo/src/x.py"));
    assert!(!is_hidden_path("/repo", "/elsewhere/.x.py"));
    assert!(has_default_excluded_component("/repo/node_modules/a.js"));
    assert!(has_default_excluded_component("/repo/target/generated.rs"));
    assert!(!has_default_excluded_component("/repo/src/a.js"));
    assert!(is_excluded_by_config("/repo", "/repo/tests/skip.py", &vec!["tests/**".to_string()]));
    assert!(!is_excluded_by_config("/repo", "/repo/keep.py", &vec!["tests/**".to_string()]));
    assert!(is_skipped_path("/repo", "/repo/dist/a.js", &Vec::new()));
    assert!(!is_skipped_path("/repo", "/repo/src/a.js", &Vec::new()));
}

#[test]
fn walk_skips_binary_files_and_disabled_languages() {
    assert!(contains_nul(&[0u8, 159, 146, 150]));
    assert!(!contains_nul(b"def f(): pass"));
    assert_eq!(file_language("data.py", &[0u8, 159], &all_enabled()), None);
    assert_eq!(file_language("main.ts", b"export const main = () => 1;", &all_enabled()), Some(Language::TypeScript));
    assert_eq!(file_language("main.ts", b"x", &enabled_languages(&vec!["go".to_string()])), None);
}

#[test]
fn wildcards_match_any_run_of_bytes() {
    assert!(wildcard_match("tests/**", "tests/skip.py"));
    assert!(!wildcard_match("tests/**", "src/tests/a.py"));
    assert!(wildcard_match("*.py", "a/b.py"));
    assert!(wildcard_match("tests/*", "tests/skip.py"));
}
