use graveyard::parse::javascript::{extract_javascript, extract_quoted_value};
use graveyard::parse::types::SymbolKind;

#[test]
fn extract_javascript_symbols_and_references() {
    let source = br#"
export function main() { helper(); }
const helper = () => 1;
class Box {}
"#;

    let (symbols, references) = extract_javascript("src/example.js", ".", source);

    assert!(symbols.iter().any(|symbol| symbol.name == "main" && symbol.is_exported));
    assert!(symbols
        .iter()
        .any(|symbol| symbol.name == "helper" && symbol.kind == SymbolKind::Function));
    assert!(symbols
        .iter()
        .any(|symbol| symbol.name == "Box" && symbol.kind == SymbolKind::Class));
    assert!(references.iter().any(|reference| reference.target_name == "helper"));
}

#[test]
fn extract_javascript_records_export_star_reexports() {
    let source = br#"export * from "./utils";"#;

    let (_, references) = extract_javascript("src/example.js", ".", source);

    assert!(references.iter().any(|reference| reference.target_name == "./utils"));
}

#[test]
fn javascript_symbols_carry_qualified_names_lines_and_callers() {
    let source = b"function outer() {\n  function inner() { return 1; }\n  return inner();\n}\nobj.run = function () { outer(); };\n";

    let (symbols, references) = extract_javascript("/repo/src/app.js", "/repo", source);

    let outer = symbols.iter().find(|s| s.name == "outer").expect("outer should be found");
    assert_eq!(outer.fqn, "src/app.js::outer");
    assert_eq!((outer.line_start, outer.line_end), (1, 4));
    assert!(!outer.is_exported);
    assert_eq!(outer.language, "javascript");

    let inner = symbols.iter().find(|s| s.name == "inner").expect("inner should be found");
    assert_eq!(inner.fqn, "src/app.js::outer::inner");

    assert!(symbols.iter().any(|s| s.name == "run" && s.kind == SymbolKind::Function));

    let call = references
        .iter()
        .find(|r| r.target_name == "inner")
        .expect("call to inner should be found");
    assert_eq!(call.source_fqn, "src/app.js::outer");
    assert_eq!(call.line, 3);
}

#[test]
fn named_export_clauses_mark_symbols_exported() {
    let source = b"function hidden() {}\nfunction shown() {}\nexport { shown };\n";

    let (symbols, _) = extract_javascript("lib.js", ".", source);

    assert!(symbols.iter().any(|s| s.name == "shown" && s.is_exported));
    assert!(symbols.iter().any(|s| s.name == "hidden" && !s.is_exported));
}

#[test]
fn test_files_mark_their_symbols() {
    let (symbols, _) = extract_javascript("web/app.test.js", ".", b"function check() {}\n");

    assert!(symbols.iter().all(|s| s.is_test));
    assert_eq!(symbols.len(), 1);
}

#[test]
fn extract_quoted_value_reads_the_first_quoted_text() {
    assert_eq!(extract_quoted_value("export * from './a'"), Some("./a".to_string()));
    assert_eq!(extract_quoted_value("x \"b'c\" d"), Some("b'c".to_string()));
    assert_eq!(extract_quoted_value("no quotes"), None);
    assert_eq!(extract_quoted_value("'open"), None);
}

#[test]
fn quoted_values_sit_between_the_first_quote_and_its_match() {
    assert_eq!(extract_quoted_value("export * from './a';").as_deref(), Some("./a"));
    assert_eq!(extract_quoted_value("x \"a'b\" y").as_deref(), Some("a'b"));
    assert_eq!(extract_quoted_value("no quotes"), None);
    assert_eq!(extract_quoted_value("'open"), None);
}
