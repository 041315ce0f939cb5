use graveyard::parse::types::{build_fqn, FindingTag, Symbol, SymbolKind};

#[test]
fn build_fqn_normalizes_relative_paths() {
    let file = r"C:\repo\src\foo.py";
    let root = r"C:\repo";

    let fqn = build_fqn(file, root, &["MyClass", "my_method"]);

    assert_eq!(fqn, "src/foo.py::MyClass::my_method");
}

#[test]
fn display_uses_expected_names() {
    assert_eq!(SymbolKind::TypeAlias.to_string(), "type_alias");
    assert_eq!(FindingTag::ExportedUnused.to_string(), "exported_unused");
}

#[test]
fn finding_related_types_are_constructible() {
    let symbol = Symbol {
        fqn: "src/foo.py::func".to_string(),
        name: "func".to_string(),
        kind: SymbolKind::Function,
        language: "python".to_string(),
        file: "src/foo.py".to_string(),
        line_start: 1,
        line_end: 2,
        is_exported: false,
        is_test: false,
    };

    assert_eq!(symbol.name, "func");
}

#[test]
fn build_fqn_keeps_paths_outside_the_root() {
    assert_eq!(build_fqn("lib/a.py", "/repo", &["f"]), "lib/a.py::f");
    assert_eq!(build_fqn("/repo/a.py", "/repo", &[]), "a.py");
}
