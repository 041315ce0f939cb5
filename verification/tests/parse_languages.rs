use graveyard::parse::go::{extract_go, is_go_exported, receiver_type_name};
use graveyard::parse::python::{extract_python, extract_string_names};
use graveyard::parse::rust_lang::extract_rust;
use graveyard::parse::types::SymbolKind;
use graveyard::parse::typescript::{extract_typescript, is_declaration_file};
use graveyard::parse::{build_cache_key, dispatch_extract};
use graveyard::walker::Language;

#[test]
fn extract_python_symbols_and_references() {
    let source = br#"
class Greeter:
    def hello(self):
        helper()

def helper():
    return 1

__all__ = ["helper"]
"#;

    let (symbols, references) = extract_python("src/example.py", ".", source);

    assert!(symbols.iter().any(|symbol| symbol.name == "Greeter" && symbol.kind == SymbolKind::Class));
    assert!(symbols.iter().any(|symbol| symbol.name == "hello" && symbol.kind == SymbolKind::Method));
    assert!(symbols.iter().any(|symbol| symbol.name == "helper" && symbol.is_exported));
    assert!(references.iter().any(|reference| reference.target_name == "helper"));
}

#[test]
fn python_methods_are_qualified_and_fixtures_are_tests() {
    let source = b"import pytest\n\nclass Greeter:\n    def hello(self):\n        self.wave()\n\n@pytest.fixture\ndef client():\n    return 1\n";

    let (symbols, references) = extract_python("/repo/app.py", "/repo", source);

    let hello = symbols.iter().find(|s| s.name == "hello").expect("method should be found");
    assert_eq!(hello.fqn, "app.py::Greeter::hello");
    assert_eq!((hello.line_start, hello.line_end), (4, 5));
    let client = symbols.iter().find(|s| s.name == "client").expect("fixture should be found");
    assert!(client.is_test);
    assert!(!hello.is_test);
    let wave = references.iter().find(|r| r.target_name == "wave").expect("call should be found");
    assert_eq!(wave.source_fqn, "app.py::Greeter::hello");
}

#[test]
fn all_lists_are_read_as_quoted_names() {
    assert_eq!(extract_string_names("[\"a\", 'b', \"\"]"), vec!["a".to_string(), "b".to_string()]);
    assert!(extract_string_names("[]").is_empty());
}

#[test]
fn extract_go_symbols_and_references() {
    let source = br#"
package main

func Public() { private() }
func private() {}
type Service struct {}
"#;

    let (symbols, references) = extract_go("src/example.go", ".", source);

    assert!(symbols.iter().any(|symbol| symbol.name == "Public" && symbol.is_exported));
    assert!(symbols.iter().any(|symbol| symbol.name == "private" && !symbol.is_exported));
    assert!(symbols.iter().any(|symbol| symbol.name == "Service" && symbol.kind == SymbolKind::Struct));
    assert!(references.iter().any(|reference| reference.target_name == "private"));
}

#[test]
fn go_methods_are_named_by_their_receiver() {
    let source = b"package main\n\ntype Server struct{}\n\nfunc (s *Server) Start() { s.listen() }\ntype Store interface{}\n";

    let (symbols, references) = extract_go("svc/server.go", ".", source);

    let start = symbols.iter().find(|s| s.name == "Start").expect("method should be found");
    assert_eq!(start.fqn, "svc/server.go::Server::Start");
    assert_eq!(start.kind, SymbolKind::Method);
    assert!(symbols.iter().any(|s| s.name == "Store" && s.kind == SymbolKind::Interface));
    assert!(references.iter().any(|r| r.target_name == "listen"));
    assert_eq!(receiver_type_name("(s *Server)"), Some("Server".to_string()));
    assert_eq!(receiver_type_name("()"), None);
    assert!(is_go_exported("Public") && !is_go_exported("private") && !is_go_exported(""));
}

#[test]
fn extract_rust_symbols_and_references() {
    let source = br#"
pub fn public() { helper(); }
fn helper() {}
pub(crate) fn crate_only() {}
pub struct Item {}
pub enum Kind { A }

#[test]
fn test_public() { public(); }
"#;

    let (symbols, references) = extract_rust("src/example.rs", ".", source);

    assert!(symbols.iter().any(|symbol| symbol.name == "public" && symbol.is_exported));
    assert!(symbols.iter().any(|symbol| symbol.name == "crate_only" && !symbol.is_exported));
    assert!(symbols.iter().any(|symbol| symbol.name == "Item" && symbol.kind == SymbolKind::Struct));
    assert!(symbols.iter().any(|symbol| symbol.name == "Kind" && symbol.kind == SymbolKind::Enum));
    assert!(symbols.iter().any(|symbol| symbol.name == "test_public" && symbol.is_test));
    assert!(references.iter().any(|reference| reference.target_name == "helper"));
}

#[test]
fn rust_methods_are_named_by_their_impl_type() {
    let source = b"struct Cache;\nimpl Cache {\n    pub fn get(&self) { Self::load(); }\n}\n#[cfg(test)]\nmod tests {\n    fn probe() {}\n}\n";

    let (symbols, references) = extract_rust("src/cache.rs", "src", source);

    let get = symbols.iter().find(|s| s.name == "get").expect("method should be found");
    assert_eq!(get.fqn, "cache.rs::Cache::get");
    assert_eq!(get.kind, SymbolKind::Method);
    assert!(get.is_exported);
    assert!(symbols.iter().any(|s| s.name == "probe" && s.is_test));
    assert!(references.iter().any(|r| r.target_name == "load"));
}

#[test]
fn extract_typescript_symbols() {
    let source = br#"
export interface User { id: string }
export type Id = string;
const helper = (): number => 1;
"#;

    let (symbols, _) = extract_typescript("src/example.ts", ".", source, false);

    assert!(symbols.iter().any(|symbol| symbol.name == "User" && symbol.kind == SymbolKind::Interface));
    assert!(symbols
        .iter()
        .any(|symbol| { symbol.name == "Id" && symbol.kind == SymbolKind::TypeAlias && symbol.is_exported }));
    assert!(symbols.iter().any(|symbol| symbol.name == "helper" && symbol.kind == SymbolKind::Function));
}

#[test]
fn declaration_files_export_everything() {
    let (symbols, _) = extract_typescript("types/api.d.ts", ".", b"interface Hidden { a: string }\n", false);

    assert!(symbols.iter().all(|s| s.is_exported));
    assert_eq!(symbols.len(), 1);
    assert!(is_declaration_file("types/api.d.ts"));
    assert!(!is_declaration_file("types/api.ts"));
}

#[test]
fn tsx_files_are_read_with_the_tsx_grammar() {
    let (symbols, _) = dispatch_extract("ui/view.tsx", ".", b"const View = () => <div>Hello</div>;\n", Language::TypeScript);

    assert!(symbols.iter().any(|s| s.name == "View" && s.kind == SymbolKind::Function));
}

#[test]
fn cache_keys_are_hex_digests() {
    assert_eq!(build_cache_key("", 0, ""), "2662e8da0b69d36537d40d13664eb2a6aa49a7be1e718f971f7e060ff3f0a743");
    assert_eq!(
        build_cache_key("src/a.py", 1_700_000_000, "abc"),
        "98719a23a6e07b0ece331d5f7979f32b28bb0d445ce14a6bf7b979464ef32b44"
    );
}
