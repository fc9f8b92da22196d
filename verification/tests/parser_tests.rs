use codebase_rag::parser::{AstParser, Chunker, Language, SymbolKind};
use codebase_rag::text::char_is_whitespace;

#[test]
fn test_language_detection() {
    assert_eq!(Language::from_path("src/main.rs"), Language::Rust);
    assert_eq!(Language::from_path("app/server.py"), Language::Python);
    assert_eq!(Language::from_path("frontend/App.tsx"), Language::TypeScript);
    assert_eq!(Language::from_path("backend/handler.go"), Language::Go);
    assert_eq!(Language::from_path("README.md"), Language::Markdown);
    assert_eq!(Language::from_path("config.json"), Language::Json);
}

#[test]
fn test_rust_ast_parsing() {
    let rust_code = r#"
pub struct UserConfig {
    pub name: String,
    pub timeout: u64,
}

impl UserConfig {
    pub fn new(name: String) -> Self {
        Self { name, timeout: 30 }
    }

    pub fn get_name(&self) -> &str {
        &self.name
    }
}

pub fn calculate_hash(data: &[u8]) -> u64 {
    42
}
"#;

    let symbols = AstParser::parse_symbols(rust_code, Language::Rust);
    assert!(!symbols.is_empty());

    let struct_sym = symbols.iter().find(|s| s.name == "UserConfig" && s.kind == SymbolKind::Struct);
    assert!(struct_sym.is_some(), "UserConfig struct must be found");

    let fn_sym = symbols.iter().find(|s| s.name == "calculate_hash");
    assert!(fn_sym.is_some(), "calculate_hash function must be found");
}

#[test]
fn test_python_ast_parsing() {
    let py_code = r#"
class DataProcessor:
    def __init__(self, name: str):
        self.name = name

    def process(self, items: list) -> list:
        return [item.strip() for item in items]

def fetch_records():
    return []
"#;

    let symbols = AstParser::parse_symbols(py_code, Language::Python);
    assert!(!symbols.is_empty());

    let class_sym = symbols.iter().find(|s| s.name == "DataProcessor" && s.kind == SymbolKind::Class);
    assert!(class_sym.is_some(), "DataProcessor class must be found");

    let method_sym = symbols.iter().find(|s| s.name == "process");
    assert!(method_sym.is_some(), "process method must be found");

    let fn_sym = symbols.iter().find(|s| s.name == "fetch_records");
    assert!(fn_sym.is_some(), "fetch_records function must be found");
}

#[test]
fn test_typescript_ast_parsing() {
    let ts_code = r#"
interface SessionPayload {
    userId: string;
    token: string;
}

export class AuthService {
    constructor(private secret: string) {}

    async validateSession(token: string): Promise<boolean> {
        return token.length > 0;
    }
}
"#;

    let symbols = AstParser::parse_symbols(ts_code, Language::TypeScript);
    assert!(!symbols.is_empty());

    let iface_sym = symbols.iter().find(|s| s.name == "SessionPayload");
    assert!(iface_sym.is_some(), "SessionPayload interface must be found");

    let class_sym = symbols.iter().find(|s| s.name == "AuthService");
    assert!(class_sym.is_some(), "AuthService class must be found");
}

#[test]
fn test_chunker_ast_and_fallback() {
    let chunker = Chunker::new(50, 10);
    let rust_code = r#"
pub fn greet(name: &str) -> String {
    format!("Hello, {}", name)
}
"#;
    let (chunks, symbols) = chunker.chunk_file("src/greet.rs", "src/greet.rs", rust_code);
    assert!(!chunks.is_empty());
    assert!(!symbols.is_empty());
    assert_eq!(chunks[0].relative_path, "src/greet.rs");
    assert_eq!(chunks[0].symbol_name, Some("greet".to_string()));
}

#[test]
fn test_language_names_and_support() {
    assert_eq!(Language::from_path("lib/util.hpp"), Language::Cpp);
    assert_eq!(Language::from_path("Makefile"), Language::Unknown);
    assert_eq!(Language::Rust.name(), "rust");
    assert!(Language::Go.is_ast_supported());
    assert!(!Language::Markdown.is_ast_supported());
    assert_eq!(SymbolKind::TypeAlias.as_str(), "type");
}

#[test]
fn test_unsupported_language_has_no_symbols() {
    let symbols = AstParser::parse_symbols("# Title\n\nSome text\n", Language::Markdown);
    assert!(symbols.is_empty());
}

#[test]
fn test_estimate_tokens_rounds_up() {
    assert_eq!(Chunker::estimate_tokens(""), 0);
    assert_eq!(Chunker::estimate_tokens("abcd"), 1);
    assert_eq!(Chunker::estimate_tokens("abcde"), 2);
    // "é" is two bytes in UTF-8.
    assert_eq!(Chunker::estimate_tokens("ééé"), 2);
}

#[test]
fn test_sliding_window_fallback_for_plain_text() {
    let chunker = Chunker::new(10, 2);
    let mut text = String::new();
    for i in 1..=25 {
        text.push_str(&format!("line {}\n", i));
    }
    let (chunks, symbols) = chunker.chunk_file("notes/todo.txt", "notes/todo.txt", &text);
    assert!(symbols.is_empty());
    let ranges: Vec<(usize, usize)> = chunks.iter().map(|c| (c.line_start, c.line_end)).collect();
    assert_eq!(ranges, vec![(1, 10), (9, 18), (17, 25)]);
    assert_eq!(chunks[0].id, "notes/todo.txt:1-10");
    assert_eq!(chunks[1].content.lines().next(), Some("line 9"));
    assert_eq!(chunks[0].symbol_name, None);
}

#[test]
fn test_chunker_bounds_target_and_overlap() {
    // A target below 10 becomes 10 and the overlap is capped at half the
    // requested target.
    let chunker = Chunker::new(4, 9);
    let mut text = String::new();
    for i in 1..=12 {
        text.push_str(&format!("x{}\n", i));
    }
    let (chunks, _) = chunker.chunk_file("a.txt", "a.txt", &text);
    let ranges: Vec<(usize, usize)> = chunks.iter().map(|c| (c.line_start, c.line_end)).collect();
    assert_eq!(ranges, vec![(1, 10), (9, 12)]);
}

#[test]
fn test_rust_method_scope() {
    let code = "struct A;\nimpl A {\n    fn run(&self) {}\n}\n";
    let symbols = AstParser::parse_symbols(code, Language::Rust);
    let run = symbols.iter().find(|s| s.name == "run").expect("run must be found");
    assert_eq!(run.line_start, 3);
    assert_eq!(run.line_end, 3);
}

#[test]
fn test_import_only_file_keeps_its_symbols() {
    let (chunks, symbols) = Chunker::new(50, 10).chunk_file("a.rs", "a.rs", "use std::io;\n");
    assert_eq!(symbols.len(), 1);
    assert_eq!(symbols[0].kind, SymbolKind::Import);
    assert_eq!(chunks.len(), 1);
    assert_eq!(chunks[0].id, "a.rs:1-1");
    assert_eq!(chunks[0].content, "use std::io;");
    assert!(chunks[0].symbol_name.is_none());
}

#[test]
fn test_whitespace_matches_std() {
    for n in 0u32..=0x10FFFF {
        if let Some(c) = char::from_u32(n) {
            assert_eq!(char_is_whitespace(c), c.is_whitespace(), "code point {:#x}", n);
        }
    }
}

#[test]
fn test_parsed_symbols_are_placed_in_order() {
    let code = "use std::io;\n\nstruct A {\n    x: u8,\n}\n\nimpl A {\n    fn get(&self) -> u8 {\n        self.x\n    }\n}\n\nfn main() {}\n";
    let symbols = AstParser::parse_symbols(code, Language::Rust);
    assert!(symbols.len() >= 4);
    for w in symbols.windows(2) {
        assert!(w[0].byte_start <= w[1].byte_start);
    }
    for s in &symbols {
        assert!(!s.name.is_empty());
        assert!(s.docstring.is_none());
        assert!(1 <= s.line_start && s.line_start <= s.line_end);
        assert!(s.byte_start <= s.byte_end && s.byte_end <= code.len());
    }
    let get = symbols.iter().find(|s| s.name == "get").unwrap();
    assert_eq!(get.parent_scope, Some("A".to_string()));
    assert_eq!((get.line_start, get.line_end), (8, 10));
}
