use codebase_rag::config::{EmbeddingConfig, EmbeddingProviderKind};
use codebase_rag::index::engine::{
    batch_ranges, collect_stats, embedding_text, forget_changes, forget_file, ingest_file, should_index, text_contains,
};
use codebase_rag::index::file_tracker::{FileChanges, FileStat, FileTracker, ObservedFile, TrackedFileInfo};
use codebase_rag::index::symbol_store::{MatchTier, SymbolStore};
use codebase_rag::index::tantivy_store::{chunk_document, fallback_query, hit_of_document, query_attempts, sanitize_query, LexicalFields};
use codebase_rag::index::vector_store::VectorStore;
use codebase_rag::parser::{Chunker, CodeChunk, Language, SymbolInfo, SymbolKind};

const ABC_SHA256: &str = "ba7816bf8f01cfea414140de5dae2223b00361a396177a9cb410ff61f20015ad";

#[test]
fn test_compute_sha256_hex() {
    assert_eq!(FileTracker::compute_sha256(b"abc"), ABC_SHA256);
    assert_eq!(
        FileTracker::compute_sha256(b""),
        "e3b0c44298fc1c149afbf4c8996fb92427ae41e4649b934ca495991b7852b855"
    );
}

fn observed(path: &str, rel: &str, stat: Option<(u64, u64)>, content: Option<&[u8]>) -> ObservedFile {
    ObservedFile {
        path: path.to_string(),
        relative_path: rel.to_string(),
        stat: stat.map(|(m, s)| FileStat { mtime_secs: m, size_bytes: s }),
        content: content.map(|c| c.to_vec()),
    }
}

#[test]
fn test_tracker_record_remove_count() {
    let mut t = FileTracker::new(None);
    t.record_file("a.rs", "h1".to_string(), 10, 100, 3);
    t.record_file("b.rs", "h2".to_string(), 11, 200, 4);
    assert_eq!(t.count(), 2);
    assert_eq!(t.total_chunks(), 7);
    // Recording a path again replaces its record.
    t.record_file("a.rs", "h3".to_string(), 12, 150, 5);
    assert_eq!(t.count(), 2);
    assert_eq!(t.total_chunks(), 9);
    assert_eq!(t.total_chunks_checked(), Some(9));
    t.remove_file("a.rs");
    assert_eq!(t.count(), 1);
    assert_eq!(t.total_chunks(), 4);
    t.remove_file("missing.rs");
    assert_eq!(t.count(), 1);
    let files = t.files();
    assert_eq!(files.len(), 1);
    assert_eq!(files[0].relative_path, "b.rs");
}

#[test]
fn test_tracker_from_entries_last_wins() {
    let entry = |p: &str, h: &str, c: usize| TrackedFileInfo {
        relative_path: p.to_string(),
        sha256: h.to_string(),
        mtime_secs: 1,
        size_bytes: 1,
        chunk_count: c,
    };
    let t = FileTracker::from_entries(vec![entry("a", "x", 1), entry("b", "y", 2), entry("a", "z", 5)], None);
    assert_eq!(t.count(), 2);
    assert_eq!(t.total_chunks(), 7);
    assert!(t.files().iter().any(|f| f.relative_path == "a" && f.sha256 == "z"));
}

#[test]
fn test_detect_changes_added_modified_deleted() {
    let mut t = FileTracker::new(None);
    t.record_file("same.rs", ABC_SHA256.to_string(), 10, 3, 1);
    t.record_file("touched.rs", ABC_SHA256.to_string(), 10, 3, 1);
    t.record_file("edited.rs", ABC_SHA256.to_string(), 10, 3, 1);
    t.record_file("gone.rs", "h".to_string(), 10, 3, 1);
    let current = vec![
        observed("/p/same.rs", "same.rs", Some((10, 3)), None),
        // Newer time, same content: not modified.
        observed("/p/touched.rs", "touched.rs", Some((20, 3)), Some(b"abc")),
        observed("/p/edited.rs", "edited.rs", Some((20, 4)), Some(b"abcd")),
        observed("/p/new.rs", "new.rs", Some((5, 1)), None),
        // Vanished between the walk and the stat: neither added nor deleted.
        observed("/p/vanished.rs", "vanished.rs", None, None),
    ];
    let changes = t.detect_changes(&current).expect("all needed contents are given");
    assert_eq!(changes.added, vec!["/p/new.rs".to_string()]);
    assert_eq!(changes.modified, vec!["/p/edited.rs".to_string()]);
    assert_eq!(changes.deleted, vec!["gone.rs".to_string()]);
    assert!(!changes.is_empty());
}

#[test]
fn test_detect_changes_unchanged_is_empty() {
    let mut t = FileTracker::new(None);
    t.record_file("a.rs", "h".to_string(), 10, 3, 1);
    let current = vec![observed("/p/a.rs", "a.rs", Some((10, 3)), None)];
    assert!(!t.needs_content("a.rs", FileStat { mtime_secs: 10, size_bytes: 3 }));
    assert!(t.needs_content("a.rs", FileStat { mtime_secs: 11, size_bytes: 3 }));
    assert!(!t.needs_content("b.rs", FileStat { mtime_secs: 11, size_bytes: 3 }));
    let changes = t.detect_changes(&current).unwrap();
    assert!(changes.is_empty());
}

#[test]
fn test_detect_changes_needs_content() {
    let mut t = FileTracker::new(None);
    t.record_file("a.rs", "h".to_string(), 10, 3, 1);
    let current = vec![observed("/p/a.rs", "a.rs", Some((11, 3)), None)];
    let err = t.detect_changes(&current).unwrap_err();
    assert_eq!(err.path, "/p/a.rs");
}

fn sym(name: &str, kind: SymbolKind) -> SymbolInfo {
    SymbolInfo {
        name: name.to_string(),
        kind,
        signature: name.to_string(),
        docstring: None,
        parent_scope: None,
        line_start: 1,
        line_end: 2,
        byte_start: 0,
        byte_end: 0,
    }
}

#[test]
fn test_symbol_store_add_replace_delete() {
    let mut s = SymbolStore::create_in_ram();
    s.add_symbols("a.rs", &[sym("Alpha", SymbolKind::Struct), sym("std", SymbolKind::Import), sym("beta", SymbolKind::Function)]);
    s.add_symbols("b.rs", &[sym("gamma", SymbolKind::Function)]);
    assert_eq!(s.count(), 3);
    assert_eq!(s.get_all_symbols()[0].kind, "struct");
    // Adding a file again replaces its symbols.
    s.add_symbols("a.rs", &[sym("Alpha", SymbolKind::Struct), sym("std", SymbolKind::Import), sym("beta", SymbolKind::Function)]);
    assert_eq!(s.count(), 3);
    let names: Vec<&str> = s.get_all_symbols().iter().map(|r| r.name.as_str()).collect();
    assert_eq!(names, vec!["gamma", "Alpha", "beta"]);
    s.delete_file("a.rs");
    assert_eq!(s.count(), 1);
    assert_eq!(s.get_all_symbols()[0].relative_path, "b.rs");
}

#[test]
fn test_symbol_match_tiers() {
    let mut s = SymbolStore::create_in_ram();
    s.add_symbols("a.rs", &[sym("IndexEngine", SymbolKind::Struct), sym("index", SymbolKind::Function), sym("reindex_all", SymbolKind::Function), sym("Other", SymbolKind::Function)]);
    let tiers = s.match_tiers("INDEX");
    assert_eq!(tiers, vec![MatchTier::Prefix, MatchTier::Exact, MatchTier::Contains, MatchTier::Fuzzy]);
}

fn chunk(id: &str, path: &str, sig: Option<&str>) -> CodeChunk {
    CodeChunk {
        id: id.to_string(),
        file_path: format!("/p/{}", path),
        relative_path: path.to_string(),
        language: Language::Rust,
        symbol_name: Some("f".to_string()),
        symbol_kind: Some(SymbolKind::Function),
        signature: sig.map(|s| s.to_string()),
        content: "fn f() {}".to_string(),
        line_start: 1,
        line_end: 1,
        token_count_estimate: 3,
    }
}

#[test]
fn test_vector_store_replace_and_delete() {
    let mut v: VectorStore<Vec<f32>> = VectorStore::create_in_ram();
    v.add_chunk_with_embedding(&chunk("a.rs:1-1", "a.rs", None), vec![1.0]);
    v.add_chunk_with_embedding(&chunk("b.rs:1-1", "b.rs", None), vec![2.0]);
    v.add_chunk_with_embedding(&chunk("a.rs:1-1", "a.rs", None), vec![3.0]);
    assert_eq!(v.count(), 2);
    let docs = v.documents();
    assert_eq!(docs[0].chunk_id, "b.rs:1-1");
    assert_eq!(docs[1].embedding, vec![3.0]);
    assert_eq!(docs[1].language, "rust");
    assert_eq!(docs[1].symbol_kind, Some("function".to_string()));
    v.delete_file("b.rs");
    assert_eq!(v.count(), 1);
    assert_eq!(v.documents()[0].relative_path, "a.rs");
}

#[test]
fn test_forget_file_and_stats() {
    let mut symbols = SymbolStore::create_in_ram();
    let mut vectors: VectorStore<Vec<f32>> = VectorStore::create_in_ram();
    let mut tracker = FileTracker::new(None);
    symbols.add_symbols("a.rs", &[sym("f", SymbolKind::Function)]);
    vectors.add_chunk_with_embedding(&chunk("a.rs:1-1", "a.rs", None), vec![1.0]);
    tracker.record_file("a.rs", "h".to_string(), 1, 1, 1);
    tracker.record_file("b.rs", "h".to_string(), 1, 1, 2);
    let mut config = EmbeddingConfig::default();
    config.provider = EmbeddingProviderKind::Gemini;
    let stats = collect_stats(&tracker, &symbols, &vectors, "/p/.codebase-rag", &config).unwrap();
    assert_eq!((stats.total_files, stats.total_chunks, stats.total_symbols, stats.total_vectors), (2, 3, 1, 1));
    assert_eq!(stats.embedding_provider, "Gemini");
    assert_eq!(stats.embedding_model, "text-embedding-004");
    forget_file(&mut symbols, &mut vectors, &mut tracker, "a.rs");
    let stats = collect_stats(&tracker, &symbols, &vectors, "/p/.codebase-rag", &EmbeddingConfig::default()).unwrap();
    assert_eq!((stats.total_files, stats.total_chunks, stats.total_symbols, stats.total_vectors), (1, 2, 0, 0));
    assert_eq!(stats.embedding_provider, "None");
    assert_eq!(stats.storage_dir, "/p/.codebase-rag");
}

#[test]
fn test_should_index_and_contains() {
    assert!(should_index("/p/src/main.rs", 10, 100));
    assert!(!should_index("/p/src/main.rs", 101, 100));
    assert!(should_index("/p/src/main.rs", 100, 100));
    assert!(!should_index("/p/target/debug/x.rs", 1, 100));
    assert!(!should_index("/p/.git/HEAD", 1, 100));
    assert!(!should_index("/p/web/node_modules/x.js", 1, 100));
    assert!(!should_index("/p/.codebase-rag/vectors.json", 1, 100));
    assert!(should_index("/p/targets/x.rs", 1, 100));
    assert!(text_contains("abcabd", "abd"));
    assert!(text_contains("abc", ""));
    assert!(!text_contains("ab", "abc"));
}

#[test]
fn test_embedding_text_and_batches() {
    assert_eq!(embedding_text(&chunk("a", "a.rs", Some("fn f()"))), "fn f()\nfn f() {}");
    assert_eq!(embedding_text(&chunk("a", "a.rs", None)), "fn f() {}");
    assert_eq!(batch_ranges(7, 3), vec![(0, 3), (3, 6), (6, 7)]);
    assert_eq!(batch_ranges(6, 3), vec![(0, 3), (3, 6)]);
    assert_eq!(batch_ranges(0, 3), vec![]);
}

#[test]
fn test_sanitize_and_fallback_query() {
    assert_eq!(sanitize_query("  foo::bar(x)   baz! ?? "), "foo::barx baz");
    assert_eq!(sanitize_query("héllo wörld"), "héllo wörld");
    assert_eq!(sanitize_query("!!! ???"), "");
    assert_eq!(fallback_query("a.b-c_d::e"), Some("a b c_d e".to_string()));
    assert_eq!(fallback_query("+-*/"), None);
}

#[test]
fn test_chunker_chunks_feed_vector_store() {
    let chunker = Chunker::new(50, 10);
    let (chunks, _) = chunker.chunk_file("src/g.rs", "src/g.rs", "pub fn g() -> u8 {\n    1\n}\n");
    let mut v: VectorStore<u32> = VectorStore::create_in_ram();
    for (i, c) in chunks.iter().enumerate() {
        v.add_chunk_with_embedding(c, i as u32);
    }
    assert_eq!(v.count(), chunks.len());
}

fn lexical_fields() -> LexicalFields {
    LexicalFields {
        chunk_id: 0,
        relative_path: 1,
        language: 2,
        symbol_name: 3,
        symbol_kind: 4,
        signature: 5,
        content: 6,
        line_start: 7,
        line_end: 8,
    }
}

#[test]
fn test_lexical_document_round_trip() {
    let fields = lexical_fields();
    let mut c = chunk("src/a.rs:3-9", "src/a.rs", Some("fn f()"));
    c.line_start = 3;
    c.line_end = 9;
    let doc = chunk_document(&fields, &c);
    let hit = hit_of_document(&fields, &doc);
    assert_eq!(hit.chunk_id, "src/a.rs:3-9");
    assert_eq!(hit.relative_path, "src/a.rs");
    assert_eq!(hit.language, "rust");
    assert_eq!(hit.symbol_name, Some("f".to_string()));
    assert_eq!(hit.symbol_kind, Some("function".to_string()));
    assert_eq!(hit.signature, Some("fn f()".to_string()));
    assert_eq!(hit.content, "fn f() {}");
    assert_eq!((hit.line_start, hit.line_end), (3, 9));
}

#[test]
fn test_lexical_hit_defaults() {
    let doc = tantivy::TantivyDocument::new();
    let hit = hit_of_document(&lexical_fields(), &doc);
    assert_eq!(hit.chunk_id, "");
    assert_eq!(hit.symbol_name, None);
    assert_eq!((hit.line_start, hit.line_end), (1, 1));
}

#[test]
fn test_ingest_file_hashes_and_records_symbols() {
    let chunker = Chunker::new(50, 10);
    let mut symbols = SymbolStore::create_in_ram();
    let content = "pub fn greet() {}\n";
    let ingested = ingest_file(&chunker, &mut symbols, "/p/src/g.rs", "src/g.rs", content);
    assert_eq!(ingested.sha256, FileTracker::compute_sha256(content.as_bytes()));
    assert!(!ingested.chunks.is_empty());
    assert_eq!(symbols.get_all_symbols()[0].name, "greet");
    assert_eq!(symbols.get_all_symbols()[0].relative_path, "src/g.rs");
}

#[test]
fn test_record_then_remove_restores() {
    let mut t = FileTracker::new(None);
    t.record_file("kept.rs", "h".to_string(), 1, 2, 3);
    let before: Vec<String> = t.files().iter().map(|f| f.relative_path.clone()).collect();
    t.record_file("temp.rs", "h2".to_string(), 4, 5, 6);
    t.remove_file("temp.rs");
    let after: Vec<String> = t.files().iter().map(|f| f.relative_path.clone()).collect();
    assert_eq!(before, after);
    assert_eq!(t.total_chunks(), 3);
}

#[test]
fn test_forget_changes_clears_deleted_and_modified() {
    let mut symbols = SymbolStore::create_in_ram();
    let mut vectors: VectorStore<Vec<f32>> = VectorStore::create_in_ram();
    let mut tracker = FileTracker::new(None);
    for p in ["a.rs", "b.rs", "c.rs"] {
        symbols.add_symbols(p, &[sym("f", SymbolKind::Function)]);
        vectors.add_chunk_with_embedding(&chunk(&format!("{}:1-1", p), p, None), vec![1.0]);
        tracker.record_file(p, "h".to_string(), 1, 1, 1);
    }
    let current = vec![
        observed("/p/b.rs", "b.rs", Some((2, 1)), Some(b"x")),
        observed("/p/c.rs", "c.rs", Some((1, 1)), None),
    ];
    let changes = FileChanges { added: vec![], modified: vec!["/p/b.rs".to_string()], deleted: vec!["a.rs".to_string()] };
    let forgotten = forget_changes(&changes, &current, &mut symbols, &mut vectors, &mut tracker);
    assert_eq!(forgotten, vec!["a.rs".to_string(), "b.rs".to_string()]);
    assert_eq!(symbols.count(), 1);
    assert_eq!(symbols.get_all_symbols()[0].relative_path, "c.rs");
    assert_eq!(vectors.count(), 1);
    assert_eq!(vectors.documents()[0].relative_path, "c.rs");
    assert_eq!(tracker.count(), 1);
    assert_eq!(tracker.files()[0].relative_path, "c.rs");
}

#[test]
fn test_forget_changes_without_changes_keeps_indexes() {
    let mut symbols = SymbolStore::create_in_ram();
    let mut vectors: VectorStore<Vec<f32>> = VectorStore::create_in_ram();
    let mut tracker = FileTracker::new(None);
    symbols.add_symbols("a.rs", &[sym("f", SymbolKind::Function)]);
    vectors.add_chunk_with_embedding(&chunk("a.rs:1-1", "a.rs", None), vec![1.0]);
    tracker.record_file("a.rs", FileTracker::compute_sha256(b"x"), 1, 1, 1);
    let current = vec![observed("/p/a.rs", "a.rs", Some((1, 1)), None)];
    let changes = tracker.detect_changes(&current).unwrap();
    assert!(changes.is_empty());
    let forgotten = forget_changes(&changes, &current, &mut symbols, &mut vectors, &mut tracker);
    assert!(forgotten.is_empty());
    let stats = collect_stats(&tracker, &symbols, &vectors, "/p/.codebase-rag", &EmbeddingConfig::default()).unwrap();
    assert_eq!((stats.total_files, stats.total_chunks, stats.total_symbols, stats.total_vectors), (1, 1, 1, 1));
}

#[test]
fn test_query_attempts_order() {
    assert_eq!(
        query_attempts("foo::bar(x) baz!"),
        vec!["foo::barx baz".to_string(), "foo::bar(x) baz!".to_string(), "foo bar x baz".to_string()]
    );
    assert_eq!(query_attempts("+-*/"), vec!["".to_string(), "+-*/".to_string()]);
}
