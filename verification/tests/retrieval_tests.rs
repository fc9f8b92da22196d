use codebase_rag::index::symbol_store::{SymbolRecord, SymbolStore};
use codebase_rag::retrieval::hybrid::{candidate_limit, fused_chunk, symbol_candidate};
use codebase_rag::parser::{SymbolInfo, SymbolKind};
use codebase_rag::retrieval::fusion::group_ranked_lists;
use codebase_rag::retrieval::repo_map::repo_map;
use codebase_rag::retrieval::{ContextPacker, RankedListCandidate, ScoredChunk};

fn candidate(id: &str, path: &str, name: &str, raw: f32) -> RankedListCandidate<f32> {
    RankedListCandidate {
        chunk_id: id.to_string(),
        relative_path: path.to_string(),
        language: "rust".to_string(),
        symbol_name: Some(name.to_string()),
        symbol_kind: Some("function".to_string()),
        signature: Some(format!("fn {}()", name)),
        content: format!("fn {}() {{}}", name),
        line_start: 1,
        line_end: 10,
        raw_score: raw,
    }
}

#[test]
fn test_context_packer() {
    let packer = ContextPacker::new(4000);
    let chunks = vec![ScoredChunk {
        chunk_id: "src/auth.rs:10-25".to_string(),
        relative_path: "src/auth.rs".to_string(),
        language: "rust".to_string(),
        symbol_name: Some("authenticate".to_string()),
        symbol_kind: Some("function".to_string()),
        signature: Some("pub fn authenticate(token: &str) -> bool".to_string()),
        content: "pub fn authenticate(token: &str) -> bool {\n    !token.is_empty()\n}".to_string(),
        line_start: 10,
        line_end: 25,
        rrf_score: 0.035,
        bm25_score: Some(4.2),
        vector_score: Some(0.88),
        symbol_score: None,
    }];

    let packed = packer.pack(&chunks);
    assert_eq!(packed.blocks.len(), 1);
    assert!(packed.formatted_text.contains("src/auth.rs:10-25"));
    assert!(packed.formatted_text.contains("authenticate"));
    assert!(packed.formatted_text.contains("<!-- CODEBASE RAG CONTEXT -->"));
}

fn scored(id: &str, path: &str, start: usize, end: usize, content: &str) -> ScoredChunk<f64> {
    ScoredChunk {
        chunk_id: id.to_string(),
        relative_path: path.to_string(),
        language: "rust".to_string(),
        symbol_name: None,
        symbol_kind: None,
        signature: None,
        content: content.to_string(),
        line_start: start,
        line_end: end,
        rrf_score: 0.01,
        bm25_score: None,
        vector_score: None,
        symbol_score: None,
    }
}

#[test]
fn test_packer_exact_text_and_tokens() {
    let packer = ContextPacker::new(100);
    let mut c = scored("a.rs:1-2", "a.rs", 1, 2, "fn a() {}");
    c.symbol_name = Some("a".to_string());
    let packed = packer.pack(&vec![c]);
    assert_eq!(packed.total_estimated_tokens, 3);
    assert_eq!(
        packed.formatted_text,
        "<!-- CODEBASE RAG CONTEXT -->\n### [1] a.rs:1-2 (symbol: a)\n```\nfn a() {}\n```\n\n<!-- /CODEBASE RAG CONTEXT -->"
    );
}

#[test]
fn test_packer_skips_empty_and_overlapping() {
    let packer = ContextPacker::new(1000);
    let chunks = vec![
        scored("a.rs:1-10", "a.rs", 1, 10, "first"),
        scored("b.rs:1-1", "b.rs", 1, 1, ""),
        // 7 of its 10 lines are in the first chunk: more than 60%.
        scored("a.rs:4-13", "a.rs", 4, 13, "second"),
        // 6 of its 10 lines: exactly 60%, kept.
        scored("a.rs:5-14", "a.rs", 5, 14, "third"),
        scored("c.rs:1-10", "c.rs", 1, 10, "fourth"),
    ];
    let packed = packer.pack(&chunks);
    let kept: Vec<&str> = packed.blocks.iter().map(|b| b.content.as_str()).collect();
    assert_eq!(kept, vec!["first", "third", "fourth"]);
}

#[test]
fn test_packer_budget_stops_but_keeps_first() {
    // Each chunk is 40 bytes: 10 tokens.
    let text = "x".repeat(40);
    let chunks = vec![
        scored("a.rs:1-1", "a.rs", 1, 1, &text),
        scored("b.rs:1-1", "b.rs", 1, 1, &text),
        scored("c.rs:1-1", "c.rs", 1, 1, &text),
    ];
    let packed = ContextPacker::new(25).pack(&chunks);
    assert_eq!(packed.blocks.len(), 2);
    assert_eq!(packed.total_estimated_tokens, 20);
    // A first chunk over the budget is still kept alone.
    let packed = ContextPacker::new(5).pack(&chunks);
    assert_eq!(packed.blocks.len(), 1);
    assert_eq!(packed.total_estimated_tokens, 10);
    // Nothing to pack gives no text.
    let empty: Vec<ScoredChunk<f64>> = Vec::new();
    assert_eq!(ContextPacker::new(5).pack(&empty).formatted_text, "");
}

#[test]
fn test_grouping_of_ranked_lists() {
    let bm25 = vec![candidate("a.rs:1-10", "a.rs", "foo", 5.0), candidate("b.rs:1-10", "b.rs", "bar", 3.0)];
    let vector = vec![candidate("b.rs:1-10", "b.rs", "bar", 0.95), candidate("a.rs:1-10", "a.rs", "foo", 0.80)];
    let symbol: Vec<RankedListCandidate<f32>> = vec![];
    let groups = group_ranked_lists(&bm25, &vector, &symbol);
    assert_eq!(groups.len(), 2);
    assert_eq!(groups[0].chunk_id, "a.rs:1-10");
    assert_eq!(groups[0].bm25_ranks, vec![0]);
    assert_eq!(groups[0].vector_ranks, vec![1]);
    assert_eq!(groups[1].chunk_id, "b.rs:1-10");
    assert_eq!(groups[1].bm25_ranks, vec![1]);
    assert_eq!(groups[1].vector_ranks, vec![0]);
    assert_eq!((groups[1].source_list, groups[1].source_index), (0, 1));
}

#[test]
fn test_grouping_source_from_later_list() {
    let bm25: Vec<RankedListCandidate<f32>> = vec![];
    let vector = vec![candidate("v.rs:1-10", "v.rs", "v", 0.5)];
    let symbol = vec![candidate("s.rs:1-10", "s.rs", "s", 0.9), candidate("v.rs:1-10", "v.rs", "v", 0.7)];
    let groups = group_ranked_lists(&bm25, &vector, &symbol);
    assert_eq!(groups.len(), 2);
    assert_eq!((groups[0].source_list, groups[0].source_index), (1, 0));
    assert_eq!(groups[0].symbol_ranks, vec![1]);
    assert_eq!((groups[1].source_list, groups[1].source_index), (2, 0));
}

fn sym(name: &str, kind: SymbolKind, scope: Option<&str>, start: usize, end: usize) -> SymbolInfo {
    SymbolInfo {
        name: name.to_string(),
        kind,
        signature: format!("sig {}", name),
        docstring: None,
        parent_scope: scope.map(|s| s.to_string()),
        line_start: start,
        line_end: end,
        byte_start: 0,
        byte_end: 0,
    }
}

#[test]
fn test_repo_map_orders_files_and_lists_symbols() {
    let mut store = SymbolStore::create_in_ram();
    store.add_symbols("src/z.rs", &[sym("zed", SymbolKind::Function, None, 1, 3)]);
    store.add_symbols("src/a.rs", &[sym("run", SymbolKind::Method, Some("App"), 4, 9)]);
    let map = repo_map(&store, 4000);
    assert_eq!(
        map,
        "# Repository Structural Skeleton & Symbol Map\n\n\
         ## src/a.rs\n  - [method] App::run: L4-L9\n    `sig run`\n\n\
         ## src/z.rs\n  - [function] zed: L1-L3\n    `sig zed`\n\n"
    );
}

#[test]
fn test_repo_map_truncates_at_budget() {
    let mut store = SymbolStore::create_in_ram();
    store.add_symbols("a.rs", &[sym("first", SymbolKind::Function, None, 1, 2)]);
    store.add_symbols("b.rs", &[sym("second", SymbolKind::Function, None, 1, 2)]);
    // The header takes 12 tokens and each block 14.
    let map = repo_map(&store, 30);
    assert!(map.contains("## a.rs"));
    assert!(!map.contains("## b.rs"));
    assert!(map.ends_with("... (truncated to fit token budget)\n"));
    let map = repo_map(&store, 5);
    assert_eq!(
        map,
        "# Repository Structural Skeleton & Symbol Map\n\n... (truncated to fit token budget)\n"
    );
}

#[test]
fn test_candidates_from_channels() {
    assert_eq!(candidate_limit(10), 30);
    let record = SymbolRecord {
        name: "login".to_string(),
        kind: "function".to_string(),
        relative_path: "src/auth.rs".to_string(),
        signature: "fn login()".to_string(),
        parent_scope: None,
        line_start: 4,
        line_end: 12,
    };
    let c = symbol_candidate(&record, 0.9f32);
    assert_eq!(c.chunk_id, "src/auth.rs:4-12");
    assert_eq!(c.language, "unknown");
    assert_eq!(c.content, "");
    assert_eq!(c.symbol_name, Some("login".to_string()));
    let fused = fused_chunk(&c, 0.5f32, None, None, Some(0.9f32));
    assert_eq!(fused.chunk_id, "src/auth.rs:4-12");
    assert_eq!(fused.symbol_score, Some(0.9f32));
    assert_eq!(fused.rrf_score, 0.5f32);
}
