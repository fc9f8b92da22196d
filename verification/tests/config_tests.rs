use codebase_rag::cli::{Cli, Commands};
use codebase_rag::config::{apply_env_overrides, parse_usize, EmbeddingConfig, EmbeddingProviderKind, EnvOverrides, IndexConfig};
use codebase_rag::embeddings::mock::split_words;
use codebase_rag::embeddings::{backend_for, EmbeddingBackend, MockEmbeddingClient};

fn no_env() -> EnvOverrides {
    EnvOverrides {
        provider: None,
        gemini_api_key: None,
        openai_api_key: None,
        voyage_api_key: None,
        ollama_host: None,
        model: None,
        top_k: None,
    }
}

#[test]
fn test_defaults() {
    let e = EmbeddingConfig::default();
    assert_eq!(e.provider, EmbeddingProviderKind::NoProvider);
    assert_eq!(e.model, "text-embedding-004");
    assert_eq!(e.batch_size, 32);
    let i = IndexConfig::default();
    assert_eq!(i.max_file_size_bytes, 1048576);
    assert_eq!((i.chunk_target_lines, i.chunk_overlap_lines), (60, 10));
    assert_eq!(i.ignore_patterns.len(), 8);
    assert_eq!(i.ignore_patterns[7], "**/.codebase-rag/**");
}

#[test]
fn test_parse_usize() {
    assert_eq!(parse_usize("42"), Some(42));
    assert_eq!(parse_usize("+7"), Some(7));
    assert_eq!(parse_usize("007"), Some(7));
    assert_eq!(parse_usize(""), None);
    assert_eq!(parse_usize("+"), None);
    assert_eq!(parse_usize("-1"), None);
    assert_eq!(parse_usize("1a"), None);
    assert_eq!(parse_usize(" 1"), None);
    assert_eq!(parse_usize("18446744073709551616"), "18446744073709551616".parse::<usize>().ok());
    assert_eq!(parse_usize(&usize::MAX.to_string()), Some(usize::MAX));
}

#[test]
fn test_env_key_selects_provider() {
    let mut e = EmbeddingConfig::default();
    let mut top_k = 10;
    let mut env = no_env();
    env.openai_api_key = Some("sk".to_string());
    env.voyage_api_key = Some("vk".to_string());
    env.top_k = Some("25".to_string());
    apply_env_overrides(&mut e, &mut top_k, &env);
    assert_eq!(e.provider, EmbeddingProviderKind::OpenAI);
    assert_eq!(e.model, "text-embedding-3-small");
    assert_eq!(e.api_key, Some("sk".to_string()));
    assert_eq!(top_k, 25);
}

#[test]
fn test_env_explicit_provider_and_model() {
    let mut e = EmbeddingConfig::default();
    let mut top_k = 10;
    let mut env = no_env();
    env.provider = Some("VOYAGE".to_string());
    env.gemini_api_key = Some("gk".to_string());
    env.voyage_api_key = Some("vk".to_string());
    env.ollama_host = Some("http://h:1".to_string());
    env.model = Some("m".to_string());
    env.top_k = Some("many".to_string());
    apply_env_overrides(&mut e, &mut top_k, &env);
    assert_eq!(e.provider, EmbeddingProviderKind::Voyage);
    assert_eq!(e.api_key, Some("vk".to_string()));
    assert_eq!(e.base_url, Some("http://h:1".to_string()));
    assert_eq!(e.model, "m");
    assert_eq!(top_k, 10);
}

#[test]
fn test_env_unknown_provider_then_ollama() {
    let mut e = EmbeddingConfig::default();
    e.provider = EmbeddingProviderKind::Gemini;
    let mut top_k = 3;
    let mut env = no_env();
    env.provider = Some("something".to_string());
    env.ollama_host = Some("http://localhost:11434".to_string());
    apply_env_overrides(&mut e, &mut top_k, &env);
    assert_eq!(e.provider, EmbeddingProviderKind::Ollama);
    assert_eq!(e.model, "nomic-embed-text");
    assert_eq!(top_k, 3);
}

#[test]
fn test_backend_choice() {
    let mut c = EmbeddingConfig::default();
    match backend_for(&c) {
        EmbeddingBackend::Mock(m) => assert_eq!(m.dimension(), 384),
        _ => panic!("no provider gives the mock"),
    }
    c.provider = EmbeddingProviderKind::Gemini;
    c.dimensions = Some(16);
    match backend_for(&c) {
        EmbeddingBackend::Mock(m) => assert_eq!(m.dimension(), 16),
        _ => panic!("a hosted provider without a key gives the mock"),
    }
    c.api_key = Some("k".to_string());
    match backend_for(&c) {
        EmbeddingBackend::Gemini { api_key, model, base_url } => {
            assert_eq!(api_key, "k");
            assert_eq!(model, "text-embedding-004");
            assert_eq!(base_url, None);
        }
        _ => panic!("gemini with a key"),
    }
    c.provider = EmbeddingProviderKind::Ollama;
    c.api_key = None;
    assert!(matches!(backend_for(&c), EmbeddingBackend::Ollama { .. }));
}

#[test]
fn test_mock_client_and_words() {
    assert_eq!(MockEmbeddingClient::new(None).dimension(), 384);
    assert_eq!(MockEmbeddingClient::new(Some(8)).dimension(), 8);
    assert_eq!(split_words("  a\tbc\n d  "), vec!["a", "bc", "d"]);
    assert!(split_words(" \u{2003} ").is_empty());
    let ds = MockEmbeddingClient::word_digests("abc abc x");
    assert_eq!(ds.len(), 3);
    assert_eq!(ds[0], ds[1]);
    assert_ne!(ds[0], ds[2]);
    assert_eq!(ds[0][0], 0xba);
    assert_eq!(ds[0].len(), 32);
}

#[test]
fn test_cli_serves_mcp() {
    let cli = Cli { project: None, mcp: false, command: None };
    assert!(cli.serves_mcp());
    let cli = Cli { project: None, mcp: false, command: Some(Commands::Status) };
    assert!(!cli.serves_mcp());
    let cli = Cli { project: Some("/p".to_string()), mcp: true, command: Some(Commands::RepoMap { tokens: 10 }) };
    assert!(cli.serves_mcp());
}
