pub mod mock;

pub use mock::MockEmbeddingClient;

use vstd::prelude::*;

use crate::config::{EmbeddingConfig, EmbeddingProviderKind};
use crate::parser::ast::{clone_opt, opt_view};

verus! {

/// The embedding client that a configuration calls for, with what it is
/// built from.
#[derive(Debug, Clone)]
pub enum EmbeddingBackend {
    Gemini { api_key: String, model: String, base_url: Option<String> },
    OpenAI { api_key: String, model: String, base_url: Option<String>, dimensions: Option<usize> },
    Voyage { api_key: String, model: String, base_url: Option<String> },
    Ollama { model: String, base_url: Option<String> },
    Mock(MockEmbeddingClient),
}

/// The client for a configuration: the provider's client where it has what
/// it needs (an API key, for the hosted services), else the local mock,
/// with the configured vector size.
pub fn backend_for(config: &EmbeddingConfig) -> (b: EmbeddingBackend)
    ensures
        match (config.provider, config.api_key) {
            (EmbeddingProviderKind::Gemini, Some(k)) => b matches EmbeddingBackend::Gemini { api_key, model, base_url }
                && api_key@ == k@ && model@ == config.model@ && opt_view(base_url) == opt_view(config.base_url),
            (EmbeddingProviderKind::OpenAI, Some(k)) => b matches EmbeddingBackend::OpenAI { api_key, model, base_url, dimensions }
                && api_key@ == k@ && model@ == config.model@ && opt_view(base_url) == opt_view(config.base_url)
                && dimensions == config.dimensions,
            (EmbeddingProviderKind::Voyage, Some(k)) => b matches EmbeddingBackend::Voyage { api_key, model, base_url }
                && api_key@ == k@ && model@ == config.model@ && opt_view(base_url) == opt_view(config.base_url),
            (EmbeddingProviderKind::Ollama, _) => b matches EmbeddingBackend::Ollama { model, base_url }
                && model@ == config.model@ && opt_view(base_url) == opt_view(config.base_url),
            _ => b matches EmbeddingBackend::Mock(m) && m.dim() == MockEmbeddingClient::dimension_for(config.dimensions),
        },
{
    match config.provider {
        EmbeddingProviderKind::Gemini => match &config.api_key {
            Some(k) => EmbeddingBackend::Gemini {
                api_key: k.clone(),
                model: config.model.clone(),
                base_url: clone_opt(&config.base_url),
            },
            None => EmbeddingBackend::Mock(MockEmbeddingClient::new(config.dimensions)),
        },
        EmbeddingProviderKind::OpenAI => match &config.api_key {
            Some(k) => EmbeddingBackend::OpenAI {
                api_key: k.clone(),
                model: config.model.clone(),
                base_url: clone_opt(&config.base_url),
                dimensions: config.dimensions,
            },
            None => EmbeddingBackend::Mock(MockEmbeddingClient::new(config.dimensions)),
        },
        EmbeddingProviderKind::Voyage => match &config.api_key {
            Some(k) => EmbeddingBackend::Voyage {
                api_key: k.clone(),
                model: config.model.clone(),
                base_url: clone_opt(&config.base_url),
            },
            None => EmbeddingBackend::Mock(MockEmbeddingClient::new(config.dimensions)),
        },
        EmbeddingProviderKind::Ollama => EmbeddingBackend::Ollama {
            model: config.model.clone(),
            base_url: clone_opt(&config.base_url),
        },
        EmbeddingProviderKind::NoProvider => EmbeddingBackend::Mock(MockEmbeddingClient::new(config.dimensions)),
    }
}

} // verus!
