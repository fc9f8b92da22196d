use vstd::prelude::*;

use crate::parser::ast::opt_view;
use crate::text::{chars_eq_str, chars_of, lowercase, owned, push_str, to_lowercase, views};

verus! {

/// The service that computes embeddings.
#[derive(Debug, Clone, Copy, PartialEq, Eq, Structural)]
pub enum EmbeddingProviderKind {
    Gemini,
    OpenAI,
    Voyage,
    Ollama,
    NoProvider,
}

impl Default for EmbeddingProviderKind {
    fn default() -> (k: Self)
        ensures
            k == EmbeddingProviderKind::NoProvider,
    {
        EmbeddingProviderKind::NoProvider
    }
}

impl EmbeddingProviderKind {
    /// The name of the variant (as `{:?}` shows it).
    pub open spec fn spec_debug_name(self) -> Seq<char> {
        match self {
            EmbeddingProviderKind::Gemini => "Gemini"@,
            EmbeddingProviderKind::OpenAI => "OpenAI"@,
            EmbeddingProviderKind::Voyage => "Voyage"@,
            EmbeddingProviderKind::Ollama => "Ollama"@,
            EmbeddingProviderKind::NoProvider => "None"@,
        }
    }

    /// The name of the variant (as `{:?}` shows it).
    pub fn debug_name(&self) -> (s: &'static str)
        ensures
            s@ == self.spec_debug_name(),
    {
        match self {
            EmbeddingProviderKind::Gemini => "Gemini",
            EmbeddingProviderKind::OpenAI => "OpenAI",
            EmbeddingProviderKind::Voyage => "Voyage",
            EmbeddingProviderKind::Ollama => "Ollama",
            EmbeddingProviderKind::NoProvider => "None",
        }
    }
}

/// How embeddings are computed: the provider, the model, the credentials and
/// endpoint, the vector size where one is asked for, and how many texts go in
/// one request.
#[derive(Debug, Clone)]
pub struct EmbeddingConfig {
    pub provider: EmbeddingProviderKind,
    pub model: String,
    pub api_key: Option<String>,
    pub base_url: Option<String>,
    pub dimensions: Option<usize>,
    pub batch_size: usize,
}

/// The plain value of an `EmbeddingConfig`.
pub struct EmbeddingConfigSpec {
    pub provider: EmbeddingProviderKind,
    pub model: Seq<char>,
    pub api_key: Option<Seq<char>>,
    pub base_url: Option<Seq<char>>,
    pub dimensions: Option<usize>,
    pub batch_size: usize,
}

impl View for EmbeddingConfig {
    type V = EmbeddingConfigSpec;

    open spec fn view(&self) -> EmbeddingConfigSpec {
        EmbeddingConfigSpec {
            provider: self.provider,
            model: self.model@,
            api_key: opt_view(self.api_key),
            base_url: opt_view(self.base_url),
            dimensions: self.dimensions,
            batch_size: self.batch_size,
        }
    }
}

impl Default for EmbeddingConfig {
    /// No provider, the model `text-embedding-004`, batches of 32 texts.
    fn default() -> (c: Self)
        ensures
            c@ == (EmbeddingConfigSpec {
                provider: EmbeddingProviderKind::NoProvider,
                model: "text-embedding-004"@,
                api_key: None,
                base_url: None,
                dimensions: None,
                batch_size: 32,
            }),
    {
        let mut model = String::new();
        push_str(&mut model, "text-embedding-004");
        let c = EmbeddingConfig {
            provider: EmbeddingProviderKind::NoProvider,
            model,
            api_key: None,
            base_url: None,
            dimensions: None,
            batch_size: 32,
        };
        assert(c.model@ =~= "text-embedding-004"@);
        c
    }
}

/// What is indexed: files up to a size, chunked into windows of lines, with
/// path patterns to leave out.
#[derive(Debug, Clone)]
pub struct IndexConfig {
    pub max_file_size_bytes: u64,
    pub chunk_target_lines: usize,
    pub chunk_overlap_lines: usize,
    pub ignore_patterns: Vec<String>,
}

/// The path patterns left out of indexing by default.
pub open spec fn default_ignore_patterns() -> Seq<Seq<char>> {
    seq![
        "**/.git/**"@,
        "**/target/**"@,
        "**/node_modules/**"@,
        "**/dist/**"@,
        "**/build/**"@,
        "**/.venv/**"@,
        "**/__pycache__/**"@,
        "**/.codebase-rag/**"@,
    ]
}

impl Default for IndexConfig {
    /// Files up to 1 MiB, windows of 60 lines sharing 10, and the default patterns.
    fn default() -> (c: Self)
        ensures
            c.max_file_size_bytes == 1024 * 1024,
            c.chunk_target_lines == 60,
            c.chunk_overlap_lines == 10,
            views(c.ignore_patterns@) == default_ignore_patterns(),
    {
        let ignore_patterns = vec![
            owned("**/.git/**"),
            owned("**/target/**"),
            owned("**/node_modules/**"),
            owned("**/dist/**"),
            owned("**/build/**"),
            owned("**/.venv/**"),
            owned("**/__pycache__/**"),
            owned("**/.codebase-rag/**"),
        ];
        let c = IndexConfig {
            max_file_size_bytes: 1024 * 1024,
            chunk_target_lines: 60,
            chunk_overlap_lines: 10,
            ignore_patterns,
        };
        assert(views(c.ignore_patterns@) =~= default_ignore_patterns());
        c
    }
}

/// The values of the environment variables that override the configuration,
/// where they are set: `CODEBASE_RAG_PROVIDER`, `GEMINI_API_KEY`,
/// `OPENAI_API_KEY`, `VOYAGE_API_KEY`, `OLLAMA_HOST`, `CODEBASE_RAG_MODEL`
/// and `CODEBASE_RAG_TOP_K`.
#[derive(Debug, Clone)]
pub struct EnvOverrides {
    pub provider: Option<String>,
    pub gemini_api_key: Option<String>,
    pub openai_api_key: Option<String>,
    pub voyage_api_key: Option<String>,
    pub ollama_host: Option<String>,
    pub model: Option<String>,
    pub top_k: Option<String>,
}

/// The provider that a `CODEBASE_RAG_PROVIDER` value names, by its lower-cased form.
pub open spec fn provider_named(lowered: Seq<char>) -> EmbeddingProviderKind {
    if lowered == "gemini"@ {
        EmbeddingProviderKind::Gemini
    } else if lowered == "openai"@ {
        EmbeddingProviderKind::OpenAI
    } else if lowered == "voyage"@ {
        EmbeddingProviderKind::Voyage
    } else if lowered == "ollama"@ {
        EmbeddingProviderKind::Ollama
    } else {
        EmbeddingProviderKind::NoProvider
    }
}

/// The effect of an API key variable for provider `p` with default model
/// `model`: where no provider is chosen, `p` is chosen with that model; where
/// `p` is the provider then, the key is taken.
pub open spec fn with_api_key(c: EmbeddingConfigSpec, key: Option<Seq<char>>, p: EmbeddingProviderKind, model: Seq<char>) -> EmbeddingConfigSpec {
    match key {
        None => c,
        Some(k) => {
            let c1 = if c.provider == EmbeddingProviderKind::NoProvider {
                EmbeddingConfigSpec { provider: p, model, ..c }
            } else {
                c
            };
            if c1.provider == p { EmbeddingConfigSpec { api_key: Some(k), ..c1 } } else { c1 }
        },
    }
}

/// The effect of `OLLAMA_HOST`: it becomes the endpoint, and where no
/// provider is chosen, Ollama is chosen with the model `nomic-embed-text`.
pub open spec fn with_ollama_host(c: EmbeddingConfigSpec, host: Option<Seq<char>>) -> EmbeddingConfigSpec {
    match host {
        None => c,
        Some(h) => {
            let c1 = EmbeddingConfigSpec { base_url: Some(h), ..c };
            if c1.provider == EmbeddingProviderKind::NoProvider {
                EmbeddingConfigSpec { provider: EmbeddingProviderKind::Ollama, model: "nomic-embed-text"@, ..c1 }
            } else {
                c1
            }
        },
    }
}

/// The embedding configuration after the environment overrides, applied in
/// the order: provider, Gemini key, OpenAI key, Voyage key, Ollama host, model.
pub open spec fn embedding_with_env(c: EmbeddingConfigSpec, env: EnvOverrides) -> EmbeddingConfigSpec {
    let c1 = match env.provider {
        Some(v) => EmbeddingConfigSpec { provider: provider_named(lowercase(v@)), ..c },
        None => c,
    };
    let c2 = with_api_key(c1, opt_view(env.gemini_api_key), EmbeddingProviderKind::Gemini, "text-embedding-004"@);
    let c3 = with_api_key(c2, opt_view(env.openai_api_key), EmbeddingProviderKind::OpenAI, "text-embedding-3-small"@);
    let c4 = with_api_key(c3, opt_view(env.voyage_api_key), EmbeddingProviderKind::Voyage, "voyage-code-3"@);
    let c5 = with_ollama_host(c4, opt_view(env.ollama_host));
    match env.model {
        Some(m) => EmbeddingConfigSpec { model: m@, ..c5 },
        None => c5,
    }
}

/// The value of a decimal digit.
pub open spec fn digit_value(c: char) -> int {
    (c as int) - ('0' as int)
}

/// Whether a character is an ASCII decimal digit.
pub open spec fn is_digit(c: char) -> bool {
    '0' <= c && c <= '9'
}

/// The value of a sequence of decimal digits.
pub open spec fn digits_value(s: Seq<char>) -> int
    decreases s.len(),
{
    if s.len() == 0 {
        0
    } else {
        digits_value(s.drop_last()) * 10 + digit_value(s.last())
    }
}

/// A text without the `+` that may lead it.
pub open spec fn unsigned_part(s: Seq<char>) -> Seq<char> {
    if s.len() > 0 && s[0] == '+' { s.drop_first() } else { s }
}

/// Whether every character is an ASCII decimal digit.
pub open spec fn all_digits(d: Seq<char>) -> bool {
    forall|i: int| 0 <= i < d.len() ==> is_digit(#[trigger] d[i])
}

/// What `str::parse::<usize>` gives: an optional `+` then one or more ASCII
/// digits whose value fits in `usize`; nothing for any other text.
pub open spec fn parsed_usize(s: Seq<char>) -> Option<usize> {
    let d = unsigned_part(s);
    if d.len() > 0 && all_digits(d) && digits_value(d) <= usize::MAX {
        Some(digits_value(d) as usize)
    } else {
        None
    }
}

proof fn lemma_digits_value_monotone(d: Seq<char>, i: int)
    requires
        0 <= i <= d.len(),
        forall|k: int| 0 <= k < d.len() ==> is_digit(#[trigger] d[k]),
    ensures
        0 <= digits_value(d.subrange(0, i)) <= digits_value(d),
    decreases d.len() - i,
{
    if i < d.len() {
        lemma_digits_value_monotone(d, i + 1);
        assert(d.subrange(0, i + 1).drop_last() =~= d.subrange(0, i));
        lemma_digits_value_nonneg(d.subrange(0, i));
    } else {
        assert(d.subrange(0, i) =~= d);
        lemma_digits_value_nonneg(d);
    }
}

proof fn lemma_digits_value_nonneg(d: Seq<char>)
    requires
        forall|k: int| 0 <= k < d.len() ==> is_digit(#[trigger] d[k]),
    ensures
        digits_value(d) >= 0,
    decreases d.len(),
{
    if d.len() > 0 {
        lemma_digits_value_nonneg(d.drop_last());
        assert(is_digit(d[d.len() - 1]));
    }
}

/// Parses a decimal count as `str::parse::<usize>` does.
pub fn parse_usize(s: &str) -> (r: Option<usize>)
    ensures
        r == parsed_usize(s@),
{
    let cs = chars_of(s);
    let start: usize = if cs.len() > 0 && cs[0] == '+' { 1 } else { 0 };
    let ghost d = unsigned_part(s@);
    proof {
        assert(d =~= cs@.subrange(start as int, cs@.len() as int));
    }
    if start >= cs.len() {
        return None;
    }
    let mut value: usize = 0;
    let mut i: usize = start;
    while i < cs.len()
        invariant
            start <= i <= cs@.len(),
            cs@ == s@,
            d == unsigned_part(s@),
            d == cs@.subrange(start as int, cs@.len() as int),
            forall|k: int| start <= k < i ==> is_digit(#[trigger] cs@[k]),
            value == digits_value(cs@.subrange(start as int, i as int)),
        decreases cs@.len() - i,
    {
        let c = cs[i];
        if !('0' <= c && c <= '9') {
            proof {
                assert(d[i - start] == c);
                assert(!is_digit(d[i - start]));
                assert(!all_digits(d));
            }
            return None;
        }
        let dv = (c as u32 - '0' as u32) as usize;
        proof {
            assert(cs@.subrange(start as int, i + 1).drop_last() =~= cs@.subrange(start as int, i as int));
            assert(dv == digit_value(c));
        }
        if value > (usize::MAX - dv) / 10 {
            proof {
                let sub = cs@.subrange(start as int, i + 1);
                assert(sub.last() == c);
                assert(digits_value(sub) == value * 10 + dv);
                if all_digits(d) {
                    lemma_digits_value_monotone(d, i + 1 - start);
                    assert(d.subrange(0, i + 1 - start) =~= sub);
                    assert(value * 10 + dv > usize::MAX) by (nonlinear_arith)
                        requires
                            value > (usize::MAX - dv) / 10,
                            dv <= 9,
                    {
                    }
                }
            }
            return None;
        }
        proof {
            assert(value * 10 + dv <= usize::MAX) by (nonlinear_arith)
                requires
                    value <= (usize::MAX - dv) / 10,
                    dv <= 9,
            {
            }
        }
        value = value * 10 + dv;
        i = i + 1;
    }
    proof {
        assert(cs@.subrange(start as int, i as int) =~= d);
        assert forall|k: int| 0 <= k < d.len() implies is_digit(#[trigger] d[k]) by {
            assert(d[k] == cs@[start + k]);
        }
    }
    Some(value)
}

/// Applies the environment overrides: to the embedding configuration (see
/// `embedding_with_env`), and to the number of results, where
/// `CODEBASE_RAG_TOP_K` holds a count.
pub fn apply_env_overrides(embedding: &mut EmbeddingConfig, top_k: &mut usize, env: &EnvOverrides)
    ensures
        final(embedding)@ == embedding_with_env(old(embedding)@, *env),
        *final(top_k) == match env.top_k {
            Some(v) => match parsed_usize(v@) { Some(n) => n, None => *old(top_k) },
            None => *old(top_k),
        },
{
    match &env.provider {
        Some(v) => {
            let l = to_lowercase(v.as_str());
            let lc = chars_of(l.as_str());
            embedding.provider = if chars_eq_str(&lc, "gemini") {
                EmbeddingProviderKind::Gemini
            } else if chars_eq_str(&lc, "openai") {
                EmbeddingProviderKind::OpenAI
            } else if chars_eq_str(&lc, "voyage") {
                EmbeddingProviderKind::Voyage
            } else if chars_eq_str(&lc, "ollama") {
                EmbeddingProviderKind::Ollama
            } else {
                EmbeddingProviderKind::NoProvider
            };
        },
        None => {},
    }
    let ghost c1 = embedding@;
    apply_api_key(embedding, &env.gemini_api_key, EmbeddingProviderKind::Gemini, "text-embedding-004");
    apply_api_key(embedding, &env.openai_api_key, EmbeddingProviderKind::OpenAI, "text-embedding-3-small");
    apply_api_key(embedding, &env.voyage_api_key, EmbeddingProviderKind::Voyage, "voyage-code-3");
    match &env.ollama_host {
        Some(h) => {
            embedding.base_url = Some(h.clone());
            if embedding.provider == EmbeddingProviderKind::NoProvider {
                embedding.provider = EmbeddingProviderKind::Ollama;
                embedding.model = owned("nomic-embed-text");
            }
        },
        None => {},
    }
    match &env.model {
        Some(m) => {
            embedding.model = m.clone();
        },
        None => {},
    }
    match &env.top_k {
        Some(v) => {
            match parse_usize(v.as_str()) {
                Some(n) => {
                    *top_k = n;
                },
                None => {},
            }
        },
        None => {},
    }
}

fn apply_api_key(embedding: &mut EmbeddingConfig, key: &Option<String>, p: EmbeddingProviderKind, model: &str)
    ensures
        final(embedding)@ == with_api_key(old(embedding)@, opt_view(*key), p, model@),
{
    match key {
        Some(k) => {
            if embedding.provider == EmbeddingProviderKind::NoProvider {
                embedding.provider = p;
                embedding.model = owned(model);
            }
            if embedding.provider == p {
                embedding.api_key = Some(k.clone());
            }
        },
        None => {},
    }
}


/// The environment settles the model and, once a provider is named there,
/// the provider: `CODEBASE_RAG_MODEL` always gives the model, and API keys or
/// an Ollama host never replace a provider that `CODEBASE_RAG_PROVIDER` names.
pub proof fn law_env_names_win(c: EmbeddingConfigSpec, env: EnvOverrides)
    ensures
        env.model matches Some(m) ==> embedding_with_env(c, env).model == m@,
        match env.provider {
            Some(v) => provider_named(lowercase(v@)) != EmbeddingProviderKind::NoProvider
                ==> embedding_with_env(c, env).provider == provider_named(lowercase(v@)),
            None => true,
        },
{
}

} // verus!
