//! LLM configuration (non-secret fields only).

use vstd::prelude::*;

use crate::text::str_eq;

verus! {

/// The provider of AI capabilities.
#[derive(Debug, Clone, Copy, PartialEq, Eq, Structural)]
pub enum Provider {
    /// Local Ollama.
    Ollama,
    /// OpenAI-compatible cloud API.
    OpenAiCompat,
}

/// Storage text of a provider.
pub open spec fn provider_text(p: Provider) -> Seq<char> {
    match p {
        Provider::Ollama => "ollama"@,
        Provider::OpenAiCompat => "openai_compat"@,
    }
}

impl Provider {
    pub fn as_str(&self) -> (res: &'static str)
        ensures
            res@ == provider_text(*self),
    {
        match self {
            Provider::Ollama => "ollama",
            Provider::OpenAiCompat => "openai_compat",
        }
    }
}

impl Provider {
    /// The provider stored under a text; none for any other text.
    pub fn from_str(s: &str) -> (r: Option<Provider>)
        ensures
            r == provider_of_text(s@),
    {
        proof {
            reveal_strlit("ollama");
            reveal_strlit("openai_compat");
            assert("ollama"@.len() != "openai_compat"@.len());
        }
        if str_eq(s, "ollama") {
            Some(Provider::Ollama)
        } else if str_eq(s, "openai_compat") {
            Some(Provider::OpenAiCompat)
        } else {
            None
        }
    }
}

/// The provider stored under a text, if any.
pub open spec fn provider_of_text(s: Seq<char>) -> Option<Provider> {
    if s == "ollama"@ {
        Some(Provider::Ollama)
    } else if s == "openai_compat"@ {
        Some(Provider::OpenAiCompat)
    } else {
        None
    }
}

/// A provider survives being stored as text and read back, and a text reads
/// back as a provider only when it is that provider's text.
pub proof fn lemma_provider_text_roundtrip(p: Provider, s: Seq<char>)
    ensures
        provider_of_text(provider_text(p)) == Some(p),
        provider_of_text(s) == Some(p) ==> s == provider_text(p),
{
    reveal_strlit("ollama");
    reveal_strlit("openai_compat");
    assert("ollama"@.len() != "openai_compat"@.len());
}

/// The key reference stored beside the settings: a fixed marker when a key
/// is held in the keyring, none otherwise (the key itself is never stored).
pub fn stored_key_ref(has_api_key: bool) -> (r: Option<String>)
    ensures
        has_api_key ==> (r matches Some(k) && k@ == "keyring:llm_api_key"@),
        !has_api_key ==> r is None,
{
    if has_api_key {
        Some("keyring:llm_api_key".to_string())
    } else {
        None
    }
}

/// LLM settings without secrets: `enabled` turns semantic search and
/// question answering on; `has_api_key` only tells whether a key is stored.
#[derive(Debug, Clone)]
pub struct LlmConfig {
    pub provider: Option<Provider>,
    pub base_url: Option<String>,
    pub embed_model: Option<String>,
    pub gen_model: Option<String>,
    pub enabled: bool,
    pub has_api_key: bool,
}

impl Default for LlmConfig {
    fn default() -> (c: Self)
        ensures
            c.provider is None,
            c.base_url is None,
            c.embed_model is None,
            c.gen_model is None,
            !c.enabled,
            !c.has_api_key,
    {
        LlmConfig {
            provider: None,
            base_url: None,
            embed_model: None,
            gen_model: None,
            enabled: false,
            has_api_key: false,
        }
    }
}

/// The settings read back from a stored row: the provider from its text
/// (unknown text: none), and whether a key reference is stored.
pub fn config_from_row(
    provider: Option<String>,
    base_url: Option<String>,
    embed_model: Option<String>,
    gen_model: Option<String>,
    enabled: i64,
    api_key_ref: &Option<String>,
) -> (c: LlmConfig)
    ensures
        c.provider == (match provider {
            Some(p) => provider_of_text(p@),
            None => None,
        }),
        c.base_url == base_url,
        c.embed_model == embed_model,
        c.gen_model == gen_model,
        c.enabled == (enabled != 0),
        c.has_api_key == (api_key_ref is Some),
{
    let p = match &provider {
        Some(t) => Provider::from_str(t.as_str()),
        None => None,
    };
    LlmConfig {
        provider: p,
        base_url,
        embed_model,
        gen_model,
        enabled: enabled != 0,
        has_api_key: api_key_ref.is_some(),
    }
}

} // verus!
