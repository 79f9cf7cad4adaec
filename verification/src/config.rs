//! The AI agent's configuration and its defaults.
use vstd::prelude::*;

verus! {

/// AI agent configuration, as read from `~/.forge/agent.toml`.
#[derive(Debug, Clone)]
pub struct AgentConfig {
    pub provider: String,
    pub openai: OpenAiConfig,
    pub anthropic: AnthropicConfig,
    pub google: GoogleConfig,
    pub ollama: OllamaConfig,
    pub openrouter: OpenRouterConfig,
}

#[derive(Debug, Clone)]
pub struct OpenAiConfig {
    pub api_key: Option<String>,
    pub model: String,
    pub base_url: String,
}

#[derive(Debug, Clone)]
pub struct AnthropicConfig {
    pub api_key: Option<String>,
    pub model: String,
}

#[derive(Debug, Clone)]
pub struct GoogleConfig {
    pub api_key: Option<String>,
    pub model: String,
}

#[derive(Debug, Clone)]
pub struct OllamaConfig {
    pub base_url: String,
    pub model: String,
}

#[derive(Debug, Clone)]
pub struct OpenRouterConfig {
    pub api_key: Option<String>,
    pub model: String,
}

/// The provider used when the file names none.
pub fn default_provider() -> (r: String)
    ensures
        r@ == "ollama"@,
{
    "ollama".to_owned()
}

pub fn default_openai_model() -> (r: String)
    ensures
        r@ == "gpt-4o"@,
{
    "gpt-4o".to_owned()
}

pub fn default_openai_url() -> (r: String)
    ensures
        r@ == "https://api.openai.com/v1"@,
{
    "https://api.openai.com/v1".to_owned()
}

pub fn default_google_model() -> (r: String)
    ensures
        r@ == "gemini-2.0-flash"@,
{
    "gemini-2.0-flash".to_owned()
}

pub fn default_ollama_url() -> (r: String)
    ensures
        r@ == "http://localhost:11434"@,
{
    "http://localhost:11434".to_owned()
}

pub fn default_ollama_model() -> (r: String)
    ensures
        r@ == "codellama:7b"@,
{
    "codellama:7b".to_owned()
}

/// Empty fields: the built-in default, as opposed to the defaults a
/// configuration file's missing fields get.
impl Default for OpenAiConfig {
    fn default() -> (r: Self)
        ensures
            r.api_key is None,
            r.model@.len() == 0,
            r.base_url@.len() == 0,
    {
        OpenAiConfig { api_key: None, model: String::new(), base_url: String::new() }
    }
}

impl Default for AnthropicConfig {
    fn default() -> (r: Self)
        ensures
            r.api_key is None,
            r.model@.len() == 0,
    {
        AnthropicConfig { api_key: None, model: String::new() }
    }
}

impl Default for GoogleConfig {
    fn default() -> (r: Self)
        ensures
            r.api_key is None,
            r.model@.len() == 0,
    {
        GoogleConfig { api_key: None, model: String::new() }
    }
}

impl Default for OpenRouterConfig {
    fn default() -> (r: Self)
        ensures
            r.api_key is None,
            r.model@.len() == 0,
    {
        OpenRouterConfig { api_key: None, model: String::new() }
    }
}

/// The local Ollama server with the default model.
impl Default for OllamaConfig {
    fn default() -> (r: Self)
        ensures
            r.base_url@ == "http://localhost:11434"@,
            r.model@ == "codellama:7b"@,
    {
        OllamaConfig { base_url: default_ollama_url(), model: default_ollama_model() }
    }
}

/// Ollama as the provider, every other section at its default.
impl Default for AgentConfig {
    fn default() -> (r: Self)
        ensures
            r.provider@ == "ollama"@,
            r.openai.api_key is None && r.openai.model@.len() == 0 && r.openai.base_url@.len() == 0,
            r.anthropic.api_key is None && r.anthropic.model@.len() == 0,
            r.google.api_key is None && r.google.model@.len() == 0,
            r.ollama.base_url@ == "http://localhost:11434"@ && r.ollama.model@ == "codellama:7b"@,
            r.openrouter.api_key is None && r.openrouter.model@.len() == 0,
    {
        AgentConfig {
            provider: default_provider(),
            openai: OpenAiConfig::default(),
            anthropic: AnthropicConfig::default(),
            google: GoogleConfig::default(),
            ollama: OllamaConfig::default(),
            openrouter: OpenRouterConfig::default(),
        }
    }
}

} // verus!
