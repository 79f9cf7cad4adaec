//! Language-model providers: the messages exchanged with them, and the
//! choice of provider a configuration makes.
use vstd::prelude::*;
use crate::config::AgentConfig;
use crate::text::{chars_of, string_of, text_eq};

verus! {

/// A chat message; `role` is `"system"`, `"user"` or `"assistant"`.
#[derive(Debug, Clone)]
pub struct ChatMessage {
    pub role: String,
    pub content: String,
}

/// A model's reply.
#[derive(Debug, Clone)]
pub struct LlmResponse {
    pub content: String,
    pub model: String,
    pub finish_reason: String,
    pub usage: Option<TokenUsage>,
}

#[derive(Debug, Clone, Copy, PartialEq, Eq, Structural)]
pub struct TokenUsage {
    pub prompt_tokens: u32,
    pub completion_tokens: u32,
    pub total_tokens: u32,
}

/// The provider a configuration selects, with what it is built from.
#[derive(Debug, Clone)]
pub enum ProviderSettings {
    /// An OpenAI-compatible API (OpenAI itself or OpenRouter).
    OpenAi { base_url: String, api_key: String, model: String, name: String },
    /// A local Ollama server.
    Ollama { base_url: String, model: String },
    /// Anthropic's API.
    Anthropic { api_key: String, model: String },
}

/// Why no provider could be chosen.
#[derive(Debug, Clone)]
pub enum ProviderError {
    OpenAiKeyMissing,
    AnthropicKeyMissing,
    OpenRouterKeyMissing,
    Unknown(String),
}

/// The settings as plain values: a kind tag, base URL, API key, model and
/// name, with empty text where a provider has no such field.
pub open spec fn settings_view(s: ProviderSettings) -> (int, Seq<char>, Seq<char>, Seq<char>, Seq<char>) {
    match s {
        ProviderSettings::OpenAi { base_url, api_key, model, name } => (0, base_url@, api_key@, model@, name@),
        ProviderSettings::Ollama { base_url, model } => (1, base_url@, Seq::empty(), model@, "ollama"@),
        ProviderSettings::Anthropic { api_key, model } => (2, Seq::empty(), api_key@, model@, "anthropic"@),
    }
}

/// `trim_end_matches('/')`: the text without its trailing slashes.
pub open spec fn without_trailing_slashes(s: Seq<char>) -> Seq<char>
    decreases s.len(),
{
    if s.len() > 0 && s.last() == '/' {
        without_trailing_slashes(s.drop_last())
    } else {
        s
    }
}

pub open spec fn opt_text(o: Option<String>) -> Option<Seq<char>> {
    match o {
        Some(s) => Some(s@),
        None => None,
    }
}

/// What `create_provider` yields for a configuration: `Ok` with the
/// settings view, or `Err` with the error's message.
pub open spec fn provider_choice(c: AgentConfig) -> Result<(int, Seq<char>, Seq<char>, Seq<char>, Seq<char>), Seq<char>> {
    let p = c.provider@;
    if p == "openai"@ {
        match opt_text(c.openai.api_key) {
            Some(k) => Ok((0, without_trailing_slashes(c.openai.base_url@), k, c.openai.model@, "openai"@)),
            None => Err("OpenAI API key not set in ~/.forge/agent.toml"@),
        }
    } else if p == "anthropic"@ {
        match opt_text(c.anthropic.api_key) {
            Some(k) => Ok((2, Seq::empty(), k, c.anthropic.model@, "anthropic"@)),
            None => Err("Anthropic API key not set"@),
        }
    } else if p == "ollama"@ {
        Ok((1, without_trailing_slashes(c.ollama.base_url@), Seq::empty(), c.ollama.model@, "ollama"@))
    } else if p == "openrouter"@ {
        match opt_text(c.openrouter.api_key) {
            Some(k) => Ok((0, "https://openrouter.ai/api/v1"@, k, c.openrouter.model@, "openrouter"@)),
            None => Err("OpenRouter API key not set"@),
        }
    } else {
        Err("Unknown provider: "@ + p)
    }
}

pub open spec fn error_message(e: ProviderError) -> Seq<char> {
    match e {
        ProviderError::OpenAiKeyMissing => "OpenAI API key not set in ~/.forge/agent.toml"@,
        ProviderError::AnthropicKeyMissing => "Anthropic API key not set"@,
        ProviderError::OpenRouterKeyMissing => "OpenRouter API key not set"@,
        ProviderError::Unknown(p) => "Unknown provider: "@ + p@,
    }
}

impl ProviderError {
    /// The error's text.
    pub fn message(&self) -> (r: String)
        ensures
            r@ == error_message(*self),
    {
        match self {
            ProviderError::OpenAiKeyMissing => "OpenAI API key not set in ~/.forge/agent.toml".to_owned(),
            ProviderError::AnthropicKeyMissing => "Anthropic API key not set".to_owned(),
            ProviderError::OpenRouterKeyMissing => "OpenRouter API key not set".to_owned(),
            ProviderError::Unknown(p) => {
                let mut v = chars_of("Unknown provider: ");
                let q = chars_of(p.as_str());
                crate::text::append(&mut v, &q);
                string_of(&v)
            },
        }
    }
}

/// `s.trim_end_matches('/')`.
pub fn trim_trailing_slashes(s: &str) -> (r: String)
    ensures
        r@ == without_trailing_slashes(s@),
{
    let v = chars_of(s);
    let mut n = v.len();
    assert(v@.take(n as int) == v@);
    while n > 0 && v[n - 1] == '/'
        invariant
            n <= v@.len(),
            without_trailing_slashes(v@.take(n as int)) == without_trailing_slashes(s@),
            v@ == s@,
        decreases n,
    {
        assert(v@.take(n as int).drop_last() == v@.take(n - 1));
        n = n - 1;
    }
    proof {
        assert(v@.take(v@.len() as int) == v@);
    }
    string_of(&crate::text::subvec(&v, 0, n))
}

fn copy_text(s: &String) -> (r: String)
    ensures
        r@ == s@,
{
    s.clone()
}

/// The provider `config` selects: OpenAI, Anthropic and OpenRouter need an
/// API key; base URLs lose their trailing slashes; any other provider
/// name is an error.
pub fn create_provider(config: &AgentConfig) -> (r: Result<ProviderSettings, ProviderError>)
    ensures
        match r {
            Ok(s) => provider_choice(*config) == Ok::<_, Seq<char>>(settings_view(s)),
            Err(e) => provider_choice(*config) == Err::<(int, Seq<char>, Seq<char>, Seq<char>, Seq<char>), _>(
                error_message(e),
            ),
        },
{
    let p = config.provider.as_str();
    proof {
        reveal_strlit("openai");
        reveal_strlit("anthropic");
        reveal_strlit("ollama");
        reveal_strlit("openrouter");
    }
    if text_eq(p, "openai") {
        match &config.openai.api_key {
            Some(k) => Ok(
                ProviderSettings::OpenAi {
                    base_url: trim_trailing_slashes(config.openai.base_url.as_str()),
                    api_key: copy_text(k),
                    model: copy_text(&config.openai.model),
                    name: "openai".to_owned(),
                },
            ),
            None => Err(ProviderError::OpenAiKeyMissing),
        }
    } else if text_eq(p, "anthropic") {
        match &config.anthropic.api_key {
            Some(k) => Ok(
                ProviderSettings::Anthropic { api_key: copy_text(k), model: copy_text(&config.anthropic.model) },
            ),
            None => Err(ProviderError::AnthropicKeyMissing),
        }
    } else if text_eq(p, "ollama") {
        Ok(
            ProviderSettings::Ollama {
                base_url: trim_trailing_slashes(config.ollama.base_url.as_str()),
                model: copy_text(&config.ollama.model),
            },
        )
    } else if text_eq(p, "openrouter") {
        match &config.openrouter.api_key {
            Some(k) => {
                let url = trim_trailing_slashes("https://openrouter.ai/api/v1");
                proof {
                    reveal_strlit("https://openrouter.ai/api/v1");
                    assert(without_trailing_slashes("https://openrouter.ai/api/v1"@)
                        == "https://openrouter.ai/api/v1"@);
                }
                Ok(
                    ProviderSettings::OpenAi {
                        base_url: url,
                        api_key: copy_text(k),
                        model: copy_text(&config.openrouter.model),
                        name: "openrouter".to_owned(),
                    },
                )
            },
            None => Err(ProviderError::OpenRouterKeyMissing),
        }
    } else {
        Err(ProviderError::Unknown(copy_text(&config.provider)))
    }
}

/// The first system message's text (empty when there is none), and the
/// other messages in order, as Anthropic's API wants them apart.
pub open spec fn system_text(m: Seq<(Seq<char>, Seq<char>)>) -> Seq<char>
    decreases m.len(),
{
    if m.len() == 0 {
        Seq::empty()
    } else if m[0].0 == "system"@ {
        m[0].1
    } else {
        system_text(m.drop_first())
    }
}

pub open spec fn turns(m: Seq<(Seq<char>, Seq<char>)>) -> Seq<(Seq<char>, Seq<char>)>
    decreases m.len(),
{
    if m.len() == 0 {
        m
    } else if m.last().0 == "system"@ {
        turns(m.drop_last())
    } else {
        turns(m.drop_last()).push(m.last())
    }
}

pub open spec fn message_view(m: ChatMessage) -> (Seq<char>, Seq<char>) {
    (m.role@, m.content@)
}

pub open spec fn messages_view(v: Seq<ChatMessage>) -> Seq<(Seq<char>, Seq<char>)> {
    v.map_values(|m: ChatMessage| message_view(m))
}

/// Splits a conversation into its system prompt and its turns.
pub fn split_system(messages: &[ChatMessage]) -> (r: (String, Vec<ChatMessage>))
    ensures
        r.0@ == system_text(messages_view(messages@)),
        messages_view(r.1@) == turns(messages_view(messages@)),
{
    let ghost mv = messages_view(messages@);
    let mut system: Option<String> = None;
    let mut rest: Vec<ChatMessage> = Vec::new();
    let mut i: usize = 0;
    proof {
        reveal_strlit("system");
        assert(mv.skip(0) == mv);
    }
    while i < messages.len()
        invariant
            i <= messages@.len(),
            mv == messages_view(messages@),
            messages_view(rest@) == turns(mv.take(i as int)),
            match system {
                Some(t) => system_text(mv) == t@,
                None => system_text(mv) == system_text(mv.skip(i as int)),
            },
        decreases messages@.len() - i,
    {
        assert(mv.take(i + 1).drop_last() == mv.take(i as int));
        assert(mv.skip(i as int).drop_first() == mv.skip(i + 1));
        let m = &messages[i];
        if text_eq(m.role.as_str(), "system") {
            if system.is_none() {
                system = Some(copy_text(&m.content));
            }
        } else {
            rest.push(ChatMessage { role: copy_text(&m.role), content: copy_text(&m.content) });
            assert(messages_view(rest@) =~= turns(mv.take(i as int)).push(mv[i as int]));
        }
        i = i + 1;
    }
    proof {
        assert(mv.take(mv.len() as int) == mv);
    }
    match system {
        Some(t) => (t, rest),
        None => {
            assert(mv.skip(mv.len() as int).len() == 0);
            (String::new(), rest)
        },
    }
}

} // verus!
