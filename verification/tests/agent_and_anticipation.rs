use forge::agent::{AgentRequest, AgentResponse, AgentSession, AgentStatus, EditorContext};
use forge::chat::{ChatHistory, ChatRole as HistoryRole};
use forge::chat_panel::{ChatPanel, ChatRole};
use forge::config::AgentConfig;
use forge::ghost_tabs::GhostTabsEngine;
use forge::inline_completion::InlineCompletionProvider;
use forge::markov::MarkovChain;
use forge::provider::{create_provider, split_system, ChatMessage, LlmResponse, ProviderSettings};

#[test]
fn test_send_returns_message_and_clears_input() {
    let mut panel = ChatPanel::new();
    panel.input = "Hello AI".to_string();
    let msg = panel.send();
    assert!(msg.is_some());
    assert_eq!(msg.unwrap(), "Hello AI");
    assert!(panel.input.is_empty());
    assert_eq!(panel.messages.len(), 1);
    assert_eq!(panel.messages[0].role, ChatRole::User);
    assert_eq!(panel.messages[0].content, "Hello AI");
}

#[test]
fn test_messages_accumulate() {
    let mut panel = ChatPanel::new();
    panel.input = "Q1".to_string();
    panel.send();
    panel.add_response("A1".to_string());
    assert_eq!(panel.messages.len(), 2);
    assert_eq!(panel.messages[0].content, "Q1");
    assert_eq!(panel.messages[1].content, "A1");
    assert_eq!(panel.messages[1].role, ChatRole::Assistant);
}

#[test]
fn test_clear_works() {
    let mut panel = ChatPanel::new();
    panel.input = "Hi".to_string();
    panel.send();
    assert!(!panel.messages.is_empty());
    panel.clear_history();
    assert!(panel.messages.is_empty());
}

#[test]
fn test_input_manipulation() {
    let mut panel = ChatPanel::new();
    panel.type_char('a');
    panel.type_char('b');
    assert_eq!(panel.input, "ab");
    panel.backspace();
    assert_eq!(panel.input, "a");
}

#[test]
fn test_visibility_toggle() {
    let mut panel = ChatPanel::new();
    assert!(!panel.visible);
    panel.open();
    assert!(panel.visible);
    panel.close();
    assert!(!panel.visible);
    panel.toggle();
    assert!(panel.visible);
}

#[test]
fn chat_panel_blank_input_is_not_sent() {
    let mut panel = ChatPanel::new();
    panel.input = " \t ".to_string();
    assert_eq!(panel.send(), None);
    assert_eq!(panel.input, " \t ");
    assert!(panel.messages.is_empty());
    assert_eq!(panel.model, "gpt-4");
}

#[test]
fn chat_history_roles() {
    let mut h = ChatHistory::new();
    assert_eq!(h.messages.len(), 1);
    assert_eq!(h.messages[0].role, HistoryRole::System);
    h.add_user_message("q".to_string());
    h.add_assistant_message("a".to_string());
    h.add_error_message("e".to_string());
    let roles: Vec<HistoryRole> = h.messages.iter().map(|m| m.role).collect();
    assert_eq!(roles, vec![HistoryRole::System, HistoryRole::User, HistoryRole::Assistant, HistoryRole::Error]);
    assert_eq!(h.messages[3].content, "e");
}

#[test]
fn test_suggest_creates_completion() {
    let mut provider = InlineCompletionProvider::new();
    let context = "fn main() {\n    \n}";
    let completion = provider.suggest(context, 1, 4);
    assert!(completion.is_some());
    let completion = completion.unwrap();
    assert_eq!(completion.line, 1);
    assert_eq!(completion.col, 4);
    assert!(completion.is_ghost);
    assert!(provider.is_visible());
}

#[test]
fn test_accept_returns_text_and_clears() {
    let mut provider = InlineCompletionProvider::new();
    let context = "fn main() {\n    \n}";
    provider.suggest(context, 1, 4);
    assert!(provider.is_visible());
    let accepted = provider.accept();
    assert!(accepted.is_some());
    assert_eq!(accepted.unwrap(), "println!(\"Hello World\");");
    assert!(!provider.is_visible());
    assert!(provider.completion.is_none());
}

#[test]
fn test_dismiss_clears_completion() {
    let mut provider = InlineCompletionProvider::new();
    let context = "fn main() {\n    \n}";
    provider.suggest(context, 1, 4);
    assert!(provider.is_visible());
    provider.dismiss();
    assert!(!provider.is_visible());
    assert!(provider.completion.is_none());
}

#[test]
fn inline_completion_empty_context() {
    let mut provider = InlineCompletionProvider::new();
    assert!(provider.suggest("", 0, 0).is_none());
    assert!(!provider.is_visible());
    assert_eq!(provider.accept(), None);
    assert_eq!(provider.debounce_ms, 300);
}

#[test]
fn test_ghost_tabs_prediction() {
    let mut engine = GhostTabsEngine::new();
    engine.on_file_open("A");
    engine.on_file_open("B");
    engine.on_file_open("A");
    engine.on_file_open("B");
    engine.on_file_open("A");
    engine.on_file_open("C");
    let suggestions = engine.get_suggestions();
    assert!(suggestions.is_empty());
    engine.on_file_open("A");
    let suggestions = engine.get_suggestions();
    assert!(suggestions.contains(&"B".to_string()));
    assert!(suggestions.contains(&"C".to_string()));
    assert_eq!(suggestions.len(), 2);
}

#[test]
fn ghost_tabs_threshold_and_order() {
    let mut engine = GhostTabsEngine::new();
    // from X: Y three times, Z once, W six times (total 10)
    for (to, n) in [("Y", 3), ("Z", 1), ("W", 6)] {
        for _ in 0..n {
            engine.on_file_open("X");
            engine.on_file_open(to);
        }
    }
    engine.on_file_open("X");
    // W: 60% > 30%, Y: exactly 30% is not more, Z: 10%
    assert_eq!(engine.get_suggestions(), vec!["W".to_string()]);
    assert!(GhostTabsEngine::new().get_suggestions().is_empty());
}

#[test]
fn markov_counts() {
    let mut chain = MarkovChain::new();
    assert!(chain.is_empty());
    chain.record_transition("A", "B");
    chain.record_transition("A", "B");
    chain.record_transition("A", "B");
    chain.record_transition("A", "C");
    chain.record_transition("B", "A");
    chain.record_transition("C", "C");
    assert_eq!(chain.len(), 3);
    assert!(!chain.is_empty());
    let (total, next) = chain.successors("A");
    assert_eq!(total, 4);
    assert_eq!(next, vec![("B".to_string(), 3), ("C".to_string(), 1)]);
    let (total, next) = chain.successors("C");
    assert_eq!(total, 0);
    assert!(next.is_empty());
}

fn context() -> EditorContext {
    EditorContext {
        file_path: Some("src/main.rs".to_string()),
        file_content: Some("fn main() {}".to_string()),
        cursor_line: 2,
        cursor_col: 0,
        selection: Some("let x = 1;".to_string()),
        language: "rust".to_string(),
        confidence_score_text: Some("87.5".to_string()),
    }
}

#[test]
fn agent_prompts() {
    let c = context();
    assert_eq!(
        forge::agent::build_context_message("why?", &c),
        "File: src/main.rs\nLanguage: rust\nCursor: line 3, col 1\nConfidence Score: 87.5%\nSelected code:\n```\nlet x = 1;\n```\n\nUser: why?"
    );
    assert_eq!(
        forge::agent::build_slash_prompt("/fix", &c),
        "Fix any bugs in this code. Return only the corrected code:\n```rust\nlet x = 1;\n```"
    );
    assert_eq!(forge::agent::build_slash_prompt("/nope", &c), "Unknown command: /nope");
    assert_eq!(
        forge::agent::build_completion_prompt(&c),
        "Complete the following code. Return ONLY the completion, no explanation:\n```rust\nfn main() {}\n```\nCursor is at line 3, col 1."
    );
    assert_eq!(AgentStatus::Error("x".to_string()).status_text(), "Error: x");
    assert_eq!(AgentStatus::Thinking.status_text(), "Thinking...");
}

#[test]
fn agent_session_chat_round_trip() {
    let (mut s, out) = AgentSession::start(None);
    assert!(out.is_empty());
    let step = s.on_request(AgentRequest::Chat { message: "hi".to_string(), context: context() });
    assert!(matches!(step.responses[0], AgentResponse::StatusChange(AgentStatus::Thinking)));
    assert_eq!(step.call.as_ref().unwrap().len(), 2);
    let reply = LlmResponse {
        content: "hello".to_string(),
        model: "m".to_string(),
        finish_reason: "stop".to_string(),
        usage: None,
    };
    let out = s.on_reply(Ok(reply));
    assert_eq!(out.len(), 2);
    assert_eq!(s.history.len(), 3);
    assert_eq!(s.history[2].role, "assistant");
    // a failed chat drops the question again
    s.on_request(AgentRequest::Chat { message: "again".to_string(), context: context() });
    let out = s.on_reply(Err("boom".to_string()));
    assert_eq!(s.history.len(), 3);
    assert!(matches!(&out[0], AgentResponse::Error(e) if e == "boom"));
    let step = s.on_request(AgentRequest::Cancel);
    assert!(step.call.is_none());
    assert!(matches!(step.responses[0], AgentResponse::StatusChange(AgentStatus::Ready)));
}

#[test]
fn agent_session_without_provider() {
    let (mut s, out) = AgentSession::start(Some("OpenAI API key not set in ~/.forge/agent.toml".to_string()));
    assert!(matches!(&out[0], AgentResponse::Error(e) if e == "Provider init failed: OpenAI API key not set in ~/.forge/agent.toml"));
    let step = s.on_request(AgentRequest::InlineCompletion { context: context() });
    assert!(step.call.is_none());
    assert!(matches!(&step.responses[0], AgentResponse::Error(e) if e == "No AI provider configured. Edit ~/.forge/agent.toml"));
}

#[test]
fn provider_choice() {
    let mut config = AgentConfig::default();
    match create_provider(&config).unwrap() {
        ProviderSettings::Ollama { base_url, model } => {
            assert_eq!(base_url, "http://localhost:11434");
            assert_eq!(model, "codellama:7b");
        }
        _ => panic!("expected Ollama"),
    }
    config.provider = "openai".to_string();
    assert_eq!(create_provider(&config).unwrap_err().message(), "OpenAI API key not set in ~/.forge/agent.toml");
    config.openai.api_key = Some("k".to_string());
    config.openai.base_url = "https://x/v1//".to_string();
    match create_provider(&config).unwrap() {
        ProviderSettings::OpenAi { base_url, name, .. } => {
            assert_eq!(base_url, "https://x/v1");
            assert_eq!(name, "openai");
        }
        _ => panic!("expected OpenAI"),
    }
    config.provider = "other".to_string();
    assert_eq!(create_provider(&config).unwrap_err().message(), "Unknown provider: other");
}

#[test]
fn anthropic_split() {
    let msgs = vec![
        ChatMessage { role: "user".to_string(), content: "u1".to_string() },
        ChatMessage { role: "system".to_string(), content: "s1".to_string() },
        ChatMessage { role: "system".to_string(), content: "s2".to_string() },
        ChatMessage { role: "assistant".to_string(), content: "a1".to_string() },
    ];
    let (system, turns) = split_system(&msgs);
    assert_eq!(system, "s1");
    let roles: Vec<&str> = turns.iter().map(|m| m.role.as_str()).collect();
    assert_eq!(roles, vec!["user", "assistant"]);
}
