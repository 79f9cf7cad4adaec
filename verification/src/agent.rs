//! The AI agent's decisions: the prompts it builds from the editor's
//! context, and how it answers each request and each reply of the model.
//! The channels, the runtime and the network calls are driven from outside,
//! one step at a time.
use vstd::prelude::*;
use crate::provider::{ChatMessage, LlmResponse, messages_view, opt_text};
use crate::text::{append, chars_of, decimal, string_of, text_eq, push_decimal};

verus! {

/// What the editor tells the agent along with a request.  The confidence
/// score arrives already written out with one decimal.
#[derive(Debug, Clone)]
pub struct EditorContext {
    pub file_path: Option<String>,
    pub file_content: Option<String>,
    pub cursor_line: usize,
    pub cursor_col: usize,
    pub selection: Option<String>,
    pub language: String,
    pub confidence_score_text: Option<String>,
}

/// A request from the UI.
#[derive(Debug, Clone)]
pub enum AgentRequest {
    Chat { message: String, context: EditorContext },
    SlashCommand { command: String, context: EditorContext },
    InlineCompletion { context: EditorContext },
    Cancel,
}

/// A message from the agent to the UI.
#[derive(Debug, Clone)]
pub enum AgentResponse {
    /// Partial streaming response.
    StreamChunk(String),
    /// Complete response.
    Complete(LlmResponse),
    /// Inline completion suggestion.
    InlineSuggestion(String),
    /// An error occurred.
    Error(String),
    /// The agent's status changed.
    StatusChange(AgentStatus),
}

/// The agent's status, for the status bar.
#[derive(Debug, Clone, PartialEq)]
pub enum AgentStatus {
    Ready,
    Thinking,
    Streaming,
    Error(String),
    Offline,
}

pub open spec fn status_text_of(s: AgentStatus) -> Seq<char> {
    match s {
        AgentStatus::Ready => "Ready"@,
        AgentStatus::Thinking => "Thinking..."@,
        AgentStatus::Streaming => "Streaming..."@,
        AgentStatus::Error(e) => "Error: "@ + e@,
        AgentStatus::Offline => "Offline"@,
    }
}

impl AgentStatus {
    /// The status as the status bar shows it.
    pub fn status_text(&self) -> (r: String)
        ensures
            r@ == status_text_of(*self),
    {
        match self {
            AgentStatus::Ready => "Ready".to_owned(),
            AgentStatus::Thinking => "Thinking...".to_owned(),
            AgentStatus::Streaming => "Streaming...".to_owned(),
            AgentStatus::Error(e) => concat("Error: ", e.as_str()),
            AgentStatus::Offline => "Offline".to_owned(),
        }
    }
}

fn concat(a: &str, b: &str) -> (r: String)
    ensures
        r@ == a@ + b@,
{
    let mut v = chars_of(a);
    append(&mut v, &chars_of(b));
    string_of(&v)
}

fn copy_text(s: &String) -> (r: String)
    ensures
        r@ == s@,
{
    s.clone()
}

pub open spec fn system_prompt() -> Seq<char> {
    "You are Forge AI, a coding assistant built into the Forge IDE.\n\nRules:\n1. Be concise. Developers hate verbosity.\n2. When showing code, use the correct language in fenced code blocks.\n3. When fixing bugs, show only the changed lines with context.\n4. When explaining, use bullet points.\n5. If asked to generate code, return ONLY the code unless explanation was requested.\n6. You have access to the user's current file, cursor position, and selection.\n7. Respect the user's coding style visible in the file.\n8. For Rust code: prefer safe code, avoid unwrap(), use proper error handling.\n"@
}

pub open spec fn completion_system_prompt() -> Seq<char> {
    "You are a code completion engine. Return ONLY the code that should be inserted. No explanations."@
}

fn system_prompt_text() -> (r: String)
    ensures
        r@ == system_prompt(),
{
    "You are Forge AI, a coding assistant built into the Forge IDE.\n\nRules:\n1. Be concise. Developers hate verbosity.\n2. When showing code, use the correct language in fenced code blocks.\n3. When fixing bugs, show only the changed lines with context.\n4. When explaining, use bullet points.\n5. If asked to generate code, return ONLY the code unless explanation was requested.\n6. You have access to the user's current file, cursor position, and selection.\n7. Respect the user's coding style visible in the file.\n8. For Rust code: prefer safe code, avoid unwrap(), use proper error handling.\n".to_owned()
}

pub open spec fn or_text(o: Option<Seq<char>>, d: Seq<char>) -> Seq<char> {
    match o {
        Some(t) => t,
        None => d,
    }
}

/// Parts joined with newlines.
pub open spec fn join_lines(parts: Seq<Seq<char>>) -> Seq<char>
    decreases parts.len(),
{
    if parts.len() == 0 {
        Seq::empty()
    } else if parts.len() == 1 {
        parts[0]
    } else {
        join_lines(parts.drop_last()) + "\n"@ + parts.last()
    }
}

/// The lines of a chat message: the file, language, cursor (1-based),
/// confidence and selection when known, then the user's text.
pub open spec fn context_parts(message: Seq<char>, c: EditorContext) -> Seq<Seq<char>> {
    let file = match opt_text(c.file_path) {
        Some(p) => seq!["File: "@ + p],
        None => Seq::empty(),
    };
    let conf = match opt_text(c.confidence_score_text) {
        Some(t) => seq!["Confidence Score: "@ + t + "%"@],
        None => Seq::empty(),
    };
    let sel = match opt_text(c.selection) {
        Some(s) => seq!["Selected code:\n```\n"@ + s + "\n```"@],
        None => Seq::empty(),
    };
    file + seq![
        "Language: "@ + c.language@,
        "Cursor: line "@ + decimal((c.cursor_line + 1) as nat) + ", col "@ + decimal((c.cursor_col + 1) as nat),
    ] + conf + sel + seq!["\nUser: "@ + message]
}

/// The prompt for a slash command; an unknown command gets a note saying so.
pub open spec fn slash_prompt(command: Seq<char>, c: EditorContext) -> Seq<char> {
    let code = "```"@ + c.language@ + "\n"@ + or_text(opt_text(c.selection), "(no selection)"@) + "\n```"@;
    if command == "/explain"@ {
        "Explain this code concisely:\n"@ + code
    } else if command == "/fix"@ {
        "Fix any bugs in this code. Return only the corrected code:\n"@ + code
    } else if command == "/test"@ {
        "Generate unit tests for this code:\n"@ + code
    } else if command == "/refactor"@ {
        "Refactor this code for clarity and performance:\n"@ + code
    } else if command == "/doc"@ {
        "Generate documentation comments for this code:\n"@ + code
    } else {
        "Unknown command: "@ + command
    }
}

/// The prompt for an inline completion at the (1-based) cursor.
pub open spec fn completion_prompt(c: EditorContext) -> Seq<char> {
    "Complete the following code. Return ONLY the completion, no explanation:\n```"@ + c.language@
        + "\n"@ + or_text(opt_text(c.file_content), Seq::empty()) + "\n```\nCursor is at line "@
        + decimal((c.cursor_line + 1) as nat) + ", col "@ + decimal((c.cursor_col + 1) as nat) + "."@
}

/// Joins the parts with newlines.
fn join_parts(parts: &Vec<Vec<char>>) -> (r: Vec<char>)
    ensures
        r@ == join_lines(crate::text::views(parts@)),
{
    let mut out: Vec<char> = Vec::new();
    let mut i: usize = 0;
    while i < parts.len()
        invariant
            i <= parts@.len(),
            out@ == join_lines(crate::text::views(parts@).take(i as int)),
        decreases parts@.len() - i,
    {
        let ghost pv = crate::text::views(parts@);
        assert(pv.take(i + 1).drop_last() == pv.take(i as int));
        if i > 0 {
            out.push('\n');
        }
        append(&mut out, &parts[i]);
        proof {
            if i == 0 {
                assert(out@ =~= pv.take(1)[0]);
            } else {
                reveal_strlit("\n");
                assert(out@ =~= join_lines(pv.take(i as int)) + "\n"@ + pv[i as int]);
            }
        }
        i = i + 1;
    }
    assert(crate::text::views(parts@).take(parts@.len() as int) == crate::text::views(parts@));
    out
}

fn text_chars(a: &str) -> (r: Vec<char>)
    ensures
        r@ == a@,
{
    chars_of(a)
}

/// The user message sent for a chat request: the context lines, then the
/// user's text, one per line.
pub fn build_context_message(message: &str, context: &EditorContext) -> (r: String)
    requires
        context.cursor_line < usize::MAX,
        context.cursor_col < usize::MAX,
    ensures
        r@ == join_lines(context_parts(message@, *context)),
{
    let mut parts: Vec<Vec<char>> = Vec::new();
    match &context.file_path {
        Some(p) => {
            let mut v = text_chars("File: ");
            append(&mut v, &chars_of(p.as_str()));
            parts.push(v);
        },
        None => {},
    }
    let mut lang = text_chars("Language: ");
    append(&mut lang, &chars_of(context.language.as_str()));
    parts.push(lang);
    let mut cur = text_chars("Cursor: line ");
    push_decimal(&mut cur, (context.cursor_line + 1) as u64);
    append(&mut cur, &text_chars(", col "));
    push_decimal(&mut cur, (context.cursor_col + 1) as u64);
    parts.push(cur);
    match &context.confidence_score_text {
        Some(t) => {
            let mut v = text_chars("Confidence Score: ");
            append(&mut v, &chars_of(t.as_str()));
            append(&mut v, &text_chars("%"));
            parts.push(v);
        },
        None => {},
    }
    match &context.selection {
        Some(s) => {
            let mut v = text_chars("Selected code:\n```\n");
            append(&mut v, &chars_of(s.as_str()));
            append(&mut v, &text_chars("\n```"));
            parts.push(v);
        },
        None => {},
    }
    let mut u = text_chars("\nUser: ");
    append(&mut u, &chars_of(message));
    parts.push(u);
    assert(crate::text::views(parts@) =~= context_parts(message@, *context));
    string_of(&join_parts(&parts))
}

/// The prompt for the slash command `command`.
pub fn build_slash_prompt(command: &str, context: &EditorContext) -> (r: String)
    ensures
        r@ == slash_prompt(command@, *context),
{
    let mut code = text_chars("```");
    append(&mut code, &chars_of(context.language.as_str()));
    append(&mut code, &text_chars("\n"));
    match &context.selection {
        Some(s) => append(&mut code, &chars_of(s.as_str())),
        None => append(&mut code, &text_chars("(no selection)")),
    }
    append(&mut code, &text_chars("\n```"));
    let head = if text_eq(command, "/explain") {
        text_chars("Explain this code concisely:\n")
    } else if text_eq(command, "/fix") {
        text_chars("Fix any bugs in this code. Return only the corrected code:\n")
    } else if text_eq(command, "/test") {
        text_chars("Generate unit tests for this code:\n")
    } else if text_eq(command, "/refactor") {
        text_chars("Refactor this code for clarity and performance:\n")
    } else if text_eq(command, "/doc") {
        text_chars("Generate documentation comments for this code:\n")
    } else {
        let mut v = text_chars("Unknown command: ");
        append(&mut v, &chars_of(command));
        return string_of(&v);
    };
    let mut v = head;
    append(&mut v, &code);
    string_of(&v)
}

/// The prompt for an inline completion.
pub fn build_completion_prompt(context: &EditorContext) -> (r: String)
    requires
        context.cursor_line < usize::MAX,
        context.cursor_col < usize::MAX,
    ensures
        r@ == completion_prompt(*context),
{
    let mut v = text_chars("Complete the following code. Return ONLY the completion, no explanation:\n```");
    append(&mut v, &chars_of(context.language.as_str()));
    append(&mut v, &text_chars("\n"));
    match &context.file_content {
        Some(s) => append(&mut v, &chars_of(s.as_str())),
        None => {},
    }
    append(&mut v, &text_chars("\n```\nCursor is at line "));
    push_decimal(&mut v, (context.cursor_line + 1) as u64);
    append(&mut v, &text_chars(", col "));
    push_decimal(&mut v, (context.cursor_col + 1) as u64);
    append(&mut v, &text_chars("."));
    assert(v@ =~= completion_prompt(*context));
    string_of(&v)
}

/// The kind of request waiting for the model's reply.
#[derive(Debug, Clone, Copy, PartialEq, Eq, Structural)]
pub enum Pending {
    Chat,
    Slash,
    Inline,
}

/// The agent between two steps: the conversation so far, whether a
/// provider could be set up, and the request awaiting the model.
pub struct AgentSession {
    pub history: Vec<ChatMessage>,
    pub configured: bool,
    pub pending: Option<Pending>,
}

/// What one step decides: the responses to send to the UI now, and the
/// messages to send to the model, if it is to be asked.
pub struct AgentStep {
    pub responses: Vec<AgentResponse>,
    pub call: Option<Vec<ChatMessage>>,
}

pub open spec fn no_provider_text() -> Seq<char> {
    "No AI provider configured. Edit ~/.forge/agent.toml"@
}

fn message(role: &str, content: String) -> (r: ChatMessage)
    ensures
        r.role@ == role@,
        r.content@ == content@,
{
    ChatMessage { role: role.to_owned(), content }
}

fn copy_messages(v: &Vec<ChatMessage>) -> (r: Vec<ChatMessage>)
    ensures
        messages_view(r@) == messages_view(v@),
{
    let mut r: Vec<ChatMessage> = Vec::new();
    let mut i: usize = 0;
    while i < v.len()
        invariant
            i <= v@.len(),
            messages_view(r@) == messages_view(v@).take(i as int),
        decreases v@.len() - i,
    {
        r.push(ChatMessage { role: copy_text(&v[i].role), content: copy_text(&v[i].content) });
        assert(messages_view(v@).take(i + 1) =~= messages_view(v@).take(i as int).push(
            messages_view(v@)[i as int],
        ));
        assert(messages_view(r@) =~= messages_view(v@).take(i + 1));
        i = i + 1;
    }
    assert(messages_view(v@).take(v@.len() as int) =~= messages_view(v@));
    r
}

impl AgentSession {
    /// Starts the agent.  With a provider the conversation opens with the
    /// system prompt and nothing is reported; when setting up the provider
    /// failed with `init_error`, that is reported, and every later request
    /// is answered that no provider is configured.
    pub fn start(init_error: Option<String>) -> (r: (AgentSession, Vec<AgentResponse>))
        ensures
            r.0.pending is None,
            match init_error {
                None => {
                    &&& r.0.configured
                    &&& messages_view(r.0.history@) == seq![("system"@, system_prompt())]
                    &&& r.1@.len() == 0
                },
                Some(e) => {
                    &&& !r.0.configured
                    &&& r.1@.len() == 2
                    &&& r.1@[0] matches AgentResponse::Error(m) && m@ == "Provider init failed: "@ + e@
                    &&& r.1@[1] matches AgentResponse::StatusChange(AgentStatus::Error(m)) && m@ == e@
                },
            },
    {
        match init_error {
            None => {
                let mut history: Vec<ChatMessage> = Vec::new();
                history.push(message("system", system_prompt_text()));
                assert(messages_view(history@) =~= seq![("system"@, system_prompt())]);
                (AgentSession { history, configured: true, pending: None }, Vec::new())
            },
            Some(e) => {
                let mut out: Vec<AgentResponse> = Vec::new();
                out.push(AgentResponse::Error(concat("Provider init failed: ", e.as_str())));
                out.push(AgentResponse::StatusChange(AgentStatus::Error(e)));
                (AgentSession { history: Vec::new(), configured: false, pending: None }, out)
            },
        }
    }

    /// Decides what to do with a request from the UI.
    pub fn on_request(&mut self, req: AgentRequest) -> (r: AgentStep)
        requires
            old(self).pending is None,
            match req {
                AgentRequest::Chat { context, .. } => context.cursor_line < usize::MAX
                    && context.cursor_col < usize::MAX,
                AgentRequest::InlineCompletion { context } => context.cursor_line < usize::MAX
                    && context.cursor_col < usize::MAX,
                _ => true,
            },
        ensures
            final(self).configured == old(self).configured,
            !old(self).configured ==> {
                &&& r.call is None
                &&& final(self).pending is None
                &&& messages_view(final(self).history@) == messages_view(old(self).history@)
                &&& r.responses@.len() == 1
                &&& r.responses@[0] matches AgentResponse::Error(m) && m@ == no_provider_text()
            },
            old(self).configured ==> match req {
                AgentRequest::Chat { message, context } => {
                    let user = ("user"@, join_lines(context_parts(message@, context)));
                    &&& r.responses@.len() == 1
                    &&& r.responses@[0] matches AgentResponse::StatusChange(AgentStatus::Thinking)
                    &&& messages_view(final(self).history@) == messages_view(old(self).history@).push(user)
                    &&& r.call matches Some(c) && messages_view(c@) == messages_view(final(self).history@)
                    &&& final(self).pending == Some(Pending::Chat)
                },
                AgentRequest::SlashCommand { command, context } => {
                    &&& r.responses@.len() == 1
                    &&& r.responses@[0] matches AgentResponse::StatusChange(AgentStatus::Thinking)
                    &&& messages_view(final(self).history@) == messages_view(old(self).history@)
                    &&& r.call matches Some(c) && messages_view(c@) == seq![
                        ("system"@, system_prompt()),
                        ("user"@, slash_prompt(command@, context)),
                    ]
                    &&& final(self).pending == Some(Pending::Slash)
                },
                AgentRequest::InlineCompletion { context } => {
                    &&& r.responses@.len() == 0
                    &&& messages_view(final(self).history@) == messages_view(old(self).history@)
                    &&& r.call matches Some(c) && messages_view(c@) == seq![
                        ("system"@, completion_system_prompt()),
                        ("user"@, completion_prompt(context)),
                    ]
                    &&& final(self).pending == Some(Pending::Inline)
                },
                AgentRequest::Cancel => {
                    &&& r.responses@.len() == 1
                    &&& r.responses@[0] matches AgentResponse::StatusChange(AgentStatus::Ready)
                    &&& messages_view(final(self).history@) == messages_view(old(self).history@)
                    &&& r.call is None
                    &&& final(self).pending is None
                },
            },
    {
        let mut out: Vec<AgentResponse> = Vec::new();
        if !self.configured {
            out.push(AgentResponse::Error("No AI provider configured. Edit ~/.forge/agent.toml".to_owned()));
            return AgentStep { responses: out, call: None };
        }
        match req {
            AgentRequest::Chat { message: text, context } => {
                out.push(AgentResponse::StatusChange(AgentStatus::Thinking));
                let user = build_context_message(text.as_str(), &context);
                let ghost before = messages_view(self.history@);
                self.history.push(message("user", user));
                assert(messages_view(self.history@) =~= before.push(
                    ("user"@, join_lines(context_parts(text@, context))),
                ));
                self.pending = Some(Pending::Chat);
                AgentStep { responses: out, call: Some(copy_messages(&self.history)) }
            },
            AgentRequest::SlashCommand { command, context } => {
                out.push(AgentResponse::StatusChange(AgentStatus::Thinking));
                let mut msgs: Vec<ChatMessage> = Vec::new();
                msgs.push(message("system", system_prompt_text()));
                msgs.push(message("user", build_slash_prompt(command.as_str(), &context)));
                assert(messages_view(msgs@) =~= seq![
                    ("system"@, system_prompt()),
                    ("user"@, slash_prompt(command@, context)),
                ]);
                self.pending = Some(Pending::Slash);
                AgentStep { responses: out, call: Some(msgs) }
            },
            AgentRequest::InlineCompletion { context } => {
                let mut msgs: Vec<ChatMessage> = Vec::new();
                msgs.push(
                    message(
                        "system",
                        "You are a code completion engine. Return ONLY the code that should be inserted. No explanations.".to_owned(),
                    ),
                );
                msgs.push(message("user", build_completion_prompt(&context)));
                assert(messages_view(msgs@) =~= seq![
                    ("system"@, completion_system_prompt()),
                    ("user"@, completion_prompt(context)),
                ]);
                self.pending = Some(Pending::Inline);
                AgentStep { responses: out, call: Some(msgs) }
            },
            AgentRequest::Cancel => {
                out.push(AgentResponse::StatusChange(AgentStatus::Ready));
                AgentStep { responses: out, call: None }
            },
        }
    }

    /// Decides what to report once the model has answered (or failed) the
    /// pending request.  A chat keeps the reply in the conversation, or
    /// drops the question again when the call failed; a failed inline
    /// completion is not reported.
    pub fn on_reply(&mut self, reply: Result<LlmResponse, String>) -> (r: Vec<AgentResponse>)
        requires
            old(self).pending is Some,
            old(self).pending == Some(Pending::Chat) ==> old(self).history@.len() > 0,
        ensures
            final(self).pending is None,
            final(self).configured == old(self).configured,
            match (old(self).pending, reply) {
                (Some(Pending::Chat), Ok(resp)) => {
                    &&& messages_view(final(self).history@) == messages_view(old(self).history@).push(
                        ("assistant"@, resp.content@),
                    )
                    &&& r@ == seq![
                        AgentResponse::Complete(resp),
                        AgentResponse::StatusChange(AgentStatus::Ready),
                    ]
                },
                (Some(Pending::Chat), Err(e)) => {
                    &&& messages_view(final(self).history@) == messages_view(old(self).history@).drop_last()
                    &&& r@.len() == 2
                    &&& r@[0] matches AgentResponse::Error(m) && m@ == e@
                    &&& r@[1] matches AgentResponse::StatusChange(AgentStatus::Error(m)) && m@ == e@
                },
                (Some(Pending::Slash), Ok(resp)) => {
                    &&& messages_view(final(self).history@) == messages_view(old(self).history@)
                    &&& r@ == seq![
                        AgentResponse::Complete(resp),
                        AgentResponse::StatusChange(AgentStatus::Ready),
                    ]
                },
                (Some(Pending::Slash), Err(e)) => {
                    &&& messages_view(final(self).history@) == messages_view(old(self).history@)
                    &&& r@.len() == 2
                    &&& r@[0] matches AgentResponse::Error(m) && m@ == e@
                    &&& r@[1] matches AgentResponse::StatusChange(AgentStatus::Ready)
                },
                (_, Ok(resp)) => {
                    &&& messages_view(final(self).history@) == messages_view(old(self).history@)
                    &&& r@.len() == 1
                    &&& r@[0] matches AgentResponse::InlineSuggestion(m) && m@ == resp.content@
                },
                (_, Err(_)) => {
                    &&& messages_view(final(self).history@) == messages_view(old(self).history@)
                    &&& r@.len() == 0
                },
            },
    {
        let pending = self.pending;
        self.pending = None;
        let mut out: Vec<AgentResponse> = Vec::new();
        match pending {
            Some(Pending::Chat) => match reply {
                Ok(resp) => {
                    let ghost before = messages_view(self.history@);
                    self.history.push(message("assistant", copy_text(&resp.content)));
                    assert(messages_view(self.history@) =~= before.push(("assistant"@, resp.content@)));
                    out.push(AgentResponse::Complete(resp));
                    out.push(AgentResponse::StatusChange(AgentStatus::Ready));
                },
                Err(e) => {
                    let ghost before = messages_view(self.history@);
                    self.history.pop();
                    assert(messages_view(self.history@) =~= before.drop_last());
                    out.push(AgentResponse::Error(copy_text(&e)));
                    out.push(AgentResponse::StatusChange(AgentStatus::Error(e)));
                },
            },
            Some(Pending::Slash) => match reply {
                Ok(resp) => {
                    out.push(AgentResponse::Complete(resp));
                    out.push(AgentResponse::StatusChange(AgentStatus::Ready));
                },
                Err(e) => {
                    out.push(AgentResponse::Error(e));
                    out.push(AgentResponse::StatusChange(AgentStatus::Ready));
                },
            },
            _ => match reply {
                Ok(resp) => {
                    out.push(AgentResponse::InlineSuggestion(resp.content));
                },
                Err(_) => {},
            },
        }
        proof {
            assert(out@ =~= out@);
        }
        out
    }
}

/// A failed chat leaves the conversation as it was before the question.
pub proof fn law_failed_chat_restores_history(before: Seq<(Seq<char>, Seq<char>)>, question: (Seq<char>, Seq<char>))
    ensures
        before.push(question).drop_last() == before,
{
    assert(before.push(question).drop_last() =~= before);
}

} // verus!
