//! The chat history shown in the AI panel.
use vstd::prelude::*;
use std::time::SystemTime;

verus! {

#[verifier::external_type_specification]
#[verifier::external_body]
pub struct ExSystemTime(SystemTime);

/// `SystemTime::now()`: the clock's current reading.  Nothing is stated of
/// it; it only stamps messages.
#[verifier::external_body]
pub(crate) fn now() -> SystemTime {
    SystemTime::now()
}

/// Chat history for display in the AI panel.
#[derive(Debug)]
pub struct ChatHistory {
    pub messages: Vec<ChatDisplayMessage>,
}

#[derive(Debug)]
pub struct ChatDisplayMessage {
    pub role: ChatRole,
    pub content: String,
    pub timestamp: SystemTime,
}

#[derive(Debug, Clone, Copy, PartialEq, Eq, Structural)]
pub enum ChatRole {
    User,
    Assistant,
    System,
    Error,
}

/// A history's messages as role and text.
pub open spec fn history_view(v: Seq<ChatDisplayMessage>) -> Seq<(ChatRole, Seq<char>)> {
    v.map_values(|m: ChatDisplayMessage| (m.role, m.content@))
}

pub open spec fn welcome_text() -> Seq<char> {
    "Forge AI ready. Type a message or use /explain, /fix, /test, /refactor, /doc"@
}

impl ChatHistory {
    pub open spec fn view(&self) -> Seq<(ChatRole, Seq<char>)> {
        history_view(self.messages@)
    }

    /// A history holding the system's welcome message.
    pub fn new() -> (r: Self)
        ensures
            r.view() == seq![(ChatRole::System, welcome_text())],
    {
        let mut messages: Vec<ChatDisplayMessage> = Vec::new();
        messages.push(
            ChatDisplayMessage {
                role: ChatRole::System,
                content: "Forge AI ready. Type a message or use /explain, /fix, /test, /refactor, /doc".to_owned(),
                timestamp: now(),
            },
        );
        let r = ChatHistory { messages };
        assert(r.view() =~= seq![(ChatRole::System, welcome_text())]);
        r
    }

    fn add(&mut self, role: ChatRole, content: String)
        ensures
            final(self).view() == old(self).view().push((role, content@)),
    {
        self.messages.push(ChatDisplayMessage { role, content, timestamp: now() });
        assert(self.view() =~= old(self).view().push((role, content@)));
    }

    /// Appends a message from the user.
    pub fn add_user_message(&mut self, content: String)
        ensures
            final(self).view() == old(self).view().push((ChatRole::User, content@)),
    {
        self.add(ChatRole::User, content);
    }

    /// Appends a reply from the assistant.
    pub fn add_assistant_message(&mut self, content: String)
        ensures
            final(self).view() == old(self).view().push((ChatRole::Assistant, content@)),
    {
        self.add(ChatRole::Assistant, content);
    }

    /// Appends an error report.
    pub fn add_error_message(&mut self, content: String)
        ensures
            final(self).view() == old(self).view().push((ChatRole::Error, content@)),
    {
        self.add(ChatRole::Error, content);
    }
}

impl Default for ChatHistory {
    fn default() -> (r: Self)
        ensures
            r.view() == seq![(ChatRole::System, welcome_text())],
    {
        ChatHistory::new()
    }
}

} // verus!
