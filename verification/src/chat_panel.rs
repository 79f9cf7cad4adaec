//! The AI chat panel: its visibility, the input line and the conversation.
use vstd::prelude::*;
use std::time::SystemTime;
use crate::chat::now;
use crate::text::{blank, chars_of, is_blank, pop_char, push_char};

verus! {

#[derive(Debug, Clone, Copy, PartialEq, Eq, Structural)]
pub enum ChatRole {
    User,
    Assistant,
    System,
}

#[derive(Debug)]
pub struct ChatMessage {
    pub role: ChatRole,
    pub content: String,
    pub timestamp: SystemTime,
}

pub struct ChatPanel {
    pub visible: bool,
    pub messages: Vec<ChatMessage>,
    pub input: String,
    pub model: String,
}

/// The conversation as role and text.
pub open spec fn messages_view(v: Seq<ChatMessage>) -> Seq<(ChatRole, Seq<char>)> {
    v.map_values(|m: ChatMessage| (m.role, m.content@))
}

impl ChatPanel {
    pub open spec fn view(&self) -> Seq<(ChatRole, Seq<char>)> {
        messages_view(self.messages@)
    }

    /// A hidden panel with no conversation, an empty input and the
    /// `gpt-4` model.
    pub fn new() -> (r: Self)
        ensures
            !r.visible,
            r.view().len() == 0,
            r.input@.len() == 0,
            r.model@ == "gpt-4"@,
    {
        ChatPanel { visible: false, messages: Vec::new(), input: String::new(), model: "gpt-4".to_owned() }
    }

    pub fn open(&mut self)
        ensures
            final(self).visible,
            final(self).view() == old(self).view(),
            final(self).input@ == old(self).input@,
            final(self).model@ == old(self).model@,
    {
        self.visible = true;
    }

    pub fn close(&mut self)
        ensures
            !final(self).visible,
            final(self).view() == old(self).view(),
            final(self).input@ == old(self).input@,
            final(self).model@ == old(self).model@,
    {
        self.visible = false;
    }

    pub fn toggle(&mut self)
        ensures
            final(self).visible == !old(self).visible,
            final(self).view() == old(self).view(),
            final(self).input@ == old(self).input@,
            final(self).model@ == old(self).model@,
    {
        self.visible = !self.visible;
    }

    /// Appends `c` to the input.
    pub fn type_char(&mut self, c: char)
        ensures
            final(self).input@ == old(self).input@.push(c),
            final(self).visible == old(self).visible,
            final(self).view() == old(self).view(),
            final(self).model@ == old(self).model@,
    {
        push_char(&mut self.input, c);
    }

    /// Removes the input's last character, if any.
    pub fn backspace(&mut self)
        ensures
            final(self).input@ == (if old(self).input@.len() > 0 {
                old(self).input@.drop_last()
            } else {
                old(self).input@
            }),
            final(self).visible == old(self).visible,
            final(self).view() == old(self).view(),
            final(self).model@ == old(self).model@,
    {
        pop_char(&mut self.input);
    }

    /// Sends the input: when it is not blank it becomes a user message, the
    /// input is cleared and its text returned; a blank input sends nothing.
    pub fn send(&mut self) -> (r: Option<String>)
        ensures
            is_blank(old(self).input@) ==> r is None && final(self).view() == old(self).view()
                && final(self).input@ == old(self).input@,
            !is_blank(old(self).input@) ==> (r matches Some(t) && t@ == old(self).input@)
                && final(self).view() == old(self).view().push((ChatRole::User, old(self).input@))
                && final(self).input@.len() == 0,
            final(self).visible == old(self).visible,
            final(self).model@ == old(self).model@,
    {
        if blank(&chars_of(self.input.as_str())) {
            return None;
        }
        let content = self.input.clone();
        self.messages.push(ChatMessage { role: ChatRole::User, content: content.clone(), timestamp: now() });
        self.input = String::new();
        assert(self.view() =~= old(self).view().push((ChatRole::User, old(self).input@)));
        Some(content)
    }

    /// Appends the assistant's reply.
    pub fn add_response(&mut self, text: String)
        ensures
            final(self).view() == old(self).view().push((ChatRole::Assistant, text@)),
            final(self).input@ == old(self).input@,
            final(self).visible == old(self).visible,
            final(self).model@ == old(self).model@,
    {
        self.messages.push(ChatMessage { role: ChatRole::Assistant, content: text, timestamp: now() });
        assert(self.view() =~= old(self).view().push((ChatRole::Assistant, text@)));
    }

    /// Forgets the conversation.
    pub fn clear_history(&mut self)
        ensures
            final(self).view().len() == 0,
            final(self).input@ == old(self).input@,
            final(self).visible == old(self).visible,
            final(self).model@ == old(self).model@,
    {
        self.messages.clear();
    }
}

impl Default for ChatPanel {
    fn default() -> (r: Self)
        ensures
            !r.visible,
            r.view().len() == 0,
            r.input@.len() == 0,
            r.model@ == "gpt-4"@,
    {
        ChatPanel::new()
    }
}

} // verus!
