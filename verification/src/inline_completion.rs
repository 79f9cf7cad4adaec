//! Inline ("ghost text") completions offered at the cursor.
use vstd::prelude::*;

verus! {

#[derive(Debug, Clone, PartialEq, Eq)]
pub struct InlineCompletion {
    pub text: String,
    pub line: usize,
    pub col: usize,
    pub is_ghost: bool,
}

pub struct InlineCompletionProvider {
    pub visible: bool,
    pub completion: Option<InlineCompletion>,
    pub debounce_ms: u64,
}

/// The text the provider proposes.
pub open spec fn suggestion_text() -> Seq<char> {
    "println!(\"Hello World\");"@
}

/// A completion as plain values: text, line, column, ghost.
pub open spec fn completion_view(c: InlineCompletion) -> (Seq<char>, usize, usize, bool) {
    (c.text@, c.line, c.col, c.is_ghost)
}

pub open spec fn opt_completion_view(c: Option<InlineCompletion>) -> Option<(Seq<char>, usize, usize, bool)> {
    match c {
        Some(x) => Some(completion_view(x)),
        None => None,
    }
}

/// What a provider shows, as plain values: whether it is visible, and the
/// completion it holds.
pub type ProviderView = (bool, Option<(Seq<char>, usize, usize, bool)>);

/// A call that changes what a provider shows.
pub enum CompletionCall {
    /// `suggest` with an empty or non-empty context at `line`, `col`.
    Suggest { empty_context: bool, line: usize, col: usize },
    Accept,
    Dismiss,
}

/// What a provider shows after `call`.
pub open spec fn after_call(s: ProviderView, call: CompletionCall) -> ProviderView {
    match call {
        CompletionCall::Suggest { empty_context, line, col } => if empty_context {
            (false, None)
        } else {
            (true, Some((suggestion_text(), line, col, true)))
        },
        CompletionCall::Accept => match s.1 {
            Some(_) => (false, None),
            None => s,
        },
        CompletionCall::Dismiss => (false, None),
    }
}

/// What a new provider shows after `calls`, in order.
pub open spec fn after_calls(calls: Seq<CompletionCall>) -> ProviderView
    decreases calls.len(),
{
    if calls.len() == 0 {
        (false, None)
    } else {
        after_call(after_calls(calls.drop_last()), calls.last())
    }
}

/// Whatever calls a new provider receives, it is visible exactly when it
/// holds a completion.
pub proof fn law_visible_iff_held(calls: Seq<CompletionCall>)
    ensures
        after_calls(calls).0 == after_calls(calls).1 is Some,
    decreases calls.len(),
{
    if calls.len() > 0 {
        law_visible_iff_held(calls.drop_last());
    }
}

fn proposal(line: usize, col: usize) -> (r: InlineCompletion)
    ensures
        completion_view(r) == (suggestion_text(), line, col, true),
{
    InlineCompletion { text: "println!(\"Hello World\");".to_owned(), line, col, is_ghost: true }
}

impl InlineCompletionProvider {
    /// The provider shows exactly when it holds a completion.
    pub open spec fn wf(&self) -> bool {
        self.visible == self.completion is Some
    }

    pub open spec fn shown(&self) -> ProviderView {
        (self.visible, opt_completion_view(self.completion))
    }

    /// A provider with nothing shown and a 300 ms debounce.
    pub fn new() -> (r: Self)
        ensures
            !r.visible,
            r.completion is None,
            r.debounce_ms == 300,
            r.wf(),
            r.shown() == after_calls(Seq::empty()),
    {
        InlineCompletionProvider { visible: false, completion: None, debounce_ms: 300 }
    }

    /// Proposes a completion at `line`, `col` for a non-empty `context`
    /// (none for an empty one), shows it and returns it.
    pub fn suggest(&mut self, context: &str, line: usize, col: usize) -> (r: Option<InlineCompletion>)
        requires
            line + 5 <= usize::MAX,
        ensures
            context@.len() > 0 ==> opt_completion_view(r) == Some((suggestion_text(), line, col, true)),
            context@.len() == 0 ==> r is None,
            opt_completion_view(final(self).completion) == opt_completion_view(r),
            final(self).visible == r is Some,
            final(self).debounce_ms == old(self).debounce_ms,
            final(self).wf(),
            final(self).shown() == after_call(
                old(self).shown(),
                CompletionCall::Suggest { empty_context: context@.len() == 0, line, col },
            ),
    {
        if context.is_empty() {
            self.completion = None;
            self.visible = false;
            None
        } else {
            self.completion = Some(proposal(line, col));
            self.visible = true;
            Some(proposal(line, col))
        }
    }

    /// Takes the shown completion's text and hides it; `None` when nothing
    /// is shown.
    pub fn accept(&mut self) -> (r: Option<String>)
        ensures
            match old(self).completion {
                Some(c) => r matches Some(t) && t@ == c.text@ && final(self).completion is None
                    && !final(self).visible,
                None => r is None && final(self).completion is None && final(self).visible == old(
                    self,
                ).visible,
            },
            final(self).debounce_ms == old(self).debounce_ms,
            old(self).wf() ==> final(self).wf(),
            final(self).shown() == after_call(old(self).shown(), CompletionCall::Accept),
    {
        match &self.completion {
            Some(c) => {
                let text = c.text.clone();
                self.completion = None;
                self.visible = false;
                Some(text)
            },
            None => None,
        }
    }

    /// Hides the completion.
    pub fn dismiss(&mut self)
        ensures
            final(self).completion is None,
            !final(self).visible,
            final(self).debounce_ms == old(self).debounce_ms,
            final(self).wf(),
            final(self).shown() == after_call(old(self).shown(), CompletionCall::Dismiss),
    {
        self.completion = None;
        self.visible = false;
    }

    pub fn is_visible(&self) -> (r: bool)
        ensures
            r == self.visible,
            self.wf() ==> r == self.completion is Some,
    {
        self.visible
    }
}

impl Default for InlineCompletionProvider {
    fn default() -> (r: Self)
        ensures
            !r.visible,
            r.completion is None,
            r.debounce_ms == 300,
    {
        InlineCompletionProvider::new()
    }
}

} // verus!
