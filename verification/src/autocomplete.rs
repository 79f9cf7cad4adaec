//! The autocomplete popup: the completion items offered at a position of the
//! buffer and the one that is selected.
use vstd::prelude::*;

verus! {

#[derive(Debug, Clone, Copy, PartialEq, Eq, Structural)]
pub enum CompletionKind {
    Function,
    Variable,
    Keyword,
    Snippet,
    Type,
    Module,
}

#[derive(Clone, Debug)]
pub struct CompletionItem {
    pub label: String,
    pub kind: CompletionKind,
    pub detail: Option<String>,
    pub insert_text: String,
}

/// A byte offset into the buffer.
#[derive(Debug, Clone, Copy, PartialEq, Eq, Structural)]
pub struct Position {
    pub offset: usize,
}

impl Position {
    pub fn new(offset: usize) -> (r: Self)
        ensures
            r.offset == offset,
    {
        Position { offset }
    }

    pub fn zero() -> (r: Self)
        ensures
            r.offset == 0,
    {
        Position { offset: 0 }
    }
}

/// The selection after moving down in a list of `len` items: the next one,
/// wrapping from the last to the first.
pub open spec fn next_selected(selected: nat, len: nat) -> nat
    recommends
        len > 0,
{
    (selected + 1) % len
}

/// The selection after moving up: the previous one, wrapping from the first
/// to the last.
pub open spec fn prev_selected(selected: nat, len: nat) -> nat
    recommends
        len > 0,
{
    if selected == 0 {
        (len - 1) as nat
    } else {
        (selected - 1) as nat
    }
}

pub struct Autocomplete {
    pub visible: bool,
    pub items: Vec<CompletionItem>,
    pub selected: usize,
    pub trigger_pos: Position,
}

impl Autocomplete {
    /// Whether the selection points at an item whenever the popup shows.
    pub open spec fn wf(&self) -> bool {
        self.visible ==> self.selected < self.items@.len()
    }

    pub fn new() -> (r: Self)
        ensures
            !r.visible,
            r.items@.len() == 0,
            r.selected == 0,
            r.trigger_pos.offset == 0,
            r.wf(),
    {
        Autocomplete {
            visible: false,
            items: Vec::new(),
            selected: 0,
            trigger_pos: Position::zero(),
        }
    }

    /// Shows `items` at `pos` with the first selected; with no items the
    /// popup closes and keeps what it had.
    pub fn show(&mut self, pos: Position, items: Vec<CompletionItem>)
        ensures
            items@.len() == 0 ==> {
                &&& !final(self).visible
                &&& final(self).items@ == old(self).items@
                &&& final(self).selected == old(self).selected
                &&& final(self).trigger_pos == old(self).trigger_pos
            },
            items@.len() > 0 ==> {
                &&& final(self).visible
                &&& final(self).items@ == items@
                &&& final(self).selected == 0
                &&& final(self).trigger_pos == pos
            },
            final(self).wf(),
    {
        if items.len() == 0 {
            self.visible = false;
            return;
        }
        self.visible = true;
        self.items = items;
        self.selected = 0;
        self.trigger_pos = pos;
    }

    /// Closes the popup and drops its items.
    pub fn close(&mut self)
        ensures
            !final(self).visible,
            final(self).items@.len() == 0,
            final(self).selected == old(self).selected,
            final(self).trigger_pos == old(self).trigger_pos,
    {
        self.visible = false;
        self.items.clear();
    }

    /// Selects the next item, wrapping around; nothing happens while the
    /// popup is hidden or empty.
    pub fn next(&mut self)
        ensures
            old(self).visible && old(self).items@.len() > 0 ==> final(self).selected
                == next_selected(old(self).selected as nat, old(self).items@.len()),
            !(old(self).visible && old(self).items@.len() > 0) ==> final(self).selected == old(
                self,
            ).selected,
            final(self).visible == old(self).visible,
            final(self).items@ == old(self).items@,
            final(self).trigger_pos == old(self).trigger_pos,
            old(self).wf() ==> final(self).wf(),
    {
        if self.visible && self.items.len() > 0 {
            let len = self.items.len();
            let r = self.selected % len;
            proof {
                vstd::arithmetic::div_mod::lemma_add_mod_noop(
                    self.selected as int,
                    1,
                    len as int,
                );
                vstd::arithmetic::div_mod::lemma_mod_bound(1, len as int);
                vstd::arithmetic::div_mod::lemma_mod_self_0(len as int);
                if len == 1 {
                    vstd::arithmetic::div_mod::lemma_mod_bound(1, 1);
                } else {
                    vstd::arithmetic::div_mod::lemma_small_mod(1, len as nat);
                }
            }
            self.selected = (r + 1) % len;
        }
    }

    /// Selects the previous item, wrapping around; nothing happens while the
    /// popup is hidden or empty.
    pub fn prev(&mut self)
        ensures
            old(self).visible && old(self).items@.len() > 0 ==> final(self).selected
                == prev_selected(old(self).selected as nat, old(self).items@.len()),
            !(old(self).visible && old(self).items@.len() > 0) ==> final(self).selected == old(
                self,
            ).selected,
            final(self).visible == old(self).visible,
            final(self).items@ == old(self).items@,
            final(self).trigger_pos == old(self).trigger_pos,
            old(self).wf() ==> final(self).wf(),
    {
        if self.visible && self.items.len() > 0 {
            if self.selected == 0 {
                self.selected = self.items.len() - 1;
            } else {
                self.selected = self.selected - 1;
            }
        }
    }

    /// The selected item while the popup shows.
    pub fn get_selected(&self) -> (r: Option<&CompletionItem>)
        ensures
            self.visible && self.selected < self.items@.len() ==> r == Some(
                &self.items@[self.selected as int],
            ),
            !(self.visible && self.selected < self.items@.len()) ==> r is None,
    {
        if self.visible && self.selected < self.items.len() {
            Some(&self.items[self.selected])
        } else {
            None
        }
    }
}

/// Moving down and then up in a list gives back the item that was
/// selected, and so does moving up and then down.
pub proof fn law_next_prev_inverse(selected: nat, len: nat)
    requires
        selected < len,
    ensures
        prev_selected(next_selected(selected, len), len) == selected,
        next_selected(prev_selected(selected, len), len) == selected,
{
    if selected + 1 < len {
        vstd::arithmetic::div_mod::lemma_small_mod((selected + 1) as nat, len);
    } else {
        vstd::arithmetic::div_mod::lemma_mod_self_0(len as int);
    }
    if selected == 0 {
        vstd::arithmetic::div_mod::lemma_mod_self_0(len as int);
    } else {
        vstd::arithmetic::div_mod::lemma_small_mod(selected, len);
    }
}

} // verus!
