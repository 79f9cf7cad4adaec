//! The drop-down list opened from a breadcrumb segment.
use vstd::prelude::*;

verus! {

#[derive(Debug, Clone, PartialEq, Eq)]
pub struct BreadcrumbDropdown {
    pub visible: bool,
    pub items: Vec<String>,
    pub selected: usize,
}

/// The selection after one step up: the previous item, wrapping from the
/// first to the last.
pub open spec fn moved_up(selected: nat, len: nat) -> nat {
    if len == 0 {
        selected
    } else if selected > 0 {
        (selected - 1) as nat
    } else {
        (len - 1) as nat
    }
}

/// The selection after one step down: the next item, wrapping from the last
/// (or from past the end) to the first.
pub open spec fn moved_down(selected: nat, len: nat) -> nat {
    if len == 0 {
        selected
    } else if selected < len - 1 {
        selected + 1
    } else {
        0
    }
}

pub open spec fn strings_view(v: Seq<String>) -> Seq<Seq<char>> {
    v.map_values(|s: String| s@)
}

impl BreadcrumbDropdown {
    pub open spec fn items_view(&self) -> Seq<Seq<char>> {
        strings_view(self.items@)
    }

    pub fn new() -> (r: Self)
        ensures
            !r.visible,
            r.items@.len() == 0,
            r.selected == 0,
    {
        BreadcrumbDropdown { visible: false, items: Vec::new(), selected: 0 }
    }

    /// Opens the list on `items`, with the first one selected.
    pub fn show(&mut self, items: Vec<String>)
        ensures
            final(self).visible,
            final(self).items@ == items@,
            final(self).selected == 0,
    {
        self.visible = true;
        self.items = items;
        self.selected = 0;
    }

    /// Closes the list and forgets its items.
    pub fn close(&mut self)
        ensures
            !final(self).visible,
            final(self).items@.len() == 0,
            final(self).selected == 0,
    {
        self.visible = false;
        self.items.clear();
        self.selected = 0;
    }

    /// Selects item `idx` and gives its text, or `None` (selection kept)
    /// when there is no such item.
    pub fn select(&mut self, idx: usize) -> (r: Option<&str>)
        ensures
            idx < old(self).items@.len() ==> (r matches Some(t) && t@ == old(self).items@[idx as int]@),
            idx >= old(self).items@.len() ==> r is None,
            final(self).selected == (if idx < old(self).items@.len() { idx } else { old(self).selected }),
            final(self).items@ == old(self).items@,
            final(self).visible == old(self).visible,
    {
        if idx < self.items.len() {
            self.selected = idx;
            Some(self.items[idx].as_str())
        } else {
            None
        }
    }

    /// Moves the selection one item up, wrapping around.
    pub fn move_up(&mut self)
        ensures
            final(self).selected as nat == moved_up(old(self).selected as nat, old(self).items@.len()),
            final(self).items@ == old(self).items@,
            final(self).visible == old(self).visible,
    {
        if self.items.len() == 0 {
            return;
        }
        if self.selected > 0 {
            self.selected = self.selected - 1;
        } else {
            self.selected = self.items.len() - 1;
        }
    }

    /// Moves the selection one item down, wrapping around.
    pub fn move_down(&mut self)
        ensures
            final(self).selected as nat == moved_down(old(self).selected as nat, old(self).items@.len()),
            final(self).items@ == old(self).items@,
            final(self).visible == old(self).visible,
    {
        if self.items.len() == 0 {
            return;
        }
        if self.selected < self.items.len() - 1 {
            self.selected = self.selected + 1;
        } else {
            self.selected = 0;
        }
    }
}

/// Moving down and then up comes back to the same item, for any selection
/// inside the list.
pub proof fn law_down_then_up(selected: nat, len: nat)
    requires
        selected < len,
    ensures
        moved_up(moved_down(selected, len), len) == selected,
{
}

/// Moving up and then down comes back to the same item, for any selection
/// inside the list.
pub proof fn law_up_then_down(selected: nat, len: nat)
    requires
        selected < len,
    ensures
        moved_down(moved_up(selected, len), len) == selected,
{
}

/// The selection always stays inside a non-empty list once it is there.
pub proof fn law_moves_stay_in_range(selected: nat, len: nat)
    requires
        selected < len,
    ensures
        moved_up(selected, len) < len,
        moved_down(selected, len) < len,
{
}

} // verus!
