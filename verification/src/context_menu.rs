//! The entries of context menus and what clicking them does.
use vstd::prelude::*;

verus! {

#[derive(Debug, Clone, PartialEq, Eq)]
pub struct MenuItem {
    pub label: String,
    pub shortcut: Option<String>,
    pub action: String,
    pub separator: bool,
}

pub type MenuItemView = (Seq<char>, Option<Seq<char>>, Seq<char>, bool);

pub open spec fn item_view(m: MenuItem) -> MenuItemView {
    (
        m.label@,
        match m.shortcut {
            Some(s) => Some(s@),
            None => None,
        },
        m.action@,
        m.separator,
    )
}

pub open spec fn items_view(v: Seq<MenuItem>) -> Seq<MenuItemView> {
    v.map_values(|m: MenuItem| item_view(m))
}

/// The editor's context menu.
pub open spec fn editor_menu() -> Seq<MenuItemView> {
    seq![
        ("Cut"@, Some("Ctrl+X"@), "edit.cut"@, false),
        ("Copy"@, Some("Ctrl+C"@), "edit.copy"@, false),
        ("Paste"@, Some("Ctrl+V"@), "edit.paste"@, false),
        ("Select All"@, Some("Ctrl+A"@), "edit.select_all"@, false),
        (""@, None, ""@, true),
        ("Go to Definition"@, Some("F12"@), "editor.goto_def"@, false),
        ("Rename"@, Some("F2"@), "editor.rename"@, false),
    ]
}

fn item(label: &str, shortcut: Option<&str>, action: &str, separator: bool) -> (r: MenuItem)
    ensures
        item_view(r) == (
            label@,
            match shortcut {
                Some(s) => Some(s@),
                None => None,
            },
            action@,
            separator,
        ),
{
    MenuItem {
        label: label.to_owned(),
        shortcut: match shortcut {
            Some(s) => Some(s.to_owned()),
            None => None,
        },
        action: action.to_owned(),
        separator,
    }
}

/// The entries of the editor's context menu.
pub fn editor_context() -> (r: Vec<MenuItem>)
    ensures
        items_view(r@) == editor_menu(),
{
    let mut v: Vec<MenuItem> = Vec::new();
    v.push(item("Cut", Some("Ctrl+X"), "edit.cut", false));
    v.push(item("Copy", Some("Ctrl+C"), "edit.copy", false));
    v.push(item("Paste", Some("Ctrl+V"), "edit.paste", false));
    v.push(item("Select All", Some("Ctrl+A"), "edit.select_all", false));
    v.push(item("", None, "", true));
    v.push(item("Go to Definition", Some("F12"), "editor.goto_def", false));
    v.push(item("Rename", Some("F2"), "editor.rename", false));
    assert(items_view(v@) =~= editor_menu());
    v
}

/// A context menu's entries and whether it shows; where it shows, in
/// pixels, is kept by the window.
pub struct ContextMenu {
    pub visible: bool,
    pub items: Vec<MenuItem>,
}

impl ContextMenu {
    /// Hidden, with no entries.
    pub fn new() -> (r: Self)
        ensures
            !r.visible,
            r.items@.len() == 0,
    {
        ContextMenu { visible: false, items: Vec::new() }
    }

    /// Shows the menu with `items`.
    pub fn show(&mut self, items: Vec<MenuItem>)
        ensures
            final(self).visible,
            final(self).items@ == items@,
    {
        self.visible = true;
        self.items = items;
    }

    /// Hides the menu and drops its entries.
    pub fn close(&mut self)
        ensures
            !final(self).visible,
            final(self).items@.len() == 0,
    {
        self.visible = false;
        self.items.clear();
    }

    /// The action of the entry clicked: none for a separator or a position
    /// past the last entry.
    pub fn handle_click(&self, idx: usize) -> (r: Option<String>)
        ensures
            idx < self.items@.len() && !self.items@[idx as int].separator ==> (r matches Some(a)
                && a@ == self.items@[idx as int].action@),
            !(idx < self.items@.len() && !self.items@[idx as int].separator) ==> r is None,
    {
        item_action(&self.items, idx)
    }

    /// The entries of the editor's context menu.
    pub fn editor_context() -> (r: Vec<MenuItem>)
        ensures
            items_view(r@) == editor_menu(),
    {
        editor_context()
    }
}

/// The action of entry `idx`: none for a separator or a missing entry.
pub fn item_action(items: &Vec<MenuItem>, idx: usize) -> (r: Option<String>)
    ensures
        idx < items@.len() && !items@[idx as int].separator ==> (r matches Some(a) && a@
            == items@[idx as int].action@),
        !(idx < items@.len() && !items@[idx as int].separator) ==> r is None,
{
    if idx < items.len() {
        let it = &items[idx];
        if it.separator {
            return None;
        }
        Some(it.action.clone())
    } else {
        None
    }
}

} // verus!
