//! The activity bar: its buttons, their tooltips and which one is active.
use vstd::prelude::*;

verus! {

/// Activity bar button identifiers.
#[derive(Clone, Copy, Debug, PartialEq, Eq, Structural)]
pub enum ActivityItem {
    Explorer,
    Search,
    SourceControl,
    Debug,
    Extensions,
    AiAgent,
    Account,
    Settings,
}

pub open spec fn top_items_spec() -> Seq<ActivityItem> {
    seq![
        ActivityItem::Explorer,
        ActivityItem::Search,
        ActivityItem::SourceControl,
        ActivityItem::Debug,
        ActivityItem::Extensions,
        ActivityItem::AiAgent,
    ]
}

pub open spec fn bottom_items_spec() -> Seq<ActivityItem> {
    seq![ActivityItem::Account, ActivityItem::Settings]
}

impl ActivityItem {
    /// The tooltip of each button.
    pub fn label(&self) -> (r: &'static str)
        ensures
            r@ == (match *self {
                ActivityItem::Explorer => "Explorer"@,
                ActivityItem::Search => "Search"@,
                ActivityItem::SourceControl => "Source Control"@,
                ActivityItem::Debug => "Run and Debug"@,
                ActivityItem::Extensions => "Extensions"@,
                ActivityItem::AiAgent => "AI Chat"@,
                ActivityItem::Account => "Accounts"@,
                ActivityItem::Settings => "Settings"@,
            }),
    {
        match self {
            ActivityItem::Explorer => "Explorer",
            ActivityItem::Search => "Search",
            ActivityItem::SourceControl => "Source Control",
            ActivityItem::Debug => "Run and Debug",
            ActivityItem::Extensions => "Extensions",
            ActivityItem::AiAgent => "AI Chat",
            ActivityItem::Account => "Accounts",
            ActivityItem::Settings => "Settings",
        }
    }

    /// The buttons at the top of the bar, in order.
    pub fn top_items() -> (r: &'static [ActivityItem])
        ensures
            r@ == top_items_spec(),
    {
        let r: &'static [ActivityItem] = &[
            ActivityItem::Explorer,
            ActivityItem::Search,
            ActivityItem::SourceControl,
            ActivityItem::Debug,
            ActivityItem::Extensions,
            ActivityItem::AiAgent,
        ];
        assert(r@ =~= top_items_spec());
        r
    }

    /// The buttons at the bottom of the bar, in order.
    pub fn bottom_items() -> (r: &'static [ActivityItem])
        ensures
            r@ == bottom_items_spec(),
    {
        let r: &'static [ActivityItem] = &[ActivityItem::Account, ActivityItem::Settings];
        assert(r@ =~= bottom_items_spec());
        r
    }
}

/// Activity bar state.
pub struct ActivityBar {
    pub active_item: Option<ActivityItem>,
    pub hovered_item: Option<ActivityItem>,
}

impl ActivityBar {
    /// The explorer is active at start; nothing is hovered.
    pub fn new() -> (r: Self)
        ensures
            r.active_item == Some(ActivityItem::Explorer),
            r.hovered_item is None,
    {
        ActivityBar { active_item: Some(ActivityItem::Explorer), hovered_item: None }
    }

    /// A click on the button of `item` (the window finds which button is
    /// under the pointer): a top button turns on, or off when it was the
    /// active one; a bottom button turns on.  Returns the button clicked.
    pub fn click(&mut self, item: ActivityItem) -> (r: ActivityItem)
        ensures
            r == item,
            top_items_spec().contains(item) ==> final(self).active_item == if old(self).active_item
                == Some(item) {
                None
            } else {
                Some(item)
            },
            bottom_items_spec().contains(item) ==> final(self).active_item == Some(item),
            final(self).hovered_item == old(self).hovered_item,
    {
        proof {
            law_items_partition(item);
        }
        let top = match item {
            ActivityItem::Account | ActivityItem::Settings => false,
            _ => true,
        };
        if top {
            let was_active = match self.active_item {
                Some(a) => a == item,
                None => false,
            };
            if was_active {
                self.active_item = None;
            } else {
                self.active_item = Some(item);
            }
        } else {
            self.active_item = Some(item);
        }
        item
    }
}

/// Every button is in exactly one of the two groups, once.
pub proof fn law_items_partition(item: ActivityItem)
    ensures
        top_items_spec().contains(item) != bottom_items_spec().contains(item),
        top_items_spec().no_duplicates(),
        bottom_items_spec().no_duplicates(),
{
    match item {
        ActivityItem::Explorer => assert(top_items_spec()[0] == item),
        ActivityItem::Search => assert(top_items_spec()[1] == item),
        ActivityItem::SourceControl => assert(top_items_spec()[2] == item),
        ActivityItem::Debug => assert(top_items_spec()[3] == item),
        ActivityItem::Extensions => assert(top_items_spec()[4] == item),
        ActivityItem::AiAgent => assert(top_items_spec()[5] == item),
        ActivityItem::Account => assert(bottom_items_spec()[0] == item),
        ActivityItem::Settings => assert(bottom_items_spec()[1] == item),
    }
}

} // verus!
