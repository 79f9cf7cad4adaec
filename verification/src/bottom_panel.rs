//! The bottom panel: whether it shows and which of its tabs is in front.
//! Its height, in pixels, is kept by the window.
use vstd::prelude::*;

verus! {

#[derive(Debug, Clone, Copy, PartialEq, Eq, Structural)]
pub enum PanelTab {
    Problems,
    Output,
    Terminal,
    DebugConsole,
}

#[derive(Debug, Clone, Copy, PartialEq, Eq, Structural)]
pub struct BottomPanel {
    pub visible: bool,
    pub active_tab: PanelTab,
}

/// The panel after a toggle: shown if it was hidden and the other way
/// round, on the same tab.
pub open spec fn toggled(p: BottomPanel) -> BottomPanel {
    BottomPanel { visible: !p.visible, active_tab: p.active_tab }
}

impl BottomPanel {
    /// Hidden, on the Problems tab.
    pub fn new() -> (r: Self)
        ensures
            !r.visible,
            r.active_tab == PanelTab::Problems,
    {
        BottomPanel { visible: false, active_tab: PanelTab::Problems }
    }

    /// Shows the panel if hidden, hides it if shown.
    pub fn toggle(&mut self)
        ensures
            *final(self) == toggled(*old(self)),
    {
        self.visible = !self.visible;
    }

    /// Brings `tab` to the front, showing the panel.
    pub fn set_tab(&mut self, tab: PanelTab)
        ensures
            final(self).visible,
            final(self).active_tab == tab,
    {
        self.active_tab = tab;
        if !self.visible {
            self.visible = true;
        }
    }
}

/// Toggling the panel twice leaves it as it was.
pub proof fn law_toggle_twice(p: BottomPanel)
    ensures
        toggled(toggled(p)) == p,
{
}

} // verus!
