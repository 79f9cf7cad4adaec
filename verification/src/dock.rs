//! The panels of the dock layout and the directions it splits in.
use vstd::prelude::*;

verus! {

#[derive(Clone, Copy, Debug, PartialEq, Eq, Hash, Structural)]
pub enum PanelId {
    ActivityBar,
    Sidebar,
    Editor,
    BottomPanel,
    AiPanel,
    TitleBar,
    StatusBar,
    Terminal,
    Output,
    Debug,
}

#[derive(Clone, Copy, Debug, PartialEq, Eq, Structural)]
pub enum SplitDirection {
    Horizontal,
    Vertical,
}

} // verus!
