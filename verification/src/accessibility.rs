//! The editor state that is exposed to assistive technology.
use vstd::prelude::*;

verus! {

pub struct AccessibilityState {
    pub editor_text: String,
    pub cursor_line: usize,
    pub cursor_col: usize,
    pub sidebar_visible: bool,
}

} // verus!
