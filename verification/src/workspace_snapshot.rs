//! The parts of a saved workspace that hold no layout geometry: each open
//! file's position, and the direction of a split.
use vstd::prelude::*;

verus! {

/// Where a file was left.
#[derive(Debug, Clone)]
pub struct FileState {
    pub path: String,
    pub cursor_line: usize,
    pub cursor_col: usize,
    pub scroll_top: usize,
    pub scroll_left: usize,
}

#[derive(Debug, Clone, Copy, PartialEq, Eq, Structural)]
pub enum SplitDirection {
    Horizontal,
    Vertical,
}

} // verus!
