//! The file tree's display state: which row is scrolled to, selected and
//! hovered, and the rows themselves.
use vstd::prelude::*;

verus! {

pub struct FileTreeUi {
    pub scroll_offset: usize,
    pub selected_index: Option<usize>,
    pub hovered_index: Option<usize>,
}

impl FileTreeUi {
    pub fn new() -> (r: Self)
        ensures
            r.scroll_offset == 0,
            r.selected_index is None,
            r.hovered_index is None,
    {
        FileTreeUi { scroll_offset: 0, selected_index: None, hovered_index: None }
    }
}

/// One row of the file tree.
pub struct DisplayNode {
    pub label: String,
    pub depth: usize,
    pub is_dir: bool,
    pub expanded: bool,
}

} // verus!
