//! Dragging a tab or a file: what is being dragged, from the press of the
//! mouse button to its release.  The pointer positions are kept by the
//! window.
use vstd::prelude::*;
use std::path::PathBuf;

verus! {

#[derive(Debug)]
pub enum DragPayload {
    TabDrag { group_id: u32, tab_idx: usize },
    FileDrag(PathBuf),
}

pub struct DragDrop {
    pub dragging: Option<DragPayload>,
}

impl DragDrop {
    /// Nothing is being dragged.
    pub fn new() -> (r: Self)
        ensures
            r.dragging is None,
    {
        DragDrop { dragging: None }
    }

    /// Starts dragging `payload`.
    pub fn start_drag(&mut self, payload: DragPayload)
        ensures
            final(self).dragging == Some(payload),
    {
        self.dragging = Some(payload);
    }

    /// Ends the drag: hands back what was dragged, if anything.
    pub fn handle_mouse_up(&mut self) -> (r: Option<DragPayload>)
        ensures
            r == old(self).dragging,
            final(self).dragging is None,
    {
        self.dragging.take()
    }

    pub fn is_dragging(&self) -> (r: bool)
        ensures
            r == self.dragging is Some,
    {
        self.dragging.is_some()
    }
}

} // verus!
