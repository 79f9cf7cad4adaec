//! Hover information: a text shown for a range of the buffer.
use vstd::prelude::*;

verus! {

#[derive(Debug)]
pub struct HoverContent {
    pub text: String,
    pub range: (usize, usize),
}

/// Provides hover information for a buffer position.
pub struct HoverProvider;

} // verus!
