//! Go to definition, asked of the language server.
use vstd::prelude::*;

verus! {

/// Jumps to the definition of the symbol under the cursor.
pub struct GoToDef;

} // verus!
