//! Branches of the repository.
use vstd::prelude::*;

verus! {

#[derive(Debug, Clone)]
pub struct BranchInfo {
    pub name: String,
    pub is_current: bool,
    pub is_remote: bool,
    pub ahead: usize,
    pub behind: usize,
}

pub struct BranchManager;

impl BranchManager {
    /// The reference a local branch lives under (`refs/heads/<name>`), the
    /// one checking the branch out points `HEAD` at.
    pub fn head_ref(name: &str) -> (r: String)
        ensures
            r@ == "refs/heads/"@ + name@,
    {
        let mut v = crate::text::chars_of("refs/heads/");
        crate::text::append(&mut v, &crate::text::chars_of(name));
        crate::text::string_of(&v)
    }
}

} // verus!
