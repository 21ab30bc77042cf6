//! The memory-mapping context a task runs in.

use vstd::prelude::*;

verus! {

/// One address space, named by the physical address of its top-level page table.
///
/// A context belongs to exactly one task, so it is neither `Clone` nor `Copy`.
#[derive(Debug, PartialEq, Eq)]
pub struct PageCtx {
    root: u64,
}

impl PageCtx {
    /// The context whose top-level table lies at `root`.
    pub fn new(root: u64) -> (ctx: PageCtx)
        ensures
            ctx.root() == root,
    {
        PageCtx { root }
    }

    /// Physical address of the top-level page table.
    #[verifier::when_used_as_spec(spec_root)]
    pub fn root(&self) -> (root: u64)
        ensures
            root == self.root(),
    {
        self.root
    }

    pub closed spec fn spec_root(&self) -> u64 {
        self.root
    }
}

} // verus!
