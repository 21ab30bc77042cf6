//! Memory errors that callers are expected to handle.

use vstd::prelude::*;

verus! {

/// An allocation could not be satisfied.
#[derive(Clone, Copy, Debug, PartialEq, Eq, Structural)]
pub struct MemoryExhausted;

} // verus!
