//! The register snapshot that crosses the boundary between user mode and the kernel.

use vstd::prelude::*;
use crate::task::{SEG_UCODE, SEG_UDATA};

verus! {

/// A snapshot of the CPU state from which execution in user mode can be resumed.
#[derive(Clone, Copy, Debug, PartialEq, Eq, Structural)]
pub struct TrapFrame {
    pub rip: u64,
    pub cs: u16,
    pub rsp: u64,
    pub ss: u16,
}

impl TrapFrame {
    /// A frame that enters user mode at `rip` with its stack pointer at `rsp`.
    pub fn new(rip: u64, rsp: u64) -> (frame: TrapFrame)
        ensures
            frame == (TrapFrame { rip, cs: SEG_UCODE, rsp, ss: SEG_UDATA }),
    {
        TrapFrame { rip, cs: SEG_UCODE, rsp, ss: SEG_UDATA }
    }
}

} // verus!
