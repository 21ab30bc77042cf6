//! The task-switching core of a small kernel: a registry of tasks, the state
//! machine each task moves through, round-robin selection, and the routines the
//! trap path calls to save, select and resume.

pub mod interrupt;
pub mod mem;
pub mod page;
pub mod task;
