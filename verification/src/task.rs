//! Tasks, their states, and the step protocol between a task's kernel-side
//! logic and the scheduler.

use vstd::prelude::*;
use crate::interrupt::TrapFrame;

verus! {

/// Code segment selector that user-mode frames run under.
pub const SEG_UCODE: u16 = 0x1b;

/// Data and stack segment selector of user-mode frames.
pub const SEG_UDATA: u16 = 0x23;

/// Identifies a task. Ids are handed out in increasing order, starting at 1;
/// 0 names no task and stands for "nothing ran before".
#[derive(Debug, Clone, Copy, PartialOrd, PartialEq, Eq, Ord, Structural)]
pub struct TaskId(pub u64);

/// What a task is doing, as the scheduler sees it.
#[derive(Debug, Clone, Copy, PartialEq, Eq, Structural)]
pub enum TaskState {
    /// A trap frame has arrived for the task and waits to be taken by its continuation.
    Entry(TrapFrame),
    /// Runnable, with no frame pending: the state a task starts in.
    Wake,
    /// Blocked: the scheduler passes over the task.
    Sleep,
    /// In user mode, with this frame as the registers last saved or next to load.
    User(TrapFrame),
}

impl TaskState {
    /// The scheduler may pick a task in this state.
    pub open spec fn runnable(self) -> bool {
        !(self is Sleep)
    }

    /// Picking a task in this state means advancing its continuation.
    pub open spec fn kernel_work(self) -> bool {
        self is Entry || self is Wake
    }
}

/// What polling a step yields.
#[derive(Debug, Clone, Copy, PartialEq, Eq, Structural)]
pub enum StepPoll {
    /// The trap that ended the step, as a copy of the frame that arrived.
    Ready(TrapFrame),
    /// No frame has arrived yet.
    Pending,
}

/// What a poll of a step sees in a task's state.
pub open spec fn arrival(state: TaskState) -> StepPoll {
    match state {
        TaskState::Entry(frame) => StepPoll::Ready(frame),
        _ => StepPoll::Pending,
    }
}

/// What the scheduler found to do next.
#[derive(Debug, Clone, Copy, PartialEq, Eq, Structural)]
pub enum WorkItem {
    /// The task's continuation is to be advanced.
    Kernel,
    /// The task is ready to go on in user mode with this frame.
    User(TrapFrame),
}

/// The work that picking a task in `state` means.
pub open spec fn work_item(state: TaskState) -> WorkItem {
    match state {
        TaskState::User(frame) => WorkItem::User(frame),
        _ => WorkItem::Kernel,
    }
}

/// A task's state cell, and with it the capability to send the task into user mode.
pub struct TaskHandle {
    task_state: TaskState,
}

impl View for TaskHandle {
    type V = TaskState;

    closed spec fn view(&self) -> TaskState {
        self.task_state
    }
}

impl TaskHandle {
    /// A cell that holds `state`.
    pub fn new(state: TaskState) -> (handle: TaskHandle)
        ensures
            handle@ == state,
    {
        TaskHandle { task_state: state }
    }

    /// The state the cell holds now.
    pub fn state(&self) -> (state: TaskState)
        ensures
            state == self@,
    {
        self.task_state
    }

    /// Starts one excursion into user mode: the task is now in user mode with
    /// `frame`, and the step returned observes the cell for the trap that ends it.
    pub fn step(&mut self, frame: TrapFrame) -> (step: Step<'_>)
        ensures
            final(self)@ == TaskState::User(frame),
            step@ == TaskState::User(frame),
    {
        self.task_state = TaskState::User(frame);
        Step { task_state: &self.task_state }
    }

    /// The step the task is suspended in, seen through the cell as it is now.
    pub fn awaited(&self) -> (step: Step<'_>)
        ensures
            step@ == self@,
    {
        Step { task_state: &self.task_state }
    }
}

/// One pending excursion into user mode: a look at the task's state cell that
/// waits for a trap frame to arrive in it.
pub struct Step<'a> {
    task_state: &'a TaskState,
}

impl<'a> View for Step<'a> {
    type V = TaskState;

    closed spec fn view(&self) -> TaskState {
        *self.task_state
    }
}

impl<'a> Step<'a> {
    /// Looks once for the frame: ready with a copy of it when one has arrived,
    /// pending while the task is in user mode or has not started. A task never
    /// sees itself asleep, so a sleeping cell is not to be polled.
    pub fn poll(&self) -> (outcome: StepPoll)
        requires
            self@.runnable(),
        ensures
            outcome == arrival(self@),
    {
        match *self.task_state {
            TaskState::Entry(frame) => StepPoll::Ready(frame),
            _ => StepPoll::Pending,
        }
    }
}

/// The kernel-side logic of a task: what it does between two excursions into
/// user mode. It never finishes; each resumption runs it from one suspension
/// point to the next.
pub trait Continuation: Sized {
    /// What a resumption may do: from `self`, shown `arrived`, to `next`,
    /// asking for user mode with `frame`.
    open spec fn resumes(&self, arrived: StepPoll, next: Self, frame: TrapFrame) -> bool {
        true
    }

    /// Runs the logic up to its next step. `arrived` is what the step it was
    /// suspended in yielded: the trap frame, or nothing when the task is only
    /// starting. Gives the frame of the step it suspends in next.
    fn resume(&mut self, arrived: StepPoll) -> (frame: TrapFrame)
        ensures
            old(self).resumes(arrived, *final(self), frame),
    ;
}

/// A continuation that sends the task back into user mode with the frame it
/// was last handed, starting from a frame of its own.
#[derive(Debug, Clone, Copy, PartialEq, Eq, Structural)]
pub struct Echo {
    pub frame: TrapFrame,
}

impl Echo {
    /// An echo that first enters user mode with `frame`.
    pub fn new(frame: TrapFrame) -> (echo: Echo)
        ensures
            echo.frame == frame,
    {
        Echo { frame }
    }
}

impl Continuation for Echo {
    open spec fn resumes(&self, arrived: StepPoll, next: Self, frame: TrapFrame) -> bool {
        &&& frame == match arrived {
            StepPoll::Ready(delivered) => delivered,
            StepPoll::Pending => self.frame,
        }
        &&& next.frame == frame
    }

    fn resume(&mut self, arrived: StepPoll) -> (frame: TrapFrame) {
        match arrived {
            StepPoll::Ready(delivered) => {
                self.frame = delivered;
            },
            StepPoll::Pending => {},
        }
        self.frame
    }
}

} // verus!

pub mod laws;
pub mod model;
pub mod registry;
pub mod scheduler;

pub use registry::{Task, Tasks};
pub use scheduler::{dispatch_syscall, start, start_in, switch};
