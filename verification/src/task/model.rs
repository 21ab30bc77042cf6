//! The registry as the contracts see it: a sequence of tasks in ascending id
//! order, the ring that the ids form, and the transitions of the registry.

use vstd::prelude::*;
use crate::interrupt::TrapFrame;
use crate::page::PageCtx;
use crate::task::{arrival, Continuation, TaskId, TaskState};

verus! {

/// Number of places on the ring of ids.
pub open spec fn ring_size() -> int {
    0x1_0000_0000_0000_0000
}

/// How far `id` lies after `prev` when going up through the ids and wrapping
/// past the largest: at least 1, and `ring_size()` for `prev` itself, which
/// comes last.
pub open spec fn ring_distance(prev: TaskId, id: TaskId) -> int {
    if id.0 > prev.0 {
        id.0 - prev.0
    } else {
        id.0 - prev.0 + ring_size()
    }
}

/// One task of the registry.
pub struct TaskView<C> {
    pub id: TaskId,
    pub page_ctx: PageCtx,
    pub state: TaskState,
    pub continuation: C,
}

impl<C> TaskView<C> {
    /// The same task in another state.
    pub open spec fn with_state(self, state: TaskState) -> TaskView<C> {
        TaskView { id: self.id, page_ctx: self.page_ctx, state, continuation: self.continuation }
    }
}

/// The registry: its tasks in ascending id order, the place of the current
/// task among them, and the id the next registration takes.
pub struct TasksView<C> {
    pub tasks: Seq<TaskView<C>>,
    pub current: Option<int>,
    pub next_id: u64,
}

impl<C> TasksView<C> {
    /// Ids are positive, ascend strictly, and lie below the next id to hand
    /// out; the current task, if any, is one of the tasks.
    pub open spec fn wf(self) -> bool {
        &&& self.next_id >= 1
        &&& forall|i: int| 0 <= i < self.tasks.len() ==> 1 <= (#[trigger] self.tasks[i]).id.0 < self.next_id
        &&& forall|i: int, j: int|
            0 <= i < j < self.tasks.len() ==> (#[trigger] self.tasks[i]).id.0 < (#[trigger] self.tasks[j]).id.0
        &&& self.current matches Some(c) ==> 0 <= c < self.tasks.len()
    }

    /// Some task is not asleep.
    pub open spec fn has_runnable(self) -> bool {
        exists|i: int| 0 <= i < self.tasks.len() && (#[trigger] self.tasks[i]).state.runnable()
    }

    /// The current task is in user mode.
    pub open spec fn current_in_user_mode(self) -> bool {
        self.current matches Some(c) && self.tasks[c].state is User
    }

    /// Id of the current task; 0 while there is none.
    pub open spec fn previous_id(self) -> TaskId {
        match self.current {
            Some(c) => self.tasks[c].id,
            None => TaskId(0),
        }
    }

    /// The registry with the task at place `i` in `state`.
    pub open spec fn with_state(self, i: int, state: TaskState) -> TasksView<C> {
        TasksView {
            tasks: self.tasks.update(i, self.tasks[i].with_state(state)),
            current: self.current,
            next_id: self.next_id,
        }
    }

    /// The registry after the outgoing registers were saved: a current task
    /// that is in user mode now holds `frame`; nothing else changes.
    pub open spec fn saved(self, frame: TrapFrame) -> TasksView<C> {
        match self.current {
            Some(c) if self.tasks[c].state is User => self.with_state(c, TaskState::User(frame)),
            _ => self,
        }
    }

    /// The registry after a syscall of the current task was recorded: the
    /// task holds the arrived frame for its continuation to take.
    pub open spec fn recorded(self, frame: TrapFrame) -> TasksView<C> {
        match self.current {
            Some(c) => self.with_state(c, TaskState::Entry(frame)),
            None => self,
        }
    }

    /// The registry after a task with a fresh id was added in state `Wake`.
    pub open spec fn registered(self, page_ctx: PageCtx, continuation: C) -> TasksView<C> {
        TasksView {
            tasks: self.tasks.push(
                TaskView { id: TaskId(self.next_id), page_ctx, state: TaskState::Wake, continuation },
            ),
            current: self.current,
            next_id: (self.next_id + 1) as u64,
        }
    }

    /// The registry after a registration failed: the id it drew is spent, and
    /// no task was added.
    pub open spec fn declined(self) -> TasksView<C> {
        TasksView { tasks: self.tasks, current: self.current, next_id: (self.next_id + 1) as u64 }
    }
}

/// The task at place `i` is the one the scheduler picks after `prev`: it is
/// not asleep, and no task that is not asleep lies nearer on the ring.
pub open spec fn follows<C>(tasks: Seq<TaskView<C>>, prev: TaskId, i: int) -> bool {
    &&& 0 <= i < tasks.len()
    &&& tasks[i].state.runnable()
    &&& forall|j: int|
        0 <= j < tasks.len() && (#[trigger] tasks[j]).state.runnable() ==> ring_distance(
            prev,
            tasks[i].id,
        ) <= ring_distance(prev, tasks[j].id)
}

/// A pass that starts after `prev` advances the continuation of the task at
/// place `i`: the task has kernel work, and no task in user mode lies nearer
/// on the ring, where the pass would have ended.
pub open spec fn driven<C>(tasks: Seq<TaskView<C>>, prev: TaskId, i: int) -> bool {
    &&& 0 <= i < tasks.len()
    &&& tasks[i].state.kernel_work()
    &&& forall|j: int|
        0 <= j < tasks.len() && (#[trigger] tasks[j]).state is User ==> ring_distance(
            prev,
            tasks[i].id,
        ) < ring_distance(prev, tasks[j].id)
}

/// A pass that starts after `prev` ends with the task at place `i` as the
/// current one: the nearest task in user mode or, where none is in user mode
/// and so every task that is not asleep gets advanced, the nearest of those.
pub open spec fn lands<C>(tasks: Seq<TaskView<C>>, prev: TaskId, i: int) -> bool {
    if exists|j: int| 0 <= j < tasks.len() && (#[trigger] tasks[j]).state is User {
        &&& 0 <= i < tasks.len()
        &&& tasks[i].state is User
        &&& forall|j: int|
            0 <= j < tasks.len() && (#[trigger] tasks[j]).state is User ==> ring_distance(
                prev,
                tasks[i].id,
            ) <= ring_distance(prev, tasks[j].id)
    } else {
        follows(tasks, prev, i)
    }
}

/// The task `before` was advanced once and is `after`: its continuation was
/// resumed with what a poll saw in its state, and the task is in user mode
/// with the frame the continuation asked for.
pub open spec fn advanced<C: Continuation>(before: TaskView<C>, after: TaskView<C>) -> bool {
    &&& after.id == before.id
    &&& after.page_ctx == before.page_ctx
    &&& after.state matches TaskState::User(frame)
    &&& before.continuation.resumes(arrival(before.state), after.continuation, frame)
}

/// One select-and-drive pass took the registry from `pre` to `post` and came
/// back with `frame`: going round the ring from after `prev`, every task with
/// kernel work that lies before the first task in user mode was advanced
/// once, all other tasks are as they were, and the task the pass ended at is
/// the current one, in user mode with `frame`.
pub open spec fn passed<C: Continuation>(
    pre: TasksView<C>,
    prev: TaskId,
    post: TasksView<C>,
    frame: TrapFrame,
) -> bool {
    &&& post.tasks.len() == pre.tasks.len()
    &&& post.next_id == pre.next_id
    &&& forall|i: int|
        0 <= i < pre.tasks.len() ==> if driven(pre.tasks, prev, i) {
            advanced(pre.tasks[i], #[trigger] post.tasks[i])
        } else {
            post.tasks[i] == pre.tasks[i]
        }
    &&& post.current matches Some(c)
    &&& lands(pre.tasks, prev, c)
    &&& post.tasks[c].state == TaskState::User(frame)
}

/// A switch took the registry from `pre` to `post`, called with `arrived` and
/// coming back with `resumed`: the outgoing registers were saved, and one
/// pass ran from the task that was current.
pub open spec fn switched<C: Continuation>(
    pre: TasksView<C>,
    arrived: TrapFrame,
    post: TasksView<C>,
    resumed: TrapFrame,
) -> bool {
    passed(pre.saved(arrived), pre.previous_id(), post, resumed)
}

} // verus!
