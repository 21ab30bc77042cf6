//! The task registry: every task in ascending id order, and which of them is
//! current.

use std::collections::TryReserveError;
use vstd::prelude::*;
use crate::interrupt::TrapFrame;
use crate::mem::MemoryExhausted;
use crate::page::PageCtx;
use crate::task::model::{advanced, follows, TaskView, TasksView};
use crate::task::{work_item, Continuation, TaskHandle, TaskId, TaskState, WorkItem};

verus! {

/// One registered unit of scheduling: an identity, the address space it runs
/// in, its state, and the continuation that is its kernel-side logic.
pub struct Task<C> {
    id: TaskId,
    page_ctx: PageCtx,
    state: TaskHandle,
    future: C,
}

impl<C> View for Task<C> {
    type V = TaskView<C>;

    closed spec fn view(&self) -> TaskView<C> {
        TaskView { id: self.id, page_ctx: self.page_ctx, state: self.state@, continuation: self.future }
    }
}

impl<C> Task<C> {
    /// The task's id.
    pub fn id(&self) -> (id: TaskId)
        ensures
            id == self@.id,
    {
        self.id
    }

    /// The state the task is in now.
    pub fn state(&self) -> (state: TaskState)
        ensures
            state == self@.state,
    {
        self.state.state()
    }

    /// The address space the task runs in.
    pub fn page_ctx(&self) -> (page_ctx: &PageCtx)
        ensures
            *page_ctx == self@.page_ctx,
    {
        &self.page_ctx
    }
}

impl<C: Continuation> Task<C> {
    /// Advances the task's continuation by one suspension point: polls the
    /// step it is suspended in, resumes it with the outcome, and begins the
    /// step it asks for.
    pub fn advance(&mut self)
        requires
            old(self)@.state.kernel_work(),
        ensures
            advanced(old(self)@, final(self)@),
    {
        let arrived = self.state.awaited().poll();
        let frame = self.future.resume(arrived);
        let _ = self.state.step(frame);
    }
}

/// The registry of all tasks.
pub struct Tasks<C> {
    map: Vec<Task<C>>,
    current: Option<usize>,
    next_id: u64,
}

impl<C> View for Tasks<C> {
    type V = TasksView<C>;

    closed spec fn view(&self) -> TasksView<C> {
        TasksView {
            tasks: self.map@.map_values(|task: Task<C>| task@),
            current: match self.current {
                Some(c) => Some(c as int),
                None => None,
            },
            next_id: self.next_id,
        }
    }
}

impl<C> Tasks<C> {
    /// The registry is in order: see [`TasksView::wf`].
    pub open spec fn wf(&self) -> bool {
        self@.wf()
    }

    /// An empty registry with no current task; the first registration takes id 1.
    pub fn new() -> (tasks: Tasks<C>)
        ensures
            tasks.wf(),
            tasks@.tasks.len() == 0,
            tasks@.current is None,
            tasks@.next_id == 1,
    {
        Tasks { map: Vec::new(), current: None, next_id: 1 }
    }

    /// Number of registered tasks.
    pub fn len(&self) -> (len: usize)
        ensures
            len == self@.tasks.len(),
    {
        self.map.len()
    }

    /// The id that the next registration takes.
    pub fn next_id(&self) -> (next_id: u64)
        ensures
            next_id == self@.next_id,
    {
        self.next_id
    }

    /// Asks the allocator for room for `additional` more tasks. The registry
    /// is the same whatever the answer.
    pub fn reserve(&mut self, additional: usize) -> (reserved: Result<(), TryReserveError>)
        ensures
            final(self)@ == old(self)@,
    {
        self.map.try_reserve(additional)
    }

    /// Registers a task: draws a fresh id, and adds the task in state `Wake`
    /// with `continuation` as its kernel-side logic. Whether there is memory
    /// for it is the allocator's to say; when there is none the id stays
    /// spent and the registry holds no trace of the task.
    pub fn create(&mut self, page_ctx: PageCtx, continuation: C) -> (created: Result<
        TaskId,
        MemoryExhausted,
    >)
        requires
            old(self).wf(),
            old(self)@.next_id < u64::MAX,
        ensures
            final(self).wf(),
            match created {
                Ok(id) => id == TaskId(old(self)@.next_id) && final(self)@ == old(self)@.registered(
                    page_ctx,
                    continuation,
                ),
                Err(_) => final(self)@ == old(self)@.declined(),
            },
    {
        let reserved = self.map.try_reserve(1);
        self.enroll(reserved, page_ctx, continuation)
    }

    /// Completes a registration for which room was asked of the allocator,
    /// with `reserved` as its answer: the task is added exactly if room was
    /// granted, and the id is spent either way.
    pub fn enroll(
        &mut self,
        reserved: Result<(), TryReserveError>,
        page_ctx: PageCtx,
        continuation: C,
    ) -> (enrolled: Result<TaskId, MemoryExhausted>)
        requires
            old(self).wf(),
            old(self)@.next_id < u64::MAX,
        ensures
            final(self).wf(),
            enrolled is Ok <==> reserved is Ok,
            match enrolled {
                Ok(id) => id == TaskId(old(self)@.next_id) && final(self)@ == old(self)@.registered(
                    page_ctx,
                    continuation,
                ),
                Err(_) => final(self)@ == old(self)@.declined(),
            },
    {
        let id = TaskId(self.next_id);
        self.next_id = self.next_id + 1;
        match reserved {
            Ok(()) => {
                let task = Task { id, page_ctx, state: TaskHandle::new(TaskState::Wake), future: continuation };
                self.map.push(task);
                assert(self@.tasks =~= old(self)@.registered(page_ctx, continuation).tasks);
                Ok(id)
            },
            Err(_) => Err(MemoryExhausted),
        }
    }

    /// Place of the first task whose id lies above `prev`: every task before
    /// it has an id of at most `prev`, every task from it on a greater one.
    pub fn first_after(&self, prev: TaskId) -> (start: usize)
        requires
            self.wf(),
        ensures
            start <= self@.tasks.len(),
            forall|i: int| 0 <= i < start ==> (#[trigger] self@.tasks[i]).id.0 <= prev.0,
            forall|i: int| start <= i < self@.tasks.len() ==> (#[trigger] self@.tasks[i]).id.0 > prev.0,
    {
        let mut low: usize = 0;
        let mut high: usize = self.map.len();
        while low < high
            invariant
                self.wf(),
                low <= high <= self@.tasks.len(),
                high <= self.map.len(),
                forall|i: int| 0 <= i < low ==> (#[trigger] self@.tasks[i]).id.0 <= prev.0,
                forall|i: int| high <= i < self@.tasks.len() ==> (#[trigger] self@.tasks[i]).id.0 > prev.0,
            decreases high - low,
        {
            let mid = low + (high - low) / 2;
            if self.map[mid].id.0 <= prev.0 {
                assert(self@.tasks[mid as int].id.0 <= prev.0);
                low = mid + 1;
            } else {
                assert(self@.tasks[mid as int].id.0 > prev.0);
                high = mid;
            }
        }
        low
    }

    /// Place of the task with this id, if it is registered.
    pub fn index_of(&self, id: TaskId) -> (found: Option<usize>)
        requires
            self.wf(),
        ensures
            match found {
                Some(i) => i < self@.tasks.len() && self@.tasks[i as int].id == id,
                None => forall|i: int| 0 <= i < self@.tasks.len() ==> (#[trigger] self@.tasks[i]).id != id,
            },
    {
        if id.0 == 0 {
            return None;
        }
        let start = self.first_after(TaskId(id.0 - 1));
        if start < self.map.len() && self.map[start].id.0 == id.0 {
            assert(self@.tasks[start as int].id == id);
            Some(start)
        } else {
            None
        }
    }

    /// Saves the outgoing registers: a current task that is in user mode now
    /// holds `frame`; a current task in any other state is left as it is.
    /// Gives the id of the current task, or 0 when there is none.
    pub fn save_current_task(&mut self, frame: &TrapFrame) -> (previous: TaskId)
        requires
            old(self).wf(),
        ensures
            final(self).wf(),
            final(self)@ == old(self)@.saved(*frame),
            previous == old(self)@.previous_id(),
    {
        match self.current {
            Some(c) => {
                match self.map[c].state.state() {
                    TaskState::User(_) => {
                        self.map[c].state = TaskHandle::new(TaskState::User(*frame));
                        assert(self@.tasks =~= old(self)@.saved(*frame).tasks);
                    },
                    _ => {},
                }
                self.map[c].id
            },
            None => TaskId(0),
        }
    }

    /// Picks the task to run after `previous_task_id` and makes it current:
    /// the task with the least id above `previous_task_id` that is not asleep
    /// or, if there is none, the task with the least id that is not asleep.
    /// Says whether its continuation is to be advanced or the task goes on in
    /// user mode. There must be a task that is not asleep.
    pub fn find_next_work_item(&mut self, previous_task_id: TaskId) -> (next: (TaskId, WorkItem))
        requires
            old(self).wf(),
            old(self)@.has_runnable(),
        ensures
            final(self).wf(),
            final(self)@.tasks == old(self)@.tasks,
            final(self)@.next_id == old(self)@.next_id,
            final(self)@.current matches Some(c) && follows(old(self)@.tasks, previous_task_id, c)
                && next.0 == old(self)@.tasks[c].id && next.1 == work_item(old(self)@.tasks[c].state),
    {
        let start = self.first_after(previous_task_id);
        let len = self.map.len();
        let mut i = start;
        while i < len
            invariant
                self.wf(),
                self@ == old(self)@,
                len == self.map.len(),
                start <= i <= len,
                forall|j: int| 0 <= j < start ==> (#[trigger] self@.tasks[j]).id.0 <= previous_task_id.0,
                forall|j: int| start <= j < len ==> (#[trigger] self@.tasks[j]).id.0 > previous_task_id.0,
                forall|j: int| start <= j < i ==> !(#[trigger] self@.tasks[j]).state.runnable(),
            decreases len - i,
        {
            match self.map[i].state.state() {
                TaskState::Sleep => {},
                state => {
                    self.current = Some(i);
                    assert(self@.tasks[i as int].state == state);
                    assert(follows(self@.tasks, previous_task_id, i as int));
                    return (self.map[i].id, Self::work_of(state));
                },
            }
            i += 1;
        }
        i = 0;
        while i < start
            invariant
                self.wf(),
                self@ == old(self)@,
                self@.has_runnable(),
                len == self.map.len(),
                i <= start <= len,
                forall|j: int| 0 <= j < start ==> (#[trigger] self@.tasks[j]).id.0 <= previous_task_id.0,
                forall|j: int| start <= j < len ==> !(#[trigger] self@.tasks[j]).state.runnable(),
                forall|j: int| 0 <= j < i ==> !(#[trigger] self@.tasks[j]).state.runnable(),
            decreases start - i,
        {
            match self.map[i].state.state() {
                TaskState::Sleep => {},
                state => {
                    self.current = Some(i);
                    assert(self@.tasks[i as int].state == state);
                    assert(follows(self@.tasks, previous_task_id, i as int));
                    return (self.map[i].id, Self::work_of(state));
                },
            }
            i += 1;
        }
        proof {
            let j = choose|j: int| 0 <= j < self@.tasks.len() && (#[trigger] self@.tasks[j]).state.runnable();
            assert(false);
        }
        (previous_task_id, WorkItem::Kernel)
    }

    fn work_of(state: TaskState) -> (item: WorkItem)
        ensures
            item == work_item(state),
    {
        match state {
            TaskState::User(frame) => WorkItem::User(frame),
            _ => WorkItem::Kernel,
        }
    }

    /// Id of the current task, if there is one.
    pub fn current(&self) -> (current: Option<TaskId>)
        requires
            self.wf(),
        ensures
            match self@.current {
                Some(c) => current == Some(self@.tasks[c].id),
                None => current is None,
            },
    {
        match self.current {
            Some(c) => Some(self.map[c].id),
            None => None,
        }
    }

    /// Makes the task with this id the current one. Says whether there is
    /// such a task; if there is none, nothing changes.
    pub fn set_current(&mut self, id: TaskId) -> (found: bool)
        requires
            old(self).wf(),
        ensures
            final(self).wf(),
            final(self)@.tasks == old(self)@.tasks,
            final(self)@.next_id == old(self)@.next_id,
            found <==> exists|i: int| 0 <= i < old(self)@.tasks.len() && (#[trigger] old(self)@.tasks[i]).id == id,
            found ==> (final(self)@.current matches Some(c) && final(self)@.tasks[c].id == id),
            !found ==> final(self)@.current == old(self)@.current,
    {
        match self.index_of(id) {
            Some(i) => {
                self.current = Some(i);
                true
            },
            None => false,
        }
    }

    /// The task with this id, if it is registered.
    pub fn get(&self, id: TaskId) -> (task: Option<&Task<C>>)
        requires
            self.wf(),
        ensures
            match task {
                Some(task) => exists|i: int|
                    0 <= i < self@.tasks.len() && #[trigger] self@.tasks[i] == task@ && task@.id == id,
                None => forall|i: int| 0 <= i < self@.tasks.len() ==> (#[trigger] self@.tasks[i]).id != id,
            },
    {
        match self.index_of(id) {
            Some(i) => {
                assert(self@.tasks[i as int] == self.map[i as int]@);
                Some(&self.map[i])
            },
            None => None,
        }
    }

    /// Puts the task with this id in `state`: the way in for whatever blocks
    /// a task and wakes it again. Says whether there is such a task; if there
    /// is none, nothing changes.
    pub fn set_state(&mut self, id: TaskId, state: TaskState) -> (found: bool)
        requires
            old(self).wf(),
        ensures
            final(self).wf(),
            found <==> exists|i: int| 0 <= i < old(self)@.tasks.len() && (#[trigger] old(self)@.tasks[i]).id == id,
            found ==> exists|i: int|
                0 <= i < old(self)@.tasks.len() && (#[trigger] old(self)@.tasks[i]).id == id && final(self)@
                    == old(self)@.with_state(i, state),
            !found ==> final(self)@ == old(self)@,
    {
        match self.index_of(id) {
            Some(i) => {
                self.map[i].state = TaskHandle::new(state);
                assert(self@.tasks =~= old(self)@.with_state(i as int, state).tasks);
                true
            },
            None => false,
        }
    }

    /// Some task is not asleep: what a switch needs.
    pub fn has_runnable(&self) -> (found: bool)
        ensures
            found == self@.has_runnable(),
    {
        let mut i: usize = 0;
        while i < self.map.len()
            invariant
                i <= self.map.len(),
                forall|j: int| 0 <= j < i ==> !(#[trigger] self@.tasks[j]).state.runnable(),
            decreases self.map.len() - i,
        {
            match self.map[i].state.state() {
                TaskState::Sleep => {},
                _ => {
                    assert(self@.tasks[i as int].state.runnable());
                    return true;
                },
            }
            i += 1;
        }
        false
    }

    /// The current task is in user mode: what a syscall needs.
    pub fn current_in_user_mode(&self) -> (in_user_mode: bool)
        requires
            self.wf(),
        ensures
            in_user_mode == self@.current_in_user_mode(),
    {
        match self.current {
            Some(c) => {
                match self.map[c].state.state() {
                    TaskState::User(_) => true,
                    _ => false,
                }
            },
            None => false,
        }
    }

    /// Records the syscall of the current task, which is in user mode: the
    /// task now holds `frame` for its continuation to take.
    pub fn record_syscall(&mut self, frame: &TrapFrame)
        requires
            old(self).wf(),
            old(self)@.current_in_user_mode(),
        ensures
            final(self).wf(),
            final(self)@ == old(self)@.recorded(*frame),
    {
        match self.current {
            Some(c) => {
                self.map[c].state = TaskHandle::new(TaskState::Entry(*frame));
                assert(self@.tasks =~= old(self)@.recorded(*frame).tasks);
            },
            None => {},
        }
    }
}

impl<C: Continuation> Tasks<C> {
    /// Advances the continuation of the current task by one suspension point.
    pub fn advance_current(&mut self)
        requires
            old(self).wf(),
            old(self)@.current matches Some(c) && old(self)@.tasks[c].state.kernel_work(),
        ensures
            final(self).wf(),
            final(self)@.current == old(self)@.current,
            final(self)@.next_id == old(self)@.next_id,
            final(self)@.tasks.len() == old(self)@.tasks.len(),
            forall|i: int|
                0 <= i < old(self)@.tasks.len() && Some(i) != old(self)@.current ==> (
                #[trigger] final(self)@.tasks[i]) == old(self)@.tasks[i],
            old(self)@.current matches Some(c) && advanced(old(self)@.tasks[c], final(self)@.tasks[c]),
    {
        match self.current {
            Some(c) => {
                self.map[c].advance();
                assert forall|i: int| 0 <= i < self@.tasks.len() implies (#[trigger] self@.tasks[i]).id
                    == old(self)@.tasks[i].id by {
                    if i != c {
                        assert(self.map@[i] == old(self).map@[i]);
                    }
                }
            },
            None => {},
        }
    }
}

} // verus!
