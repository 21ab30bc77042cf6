//! The routines the trap path calls: the switch, the syscall entry, and the
//! start of the first tasks.

use std::collections::TryReserveError;
use vstd::prelude::*;
use crate::interrupt::TrapFrame;
use crate::mem::MemoryExhausted;
use crate::page::PageCtx;
use crate::task::model::{
    advanced, driven, follows, lands, passed, ring_distance, ring_size, switched, TaskView, TasksView,
};
use crate::task::registry::Tasks;
use crate::task::{Continuation, Echo, TaskId, TaskState, WorkItem, SEG_UCODE, SEG_UDATA};

verus! {

/// The task at place `i` lies within `reach` of `origin` on the ring and is not asleep.
spec fn within<C>(tasks: Seq<TaskView<C>>, origin: TaskId, reach: int, i: int) -> bool {
    tasks[i].state.runnable() && ring_distance(origin, tasks[i].id) <= reach
}

/// A pass that began after `origin` in `pre` has come as far as `reach`:
/// every task within reach had kernel work and was advanced, and the others
/// are untouched.
spec fn underway<C: Continuation>(
    pre: TasksView<C>,
    origin: TaskId,
    reach: int,
    now: TasksView<C>,
) -> bool {
    &&& pre.wf()
    &&& now.tasks.len() == pre.tasks.len()
    &&& now.next_id == pre.next_id
    &&& 0 <= reach <= ring_size()
    &&& forall|i: int|
        0 <= i < pre.tasks.len() ==> if #[trigger] within(pre.tasks, origin, reach, i) {
            pre.tasks[i].state.kernel_work() && advanced(pre.tasks[i], now.tasks[i])
        } else {
            now.tasks[i] == pre.tasks[i]
        }
}

/// Distances from `prev` are the distances from `origin`, turned by the
/// distance between the two.
proof fn lemma_ring_turn(origin: TaskId, prev: TaskId, id: TaskId)
    ensures
        ring_distance(prev, id) == if ring_distance(origin, id) > ring_distance(origin, prev) {
            ring_distance(origin, id) - ring_distance(origin, prev)
        } else {
            ring_distance(origin, id) - ring_distance(origin, prev) + ring_size()
        },
{
}

/// Where the scheduler picks the task at place `s` while a pass is underway:
/// `s` is the nearest task beyond the reach of the pass that is not asleep;
/// or, when there is none beyond, the nearest of all, and then every task
/// that is not asleep lies within reach.
proof fn lemma_pick<C: Continuation>(
    pre: TasksView<C>,
    origin: TaskId,
    reach: int,
    now: TasksView<C>,
    prev: TaskId,
    s: int,
)
    requires
        underway(pre, origin, reach, now),
        reach == 0 ==> prev == origin,
        reach > 0 ==> ring_distance(origin, prev) == reach,
        follows(now.tasks, prev, s),
    ensures
        pre.tasks[s].state.runnable(),
        forall|j: int|
            0 <= j < pre.tasks.len() && (#[trigger] pre.tasks[j]).state.runnable() && !within(
                pre.tasks,
                origin,
                reach,
                j,
            ) ==> !within(pre.tasks, origin, reach, s) && ring_distance(origin, pre.tasks[s].id)
                <= ring_distance(origin, pre.tasks[j].id),
        forall|j: int|
            0 <= j < pre.tasks.len() && (#[trigger] pre.tasks[j]).state.runnable() && within(
                pre.tasks,
                origin,
                reach,
                s,
            ) ==> ring_distance(origin, pre.tasks[s].id) <= ring_distance(origin, pre.tasks[j].id),
{
    let n = pre.tasks.len() as int;
    assert(now.tasks[s].state.runnable() == pre.tasks[s].state.runnable()) by {
        if within(pre.tasks, origin, reach, s) {
        }
    }
    lemma_ring_turn(origin, prev, pre.tasks[s].id);
    assert forall|j: int| 0 <= j < n && (#[trigger] pre.tasks[j]).state.runnable() implies (!within(
        pre.tasks,
        origin,
        reach,
        j,
    ) ==> !within(pre.tasks, origin, reach, s)) && ((within(pre.tasks, origin, reach, s) || !within(
        pre.tasks,
        origin,
        reach,
        j,
    )) ==> ring_distance(origin, pre.tasks[s].id) <= ring_distance(origin, pre.tasks[j].id)) by {
        lemma_ring_turn(origin, prev, pre.tasks[j].id);
        assert(now.tasks[j].state.runnable()) by {
            if within(pre.tasks, origin, reach, j) {
            }
        }
        assert(ring_distance(prev, now.tasks[s].id) <= ring_distance(prev, now.tasks[j].id));
        assert(now.tasks[s].id == pre.tasks[s].id) by {
            if within(pre.tasks, origin, reach, s) {
            }
        }
        assert(now.tasks[j].id == pre.tasks[j].id) by {
            if within(pre.tasks, origin, reach, j) {
            }
        }
    }
}

/// The pass ends at the task at place `s`, which is in user mode with `frame`.
proof fn lemma_pass_ends<C: Continuation>(
    pre: TasksView<C>,
    origin: TaskId,
    reach: int,
    now: TasksView<C>,
    prev: TaskId,
    s: int,
    frame: TrapFrame,
)
    requires
        underway(pre, origin, reach, now),
        reach == 0 ==> prev == origin,
        reach > 0 ==> ring_distance(origin, prev) == reach,
        follows(now.tasks, prev, s),
        now.tasks[s].state == TaskState::User(frame),
        now.current == Some(s),
    ensures
        passed(pre, origin, now, frame),
{
    let n = pre.tasks.len() as int;
    lemma_pick(pre, origin, reach, now, prev, s);
    // a task in user mode at the start lies beyond the reach of the pass
    assert forall|j: int| 0 <= j < n && (#[trigger] pre.tasks[j]).state is User implies !within(
        pre.tasks,
        origin,
        reach,
        j,
    ) && pre.tasks[j].state.runnable() by {}
    // the tasks within reach are the ones the pass was to advance
    assert forall|i: int| 0 <= i < n implies (driven(pre.tasks, origin, i) <==> #[trigger] within(
        pre.tasks,
        origin,
        reach,
        i,
    )) by {
        if within(pre.tasks, origin, reach, i) {
            assert(driven(pre.tasks, origin, i));
        } else if pre.tasks[i].state.kernel_work() {
            assert(pre.tasks[i].state.runnable());
            assert(!within(pre.tasks, origin, reach, s));
            assert(pre.tasks[s].state is User);
            assert(!driven(pre.tasks, origin, i));
        }
    }
    assert forall|i: int| 0 <= i < n implies if driven(pre.tasks, origin, i) {
        advanced(pre.tasks[i], #[trigger] now.tasks[i])
    } else {
        now.tasks[i] == pre.tasks[i]
    } by {
        assert(driven(pre.tasks, origin, i) <==> within(pre.tasks, origin, reach, i));
    }
    if exists|j: int| 0 <= j < n && (#[trigger] pre.tasks[j]).state is User {
        let u = choose|j: int| 0 <= j < n && (#[trigger] pre.tasks[j]).state is User;
        assert(pre.tasks[u].state.runnable() && !within(pre.tasks, origin, reach, u));
        assert(!within(pre.tasks, origin, reach, s));
    } else {
        assert(within(pre.tasks, origin, reach, s));
    }
    assert(lands(pre.tasks, origin, s));
}

/// The pass goes on past the task at place `s`, whose continuation was
/// advanced: it has now come as far as that task.
proof fn lemma_pass_goes_on<C: Continuation>(
    pre: TasksView<C>,
    origin: TaskId,
    reach: int,
    now: TasksView<C>,
    prev: TaskId,
    s: int,
    next: TasksView<C>,
)
    requires
        underway(pre, origin, reach, now),
        reach == 0 ==> prev == origin,
        reach > 0 ==> ring_distance(origin, prev) == reach,
        follows(now.tasks, prev, s),
        now.tasks[s].state.kernel_work(),
        next.tasks.len() == now.tasks.len(),
        next.next_id == now.next_id,
        forall|i: int| 0 <= i < now.tasks.len() && i != s ==> (#[trigger] next.tasks[i]) == now.tasks[i],
        advanced(now.tasks[s], next.tasks[s]),
    ensures
        now.tasks[s] == pre.tasks[s],
        reach < ring_distance(origin, pre.tasks[s].id),
        underway(pre, origin, ring_distance(origin, pre.tasks[s].id), next),
{
    let n = pre.tasks.len() as int;
    let further = ring_distance(origin, pre.tasks[s].id);
    lemma_pick(pre, origin, reach, now, prev, s);
    assert(!within(pre.tasks, origin, reach, s));
    assert(now.tasks[s] == pre.tasks[s]);
    assert forall|i: int| 0 <= i < n implies if #[trigger] within(pre.tasks, origin, further, i) {
        pre.tasks[i].state.kernel_work() && advanced(pre.tasks[i], next.tasks[i])
    } else {
        next.tasks[i] == pre.tasks[i]
    } by {
        if within(pre.tasks, origin, reach, i) {
            assert(i != s);
        } else if within(pre.tasks, origin, further, i) {
            assert(pre.tasks[i].state.runnable());
            assert(pre.tasks[i].id == pre.tasks[s].id);
            if i < s {
                assert(pre.tasks[i].id.0 < pre.tasks[s].id.0);
            }
            if s < i {
                assert(pre.tasks[s].id.0 < pre.tasks[i].id.0);
            }
        } else {
            assert(i != s);
        }
    }
}

/// While a pass is underway, some task is not asleep if one was not at its start.
proof fn lemma_underway_has_runnable<C: Continuation>(
    pre: TasksView<C>,
    origin: TaskId,
    reach: int,
    now: TasksView<C>,
)
    requires
        underway(pre, origin, reach, now),
        pre.has_runnable(),
    ensures
        now.has_runnable(),
{
    let j = choose|j: int| 0 <= j < pre.tasks.len() && (#[trigger] pre.tasks[j]).state.runnable();
    if within(pre.tasks, origin, reach, j) {
    }
    assert(now.tasks[j].state.runnable());
}

/// Saving the outgoing registers keeps the registry in order and sends no task to sleep.
proof fn lemma_saved<C>(pre: TasksView<C>, frame: TrapFrame)
    requires
        pre.wf(),
        pre.has_runnable(),
    ensures
        pre.saved(frame).wf(),
        pre.saved(frame).has_runnable(),
{
    let j = choose|j: int| 0 <= j < pre.tasks.len() && (#[trigger] pre.tasks[j]).state.runnable();
    assert(pre.saved(frame).tasks[j].state.runnable());
}

/// Switches to the next task that is ready for user mode.
///
/// Called with the registers of the task that was just running in `frame`:
/// saves them if that task is in user mode, then goes round the ring of tasks
/// from the one after it. A task that is asleep is passed over. A task with a
/// frame to take, or one that has not started, has its continuation advanced
/// by one step, which leaves it in user mode, and the round goes on. The first
/// task found in user mode becomes the current task, and its frame is written
/// to `frame`. There must be a task that is not asleep.
pub fn switch<C: Continuation>(tasks: &mut Tasks<C>, frame: &mut TrapFrame)
    requires
        old(tasks).wf(),
        old(tasks)@.has_runnable(),
    ensures
        final(tasks).wf(),
        switched(old(tasks)@, *old(frame), final(tasks)@, *final(frame)),
{
    let mut previous_task_id = tasks.save_current_task(frame);
    let ghost pre = tasks@;
    let ghost origin = previous_task_id;
    let ghost mut reach: int = 0;
    proof {
        lemma_saved(old(tasks)@, *old(frame));
    }
    loop
        invariant
            tasks.wf(),
            pre.has_runnable(),
            pre == old(tasks)@.saved(*old(frame)),
            origin == old(tasks)@.previous_id(),
            underway(pre, origin, reach, tasks@),
            reach == 0 ==> previous_task_id == origin,
            reach > 0 ==> ring_distance(origin, previous_task_id) == reach,
        decreases ring_size() - reach,
    {
        proof {
            lemma_underway_has_runnable(pre, origin, reach, tasks@);
        }
        let (new_task_id, item) = tasks.find_next_work_item(previous_task_id);
        let ghost s = tasks@.current.unwrap();
        match item {
            WorkItem::Kernel => {
                let ghost selected = tasks@;
                tasks.advance_current();
                proof {
                    lemma_pass_goes_on(pre, origin, reach, selected, previous_task_id, s, tasks@);
                    reach = ring_distance(origin, pre.tasks[s].id);
                }
                previous_task_id = new_task_id;
            },
            WorkItem::User(task_frame) => {
                *frame = task_frame;
                proof {
                    lemma_pass_ends(pre, origin, reach, tasks@, previous_task_id, s, task_frame);
                }
                return ;
            },
        }
    }
}

/// Entry for syscall traps.
///
/// Called with the registers of the current task, which must be in user
/// mode: a syscall cannot come from a task that is asleep, has not started,
/// or still holds a frame its continuation has not taken. Records the frame
/// with the task for its continuation to take, then switches.
pub fn dispatch_syscall<C: Continuation>(tasks: &mut Tasks<C>, frame: &mut TrapFrame)
    requires
        old(tasks).wf(),
        old(tasks)@.current_in_user_mode(),
    ensures
        final(tasks).wf(),
        switched(old(tasks)@.recorded(*old(frame)), *old(frame), final(tasks)@, *final(frame)),
{
    tasks.record_syscall(frame);
    proof {
        let c = tasks@.current.unwrap();
        assert(tasks@.tasks[c].state.runnable());
    }
    switch(tasks, frame)
}

/// Where the first task enters user mode.
pub const INIT_ENTRY: u64 = 0x1_0000_0000;

/// Where the second task enters user mode.
pub const SECOND_ENTRY: u64 = 0x1_0000_1000;

/// The registry as it stands when the first switch has run: two tasks that
/// echo, each in user mode at its entry point, and the second one current.
pub open spec fn started(tasks: TasksView<Echo>, init_ctx: PageCtx, second_ctx: PageCtx) -> bool {
    let init = TrapFrame { rip: INIT_ENTRY, cs: SEG_UCODE, rsp: 0, ss: SEG_UDATA };
    let second = TrapFrame { rip: SECOND_ENTRY, cs: SEG_UCODE, rsp: 0, ss: SEG_UDATA };
    &&& tasks.tasks.len() == 2
    &&& tasks.tasks[0] == (TaskView {
        id: TaskId(1),
        page_ctx: init_ctx,
        state: TaskState::User(init),
        continuation: Echo { frame: init },
    })
    &&& tasks.tasks[1] == (TaskView {
        id: TaskId(2),
        page_ctx: second_ctx,
        state: TaskState::User(second),
        continuation: Echo { frame: second },
    })
    &&& tasks.current == Some(1int)
    &&& tasks.next_id == 3
}

/// Sets the system going: registers the first two tasks, each echoing the
/// frames it is handed, makes the first one current and switches once. Gives
/// the registry and the frame to enter user mode with, which is that of the
/// second task: the first switch starts both and ends at the task after the
/// current one. Whether there is memory for the two tasks is the allocator's
/// to say; `start_in` tells what comes of each of its answers.
pub fn start(init_ctx: PageCtx, second_ctx: PageCtx) -> (begun: Result<
    (Tasks<Echo>, TrapFrame),
    MemoryExhausted,
>)
    ensures
        match begun {
            Ok((tasks, frame)) => tasks.wf() && started(tasks@, init_ctx, second_ctx) && frame == (TrapFrame {
                rip: SECOND_ENTRY,
                cs: SEG_UCODE,
                rsp: 0,
                ss: SEG_UDATA,
            }),
            Err(_) => true,
        },
{
    let mut tasks = Tasks::new();
    let init_room = tasks.reserve(1);
    let second_room = tasks.reserve(2);
    let ghost pre = seeded(tasks@, init_ctx, second_ctx);
    let begun = start_in(tasks, init_room, second_room, init_ctx, second_ctx);
    proof {
        if begun is Ok {
            let post = begun->Ok_0.0@;
            assert(pre.tasks[0].id == TaskId(1) && pre.tasks[1].id == TaskId(2));
            assert(pre.current == Some(0int));
            assert(pre.saved(TrapFrame { rip: 0, cs: SEG_UCODE, rsp: 0, ss: SEG_UDATA }) == pre);
            assert(pre.tasks[0].state.runnable());
            assert(pre.tasks[1].state.runnable());
            assert(driven(pre.tasks, TaskId(1), 0));
            assert(driven(pre.tasks, TaskId(1), 1));
            assert(advanced(pre.tasks[0], post.tasks[0]));
            assert(advanced(pre.tasks[1], post.tasks[1]));
            assert(follows(pre.tasks, TaskId(1), post.current.unwrap()));
            assert(post.current == Some(1int));
        }
    }
    begun
}

/// The registry `tasks` with the first two tasks registered after those it
/// holds, each an echo that has not started, and the first of the two current.
pub open spec fn seeded(tasks: TasksView<Echo>, init_ctx: PageCtx, second_ctx: PageCtx) -> TasksView<Echo> {
    let init = TrapFrame { rip: INIT_ENTRY, cs: SEG_UCODE, rsp: 0, ss: SEG_UDATA };
    let second = TrapFrame { rip: SECOND_ENTRY, cs: SEG_UCODE, rsp: 0, ss: SEG_UDATA };
    let both = tasks.registered(init_ctx, Echo { frame: init }).registered(second_ctx, Echo { frame: second });
    TasksView { tasks: both.tasks, current: Some(tasks.tasks.len() as int), next_id: both.next_id }
}

/// Sets going in `tasks`, with the allocator's answers to the requests for
/// room for the first task and for the second: registers the two tasks, makes
/// the first one current and switches once, from registers that are all zero
/// but for the user segments. Succeeds exactly if room was granted for both,
/// and then gives the registry after the switch and the frame the switch
/// came back with.
pub fn start_in(
    tasks: Tasks<Echo>,
    init_room: Result<(), TryReserveError>,
    second_room: Result<(), TryReserveError>,
    init_ctx: PageCtx,
    second_ctx: PageCtx,
) -> (begun: Result<(Tasks<Echo>, TrapFrame), MemoryExhausted>)
    requires
        tasks.wf(),
        tasks@.next_id < u64::MAX - 1,
    ensures
        begun is Ok <==> init_room is Ok && second_room is Ok,
        match begun {
            Ok((begun_tasks, frame)) => begun_tasks.wf() && switched(
                seeded(tasks@, init_ctx, second_ctx),
                TrapFrame { rip: 0, cs: SEG_UCODE, rsp: 0, ss: SEG_UDATA },
                begun_tasks@,
                frame,
            ),
            Err(_) => true,
        },
{
    let mut tasks = tasks;
    let ghost before = tasks@;
    let init = match tasks.enroll(init_room, init_ctx, Echo::new(TrapFrame::new(INIT_ENTRY, 0x0))) {
        Ok(id) => id,
        Err(exhausted) => {
            return Err(exhausted);
        },
    };
    match tasks.enroll(second_room, second_ctx, Echo::new(TrapFrame::new(SECOND_ENTRY, 0x0))) {
        Ok(_) => {},
        Err(exhausted) => {
            return Err(exhausted);
        },
    }
    let ghost both = tasks@;
    let ghost place = before.tasks.len() as int;
    assert(both.tasks[place].id == init);
    tasks.set_current(init);
    proof {
        let c = tasks@.current.unwrap();
        if c < place {
            assert(both.tasks[c].id.0 < both.tasks[place].id.0);
        }
        if place < c {
            assert(both.tasks[place].id.0 < both.tasks[c].id.0);
        }
        assert(tasks@ == seeded(before, init_ctx, second_ctx));
        assert(tasks@.tasks[place].state.runnable());
    }
    let mut frame = TrapFrame::new(0, 0);
    switch(&mut tasks, &mut frame);
    Ok((tasks, frame))
}

} // verus!
