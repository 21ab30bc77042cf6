//! What holds of the registry and the switch, whatever the tasks do.

use vstd::prelude::*;
use crate::interrupt::TrapFrame;
use crate::page::PageCtx;
use crate::task::model::{advanced, driven, follows, lands, passed, ring_distance, switched, TaskView, TasksView};
use crate::task::{Continuation, StepPoll, TaskId, TaskState};

verus! {

/// Ids ascend strictly along `tasks`.
pub open spec fn ids_ascend<C>(tasks: Seq<TaskView<C>>) -> bool {
    forall|i: int, j: int|
        0 <= i < j < tasks.len() ==> (#[trigger] tasks[i]).id.0 < (#[trigger] tasks[j]).id.0
}

/// One attempt to register a task took the registry from `before` to `after`,
/// whether it added the task or found no memory for it.
pub open spec fn registration<C>(before: TasksView<C>, after: TasksView<C>) -> bool {
    ||| after == before.declined()
    ||| exists|page_ctx: PageCtx, continuation: C| after == before.registered(page_ctx, continuation)
}

/// A registration keeps the registry in order, and the id it gives its task
/// is above every id in use.
pub proof fn lemma_registered_id_is_fresh<C>(before: TasksView<C>, page_ctx: PageCtx, continuation: C)
    requires
        before.wf(),
        before.next_id < u64::MAX,
    ensures
        before.registered(page_ctx, continuation).wf(),
        before.declined().wf(),
        forall|i: int| 0 <= i < before.tasks.len() ==> (#[trigger] before.tasks[i]).id.0 < before.next_id,
        before.registered(page_ctx, continuation).tasks.last().id == TaskId(before.next_id),
{
}

/// Registration uniqueness: along any run of registration attempts, each
/// draws a greater id than every attempt before it, failed ones included. The
/// attempt made on `run[k]` draws the id `run[k].next_id`.
pub proof fn lemma_ids_never_reused<C>(run: Seq<TasksView<C>>, k: int, l: int)
    requires
        forall|i: int, j: int|
            0 <= i && j == i + 1 && j < run.len() ==> #[trigger] registration(run[i], run[j]),
        forall|i: int| 0 <= i < run.len() - 1 ==> (#[trigger] run[i]).next_id < u64::MAX,
        0 <= k < l < run.len(),
    ensures
        run[k].next_id < run[l].next_id,
    decreases l - k,
{
    assert(registration(run[l - 1], run[l]));
    if k < l - 1 {
        lemma_ids_never_reused(run, k, l - 1);
    }
}

/// The scheduler's pick is unique.
pub proof fn lemma_follows_is_unique<C>(tasks: Seq<TaskView<C>>, prev: TaskId, i: int, j: int)
    requires
        ids_ascend(tasks),
        follows(tasks, prev, i),
        follows(tasks, prev, j),
    ensures
        i == j,
{
    if i < j {
        assert(tasks[i].id.0 < tasks[j].id.0);
    }
    if j < i {
        assert(tasks[j].id.0 < tasks[i].id.0);
    }
}

/// The pick in the words of ids: the task with the least id above `prev`
/// among those not asleep or, when no such task has an id above `prev`, the
/// one with the least id of all.
pub proof fn lemma_follows_least_above_or_least<C>(tasks: Seq<TaskView<C>>, prev: TaskId, i: int)
    requires
        0 <= i < tasks.len(),
        tasks[i].state.runnable(),
    ensures
        follows(tasks, prev, i) <==> if exists|j: int|
            0 <= j < tasks.len() && (#[trigger] tasks[j]).state.runnable() && tasks[j].id.0 > prev.0 {
            &&& tasks[i].id.0 > prev.0
            &&& forall|j: int|
                0 <= j < tasks.len() && (#[trigger] tasks[j]).state.runnable() && tasks[j].id.0 > prev.0
                    ==> tasks[i].id.0 <= tasks[j].id.0
        } else {
            forall|j: int|
                0 <= j < tasks.len() && (#[trigger] tasks[j]).state.runnable() ==> tasks[i].id.0
                    <= tasks[j].id.0
        },
{
    if exists|j: int| 0 <= j < tasks.len() && (#[trigger] tasks[j]).state.runnable() && tasks[j].id.0 > prev.0 {
        let above = choose|j: int|
            0 <= j < tasks.len() && (#[trigger] tasks[j]).state.runnable() && tasks[j].id.0 > prev.0;
        if follows(tasks, prev, i) {
            assert(ring_distance(prev, tasks[i].id) <= ring_distance(prev, tasks[above].id));
        }
    }
}

/// `order` lists the places of the tasks that are not asleep, in ascending order.
pub open spec fn lists_runnable<C>(tasks: Seq<TaskView<C>>, order: Seq<int>) -> bool {
    &&& forall|k: int| 0 <= k < order.len() ==> 0 <= #[trigger] order[k] < tasks.len() && tasks[order[k]].state.runnable()
    &&& forall|k: int, l: int| 0 <= k < l < order.len() ==> #[trigger] order[k] < #[trigger] order[l]
    &&& forall|i: int|
        0 <= i < tasks.len() && (#[trigger] tasks[i]).state.runnable() ==> exists|k: int|
            0 <= k < order.len() && #[trigger] order[k] == i
}

/// Round robin, one step: after the `k`-th of the tasks that are not asleep
/// the scheduler picks the next of them in ascending id order, and after the
/// last of them the first.
pub proof fn lemma_round_robin_step<C>(tasks: Seq<TaskView<C>>, order: Seq<int>, k: int)
    requires
        ids_ascend(tasks),
        lists_runnable(tasks, order),
        0 <= k < order.len(),
    ensures
        follows(tasks, tasks[order[k]].id, order[if k + 1 < order.len() { k + 1 } else { 0 }]),
{
    let n = order.len() as int;
    let here = order[k];
    let next = order[if k + 1 < n { k + 1 } else { 0 }];
    let prev = tasks[here].id;
    assert forall|j: int| 0 <= j < tasks.len() && (#[trigger] tasks[j]).state.runnable() implies ring_distance(
        prev,
        tasks[next].id,
    ) <= ring_distance(prev, tasks[j].id) by {
        let m = choose|m: int| 0 <= m < n && #[trigger] order[m] == j;
        lemma_ascending(tasks, order, m, k);
        lemma_ascending(tasks, order, k, m);
        if k + 1 < n {
            lemma_ascending(tasks, order, k, k + 1);
            lemma_ascending(tasks, order, k + 1, m);
        } else {
            lemma_ascending(tasks, order, 0, m);
            lemma_ascending(tasks, order, 0, k);
        }
    }
}

/// Along `order`, places and ids ascend together.
proof fn lemma_ascending<C>(tasks: Seq<TaskView<C>>, order: Seq<int>, k: int, l: int)
    requires
        ids_ascend(tasks),
        lists_runnable(tasks, order),
        0 <= k < order.len(),
        0 <= l < order.len(),
    ensures
        k < l ==> order[k] < order[l] && tasks[order[k]].id.0 < tasks[order[l]].id.0,
        k == l ==> order[k] == order[l],
{
}

/// Round robin, the whole round: a walk that begins at the `k`-th of the `n`
/// tasks that are not asleep, and in which each task is the scheduler's pick
/// after the one before, is at the `(k + m) % n`-th of them after `m` picks.
/// So it visits all `n` in ascending id order, wrapping once, before it
/// visits one of them again.
pub proof fn lemma_round_robin<C>(tasks: Seq<TaskView<C>>, order: Seq<int>, k: int, walk: Seq<int>, m: int)
    requires
        ids_ascend(tasks),
        lists_runnable(tasks, order),
        0 <= k < order.len(),
        walk.len() > 0,
        walk[0] == order[k],
        forall|a: int| 0 <= a < walk.len() ==> 0 <= #[trigger] walk[a] < tasks.len(),
        forall|a: int, b: int|
            0 <= a && b == a + 1 && b < walk.len() ==> #[trigger] follows(tasks, tasks[walk[a]].id, walk[b]),
        0 <= m < walk.len(),
    ensures
        walk[m] == order[(k + m) % (order.len() as int)],
    decreases m,
{
    let n = order.len() as int;
    if m == 0 {
        assert(k % n == k) by (nonlinear_arith)
            requires
                0 <= k < n,
        ;
    } else {
        lemma_round_robin(tasks, order, k, walk, m - 1);
        let at = (k + m - 1) % n;
        assert(0 <= at < n && (k + m) % n == if at + 1 < n {
            at + 1
        } else {
            0
        }) by {
            lemma_mod_step(k + m - 1, n);
        }
        lemma_round_robin_step(tasks, order, at);
        assert(follows(tasks, tasks[walk[m - 1]].id, walk[m]));
        lemma_follows_is_unique(tasks, tasks[order[at]].id, walk[m], order[if at + 1 < n { at + 1 } else { 0 }]);
    }
}

/// Counting on by one modulo `n`.
proof fn lemma_mod_step(x: int, n: int)
    requires
        0 <= x,
        0 < n,
    ensures
        0 <= x % n < n,
        (x + 1) % n == if x % n + 1 < n {
            x % n + 1
        } else {
            0
        },
{
    vstd::arithmetic::div_mod::lemma_fundamental_div_mod(x, n);
    vstd::arithmetic::div_mod::lemma_mod_bound(x, n);
    let q = x / n;
    let r = x % n;
    if r + 1 < n {
        assert(x + 1 == q * n + (r + 1)) by (nonlinear_arith)
            requires
                x == n * q + r,
        ;
        vstd::arithmetic::div_mod::lemma_fundamental_div_mod_converse(x + 1, n, q, r + 1);
    } else {
        assert(x + 1 == (q + 1) * n + 0) by (nonlinear_arith)
            requires
                x == n * q + r,
                r + 1 == n,
        ;
        vstd::arithmetic::div_mod::lemma_fundamental_div_mod_converse(x + 1, n, q + 1, 0);
    }
}

/// Sleep exclusion: a switch leaves a task that is asleep exactly as it was,
/// its continuation included, and does not make it the current task.
pub proof fn lemma_sleeper_is_passed_over<C: Continuation>(
    pre: TasksView<C>,
    arrived: TrapFrame,
    post: TasksView<C>,
    resumed: TrapFrame,
    i: int,
)
    requires
        pre.wf(),
        switched(pre, arrived, post, resumed),
        0 <= i < pre.tasks.len(),
        pre.tasks[i].state is Sleep,
    ensures
        !driven(pre.saved(arrived).tasks, pre.previous_id(), i),
        post.tasks[i] == pre.tasks[i],
        post.current != Some(i),
{
    let saved = pre.saved(arrived);
    assert(saved.tasks[i] == pre.tasks[i]);
    assert(!driven(saved.tasks, pre.previous_id(), i));
    assert(post.tasks[i] == saved.tasks[i]);
}

/// Direct resume: when the task the scheduler picks first is in user mode
/// with `frame`, the pass ends there at once. It comes back with `frame`, the
/// task is current, and no continuation was advanced: every task is as it was.
pub proof fn lemma_direct_resume<C: Continuation>(
    pre: TasksView<C>,
    prev: TaskId,
    post: TasksView<C>,
    resumed: TrapFrame,
    c: int,
    frame: TrapFrame,
)
    requires
        pre.wf(),
        follows(pre.tasks, prev, c),
        pre.tasks[c].state == TaskState::User(frame),
        passed(pre, prev, post, resumed),
    ensures
        forall|i: int| 0 <= i < pre.tasks.len() ==> !driven(pre.tasks, prev, i),
        post.tasks == pre.tasks,
        post.current == Some(c),
        resumed == frame,
{
    assert forall|i: int| 0 <= i < pre.tasks.len() implies !driven(pre.tasks, prev, i) by {
        if pre.tasks[i].state.kernel_work() {
            assert(pre.tasks[i].state.runnable());
        }
    }
    assert forall|i: int| 0 <= i < pre.tasks.len() implies post.tasks[i] == pre.tasks[i] by {
        assert(!driven(pre.tasks, prev, i));
    }
    assert(post.tasks =~= pre.tasks);
    let landed = post.current.unwrap();
    assert(lands(pre.tasks, prev, landed));
    assert(pre.tasks[landed].state is User);
    assert(pre.tasks[landed].state.runnable());
    assert(ring_distance(prev, pre.tasks[landed].id) == ring_distance(prev, pre.tasks[c].id));
    if landed < c {
        assert(pre.tasks[landed].id.0 < pre.tasks[c].id.0);
    }
    if c < landed {
        assert(pre.tasks[c].id.0 < pre.tasks[landed].id.0);
    }
}

/// Entry delivery: a frame that waits with a task is what the task's
/// continuation is shown when it is next resumed. After a pass, a task that
/// held `frame` for its continuation either holds it still, untouched, or its
/// continuation was resumed once with exactly `frame`, and the task is in
/// user mode with the frame the continuation then asked for.
pub proof fn lemma_waiting_frame_is_delivered<C: Continuation>(
    pre: TasksView<C>,
    prev: TaskId,
    post: TasksView<C>,
    resumed: TrapFrame,
    i: int,
    frame: TrapFrame,
)
    requires
        passed(pre, prev, post, resumed),
        0 <= i < pre.tasks.len(),
        pre.tasks[i].state == TaskState::Entry(frame),
    ensures
        post.tasks[i] == pre.tasks[i] || (post.tasks[i].state matches TaskState::User(next)
            && pre.tasks[i].continuation.resumes(StepPoll::Ready(frame), post.tasks[i].continuation, next)),
{
    if driven(pre.tasks, prev, i) {
        assert(advanced(pre.tasks[i], post.tasks[i]));
    } else {
        assert(post.tasks[i] == pre.tasks[i]);
    }
}

/// Entry delivery, from the syscall on: when a syscall arrives with the
/// frame `frame` that the current task is in user mode with, the task holds
/// exactly `frame` for its continuation, and after the switch that follows it
/// either still does, or its continuation was resumed with exactly `frame`
/// and the task is in user mode with the frame the continuation asked for.
pub proof fn lemma_syscall_frame_is_delivered<C: Continuation>(
    pre: TasksView<C>,
    frame: TrapFrame,
    post: TasksView<C>,
    resumed: TrapFrame,
)
    requires
        pre.wf(),
        pre.current matches Some(c) && pre.tasks[c].state == TaskState::User(frame),
        switched(pre.recorded(frame), frame, post, resumed),
    ensures
        pre.recorded(frame).tasks[pre.current.unwrap()].state == TaskState::Entry(frame),
        post.tasks[pre.current.unwrap()] == pre.tasks[pre.current.unwrap()].with_state(TaskState::Entry(frame))
            || (post.tasks[pre.current.unwrap()].state matches TaskState::User(next)
            && pre.tasks[pre.current.unwrap()].continuation.resumes(
            StepPoll::Ready(frame),
            post.tasks[pre.current.unwrap()].continuation,
            next,
        )),
{
    let c = pre.current.unwrap();
    let recorded = pre.recorded(frame);
    assert(recorded.saved(frame) == recorded);
    lemma_waiting_frame_is_delivered(recorded, recorded.previous_id(), post, resumed, c, frame);
}

/// A pass goes by a stretch of the ring and skips nothing in it: of the
/// tasks that are not asleep, those no farther from `prev` than the task the
/// pass ended at are the ones it advanced, and that task itself; a task
/// beyond was advanced only if no task was in user mode, when the pass goes
/// all the way round.
pub proof fn lemma_pass_visits_a_stretch<C: Continuation>(
    pre: TasksView<C>,
    prev: TaskId,
    post: TasksView<C>,
    resumed: TrapFrame,
    i: int,
)
    requires
        pre.wf(),
        passed(pre, prev, post, resumed),
        0 <= i < pre.tasks.len(),
        pre.tasks[i].state.runnable(),
    ensures
        ring_distance(prev, pre.tasks[i].id) <= ring_distance(prev, pre.tasks[post.current.unwrap()].id)
            ==> driven(pre.tasks, prev, i) || post.current == Some(i),
        driven(pre.tasks, prev, i) && ring_distance(prev, pre.tasks[i].id) >= ring_distance(
            prev,
            pre.tasks[post.current.unwrap()].id,
        ) ==> forall|j: int| 0 <= j < pre.tasks.len() ==> !((#[trigger] pre.tasks[j]).state is User),
{
    let c = post.current.unwrap();
    assert(lands(pre.tasks, prev, c));
    if exists|j: int| 0 <= j < pre.tasks.len() && (#[trigger] pre.tasks[j]).state is User {
        assert(pre.tasks[c].state is User);
        if ring_distance(prev, pre.tasks[i].id) <= ring_distance(prev, pre.tasks[c].id) && i != c {
            if i < c {
                assert(pre.tasks[i].id.0 < pre.tasks[c].id.0);
            }
            if c < i {
                assert(pre.tasks[c].id.0 < pre.tasks[i].id.0);
            }
            assert(ring_distance(prev, pre.tasks[i].id) < ring_distance(prev, pre.tasks[c].id));
            assert forall|j: int| 0 <= j < pre.tasks.len() && (#[trigger] pre.tasks[j]).state is User implies ring_distance(
                prev,
                pre.tasks[i].id,
            ) < ring_distance(prev, pre.tasks[j].id) by {}
            assert(!(pre.tasks[i].state is User));
            assert(driven(pre.tasks, prev, i));
        }
    } else {
        assert(pre.tasks[i].state.kernel_work());
        assert(driven(pre.tasks, prev, i));
    }
}

/// Round robin, switch by switch: while every task that is not asleep is in
/// user mode, a switch advances no continuation and makes current the task
/// the scheduler picks after the one that was current, so that repeated
/// switches go round the ring as `lemma_round_robin` says.
pub proof fn lemma_switch_takes_the_next<C: Continuation>(
    pre: TasksView<C>,
    arrived: TrapFrame,
    post: TasksView<C>,
    resumed: TrapFrame,
)
    requires
        pre.wf(),
        switched(pre, arrived, post, resumed),
        forall|i: int|
            0 <= i < pre.tasks.len() && (#[trigger] pre.tasks[i]).state.runnable() ==> pre.tasks[i].state is User,
    ensures
        post.tasks == pre.saved(arrived).tasks,
        post.current matches Some(c) && follows(pre.tasks, pre.previous_id(), c) && post.tasks[c].state
            == TaskState::User(resumed),
{
    let saved = pre.saved(arrived);
    let prev = pre.previous_id();
    let c = post.current.unwrap();
    assert forall|i: int| 0 <= i < pre.tasks.len() implies (#[trigger] saved.tasks[i]).id == pre.tasks[i].id
        && saved.tasks[i].state.runnable() == pre.tasks[i].state.runnable() && (saved.tasks[i].state is User
        == pre.tasks[i].state is User) by {}
    assert(lands(saved.tasks, prev, c));
    assert(saved.tasks[c].state.runnable());
    assert(saved.tasks[c].state is User);
    assert forall|j: int| 0 <= j < saved.tasks.len() && (#[trigger] saved.tasks[j]).state.runnable() implies ring_distance(
        prev,
        saved.tasks[c].id,
    ) <= ring_distance(prev, saved.tasks[j].id) by {
        assert(pre.tasks[j].state.runnable());
        assert(saved.tasks[j].state is User);
    }
    assert(follows(saved.tasks, prev, c));
    assert forall|j: int| 0 <= j < pre.tasks.len() && (#[trigger] pre.tasks[j]).state.runnable() implies ring_distance(
        prev,
        pre.tasks[c].id,
    ) <= ring_distance(prev, pre.tasks[j].id) by {
        assert(saved.tasks[j].state.runnable());
    }
    assert(follows(pre.tasks, prev, c));
    match saved.tasks[c].state {
        TaskState::User(frame) => {
            lemma_saved_is_wf(pre, arrived);
            lemma_direct_resume(saved, prev, post, resumed, c, frame);
        },
        _ => {},
    }
}

/// Saving the outgoing registers keeps the registry in order.
pub proof fn lemma_saved_is_wf<C>(pre: TasksView<C>, frame: TrapFrame)
    requires
        pre.wf(),
    ensures
        pre.saved(frame).wf(),
{
}

} // verus!
