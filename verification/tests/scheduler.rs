use kernel::interrupt::TrapFrame;
use kernel::page::PageCtx;
use kernel::task::scheduler::{INIT_ENTRY, SECOND_ENTRY};
use kernel::mem::MemoryExhausted;
use kernel::task::{
    dispatch_syscall, start, start_in, switch, Continuation, Echo, StepPoll, TaskId, TaskState, Tasks,
};
use std::collections::TryReserveError;
use std::cell::RefCell;
use std::rc::Rc;

/// What the continuations of a test were shown, in the order they were resumed.
type Journal = Rc<RefCell<Vec<(u64, StepPoll)>>>;

/// Echoes like `Echo`, and notes each resumption in a journal.
struct Noting {
    name: u64,
    frame: TrapFrame,
    journal: Journal,
}

impl Continuation for Noting {
    fn resume(&mut self, arrived: StepPoll) -> TrapFrame {
        self.journal.borrow_mut().push((self.name, arrived));
        if let StepPoll::Ready(frame) = arrived {
            self.frame = frame;
        }
        self.frame
    }
}

fn entry(name: u64) -> TrapFrame {
    TrapFrame::new(0x1_0000_0000 + name * 0x1000, 0)
}

/// `n` tasks with ids 1 to `n` that note their resumptions, none started, the first one current.
fn noting(n: u64) -> (Tasks<Noting>, Journal) {
    let journal: Journal = Rc::new(RefCell::new(Vec::new()));
    let mut tasks = Tasks::new();
    for name in 1..=n {
        let continuation = Noting { name, frame: entry(name), journal: journal.clone() };
        assert_eq!(tasks.create(PageCtx::new(name), continuation), Ok(TaskId(name)));
    }
    assert!(tasks.set_current(TaskId(1)));
    (tasks, journal)
}

fn state<C>(tasks: &Tasks<C>, id: u64) -> TaskState {
    tasks.get(TaskId(id)).unwrap().state()
}

#[test]
fn two_tasks_from_start_to_steady_state() {
    let a = TrapFrame::new(0x1_0000_0000, 0);
    let b = TrapFrame::new(0x1_0000_1000, 0);
    let mut tasks = Tasks::new();
    assert_eq!(tasks.create(PageCtx::new(0xa000), Echo::new(a)), Ok(TaskId(1)));
    assert_eq!(tasks.create(PageCtx::new(0xb000), Echo::new(b)), Ok(TaskId(2)));
    assert!(tasks.set_current(TaskId(1)));
    assert_eq!(state(&tasks, 1), TaskState::Wake);
    assert_eq!(state(&tasks, 2), TaskState::Wake);

    let mut frame = TrapFrame::new(0, 0);
    switch(&mut tasks, &mut frame);
    assert_eq!(state(&tasks, 1), TaskState::User(a));
    assert_eq!(state(&tasks, 2), TaskState::User(b));
    assert_eq!(frame, b);
    assert_ne!(frame, a);
    assert_eq!(tasks.current(), Some(TaskId(2)));

    switch(&mut tasks, &mut frame);
    assert_eq!(frame, a);
    assert_eq!(tasks.current(), Some(TaskId(1)));
    assert_eq!(state(&tasks, 1), TaskState::User(a));
    assert_eq!(state(&tasks, 2), TaskState::User(b));
}

#[test]
fn the_first_switch_starts_every_task_once_and_the_second_none() {
    let (mut tasks, journal) = noting(2);
    let mut frame = TrapFrame::new(0, 0);
    switch(&mut tasks, &mut frame);
    assert_eq!(*journal.borrow(), vec![(2, StepPoll::Pending), (1, StepPoll::Pending)]);
    assert_eq!(frame, entry(2));
    assert_eq!(tasks.current(), Some(TaskId(2)));

    switch(&mut tasks, &mut frame);
    assert_eq!(journal.borrow().len(), 2);
    assert_eq!(frame, entry(1));
    assert_eq!(tasks.current(), Some(TaskId(1)));
}

#[test]
fn start_ends_at_the_second_task() {
    let (tasks, frame) = start(PageCtx::new(0xa000), PageCtx::new(0xb000)).unwrap();
    assert_eq!(INIT_ENTRY, 0x1_0000_0000);
    assert_eq!(SECOND_ENTRY, 0x1_0000_1000);
    assert_eq!(frame, TrapFrame::new(0x1_0000_1000, 0));
    assert_eq!(tasks.len(), 2);
    assert_eq!(tasks.next_id(), 3);
    assert_eq!(tasks.current(), Some(TaskId(2)));
    assert_eq!(state(&tasks, 1), TaskState::User(TrapFrame::new(0x1_0000_0000, 0)));
    assert_eq!(state(&tasks, 2), TaskState::User(TrapFrame::new(0x1_0000_1000, 0)));
    assert_eq!(tasks.get(TaskId(1)).unwrap().page_ctx().root(), 0xa000);
    assert_eq!(tasks.get(TaskId(2)).unwrap().page_ctx().root(), 0xb000);
}

#[test]
fn a_task_in_user_mode_is_resumed_without_running_its_continuation() {
    let (mut tasks, journal) = noting(3);
    let ready = TrapFrame::new(0x5555, 0x6666);
    tasks.set_state(TaskId(2), TaskState::User(ready));
    let mut frame = TrapFrame::new(0, 0);
    switch(&mut tasks, &mut frame);
    assert_eq!(frame, ready);
    assert!(journal.borrow().is_empty());
    assert_eq!(tasks.current(), Some(TaskId(2)));
    assert_eq!(state(&tasks, 1), TaskState::Wake);
    assert_eq!(state(&tasks, 2), TaskState::User(ready));
    assert_eq!(state(&tasks, 3), TaskState::Wake);
}

#[test]
fn the_outgoing_registers_are_saved_with_a_task_in_user_mode() {
    let (mut tasks, _journal) = noting(2);
    tasks.set_state(TaskId(1), TaskState::User(TrapFrame::new(0x10, 0x20)));
    tasks.set_state(TaskId(2), TaskState::User(TrapFrame::new(0x30, 0x40)));
    let mut frame = TrapFrame::new(0x11, 0x22);
    switch(&mut tasks, &mut frame);
    assert_eq!(state(&tasks, 1), TaskState::User(TrapFrame::new(0x11, 0x22)));
    assert_eq!(frame, TrapFrame::new(0x30, 0x40));
    switch(&mut tasks, &mut frame);
    assert_eq!(frame, TrapFrame::new(0x11, 0x22));
    assert_eq!(state(&tasks, 2), TaskState::User(TrapFrame::new(0x30, 0x40)));
}

#[test]
fn a_task_alone_in_user_mode_goes_on_with_the_registers_it_came_with() {
    let (mut tasks, journal) = noting(1);
    tasks.set_state(TaskId(1), TaskState::User(TrapFrame::new(0x10, 0x20)));
    let mut frame = TrapFrame::new(0x11, 0x22);
    switch(&mut tasks, &mut frame);
    assert_eq!(frame, TrapFrame::new(0x11, 0x22));
    assert_eq!(tasks.current(), Some(TaskId(1)));
    assert!(journal.borrow().is_empty());
}

#[test]
fn a_switch_without_a_current_task_begins_at_the_least_id() {
    let journal: Journal = Rc::new(RefCell::new(Vec::new()));
    let mut tasks = Tasks::new();
    for name in 1..=3 {
        let continuation = Noting { name, frame: entry(name), journal: journal.clone() };
        tasks.create(PageCtx::new(name), continuation).unwrap();
    }
    let mut frame = TrapFrame::new(0, 0);
    switch(&mut tasks, &mut frame);
    assert_eq!(
        *journal.borrow(),
        vec![(1, StepPoll::Pending), (2, StepPoll::Pending), (3, StepPoll::Pending)]
    );
    assert_eq!(frame, entry(1));
    assert_eq!(tasks.current(), Some(TaskId(1)));
}

#[test]
fn tasks_in_user_mode_take_turns_in_ascending_order() {
    let (mut tasks, journal) = noting(5);
    for id in 1..=5 {
        tasks.set_state(TaskId(id), TaskState::User(entry(id)));
    }
    assert!(tasks.set_current(TaskId(3)));
    let mut frame = entry(3);
    let mut visited = Vec::new();
    for _ in 0..10 {
        switch(&mut tasks, &mut frame);
        visited.push(tasks.current().unwrap().0);
        assert_eq!(frame, entry(*visited.last().unwrap()));
    }
    assert_eq!(visited, vec![4, 5, 1, 2, 3, 4, 5, 1, 2, 3]);
    assert!(journal.borrow().is_empty());
}

#[test]
fn every_runnable_task_is_visited_before_one_is_visited_again() {
    let (mut tasks, _journal) = noting(6);
    for id in 1..=6 {
        tasks.set_state(TaskId(id), TaskState::User(entry(id)));
    }
    tasks.set_state(TaskId(2), TaskState::Sleep);
    tasks.set_state(TaskId(5), TaskState::Sleep);
    for first in [1u64, 3, 4, 6] {
        assert!(tasks.set_current(TaskId(first)));
        let mut frame = entry(first);
        let mut visited = Vec::new();
        for _ in 0..4 {
            switch(&mut tasks, &mut frame);
            visited.push(tasks.current().unwrap().0);
        }
        let mut sorted = visited.clone();
        sorted.sort();
        assert_eq!(sorted, vec![1, 3, 4, 6]);
        assert_eq!(*visited.last().unwrap(), first);
        let wraps = visited.windows(2).filter(|pair| pair[0] > pair[1]).count();
        assert!(wraps <= 1);
    }
}

#[test]
fn a_sleeping_task_is_never_chosen_nor_run() {
    let (mut tasks, journal) = noting(4);
    tasks.set_state(TaskId(3), TaskState::Sleep);
    let mut frame = TrapFrame::new(0, 0);
    for _ in 0..25 {
        switch(&mut tasks, &mut frame);
        assert_ne!(tasks.current(), Some(TaskId(3)));
        assert_ne!(frame, entry(3));
        assert_eq!(state(&tasks, 3), TaskState::Sleep);
    }
    assert!(journal.borrow().iter().all(|(name, _)| *name != 3));
    assert_eq!(journal.borrow().len(), 3);

    tasks.set_state(TaskId(3), TaskState::Wake);
    let mut seen = false;
    for _ in 0..4 {
        switch(&mut tasks, &mut frame);
        seen = seen || tasks.current() == Some(TaskId(3));
    }
    assert!(seen);
    assert_eq!(state(&tasks, 3), TaskState::User(entry(3)));
}

#[test]
fn a_sleeping_current_task_is_left_asleep() {
    let (mut tasks, journal) = noting(2);
    tasks.set_state(TaskId(1), TaskState::Sleep);
    let mut frame = TrapFrame::new(0x99, 0x98);
    switch(&mut tasks, &mut frame);
    assert_eq!(state(&tasks, 1), TaskState::Sleep);
    assert_eq!(tasks.current(), Some(TaskId(2)));
    assert_eq!(frame, entry(2));
    assert_eq!(*journal.borrow(), vec![(2, StepPoll::Pending)]);
    switch(&mut tasks, &mut frame);
    assert_eq!(tasks.current(), Some(TaskId(2)));
    assert_eq!(state(&tasks, 1), TaskState::Sleep);
}

#[test]
fn a_syscall_frame_reaches_the_continuation_bit_for_bit() {
    let (mut tasks, journal) = noting(2);
    let mut frame = TrapFrame::new(0, 0);
    switch(&mut tasks, &mut frame);
    switch(&mut tasks, &mut frame);
    assert_eq!(tasks.current(), Some(TaskId(1)));
    journal.borrow_mut().clear();

    let arrived = TrapFrame { rip: 0x1_0000_0abc, cs: 0x1b, rsp: 0x7fff_0000, ss: 0x23 };
    tasks.set_state(TaskId(1), TaskState::User(arrived));
    let mut frame = arrived;
    dispatch_syscall(&mut tasks, &mut frame);
    assert_eq!(state(&tasks, 1), TaskState::Entry(arrived));
    assert_eq!(frame, entry(2));
    assert_eq!(tasks.current(), Some(TaskId(2)));
    assert!(journal.borrow().is_empty());

    switch(&mut tasks, &mut frame);
    assert_eq!(*journal.borrow(), vec![(1, StepPoll::Ready(arrived))]);
    assert_eq!(state(&tasks, 1), TaskState::User(arrived));
    assert_eq!(tasks.current(), Some(TaskId(2)));
}

#[test]
fn a_syscall_of_the_only_task_is_taken_in_the_same_switch() {
    let (mut tasks, journal) = noting(1);
    let mut frame = TrapFrame::new(0, 0);
    switch(&mut tasks, &mut frame);
    assert_eq!(frame, entry(1));
    journal.borrow_mut().clear();

    let mut frame = TrapFrame::new(0x1_0000_1234, 0x8000);
    dispatch_syscall(&mut tasks, &mut frame);
    assert_eq!(*journal.borrow(), vec![(1, StepPoll::Ready(TrapFrame::new(0x1_0000_1234, 0x8000)))]);
    assert_eq!(frame, TrapFrame::new(0x1_0000_1234, 0x8000));
    assert_eq!(state(&tasks, 1), TaskState::User(TrapFrame::new(0x1_0000_1234, 0x8000)));
}

#[test]
fn the_state_after_delivery_is_what_the_continuation_asks_for() {
    struct Advancing;
    impl Continuation for Advancing {
        fn resume(&mut self, arrived: StepPoll) -> TrapFrame {
            match arrived {
                StepPoll::Ready(frame) => TrapFrame::new(frame.rip + 2, frame.rsp),
                StepPoll::Pending => TrapFrame::new(0x4000, 0x9000),
            }
        }
    }
    let mut tasks = Tasks::new();
    tasks.create(PageCtx::new(1), Advancing).unwrap();
    let mut frame = TrapFrame::new(0, 0);
    switch(&mut tasks, &mut frame);
    assert_eq!(frame, TrapFrame::new(0x4000, 0x9000));
    frame.rip = 0x4010;
    dispatch_syscall(&mut tasks, &mut frame);
    assert_eq!(frame, TrapFrame::new(0x4012, 0x9000));
    assert_eq!(state(&tasks, 1), TaskState::User(TrapFrame::new(0x4012, 0x9000)));
}

#[test]
fn a_waiting_frame_is_kept_until_the_ring_comes_round() {
    let (mut tasks, journal) = noting(3);
    let waiting = TrapFrame::new(0xaaaa, 0xbbbb);
    tasks.set_state(TaskId(1), TaskState::Entry(waiting));
    tasks.set_state(TaskId(2), TaskState::User(entry(2)));
    tasks.set_state(TaskId(3), TaskState::User(entry(3)));
    let mut frame = TrapFrame::new(0, 0);
    switch(&mut tasks, &mut frame);
    assert_eq!(tasks.current(), Some(TaskId(2)));
    assert_eq!(state(&tasks, 1), TaskState::Entry(waiting));
    switch(&mut tasks, &mut frame);
    assert_eq!(tasks.current(), Some(TaskId(3)));
    assert_eq!(state(&tasks, 1), TaskState::Entry(waiting));
    assert!(journal.borrow().is_empty());
    switch(&mut tasks, &mut frame);
    assert_eq!(*journal.borrow(), vec![(1, StepPoll::Ready(waiting))]);
    assert_eq!(state(&tasks, 1), TaskState::User(waiting));
    assert_eq!(tasks.current(), Some(TaskId(2)));
    assert_eq!(frame, entry(2));
}

#[test]
fn kernel_work_is_done_on_the_way_to_the_first_task_in_user_mode() {
    let (mut tasks, journal) = noting(5);
    tasks.set_state(TaskId(2), TaskState::Sleep);
    tasks.set_state(TaskId(4), TaskState::User(entry(4)));
    let mut frame = TrapFrame::new(0, 0);
    switch(&mut tasks, &mut frame);
    assert_eq!(*journal.borrow(), vec![(3, StepPoll::Pending)]);
    assert_eq!(frame, entry(4));
    assert_eq!(tasks.current(), Some(TaskId(4)));
    assert_eq!(state(&tasks, 1), TaskState::Wake);
    assert_eq!(state(&tasks, 2), TaskState::Sleep);
    assert_eq!(state(&tasks, 3), TaskState::User(entry(3)));
    assert_eq!(state(&tasks, 5), TaskState::Wake);
}

fn no_room() -> Result<(), TryReserveError> {
    Vec::<u64>::new().try_reserve(usize::MAX)
}

#[test]
fn starting_with_room_for_both_tasks_succeeds() {
    let (tasks, frame) =
        start_in(Tasks::new(), Ok(()), Ok(()), PageCtx::new(0xa000), PageCtx::new(0xb000)).unwrap();
    assert_eq!(frame, TrapFrame::new(0x1_0000_1000, 0));
    assert_eq!(tasks.len(), 2);
    assert_eq!(tasks.current(), Some(TaskId(2)));
    assert_eq!(state(&tasks, 1), TaskState::User(TrapFrame::new(0x1_0000_0000, 0)));
    assert_eq!(state(&tasks, 2), TaskState::User(TrapFrame::new(0x1_0000_1000, 0)));
}

#[test]
fn starting_without_room_for_a_task_fails() {
    let context = || (PageCtx::new(0xa000), PageCtx::new(0xb000));
    let (a, b) = context();
    assert_eq!(start_in(Tasks::new(), no_room(), Ok(()), a, b).err(), Some(MemoryExhausted));
    let (a, b) = context();
    assert_eq!(start_in(Tasks::new(), Ok(()), no_room(), a, b).err(), Some(MemoryExhausted));
    let (a, b) = context();
    assert_eq!(start_in(Tasks::new(), no_room(), no_room(), a, b).err(), Some(MemoryExhausted));
}

#[test]
fn starting_in_a_registry_in_use_begins_at_the_new_tasks() {
    let mut tasks = Tasks::new();
    tasks.create(PageCtx::new(1), Echo::new(TrapFrame::new(0x7000, 0))).unwrap();
    let (tasks, frame) = start_in(tasks, Ok(()), Ok(()), PageCtx::new(2), PageCtx::new(3)).unwrap();
    assert_eq!(tasks.len(), 3);
    assert_eq!(tasks.next_id(), 4);
    assert_eq!(frame, TrapFrame::new(0x1_0000_1000, 0));
    assert_eq!(tasks.current(), Some(TaskId(3)));
    assert_eq!(state(&tasks, 1), TaskState::User(TrapFrame::new(0x7000, 0)));
    assert_eq!(state(&tasks, 2), TaskState::User(TrapFrame::new(0x1_0000_0000, 0)));
    assert_eq!(state(&tasks, 3), TaskState::User(TrapFrame::new(0x1_0000_1000, 0)));
}
