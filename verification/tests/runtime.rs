use coop_runtime::executor::Executor;
use coop_runtime::executor::RunError;
use coop_runtime::future::handle_future;
use coop_runtime::future::join;
use coop_runtime::future::panic_future;
use coop_runtime::future::ready_future;
use coop_runtime::future::select;
use coop_runtime::future::sleep;
use coop_runtime::future::Fut;
use coop_runtime::future::JoinHandle;
use coop_runtime::future::PollOut;
use coop_runtime::future::TaskState;
use coop_runtime::future::Waker;

#[test]
fn join_of_ready_futures_resolves_on_first_poll() {
    let mut ex = Executor::new();
    let f = join(vec![ready_future(10), ready_future(20), ready_future(30)]);
    let r = ex.block_on(f, 100);
    assert_eq!(r, Ok(vec![10, 20, 30]));
    // Everything was ready at once: the clock never moved.
    assert_eq!(ex.now, 0);
}

#[test]
fn join_of_many_ready_futures_keeps_argument_order() {
    let mut ex = Executor::new();
    let mut children = Vec::new();
    for v in 0..50u64 {
        children.push(ready_future(v));
    }
    let r = ex.block_on(join(children), 100);
    let expected: Vec<u64> = (0..50u64).collect();
    assert_eq!(r, Ok(expected));
}

#[test]
fn select_resolves_with_earlier_sleep_and_cancels_loser() {
    let mut ex = Executor::new();
    let f = select(vec![sleep(10), sleep(20)]);
    let r = ex.block_on(f, 100);
    // Tag 0: the first argument won; a sleep yields no values.
    assert_eq!(r, Ok(vec![0]));
    // The clock stopped at the earlier deadline ...
    assert_eq!(ex.now, 10);
    // ... and the loser's registration is gone: no later spurious wake-up.
    assert_eq!(ex.timers.len(), 0);
    assert_eq!(ex.ready.len(), 0);
}

#[test]
fn equal_deadlines_fire_in_insertion_order() {
    let mut ex = Executor::new();
    let a = ex.spawn(sleep(5));
    let b = ex.spawn(sleep(5));
    // Arm both timers: each task polls its sleep once and suspends.
    ex.step();
    ex.step();
    assert!(matches!(ex.statuses[a.task], TaskState::Suspended));
    assert!(matches!(ex.statuses[b.task], TaskState::Suspended));
    assert_eq!(ex.timers.len(), 2);
    // Both deadlines are due at once; insertion order breaks the tie.
    ex.advance_clock();
    assert_eq!(ex.now, 5);
    assert_eq!(ex.ready, vec![a.task, b.task]);
}

#[test]
fn dropping_a_join_handle_does_not_cancel_the_task() {
    let mut ex = Executor::new();
    let h = ex.spawn(ready_future(7));
    let spawned = h.task;
    drop(h);
    let r = ex.block_on(ready_future(0), 100);
    assert_eq!(r, Ok(vec![0]));
    match &ex.statuses[spawned] {
        TaskState::Completed(v) => assert_eq!(v, &vec![7]),
        other => panic!("spawned task did not complete: {:?}", other),
    }
}

#[test]
fn panic_in_join_child_propagates_without_polling_later_siblings() {
    let mut ex = Executor::new();
    let f = join(vec![ready_future(1), panic_future(42), sleep(100)]);
    let r = ex.block_on(f, 100);
    assert_eq!(r, Err(RunError::Panicked(42)));
    // The sleep after the failing child was never polled: nothing was armed.
    assert_eq!(ex.timers.len(), 0);
    match &ex.futs[0] {
        Fut::Join { children, slots, done } => {
            assert!(*done);
            assert!(matches!(children[2], Fut::Sleep { armed: false, .. }));
            assert!(slots[2].is_none());
        },
        other => panic!("root future has the wrong shape: {:?}", other),
    }
}

#[test]
fn concurrent_sleeps_take_the_maximum_not_the_sum() {
    let mut ex = Executor::new();
    let background = ex.spawn(sleep(1000));
    let r = ex.block_on(join(vec![sleep(700), sleep(1000)]), 100);
    assert_eq!(r, Ok(vec![]));
    // All three timers overlapped: total logical time is the maximum.
    assert_eq!(ex.now, 1000);
    assert!(matches!(ex.statuses[background.task], TaskState::Completed(_)));
}

#[test]
fn repolling_a_resolved_future_is_rejected() {
    let mut ex = Executor::new();
    let _anchor = ex.spawn(ready_future(0));
    let w = Waker { task: 0 };
    let (f2, r1) = ex.poll(ready_future(5), w);
    match r1 {
        PollOut::Ready(v) => assert_eq!(v, vec![5]),
        other => panic!("first poll did not resolve: {:?}", other),
    }
    let (f3, r2) = ex.poll(f2, w);
    assert!(matches!(r2, PollOut::AlreadyDone));
    // No stale value came back, and the future is still resolved.
    let (_f4, r3) = ex.poll(f3, w);
    assert!(matches!(r3, PollOut::AlreadyDone));
}

#[test]
fn awaiting_a_handle_yields_the_tagged_outcome() {
    let mut ex = Executor::new();
    let h = ex.spawn(ready_future(3));
    let r = ex.block_on(handle_future(h), 100);
    assert_eq!(r, Ok(vec![coop_runtime::future::OUTCOME_OK, 3]));
}

#[test]
fn awaiting_a_panicked_task_surfaces_the_outcome_without_panicking() {
    let mut ex = Executor::new();
    let h = ex.spawn(panic_future(9));
    let r = ex.block_on(handle_future(h), 100);
    assert_eq!(r, Ok(vec![coop_runtime::future::OUTCOME_PANICKED, 9]));
}

#[test]
fn panicking_child_wins_a_select() {
    let mut ex = Executor::new();
    let r = ex.block_on(select(vec![sleep(50), panic_future(13)]), 100);
    assert_eq!(r, Err(RunError::Panicked(13)));
    // The losing sleep was cancelled with the select.
    assert_eq!(ex.timers.len(), 0);
}

#[test]
fn a_task_awaiting_itself_stalls() {
    let mut ex = Executor::new();
    let root = JoinHandle { task: ex.statuses.len() };
    let r = ex.block_on(handle_future(root), 100);
    assert_eq!(r, Err(RunError::Stalled));
    assert_eq!(ex.ready.len(), 0);
    assert_eq!(ex.timers.len(), 0);
}

#[test]
fn duplicate_wakeups_are_idempotent() {
    let mut ex = Executor::new();
    let h = ex.spawn(sleep(30));
    ex.step();
    assert!(matches!(ex.statuses[h.task], TaskState::Suspended));
    ex.wake(Waker { task: h.task });
    ex.wake(Waker { task: h.task });
    assert_eq!(ex.ready, vec![h.task]);
}

#[test]
fn nested_combinators_resolve() {
    let mut ex = Executor::new();
    let inner = join(vec![ready_future(4), sleep(10)]);
    let r = ex.block_on(join(vec![inner, ready_future(6)]), 100);
    assert_eq!(r, Ok(vec![4, 6]));
    assert_eq!(ex.now, 10);
}

#[test]
fn cancelling_an_armed_sleep_removes_its_registration() {
    let mut ex = Executor::new();
    let _anchor = ex.spawn(ready_future(0));
    let w = Waker { task: 0 };
    let (armed, r) = ex.poll(sleep(9), w);
    assert!(matches!(r, PollOut::Pending));
    assert_eq!(ex.timers.len(), 1);
    ex.cancel(armed, w);
    assert_eq!(ex.timers.len(), 0);
}

#[test]
fn a_zero_round_budget_reports_out_of_rounds() {
    let mut ex = Executor::new();
    let r = ex.block_on(sleep(5), 0);
    assert_eq!(r, Err(RunError::OutOfRounds));
    // Work was still pending: the task never ran.
    assert_eq!(ex.ready, vec![0]);
    assert!(matches!(ex.statuses[0], TaskState::Runnable));
}
