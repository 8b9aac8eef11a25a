//! Futures as explicit poll state machines.
//!
//! A future is a value that is advanced by repeated polling until it
//! resolves.  Resolution yields a sequence of `u64` result values: an
//! immediately-ready future yields its single value, a timer yields nothing,
//! a join yields the concatenation of its children's values in argument
//! order, a select yields the winning child's index followed by that child's
//! values, and awaiting a spawned task yields a tag (`OUTCOME_OK` or
//! `OUTCOME_PANICKED`) followed by the task's stored outcome.

use vstd::prelude::*;

verus! {

/// Tag prefixed to a join handle's values when the awaited task completed.
pub const OUTCOME_OK: u64 = 1;

/// Tag prefixed to a join handle's values when the awaited task panicked.
pub const OUTCOME_PANICKED: u64 = 0;

/// The capability to mark one task runnable again.
#[derive(Clone, Copy, PartialEq, Eq, Structural, Debug)]
pub struct Waker {
    pub task: usize,
}

/// A pending wake-up registered with the timer registry.
#[derive(Clone, Copy, PartialEq, Eq, Structural, Debug)]
pub struct TimerEntry {
    pub deadline: u64,
    pub waker: Waker,
}

/// A pending wake-up registered by a future awaiting task `task`.
#[derive(Clone, Copy, PartialEq, Eq, Structural, Debug)]
pub struct WaitEntry {
    pub task: usize,
    pub waker: Waker,
}

/// Scheduling state of one executor-owned task.
#[derive(Debug)]
pub enum TaskState {
    Runnable,
    Suspended,
    Completed(Vec<u64>),
    Panicked(u64),
}

/// A suspendable computation, written as an explicit state machine.
#[derive(Debug)]
pub enum Fut {
    /// Ready on its first poll, yielding one value.
    Instant { value: u64, done: bool },
    /// Models a computation that fails fatally when first polled.
    Panics { reason: u64, done: bool },
    /// Pending until `dur` ticks have elapsed from the first poll.
    Sleep { dur: u64, armed: bool, deadline: u64, done: bool },
    /// Waits for every child; yields all their values in argument order.
    Join { children: Vec<Fut>, slots: Vec<Option<Vec<u64>>>, done: bool },
    /// Waits for the first child to settle; the rest are cancelled.
    Select { children: Vec<Fut>, done: bool },
    /// Waits for a spawned task and yields its tagged outcome.
    AwaitHandle { task: usize, armed: bool, done: bool },
}

/// What one poll of a future reports.
#[derive(Debug)]
pub enum PollOut {
    Pending,
    Ready(Vec<u64>),
    Panicked(u64),
    /// Rejection of a poll on an already-resolved future.
    AlreadyDone,
}

/// Spec-level mirror of `PollOut`.
pub ghost enum FutOut {
    Pending,
    Ready(Seq<u64>),
    Panicked(u64),
    AlreadyDone,
}

/// Spec-level outcome of one round of polling every join child.
pub ghost enum JoinOut {
    AllReady(Seq<u64>),
    SomePending,
    Panicked(u64),
}

/// Spec-level outcome of walking select children in argument order.
pub ghost enum SelOut {
    NoneYet,
    Winner(int, Seq<u64>),
    Panicked(u64),
}

/// Whether a future has already resolved (and so must not be polled again).
pub open spec fn spec_resolved(f: Fut) -> bool {
    match f {
        Fut::Instant { done, .. } => done,
        Fut::Panics { done, .. } => done,
        Fut::Sleep { done, .. } => done,
        Fut::Join { done, .. } => done,
        Fut::Select { done, .. } => done,
        Fut::AwaitHandle { done, .. } => done,
    }
}

/// Addition on the clock saturates instead of wrapping.
pub open spec fn sat_add(a: u64, b: u64) -> u64 {
    if a + b > u64::MAX {
        u64::MAX
    } else {
        (a + b) as u64
    }
}

/// Structural well-formedness of a future in an executor with `nt` tasks.
pub open spec fn fut_wf(f: Fut, nt: nat) -> bool
    decreases f, 0int,
{
    match f {
        Fut::AwaitHandle { task, .. } => task < nt,
        Fut::Join { children, slots, done } => {
            &&& slots@.len() == children@.len()
            &&& fut_wf_list(children@, nt, 0)
            &&& (!done ==> forall|j: int|
                0 <= j < children@.len() ==> (slots@[j] is Some <==> spec_resolved(
                    children@[j],
                )))
        },
        Fut::Select { children, done } => {
            &&& fut_wf_list(children@, nt, 0)
            &&& (!done ==> forall|j: int|
                0 <= j < children@.len() ==> !spec_resolved(children@[j]))
        },
        _ => true,
    }
}

/// Every child from index `i` on is well formed.
pub open spec fn fut_wf_list(cs: Seq<Fut>, nt: nat, i: int) -> bool
    decreases cs, cs.len() - i + 1,
{
    i >= cs.len() || (0 <= i && fut_wf(cs[i], nt) && fut_wf_list(cs, nt, i + 1))
}

/// Structural size of a future, the termination measure for polling and
/// cancellation: a combinator is larger than each of its children.
pub open spec fn fut_size(f: Fut) -> nat
    decreases f, 0int,
{
    match f {
        Fut::Join { children, .. } => 1 + fut_size_list(children@, 0),
        Fut::Select { children, .. } => 1 + fut_size_list(children@, 0),
        _ => 1,
    }
}

/// Combined size of the children from index `i` on.
pub open spec fn fut_size_list(cs: Seq<Fut>, i: int) -> nat
    decreases cs, cs.len() - i + 1,
{
    if i < 0 || i >= cs.len() {
        0
    } else {
        fut_size(cs[i]) + fut_size_list(cs, i + 1)
    }
}

/// Each child's size is bounded by the size of the whole list.
pub proof fn lemma_fut_size_list_elem(cs: Seq<Fut>, i: int, k: int)
    requires
        0 <= i <= k < cs.len(),
    ensures
        fut_size(cs[k]) <= fut_size_list(cs, i),
    decreases cs.len() - i,
{
    if i < k {
        lemma_fut_size_list_elem(cs, i + 1, k);
    }
}

/// `fut_wf_list` is the pointwise well-formedness of the children.
pub proof fn lemma_fut_wf_list_iff(cs: Seq<Fut>, nt: nat, i: int)
    requires
        0 <= i <= cs.len(),
    ensures
        fut_wf_list(cs, nt, i) <==> (forall|j: int| i <= j < cs.len() ==> fut_wf(#[trigger] cs[j], nt)),
    decreases cs.len() - i,
{
    if i < cs.len() {
        lemma_fut_wf_list_iff(cs, nt, i + 1);
    }
}

/// Well-formedness only bounds task ids, so it survives adding tasks.
pub proof fn lemma_fut_wf_mono(f: Fut, n1: nat, n2: nat)
    requires
        fut_wf(f, n1),
        n1 <= n2,
    ensures
        fut_wf(f, n2),
    decreases fut_size(f), 0int,
{
    match f {
        Fut::Join { children, .. } => {
            lemma_fut_wf_list_mono(children@, n1, n2, 0);
        },
        Fut::Select { children, .. } => {
            lemma_fut_wf_list_mono(children@, n1, n2, 0);
        },
        _ => {},
    }
}

/// Pointwise form of `lemma_fut_wf_mono` over a list of children.
pub proof fn lemma_fut_wf_list_mono(cs: Seq<Fut>, n1: nat, n2: nat, i: int)
    requires
        fut_wf_list(cs, n1, i),
        n1 <= n2,
    ensures
        fut_wf_list(cs, n2, i),
    decreases fut_size_list(cs, i), 1int,
{
    if 0 <= i < cs.len() {
        lemma_fut_size_list_elem(cs, i, i);
        lemma_fut_wf_mono(cs[i], n1, n2);
        lemma_fut_wf_list_mono(cs, n1, n2, i + 1);
    }
}

/// All children are immediately ready.
pub open spec fn all_instant(cs: Seq<Fut>) -> bool {
    forall|j: int| 0 <= j < cs.len() ==> (#[trigger] cs[j]) matches Fut::Instant { done: false, .. }
}

/// The values of immediately-ready children from index `i` on, in argument
/// order.
pub open spec fn instant_vals_from(cs: Seq<Fut>, i: int) -> Seq<u64>
    decreases cs.len() - i,
{
    if i < 0 || i >= cs.len() {
        Seq::empty()
    } else {
        (match cs[i] {
            Fut::Instant { value, .. } => seq![value],
            _ => Seq::empty(),
        }) + instant_vals_from(cs, i + 1)
    }
}

/// Law: a join over any number of immediately-ready children resolves in a
/// single round, yielding all their values in argument order.
pub proof fn lemma_join_ready_first_poll(
    cs: Seq<Fut>,
    sl: Seq<Option<Vec<u64>>>,
    i: int,
    now: u64,
    statuses: Seq<TaskState>,
)
    requires
        sl.len() == cs.len(),
        0 <= i <= cs.len(),
        forall|j: int| 0 <= j < cs.len() ==> (#[trigger] sl[j]) is None,
        all_instant(cs),
    ensures
        join_outcome(cs, sl, i, now, statuses) == JoinOut::AllReady(instant_vals_from(cs, i)),
    decreases cs.len() - i,
{
    if i < cs.len() {
        lemma_join_ready_first_poll(cs, sl, i + 1, now, statuses);
        assert(sl[i] is None);
        assert(cs[i] matches Fut::Instant { done: false, .. });
        match cs[i] {
            Fut::Instant { value, done } => {
                assert(spec_outcome(cs[i], now, statuses) == FutOut::Ready(seq![value]));
                assert(instant_vals_from(cs, i) == seq![value] + instant_vals_from(cs, i + 1));
                assert(join_outcome(cs, sl, i, now, statuses) == JoinOut::AllReady(
                    seq![value] + instant_vals_from(cs, i + 1),
                ));
            },
            _ => {
                assert(false);
            },
        }
    }
}

/// Law: a join over any number of immediately-ready futures, none yet
/// recorded, resolves on its very first poll with all their values in
/// argument order.
pub proof fn lemma_join_ready_resolves(f: Fut, now: u64, statuses: Seq<TaskState>)
    requires
        f matches Fut::Join { children, slots, done: false } && slots@.len() == children@.len()
            && (forall|j: int| 0 <= j < slots@.len() ==> (#[trigger] slots@[j]) is None)
            && all_instant(children@),
    ensures
        f matches Fut::Join { children, .. } ==> spec_outcome(f, now, statuses) == FutOut::Ready(
            instant_vals_from(children@, 0),
        ),
{
    match f {
        Fut::Join { children, slots, .. } => {
            lemma_join_ready_first_poll(children@, slots@, 0, now, statuses);
        },
        _ => {},
    }
}

/// Law: of two armed timers raced by a select, the one whose deadline has
/// arrived first wins, and the select resolves with the winner's tag.
pub proof fn lemma_select_earlier_deadline_wins(
    f: Fut,
    dur1: u64,
    dur2: u64,
    d1: u64,
    d2: u64,
    now: u64,
    statuses: Seq<TaskState>,
)
    requires
        f matches Fut::Select { children, done: false } && children@.len() == 2 && children@[0]
            == (Fut::Sleep { dur: dur1, armed: true, deadline: d1, done: false }) && children@[1]
            == (Fut::Sleep { dur: dur2, armed: true, deadline: d2, done: false }),
        d1 <= now < d2,
    ensures
        spec_outcome(f, now, statuses) == FutOut::Ready(seq![0u64]),
{
    match f {
        Fut::Select { children, .. } => {
            assert(spec_outcome(children@[0], now, statuses) == FutOut::Ready(
                Seq::<u64>::empty(),
            ));
            assert(select_outcome(children@, 0, now, statuses) == SelOut::Winner(
                0,
                Seq::<u64>::empty(),
            ));
            assert(seq![0u64] + Seq::<u64>::empty() =~= seq![0u64]);
        },
        _ => {},
    }
}

/// The result of polling `f` at time `now`, with task outcomes `statuses`.
/// The result of a poll depends only on these; polling mutates the timer and
/// wait registries but never reads them.
pub open spec fn spec_outcome(f: Fut, now: u64, statuses: Seq<TaskState>) -> FutOut
    decreases f, 0int,
{
    if spec_resolved(f) {
        FutOut::AlreadyDone
    } else {
        match f {
            Fut::Instant { value, .. } => FutOut::Ready(seq![value]),
            Fut::Panics { reason, .. } => FutOut::Panicked(reason),
            Fut::Sleep { armed, deadline, .. } => {
                if armed && now >= deadline {
                    FutOut::Ready(Seq::empty())
                } else {
                    FutOut::Pending
                }
            },
            Fut::AwaitHandle { task, .. } => {
                if task < statuses.len() {
                    match statuses[task as int] {
                        TaskState::Completed(v) => FutOut::Ready(seq![OUTCOME_OK] + v@),
                        TaskState::Panicked(r) => FutOut::Ready(seq![OUTCOME_PANICKED, r]),
                        _ => FutOut::Pending,
                    }
                } else {
                    FutOut::Pending
                }
            },
            Fut::Join { children, slots, .. } => {
                match join_outcome(children@, slots@, 0, now, statuses) {
                    JoinOut::AllReady(v) => FutOut::Ready(v),
                    JoinOut::SomePending => FutOut::Pending,
                    JoinOut::Panicked(r) => FutOut::Panicked(r),
                }
            },
            Fut::Select { children, .. } => {
                match select_outcome(children@, 0, now, statuses) {
                    SelOut::NoneYet => FutOut::Pending,
                    SelOut::Winner(k, v) => FutOut::Ready(seq![k as u64] + v),
                    SelOut::Panicked(r) => FutOut::Panicked(r),
                }
            },
        }
    }
}

/// One round over join children from index `i`: every not-yet-ready child is
/// polled in argument order; a fatal child stops the round at once.
pub open spec fn join_outcome(
    cs: Seq<Fut>,
    slots: Seq<Option<Vec<u64>>>,
    i: int,
    now: u64,
    statuses: Seq<TaskState>,
) -> JoinOut
    decreases cs, cs.len() - i + 1,
{
    if i < 0 || i >= cs.len() || cs.len() != slots.len() {
        JoinOut::AllReady(Seq::empty())
    } else {
        match slots[i] {
            Some(v) => {
                match join_outcome(cs, slots, i + 1, now, statuses) {
                    JoinOut::AllReady(rest) => JoinOut::AllReady(v@ + rest),
                    other => other,
                }
            },
            None => {
                match spec_outcome(cs[i], now, statuses) {
                    FutOut::Panicked(r) => JoinOut::Panicked(r),
                    FutOut::Ready(v) => {
                        match join_outcome(cs, slots, i + 1, now, statuses) {
                            JoinOut::AllReady(rest) => JoinOut::AllReady(v + rest),
                            other => other,
                        }
                    },
                    _ => {
                        match join_outcome(cs, slots, i + 1, now, statuses) {
                            JoinOut::Panicked(r) => JoinOut::Panicked(r),
                            _ => JoinOut::SomePending,
                        }
                    },
                }
            },
        }
    }
}

/// A join round from index `i` reads only the children and slots from `i`
/// on, so it is unchanged when earlier positions differ.
pub proof fn lemma_join_outcome_agree(
    cs1: Seq<Fut>,
    sl1: Seq<Option<Vec<u64>>>,
    cs2: Seq<Fut>,
    sl2: Seq<Option<Vec<u64>>>,
    i: int,
    now: u64,
    statuses: Seq<TaskState>,
)
    requires
        cs1.len() == cs2.len(),
        sl1.len() == sl2.len(),
        forall|j: int| i <= j < cs1.len() ==> #[trigger] cs1[j] == cs2[j],
        forall|j: int| i <= j < sl1.len() ==> #[trigger] sl1[j] == sl2[j],
    ensures
        join_outcome(cs1, sl1, i, now, statuses) == join_outcome(cs2, sl2, i, now, statuses),
    decreases cs1.len() - i,
{
    if 0 <= i < cs1.len() && cs1.len() == sl1.len() {
        lemma_join_outcome_agree(cs1, sl1, cs2, sl2, i + 1, now, statuses);
    }
}

/// The prefix values read only the first `i` slots.
pub proof fn lemma_slots_prefix_agree(
    sl1: Seq<Option<Vec<u64>>>,
    sl2: Seq<Option<Vec<u64>>>,
    i: int,
)
    requires
        forall|j: int| 0 <= j < i ==> #[trigger] sl1[j] == sl2[j],
    ensures
        slots_prefix_vals(sl1, i) == slots_prefix_vals(sl2, i),
    decreases i,
{
    if i > 0 {
        lemma_slots_prefix_agree(sl1, sl2, i - 1);
    }
}

/// After a fatal join round: some not-yet-ready child `k` failed fatally,
/// and every sibling after `k` — never polled past the failing round — is
/// untouched, its recorded result included.
pub open spec fn join_panic_at(
    cs: Seq<Fut>,
    sl: Seq<Option<Vec<u64>>>,
    c2: Seq<Fut>,
    s2: Seq<Option<Vec<u64>>>,
    k: int,
    now: u64,
    statuses: Seq<TaskState>,
) -> bool {
    0 <= k < cs.len() && sl[k] is None && spec_outcome(cs[k], now, statuses) is Panicked && (
    forall|j: int| k < j < cs.len() ==> (#[trigger] c2[j]) == cs[j] && s2[j] == sl[j])
}

/// See `join_panic_at`: some failing child index exists.
pub open spec fn join_panic_frame(
    cs: Seq<Fut>,
    sl: Seq<Option<Vec<u64>>>,
    c2: Seq<Fut>,
    s2: Seq<Option<Vec<u64>>>,
    now: u64,
    statuses: Seq<TaskState>,
) -> bool {
    exists|k: int| #[trigger] join_panic_at(cs, sl, c2, s2, k, now, statuses)
}

/// Walk select children from index `i`; the first child to settle wins.
pub open spec fn select_outcome(cs: Seq<Fut>, i: int, now: u64, statuses: Seq<TaskState>) -> SelOut
    decreases cs, cs.len() - i + 1,
{
    if i < 0 || i >= cs.len() {
        SelOut::NoneYet
    } else {
        match spec_outcome(cs[i], now, statuses) {
            FutOut::Ready(v) => SelOut::Winner(i, v),
            FutOut::Panicked(r) => SelOut::Panicked(r),
            _ => select_outcome(cs, i + 1, now, statuses),
        }
    }
}

/// Whether an exec poll result agrees with the spec-level outcome.
pub open spec fn out_matches(p: PollOut, o: FutOut) -> bool {
    match p {
        PollOut::Pending => o is Pending,
        PollOut::Ready(v) => o matches FutOut::Ready(s) && v@ == s,
        PollOut::Panicked(r) => o == FutOut::Panicked(r),
        PollOut::AlreadyDone => o is AlreadyDone,
    }
}

/// How often `e` occurs in a registry.
pub open spec fn count_entry(ts: Seq<TimerEntry>, e: TimerEntry) -> nat
    decreases ts.len(),
{
    if ts.len() == 0 {
        0
    } else {
        (if ts[0] == e {
            1nat
        } else {
            0nat
        }) + count_entry(ts.subrange(1, ts.len() as int), e)
    }
}

/// The registry with the first occurrence of `e` (if any) removed.
pub open spec fn remove_first_entry(ts: Seq<TimerEntry>, e: TimerEntry) -> Seq<TimerEntry>
    decreases ts.len(),
{
    if ts.len() == 0 {
        ts
    } else if ts[0] == e {
        ts.subrange(1, ts.len() as int)
    } else {
        seq![ts[0]] + remove_first_entry(ts.subrange(1, ts.len() as int), e)
    }
}

/// The timer registry after cancelling `f` on behalf of waker `w`: the
/// registration of every armed, unresolved timer inside `f` is removed.
pub open spec fn spec_cancel(f: Fut, w: Waker, ts: Seq<TimerEntry>) -> Seq<TimerEntry>
    decreases f, 0int,
{
    if spec_resolved(f) {
        ts
    } else {
        match f {
            Fut::Sleep { armed, deadline, .. } => {
                if armed {
                    remove_first_entry(ts, TimerEntry { deadline, waker: w })
                } else {
                    ts
                }
            },
            Fut::Join { children, .. } => spec_cancel_list(children@, w, ts, 0),
            Fut::Select { children, .. } => spec_cancel_list(children@, w, ts, 0),
            _ => ts,
        }
    }
}

/// Cancel children from index `i` on, in argument order.
pub open spec fn spec_cancel_list(cs: Seq<Fut>, w: Waker, ts: Seq<TimerEntry>, i: int) -> Seq<
    TimerEntry,
>
    decreases cs, cs.len() - i + 1,
{
    if i < 0 || i >= cs.len() {
        ts
    } else {
        spec_cancel_list(cs, w, spec_cancel(cs[i], w, ts), i + 1)
    }
}

/// The values contributed by the first `i` join slots, once all are filled.
pub open spec fn slots_prefix_vals(slots: Seq<Option<Vec<u64>>>, i: int) -> Seq<u64>
    decreases i,
{
    if i <= 0 {
        Seq::empty()
    } else {
        slots_prefix_vals(slots, i - 1) + (match slots[i - 1] {
            Some(v) => v@,
            None => Seq::empty(),
        })
    }
}

/// A caller-owned reference to a spawned task's eventual outcome.  Dropping
/// it never cancels the task: the executor's state is fully determined by
/// `spawn` itself, and no scheduling step takes a handle as input.
#[derive(Clone, Copy, PartialEq, Eq, Structural, Debug)]
pub struct JoinHandle {
    pub task: usize,
}

/// A future that resolves once the task behind `h` has completed or
/// panicked, yielding the tagged outcome.
pub fn handle_future(h: JoinHandle) -> (r: Fut)
    ensures
        r == (Fut::AwaitHandle { task: h.task, armed: false, done: false }),
{
    Fut::AwaitHandle { task: h.task, armed: false, done: false }
}

/// The registration an armed timer holds on behalf of waker `w`.
pub open spec fn sleep_entry(f: Fut, w: Waker) -> TimerEntry {
    match f {
        Fut::Sleep { deadline, .. } => TimerEntry { deadline, waker: w },
        _ => TimerEntry { deadline: 0, waker: w },
    }
}

/// The registry after removing, in argument order, the registration of
/// every armed timer among the children but the one at `skip`.
pub open spec fn cancel_armed_sleeps(
    cs: Seq<Fut>,
    skip: int,
    w: Waker,
    ts: Seq<TimerEntry>,
    i: int,
) -> Seq<TimerEntry>
    decreases cs.len() - i,
{
    if i < 0 || i >= cs.len() {
        ts
    } else {
        let ts2 = if i != skip && (cs[i] matches Fut::Sleep { armed: true, done: false, .. }) {
            remove_first_entry(ts, sleep_entry(cs[i], w))
        } else {
            ts
        };
        cancel_armed_sleeps(cs, skip, w, ts2, i + 1)
    }
}

/// Cancelling a list of armed timers — with the one at `skip` already
/// resolved and the rest unchanged — removes exactly their registrations,
/// in argument order.
pub proof fn lemma_cancel_armed_sleep_list(
    cs: Seq<Fut>,
    c2: Seq<Fut>,
    skip: int,
    w: Waker,
    ts: Seq<TimerEntry>,
    i: int,
)
    requires
        c2.len() == cs.len(),
        forall|j: int|
            0 <= j < cs.len() ==> (#[trigger] cs[j]) matches Fut::Sleep {
                armed: true,
                done: false,
                ..
            },
        forall|j: int| 0 <= j < cs.len() && j != skip ==> (#[trigger] c2[j]) == cs[j],
        0 <= skip < cs.len() ==> spec_resolved(c2[skip]),
    ensures
        spec_cancel_list(c2, w, ts, i) == cancel_armed_sleeps(cs, skip, w, ts, i),
    decreases cs.len() - i,
{
    if 0 <= i < cs.len() {
        if i == skip {
            assert(spec_cancel(c2[i], w, ts) == ts);
            lemma_cancel_armed_sleep_list(cs, c2, skip, w, ts, i + 1);
        } else {
            assert(c2[i] == cs[i]);
            assert(cs[i] matches Fut::Sleep { armed: true, done: false, .. });
            assert(spec_cancel(c2[i], w, ts) == remove_first_entry(ts, sleep_entry(cs[i], w)));
            lemma_cancel_armed_sleep_list(
                cs,
                c2,
                skip,
                w,
                remove_first_entry(ts, sleep_entry(cs[i], w)),
                i + 1,
            );
        }
    }
}

/// After one poll of a select: if every child is an armed, unresolved
/// timer and one of them has won, the final registry `ts1` is the starting
/// registry `ts0` with the winner's registration removed (its deadline
/// arrived) and then, in argument order, the registration of every losing
/// timer removed — the losers are cancelled, leaving no spurious wake-up.
pub open spec fn select_sleeps_cleanup(
    cs: Seq<Fut>,
    w: Waker,
    ts0: Seq<TimerEntry>,
    ts1: Seq<TimerEntry>,
    now: u64,
    statuses: Seq<TaskState>,
) -> bool {
    (forall|j: int|
        0 <= j < cs.len() ==> (#[trigger] cs[j]) matches Fut::Sleep {
            armed: true,
            done: false,
            ..
        }) ==> (select_outcome(cs, 0, now, statuses) matches SelOut::Winner(k, v) ==> ts1
        == cancel_armed_sleeps(cs, k, w, remove_first_entry(ts0, sleep_entry(cs[k], w)), 0))
}

/// A future that resolves on its first poll with the given value.
pub fn ready_future(value: u64) -> (r: Fut)
    ensures
        r == (Fut::Instant { value, done: false }),
{
    Fut::Instant { value, done: false }
}

/// A future that fails fatally when first polled.
pub fn panic_future(reason: u64) -> (r: Fut)
    ensures
        r == (Fut::Panics { reason, done: false }),
{
    Fut::Panics { reason, done: false }
}

/// A future that stays pending until `dur` ticks after its first poll.
pub fn sleep(dur: u64) -> (r: Fut)
    ensures
        r == (Fut::Sleep { dur, armed: false, deadline: 0, done: false }),
{
    Fut::Sleep { dur, armed: false, deadline: 0, done: false }
}

/// Wait for all children; resolves with their values in argument order.
pub fn join(children: Vec<Fut>) -> (r: Fut)
    ensures
        r matches Fut::Join { children: c, slots: s, done } && c == children && !done && s@.len()
            == children@.len() && (forall|j: int| 0 <= j < s@.len() ==> s@[j] is None),
{
    let mut slots: Vec<Option<Vec<u64>>> = Vec::new();
    let mut i: usize = 0;
    while i < children.len()
        invariant
            i == slots@.len(),
            i <= children@.len(),
            forall|j: int| 0 <= j < i ==> slots@[j] is None,
        decreases children@.len() - i,
    {
        slots.push(None);
        i = i + 1;
    }
    Fut::Join { children, slots, done: false }
}

/// Wait for the first child to settle; the losers are cancelled.
pub fn select(children: Vec<Fut>) -> (r: Fut)
    ensures
        r == (Fut::Select { children, done: false }),
{
    Fut::Select { children, done: false }
}

} // verus!
