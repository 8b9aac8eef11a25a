//! The single-threaded cooperative executor.
//!
//! The executor owns every task, a FIFO ready queue, a timer registry kept
//! in insertion order, and a registry of tasks waiting on other tasks.  It
//! is the only driver of progress: it polls runnable tasks, and suspension
//! sources (timers, task completion) later wake them again.  Time is a
//! logical monotonic clock: when nothing is runnable the clock jumps to the
//! earliest pending deadline.

use vstd::prelude::*;

use crate::future::Fut;
use crate::future::FutOut;
use crate::future::JoinHandle;
use crate::future::PollOut;
use crate::future::TaskState;
use crate::future::TimerEntry;
use crate::future::WaitEntry;
use crate::future::Waker;
use crate::future::count_entry;
use crate::future::fut_size;
use crate::future::fut_size_list;
use crate::future::fut_wf;
use crate::future::lemma_fut_size_list_elem;
use crate::future::lemma_fut_wf_list_iff;
use crate::future::lemma_fut_wf_mono;
use crate::future::JoinOut;
use crate::future::SelOut;
use crate::future::join_outcome;
use crate::future::out_matches;
use crate::future::remove_first_entry;
use crate::future::sat_add;
use crate::future::select_outcome;
use crate::future::sleep_entry;
use crate::future::select_sleeps_cleanup;
use crate::future::cancel_armed_sleeps;
use crate::future::lemma_cancel_armed_sleep_list;
use crate::future::spec_cancel;
use crate::future::spec_cancel_list;
use crate::future::spec_outcome;
use crate::future::spec_resolved;
use crate::future::OUTCOME_OK;
use crate::future::OUTCOME_PANICKED;
use vstd::pervasive::VecAdditionalExecFns;

verus! {

/// Why driving a future to completion failed.
#[derive(Clone, Copy, PartialEq, Eq, Structural, Debug)]
pub enum RunError {
    /// Nothing is runnable and no suspension source remains.
    Stalled,
    /// The driven future failed fatally with this reason.
    Panicked(u64),
    /// The scheduling-round budget ran out before the future finished.
    OutOfRounds,
}

/// Every registered timer names an existing task and a deadline that has
/// not yet passed.
pub open spec fn entries_ok(ts: Seq<TimerEntry>, nt: nat, now: u64) -> bool {
    forall|i: int|
        0 <= i < ts.len() ==> (#[trigger] ts[i]).waker.task < nt && ts[i].deadline >= now
}

/// Every registered waiter names existing tasks.
pub open spec fn waits_ok(ws: Seq<WaitEntry>, nt: nat) -> bool {
    forall|i: int|
        0 <= i < ws.len() ==> (#[trigger] ws[i]).task < nt && ws[i].waker.task < nt
}

/// `b` is `a` with entries appended at the end and none disturbed.
pub open spec fn waits_extended(a: Seq<WaitEntry>, b: Seq<WaitEntry>) -> bool {
    a.len() <= b.len() && (forall|i: int| 0 <= i < a.len() ==> a[i] == #[trigger] b[i])
}

/// The effect of waking `w`: a suspended task becomes runnable and joins
/// the FIFO queue; any other wake-up is an idempotent no-op.
pub open spec fn spec_wake(w: Waker, sts: Seq<TaskState>, rdy: Seq<usize>) -> (
    Seq<TaskState>,
    Seq<usize>,
) {
    if w.task < sts.len() && sts[w.task as int] is Suspended {
        (sts.update(w.task as int, TaskState::Runnable), rdy.push(w.task))
    } else {
        (sts, rdy)
    }
}

/// The effect of firing every due timer: while the registry holds an entry
/// whose deadline has arrived, the first entry holding the minimal deadline
/// — so equal deadlines fire in insertion order — is removed and its waker
/// invoked.
pub open spec fn spec_fire(
    ts: Seq<TimerEntry>,
    now: u64,
    sts: Seq<TaskState>,
    rdy: Seq<usize>,
) -> (Seq<TimerEntry>, Seq<TaskState>, Seq<usize>)
    decreases ts.len(),
{
    if ts.len() == 0 {
        (ts, sts, rdy)
    } else {
        let k0 = min_due_index_upto(ts, ts.len() as int);
        let k = if 0 <= k0 < ts.len() {
            k0
        } else {
            0
        };
        if ts[k].deadline > now {
            (ts, sts, rdy)
        } else {
            let (sts2, rdy2) = spec_wake(ts[k].waker, sts, rdy);
            spec_fire(ts.remove(k), now, sts2, rdy2)
        }
    }
}

/// The effect of notifying the waiters of task `tid`, walking the first `i`
/// registrations in order: each waiter on `tid` is woken and its entry
/// dropped; every other entry is kept, in order.
pub open spec fn spec_notify(
    ws: Seq<WaitEntry>,
    i: int,
    tid: usize,
    sts: Seq<TaskState>,
    rdy: Seq<usize>,
) -> (Seq<TaskState>, Seq<usize>, Seq<WaitEntry>)
    decreases i,
{
    if i <= 0 {
        (sts, rdy, Seq::empty())
    } else {
        let (s1, r1, k1) = spec_notify(ws, i - 1, tid, sts, rdy);
        if ws[i - 1].task == tid {
            let (s2, r2) = spec_wake(ws[i - 1].waker, s1, r1);
            (s2, r2, k1)
        } else {
            (s1, r1, k1.push(ws[i - 1]))
        }
    }
}

/// The waiters of `tid` among `base` were notified: `ws` is `base` possibly
/// extended by registrations made in the same scheduling round, and the
/// final task states, ready queue and wait registry are exactly what
/// `spec_notify` gives on it.
pub open spec fn notified_from(
    ws: Seq<WaitEntry>,
    base: Seq<WaitEntry>,
    tid: usize,
    sts: Seq<TaskState>,
    rdy: Seq<usize>,
    sts1: Seq<TaskState>,
    rdy1: Seq<usize>,
    ws1: Seq<WaitEntry>,
) -> bool {
    waits_extended(base, ws) && spec_notify(ws, ws.len() as int, tid, sts, rdy) == (sts1, rdy1, ws1)
}

/// The single-threaded cooperative scheduler.
pub struct Executor {
    /// Scheduling state of each task, indexed by task id.
    pub statuses: Vec<TaskState>,
    /// The future each task is driving, indexed by task id.
    pub futs: Vec<Fut>,
    /// FIFO queue of runnable task ids.
    pub ready: Vec<usize>,
    /// Pending timers, in insertion order.
    pub timers: Vec<TimerEntry>,
    /// Tasks waiting for another task to finish, in insertion order.
    pub waits: Vec<WaitEntry>,
    /// The logical monotonic clock.
    pub now: u64,
}

/// The earliest deadline among the first `i` registry entries.
pub open spec fn min_deadline_upto(ts: Seq<TimerEntry>, i: int) -> u64
    decreases i,
{
    if i <= 1 {
        ts[0].deadline
    } else if ts[i - 1].deadline < min_deadline_upto(ts, i - 1) {
        ts[i - 1].deadline
    } else {
        min_deadline_upto(ts, i - 1)
    }
}

/// The minimum over a nonempty prefix is attained and bounds every entry.
pub proof fn lemma_min_deadline_props(ts: Seq<TimerEntry>, i: int)
    requires
        1 <= i <= ts.len(),
    ensures
        exists|k: int| 0 <= k < i && (#[trigger] ts[k]).deadline == min_deadline_upto(ts, i),
        forall|j: int| 0 <= j < i ==> min_deadline_upto(ts, i) <= (#[trigger] ts[j]).deadline,
    decreases i,
{
    if i == 1 {
        assert(ts[0].deadline == min_deadline_upto(ts, 1));
    } else {
        lemma_min_deadline_props(ts, i - 1);
        if ts[i - 1].deadline < min_deadline_upto(ts, i - 1) {
            assert(ts[i - 1].deadline == min_deadline_upto(ts, i));
        } else {
            let k = choose|k: int|
                0 <= k < i - 1 && (#[trigger] ts[k]).deadline == min_deadline_upto(ts, i - 1);
            assert(ts[k].deadline == min_deadline_upto(ts, i));
        }
    }
}

/// The index the timer driver fires next: the first entry holding the
/// minimal deadline, so equal deadlines fire in insertion order.
pub open spec fn min_due_index_upto(ts: Seq<TimerEntry>, i: int) -> int
    decreases i,
{
    if i <= 1 {
        0
    } else if ts[i - 1].deadline < ts[min_due_index_upto(ts, i - 1)].deadline {
        i - 1
    } else {
        min_due_index_upto(ts, i - 1)
    }
}

/// The selected entry holds the minimal deadline, and every earlier entry's
/// deadline is strictly larger.
pub proof fn lemma_min_due_index_props(ts: Seq<TimerEntry>, i: int)
    requires
        1 <= i <= ts.len(),
    ensures
        0 <= min_due_index_upto(ts, i) < i,
        forall|j: int|
            0 <= j < i ==> ts[min_due_index_upto(ts, i)].deadline <= (#[trigger] ts[j]).deadline,
        forall|j: int|
            0 <= j < min_due_index_upto(ts, i) ==> (#[trigger] ts[j]).deadline > ts[
                min_due_index_upto(ts, i)].deadline,
    decreases i,
{
    if i > 1 {
        lemma_min_due_index_props(ts, i - 1);
    }
}

/// Timers that share a deadline fire in insertion order: the later of two
/// entries with equal deadlines is never the one selected to fire.
pub proof fn lemma_equal_deadlines_fire_in_insertion_order(ts: Seq<TimerEntry>, i: int, j: int)
    requires
        0 <= i < j < ts.len(),
        ts[i].deadline == ts[j].deadline,
    ensures
        min_due_index_upto(ts, ts.len() as int) != j,
{
    lemma_min_due_index_props(ts, ts.len() as int);
}

/// An entry with a strictly earlier deadline fires before a later one: the
/// entry with the larger deadline is never selected while the other waits.
pub proof fn lemma_earlier_deadline_fires_first(ts: Seq<TimerEntry>, i: int, j: int)
    requires
        0 <= i < ts.len(),
        0 <= j < ts.len(),
        ts[i].deadline < ts[j].deadline,
    ensures
        min_due_index_upto(ts, ts.len() as int) != j,
{
    lemma_min_due_index_props(ts, ts.len() as int);
}

/// Removing the first occurrence of `e`, when it sits at index `i` and not
/// earlier, removes exactly index `i`.
pub proof fn lemma_remove_first_at(ts: Seq<TimerEntry>, e: TimerEntry, i: int)
    requires
        0 <= i < ts.len(),
        ts[i] == e,
        forall|j: int| 0 <= j < i ==> ts[j] != e,
    ensures
        remove_first_entry(ts, e) == ts.remove(i),
    decreases ts.len(),
{
    if i == 0 {
        assert(ts.subrange(1, ts.len() as int) =~= ts.remove(0));
    } else {
        let sub = ts.subrange(1, ts.len() as int);
        lemma_remove_first_at(sub, e, i - 1);
        assert(seq![ts[0]] + sub.remove(i - 1) =~= ts.remove(i));
    }
}

/// Removing an absent entry changes nothing.
pub proof fn lemma_remove_first_absent(ts: Seq<TimerEntry>, e: TimerEntry)
    requires
        forall|j: int| 0 <= j < ts.len() ==> ts[j] != e,
    ensures
        remove_first_entry(ts, e) == ts,
    decreases ts.len(),
{
    if ts.len() > 0 {
        let sub = ts.subrange(1, ts.len() as int);
        lemma_remove_first_absent(sub, e);
        assert(seq![ts[0]] + sub =~= ts);
    }
}

/// Removing the first occurrence of a present entry lowers its count by one.
pub proof fn lemma_remove_first_count(ts: Seq<TimerEntry>, e: TimerEntry)
    requires
        count_entry(ts, e) > 0,
    ensures
        count_entry(remove_first_entry(ts, e), e) == count_entry(ts, e) - 1,
    decreases ts.len(),
{
    if ts.len() > 0 && ts[0] != e {
        let sub = ts.subrange(1, ts.len() as int);
        lemma_remove_first_count(sub, e);
        let r = seq![ts[0]] + remove_first_entry(sub, e);
        assert(r.subrange(1, r.len() as int) =~= remove_first_entry(sub, e));
    }
}

/// Law: cancelling an armed, unresolved timer removes one occurrence of
/// its registration from the registry — a cancelled sleep leaves no wake-up
/// behind that was only its own.
pub proof fn lemma_cancel_armed_sleep(
    dur: u64,
    deadline: u64,
    w: Waker,
    ts: Seq<TimerEntry>,
)
    requires
        count_entry(ts, TimerEntry { deadline, waker: w }) > 0,
    ensures
        count_entry(
            spec_cancel(Fut::Sleep { dur, armed: true, deadline, done: false }, w, ts),
            TimerEntry { deadline, waker: w },
        ) == count_entry(ts, TimerEntry { deadline, waker: w }) - 1,
{
    lemma_remove_first_count(ts, TimerEntry { deadline, waker: w });
}

/// Removing a registry entry preserves registry validity.
pub proof fn lemma_remove_first_entries_ok(ts: Seq<TimerEntry>, e: TimerEntry, nt: nat, now: u64)
    requires
        entries_ok(ts, nt, now),
    ensures
        entries_ok(remove_first_entry(ts, e), nt, now),
    decreases ts.len(),
{
    if ts.len() > 0 && ts[0] != e {
        let sub = ts.subrange(1, ts.len() as int);
        assert(entries_ok(sub, nt, now));
        lemma_remove_first_entries_ok(sub, e, nt, now);
    }
}

/// Cancellation only removes entries, so registry validity is preserved.
pub proof fn lemma_cancel_entries_ok(f: Fut, w: Waker, ts: Seq<TimerEntry>, nt: nat, now: u64)
    requires
        entries_ok(ts, nt, now),
    ensures
        entries_ok(spec_cancel(f, w, ts), nt, now),
    decreases fut_size(f), 0int,
{
    if !spec_resolved(f) {
        match f {
            Fut::Sleep { armed, deadline, .. } => {
                if armed {
                    lemma_remove_first_entries_ok(ts, TimerEntry { deadline, waker: w }, nt, now);
                }
            },
            Fut::Join { children, .. } => {
                lemma_cancel_list_entries_ok(children@, w, ts, 0, nt, now);
            },
            Fut::Select { children, .. } => {
                lemma_cancel_list_entries_ok(children@, w, ts, 0, nt, now);
            },
            _ => {},
        }
    }
}

/// Cancelling a list of children preserves registry validity.
pub proof fn lemma_cancel_list_entries_ok(
    cs: Seq<Fut>,
    w: Waker,
    ts: Seq<TimerEntry>,
    i: int,
    nt: nat,
    now: u64,
)
    requires
        entries_ok(ts, nt, now),
    ensures
        entries_ok(spec_cancel_list(cs, w, ts, i), nt, now),
    decreases fut_size_list(cs, i), 1int,
{
    if 0 <= i < cs.len() {
        lemma_fut_size_list_elem(cs, i, i);
        lemma_cancel_entries_ok(cs[i], w, ts, nt, now);
        lemma_cancel_list_entries_ok(cs, w, spec_cancel(cs[i], w, ts), i + 1, nt, now);
    }
}

/// Copy a vector of result values.
pub fn copy_vals(src: &Vec<u64>) -> (r: Vec<u64>)
    ensures
        r@ == src@,
{
    let mut r: Vec<u64> = Vec::new();
    let mut i: usize = 0;
    while i < src.len()
        invariant
            i <= src@.len(),
            r@ == src@.subrange(0, i as int),
        decreases src@.len() - i,
    {
        r.push(src[i]);
        i = i + 1;
    }
    proof {
        assert(src@.subrange(0, src@.len() as int) =~= src@);
    }
    r
}

/// Append a copy of `src` to `dst`.
pub fn append_vals(dst: &mut Vec<u64>, src: &Vec<u64>)
    ensures
        final(dst)@ == old(dst)@ + src@,
{
    let mut i: usize = 0;
    while i < src.len()
        invariant
            i <= src@.len(),
            dst@ == old(dst)@ + src@.subrange(0, i as int),
        decreases src@.len() - i,
    {
        dst.push(src[i]);
        proof {
            assert(old(dst)@ + src@.subrange(0, i as int) + seq![src@[i as int]] =~= old(dst)@
                + src@.subrange(0, i + 1));
        }
        i = i + 1;
    }
    proof {
        assert(src@.subrange(0, src@.len() as int) =~= src@);
    }
}

/// Whether this future has already resolved.
pub fn is_resolved(f: &Fut) -> (r: bool)
    ensures
        r == spec_resolved(*f),
{
    match f {
        Fut::Instant { done, .. } => *done,
        Fut::Panics { done, .. } => *done,
        Fut::Sleep { done, .. } => *done,
        Fut::Join { done, .. } => *done,
        Fut::Select { done, .. } => *done,
        Fut::AwaitHandle { done, .. } => *done,
    }
}

impl Executor {
    /// Number of tasks this executor owns.
    pub open spec fn nt(self) -> nat {
        self.statuses@.len()
    }

    /// Well-formedness: queue entries are runnable tasks, unfinished tasks
    /// hold unresolved well-formed futures, and both registries name
    /// existing tasks with deadlines still ahead of the clock.
    pub open spec fn wf(self) -> bool {
        &&& self.futs@.len() == self.nt()
        &&& forall|i: int|
            0 <= i < self.ready@.len() ==> (#[trigger] self.ready@[i]) < self.nt()
                && self.statuses@[self.ready@[i] as int] is Runnable
        &&& forall|i: int, j: int|
            0 <= i < j < self.ready@.len() ==> (#[trigger] self.ready@[i]) != (
            #[trigger] self.ready@[j])
        &&& forall|t: int|
            0 <= t < self.nt() ==> ((self.statuses@[t] is Runnable
                || self.statuses@[t] is Suspended) ==> !spec_resolved(#[trigger] self.futs@[t]))
        &&& forall|t: int| 0 <= t < self.nt() ==> fut_wf(#[trigger] self.futs@[t], self.nt())
        &&& entries_ok(self.timers@, self.nt(), self.now)
        &&& waits_ok(self.waits@, self.nt())
    }

    /// A fresh executor with no tasks and the clock at zero.
    pub fn new() -> (r: Executor)
        ensures
            r.wf(),
            r.nt() == 0,
            r.ready@.len() == 0,
            r.timers@.len() == 0,
            r.waits@.len() == 0,
            r.now == 0,
    {
        Executor {
            statuses: Vec::new(),
            futs: Vec::new(),
            ready: Vec::new(),
            timers: Vec::new(),
            waits: Vec::new(),
            now: 0,
        }
    }

    /// Mark the task behind `w` runnable and enqueue it.  Waking a task
    /// that is not suspended — in particular a duplicate wake-up of an
    /// already runnable task — is an idempotent no-op.
    pub fn wake(&mut self, w: Waker)
        requires
            old(self).wf(),
            w.task < old(self).nt(),
        ensures
            final(self).wf(),
            final(self).nt() == old(self).nt(),
            final(self).futs == old(self).futs,
            final(self).timers == old(self).timers,
            final(self).waits == old(self).waits,
            final(self).now == old(self).now,
            old(self).statuses@[w.task as int] is Suspended ==> final(self).statuses@ == old(self).statuses@.update(w.task as int, TaskState::Runnable) && final(self).ready@ == old(self).ready@.push(w.task),
            (final(self).statuses@, final(self).ready@) == spec_wake(
                w,
                old(self).statuses@,
                old(self).ready@,
            ),
            !(old(self).statuses@[w.task as int] is Suspended) ==> final(self).statuses == old(self).statuses && final(self).ready == old(self).ready,
    {
        let suspended = match &self.statuses[w.task] {
            TaskState::Suspended => true,
            _ => false,
        };
        if suspended {
            self.statuses.set(w.task, TaskState::Runnable);
            self.ready.push(w.task);
        }
    }

    /// Remove the first registry entry equal to `e`, if any.
    fn remove_timer_entry(&mut self, e: TimerEntry)
        ensures
            final(self).timers@ == remove_first_entry(old(self).timers@, e),
            final(self).statuses == old(self).statuses,
            final(self).futs == old(self).futs,
            final(self).ready == old(self).ready,
            final(self).waits == old(self).waits,
            final(self).now == old(self).now,
    {
        let mut i: usize = 0;
        while i < self.timers.len()
            invariant
                *self == *old(self),
                i <= self.timers@.len(),
                forall|j: int| 0 <= j < i ==> self.timers@[j] != e,
            decreases self.timers@.len() - i,
        {
            if self.timers[i].deadline == e.deadline && self.timers[i].waker.task == e.waker.task {
                proof {
                    lemma_remove_first_at(self.timers@, e, i as int);
                }
                self.timers.remove(i);
                return ;
            }
            i = i + 1;
        }
        proof {
            lemma_remove_first_absent(self.timers@, e);
        }
    }

    /// Cancel `f` on behalf of waker `w`: remove the registration of every
    /// armed, unresolved timer inside it.  Cancellation is structural —
    /// dropping a future releases exactly what it registered.
    pub fn cancel(&mut self, f: Fut, w: Waker)
        ensures
            final(self).timers@ == spec_cancel(f, w, old(self).timers@),
            final(self).statuses == old(self).statuses,
            final(self).futs == old(self).futs,
            final(self).ready == old(self).ready,
            final(self).waits == old(self).waits,
            final(self).now == old(self).now,
        decreases fut_size(f), 0int,
    {
        if is_resolved(&f) {
            return ;
        }
        match f {
            Fut::Sleep { armed, deadline, .. } => {
                if armed {
                    self.remove_timer_entry(TimerEntry { deadline, waker: w });
                }
            },
            Fut::Join { children, .. } => {
                self.cancel_children(children, w);
            },
            Fut::Select { children, .. } => {
                self.cancel_children(children, w);
            },
            _ => {},
        }
    }

    /// Cancel every child in argument order.
    #[verifier::loop_isolation(false)]
    fn cancel_children(&mut self, children: Vec<Fut>, w: Waker)
        ensures
            final(self).timers@ == spec_cancel_list(children@, w, old(self).timers@, 0),
            final(self).statuses == old(self).statuses,
            final(self).futs == old(self).futs,
            final(self).ready == old(self).ready,
            final(self).waits == old(self).waits,
            final(self).now == old(self).now,
        decreases fut_size_list(children@, 0), 1int,
    {
        let ghost cs0 = children@;
        let n0: usize = children.len();
        let mut rest = children;
        let mut k: usize = 0;
        while rest.len() > 0
            invariant
                cs0.len() == n0,
                k + rest@.len() == cs0.len(),
                rest@ == cs0.subrange(k as int, cs0.len() as int),
                spec_cancel_list(cs0, w, old(self).timers@, 0) == spec_cancel_list(
                    cs0,
                    w,
                    self.timers@,
                    k as int,
                ),
                self.statuses == old(self).statuses,
                self.futs == old(self).futs,
                self.ready == old(self).ready,
                self.waits == old(self).waits,
                self.now == old(self).now,
            decreases rest@.len(),
        {
            let c = rest.remove(0);
            proof {
                assert(c == cs0[k as int]);
                lemma_fut_size_list_elem(cs0, 0, k as int);
                assert(rest@ =~= cs0.subrange(k as int + 1, cs0.len() as int));
            }
            self.cancel(c, w);
            k = k + 1;
        }
    }

    /// Advance `f` by one poll on behalf of the task behind `w`.
    ///
    /// The report is pinned exactly by `spec_outcome`; polling reads the
    /// clock and the task outcomes but only ever writes the two registries.
    /// Polling an already-resolved future is rejected with `AlreadyDone`
    /// and changes nothing.
    #[verifier::loop_isolation(false)]
    #[verifier::rlimit(100)]
    #[verifier::spinoff_prover]
    pub fn poll(&mut self, f: Fut, w: Waker) -> (r: (Fut, PollOut))
        requires
            fut_wf(f, old(self).nt()),
            w.task < old(self).nt(),
        ensures
            final(self).statuses == old(self).statuses,
            final(self).futs == old(self).futs,
            final(self).ready == old(self).ready,
            final(self).now == old(self).now,
            out_matches(r.1, spec_outcome(f, old(self).now, old(self).statuses@)),
            fut_wf(r.0, old(self).nt()),
            spec_resolved(f) ==> r.0 == f && final(self).timers == old(self).timers && final(self).waits == old(self).waits,
            spec_resolved(r.0) <==> (spec_resolved(f) || r.1 is Ready || r.1 is Panicked),
            entries_ok(old(self).timers@, old(self).nt(), old(self).now) ==> entries_ok(
                final(self).timers@,
                old(self).nt(),
                old(self).now,
            ),
            waits_ok(old(self).waits@, old(self).nt()) ==> waits_ok(
                final(self).waits@,
                old(self).nt(),
            ),
            waits_extended(old(self).waits@, final(self).waits@),
            f matches Fut::Sleep { dur, armed: false, done: false, .. } ==> (final(self).timers@ == old(self).timers@.push(TimerEntry { deadline: sat_add(old(self).now, dur), waker: w }) && r.0
                == (Fut::Sleep {
                dur,
                armed: true,
                deadline: sat_add(old(self).now, dur),
                done: false,
            }) && final(self).waits == old(self).waits),
            f matches Fut::Sleep { armed: true, deadline, done: false, .. } ==> (old(self).now
                >= deadline ==> (final(self).timers@ == remove_first_entry(
                old(self).timers@,
                TimerEntry { deadline, waker: w },
            ) && final(self).waits == old(self).waits)),
            f matches Fut::Sleep { armed: true, deadline, done: false, .. } ==> (old(self).now
                < deadline ==> (r.0 == f && final(self).timers == old(self).timers && final(self).waits == old(self).waits)),
            (f matches Fut::Instant { .. } || f matches Fut::Panics { .. } || f matches
                Fut::AwaitHandle { .. }) ==> final(self).timers == old(self).timers,
            (f matches Fut::Instant { .. } || f matches Fut::Panics { .. }) ==> final(self).waits
                == old(self).waits,
            f matches Fut::AwaitHandle { task, armed: false, done: false } ==> (spec_outcome(
                f,
                old(self).now,
                old(self).statuses@,
            ) is Pending ==> (final(self).waits@ == old(self).waits@.push(
                WaitEntry { task, waker: w },
            ) && r.0 == (Fut::AwaitHandle { task, armed: true, done: false }))),
            (f matches Fut::AwaitHandle { .. } && !(spec_outcome(
                f,
                old(self).now,
                old(self).statuses@,
            ) is Pending)) ==> final(self).waits == old(self).waits,
            f matches Fut::AwaitHandle { armed: true, done: false, .. } ==> final(self).waits
                == old(self).waits,
            f matches Fut::Join { children, slots, done: false } ==> (r.0 matches Fut::Join {
                children: c2,
                slots: s2,
                done: d2,
            } && c2@.len() == children@.len() && s2@.len() == children@.len()),
            f matches Fut::Join { children, slots, done: false } ==> (r.0 matches Fut::Join {
                children: c2,
                slots: s2,
                done: d2,
            } && (forall|j: int|
                0 <= j < children@.len() && slots@[j] is Some ==> c2@[j] == children@[j] && (
                #[trigger] s2@[j]) == slots@[j])),
            f matches Fut::Join { children, slots, done: false } ==> (r.1 is Panicked ==> (
            r.0 matches Fut::Join { children: c2, slots: s2, done: d2 }
                && crate::future::join_panic_frame(
                children@,
                slots@,
                c2@,
                s2@,
                old(self).now,
                old(self).statuses@,
            ))),
            f matches Fut::Select { children, done: false } ==> ((r.1 is Pending ==> (
            r.0 matches Fut::Select { children: c2, done: d2 } && !d2 && c2@.len()
                == children@.len())) && ((r.1 is Ready || r.1 is Panicked) ==> (
            r.0 matches Fut::Select { children: c2, done: d2 } && d2 && c2@.len() == 0))),
            f matches Fut::Select { children, done: false } ==> select_sleeps_cleanup(
                children@,
                w,
                old(self).timers@,
                final(self).timers@,
                old(self).now,
                old(self).statuses@,
            ),
        decreases fut_size(f), 0int,
    {
        let ghost nt0 = old(self).nt();
        let ghost now0 = old(self).now;
        let ghost st0 = old(self).statuses@;
        if is_resolved(&f) {
            return (f, PollOut::AlreadyDone);
        }
        let ghost f0 = f;
        match f {
            Fut::Instant { value, .. } => {
                let mut out: Vec<u64> = Vec::new();
                out.push(value);
                proof {
                    assert(out@ =~= seq![value]);
                }
                (Fut::Instant { value, done: true }, PollOut::Ready(out))
            },
            Fut::Panics { reason, .. } => {
                (Fut::Panics { reason, done: true }, PollOut::Panicked(reason))
            },
            Fut::Sleep { dur, armed, deadline, .. } => {
                if !armed {
                    let d: u64 = if dur > u64::MAX - self.now {
                        u64::MAX
                    } else {
                        self.now + dur
                    };
                    proof {
                        assert(d == sat_add(now0, dur));
                    }
                    self.timers.push(TimerEntry { deadline: d, waker: w });
                    (Fut::Sleep { dur, armed: true, deadline: d, done: false }, PollOut::Pending)
                } else if self.now >= deadline {
                    let ghost pre = self.timers@;
                    self.remove_timer_entry(TimerEntry { deadline, waker: w });
                    proof {
                        if entries_ok(pre, nt0, now0) {
                            lemma_remove_first_entries_ok(
                                pre,
                                TimerEntry { deadline, waker: w },
                                nt0,
                                now0,
                            );
                        }
                    }
                    (Fut::Sleep { dur, armed, deadline, done: true }, PollOut::Ready(Vec::new()))
                } else {
                    (Fut::Sleep { dur, armed, deadline, done: false }, PollOut::Pending)
                }
            },
            Fut::AwaitHandle { task, armed, .. } => {
                let mut finished: bool = false;
                let mut out: Vec<u64> = Vec::new();
                match &self.statuses[task] {
                    TaskState::Completed(v) => {
                        finished = true;
                        out.push(OUTCOME_OK);
                        append_vals(&mut out, v);
                        proof {
                            assert(out@ =~= seq![OUTCOME_OK] + v@);
                        }
                    },
                    TaskState::Panicked(rr) => {
                        finished = true;
                        out.push(OUTCOME_PANICKED);
                        out.push(*rr);
                        proof {
                            assert(out@ =~= seq![OUTCOME_PANICKED, *rr]);
                        }
                    },
                    _ => {},
                }
                if finished {
                    (Fut::AwaitHandle { task, armed, done: true }, PollOut::Ready(out))
                } else if armed {
                    (Fut::AwaitHandle { task, armed, done: false }, PollOut::Pending)
                } else {
                    self.waits.push(WaitEntry { task, waker: w });
                    (Fut::AwaitHandle { task, armed: true, done: false }, PollOut::Pending)
                }
            },
            Fut::Join { mut children, mut slots, .. } => {
                let ghost cs0 = children@;
                let ghost sl0 = slots@;
                let n: usize = children.len();
                let mut i: usize = 0;
                let mut any_pending: bool = false;
                let mut vals: Vec<u64> = Vec::new();
                proof {
                    assert(fut_size(f0) == 1 + fut_size_list(cs0, 0));
                    lemma_fut_wf_list_iff(cs0, nt0, 0);
                }
                while i < n
                    invariant
                        n == cs0.len(),
                        children@.len() == n,
                        slots@.len() == n,
                        sl0.len() == n,
                        i <= n,
                        self.statuses == old(self).statuses,
                        self.futs == old(self).futs,
                        self.ready == old(self).ready,
                        self.now == old(self).now,
                        entries_ok(old(self).timers@, nt0, now0) ==> entries_ok(
                            self.timers@,
                            nt0,
                            now0,
                        ),
                        waits_ok(old(self).waits@, nt0) ==> waits_ok(self.waits@, nt0),
                        waits_extended(old(self).waits@, self.waits@),
                        forall|j: int|
                            i <= j < n ==> (#[trigger] children@[j]) == cs0[j] && slots@[j]
                                == sl0[j],
                        forall|j: int|
                            0 <= j < i && sl0[j] is Some ==> (#[trigger] children@[j]) == cs0[j]
                                && slots@[j] == sl0[j],
                        forall|j: int| 0 <= j < n ==> fut_wf(#[trigger] children@[j], nt0),
                        forall|j: int|
                            0 <= j < i ==> ((#[trigger] slots@[j]) is Some <==> spec_resolved(
                                children@[j],
                            )),
                        forall|j: int|
                            0 <= j < i && (#[trigger] sl0[j]) is None ==> !(spec_outcome(
                                cs0[j],
                                now0,
                                st0,
                            ) is Panicked),
                        any_pending <==> (exists|j: int| 0 <= j < i && (#[trigger] slots@[j]) is None),
                        !any_pending ==> vals@ == crate::future::slots_prefix_vals(
                            slots@,
                            i as int,
                        ),
                        join_outcome(cs0, sl0, 0, now0, st0) == (match join_outcome(
                            children@,
                            slots@,
                            i as int,
                            now0,
                            st0,
                        ) {
                            JoinOut::AllReady(rest) => {
                                if any_pending {
                                    JoinOut::SomePending
                                } else {
                                    JoinOut::AllReady(vals@ + rest)
                                }
                            },
                            JoinOut::SomePending => JoinOut::SomePending,
                            JoinOut::Panicked(rr) => JoinOut::Panicked(rr),
                        }),
                    decreases n - i,
                {
                    let ghost ch_head = children@;
                    let ghost slots_head = slots@;
                    let ghost vals_head = vals@;
                    let mut is_some: bool = false;
                    match &slots[i] {
                        Some(v) => {
                            is_some = true;
                            append_vals(&mut vals, v);
                        },
                        None => {},
                    }
                    if !is_some {
                        let mut tmp: Fut = Fut::Instant { value: 0, done: true };
                        children.set_and_swap(i, &mut tmp);
                        proof {
                            assert(tmp == cs0[i as int]);
                            lemma_fut_size_list_elem(cs0, 0, i as int);
                        }
                        let (c2, res) = self.poll(tmp, w);
                        children.set(i, c2);
                        match res {
                            PollOut::Ready(v) => {
                                append_vals(&mut vals, &v);
                                slots.set(i, Some(v));
                            },
                            PollOut::Pending => {
                                any_pending = true;
                                proof {
                                    assert(slots@[i as int] is None);
                                }
                            },
                            PollOut::Panicked(rr) => {
                                proof {
                                    assert(spec_outcome(cs0[i as int], now0, st0)
                                        == FutOut::Panicked(rr));
                                    assert(join_outcome(ch_head, slots_head, i as int, now0, st0)
                                        == JoinOut::Panicked(rr));
                                    assert(join_outcome(cs0, sl0, 0, now0, st0)
                                        == JoinOut::Panicked(rr));
                                    lemma_fut_wf_list_iff(children@, nt0, 0);
                                    assert(sl0[i as int] is None);
                                    assert forall|j: int| i < j < cs0.len() implies (
                                    #[trigger] children@[j]) == cs0[j] && slots@[j] == sl0[j] by {
                                        assert(children@[j] == ch_head[j] && slots@[j]
                                            == slots_head[j]);
                                        assert(ch_head[j] == cs0[j] && slots_head[j] == sl0[j]);
                                    }
                                    assert(0 <= i < cs0.len() && sl0[i as int] is None
                                        && spec_outcome(cs0[i as int], now0, st0) is Panicked && (
                                    forall|j: int|
                                        i < j < cs0.len() ==> (#[trigger] children@[j]) == cs0[j]
                                            && slots@[j] == sl0[j]));
                                    assert forall|j: int|
                                        0 <= j < cs0.len() && sl0[j] is Some implies (
                                    #[trigger] children@[j]) == cs0[j] && slots@[j] == sl0[j] by {
                                        if j < i {
                                            assert(children@[j] == ch_head[j] && slots@[j]
                                                == slots_head[j]);
                                        }
                                    }
                                }
                                proof {
                                    assert(crate::future::join_panic_at(
                                        cs0,
                                        sl0,
                                        children@,
                                        slots@,
                                        i as int,
                                        now0,
                                        st0,
                                    ));
                                    assert(crate::future::join_panic_frame(
                                        cs0,
                                        sl0,
                                        children@,
                                        slots@,
                                        now0,
                                        st0,
                                    ));
                                }
                                return (
                                    Fut::Join { children, slots, done: true },
                                    PollOut::Panicked(rr),
                                );
                            },
                            PollOut::AlreadyDone => {
                                proof {
                                    assert(false);
                                }
                            },
                        }
                    }
                    proof {
                        assert(forall|j: int|
                            0 <= j < n && j != i ==> (#[trigger] children@[j]) == ch_head[j]
                                && slots@[j] == slots_head[j]);
                        assert forall|j: int| i + 1 <= j < n implies (#[trigger] children@[j])
                            == cs0[j] && slots@[j] == sl0[j] by {
                            assert(children@[j] == ch_head[j]);
                            assert(ch_head[j] == cs0[j] && slots_head[j] == sl0[j]);
                        }
                        if !any_pending {
                            assert(vals@ == crate::future::slots_prefix_vals(
                                slots@,
                                i as int + 1,
                            )) by {
                                crate::future::lemma_slots_prefix_agree(
                                    slots_head,
                                    slots@,
                                    i as int,
                                );
                                assert(vals@ =~= crate::future::slots_prefix_vals(
                                    slots@,
                                    i as int + 1,
                                ));
                            };
                        }
                        assert(any_pending <==> (exists|j: int|
                            0 <= j < i + 1 && (#[trigger] slots@[j]) is None)) by {
                            if any_pending {
                                if slots@[i as int] is None {
                                    assert(0 <= i < i + 1 && slots@[i as int] is None);
                                } else {
                                    let jw = choose|j: int|
                                        0 <= j < i && (#[trigger] slots_head[j]) is None;
                                    assert(slots@[jw] == slots_head[jw]);
                                    assert(0 <= jw < i + 1 && slots@[jw] is None);
                                }
                            } else {
                                assert forall|j: int|
                                    0 <= j < i + 1 implies !((#[trigger] slots@[j]) is None) by {
                                    if j != i {
                                        assert(slots@[j] == slots_head[j]);
                                    }
                                }
                            }
                        }
                        assert(join_outcome(cs0, sl0, 0, now0, st0) == (match join_outcome(
                            children@,
                            slots@,
                            i as int + 1,
                            now0,
                            st0,
                        ) {
                            JoinOut::AllReady(rest) => {
                                if any_pending {
                                    JoinOut::SomePending
                                } else {
                                    JoinOut::AllReady(vals@ + rest)
                                }
                            },
                            JoinOut::SomePending => JoinOut::SomePending,
                            JoinOut::Panicked(rr) => JoinOut::Panicked(rr),
                        })) by {
                            crate::future::lemma_join_outcome_agree(
                                ch_head,
                                slots_head,
                                children@,
                                slots@,
                                i as int + 1,
                                now0,
                                st0,
                            );
                            assert(join_outcome(ch_head, slots_head, i as int, now0, st0) == (
                            match join_outcome(children@, slots@, i as int + 1, now0, st0) {
                                JoinOut::AllReady(rest) => {
                                    match slots@[i as int] {
                                        Some(v) => JoinOut::AllReady(v@ + rest),
                                        None => JoinOut::SomePending,
                                    }
                                },
                                JoinOut::SomePending => JoinOut::SomePending,
                                JoinOut::Panicked(rr) => JoinOut::Panicked(rr),
                            }));
                            match join_outcome(children@, slots@, i as int + 1, now0, st0) {
                                JoinOut::AllReady(rest) => {
                                    match slots@[i as int] {
                                        Some(v) => {
                                            assert((vals_head + v@) + rest =~= vals_head + (v@
                                                + rest));
                                        },
                                        None => {},
                                    }
                                },
                                _ => {},
                            }
                        };
                    }
                    i = i + 1;
                }
                if any_pending {
                    proof {
                        lemma_fut_wf_list_iff(children@, nt0, 0);
                    }
                    (Fut::Join { children, slots, done: false }, PollOut::Pending)
                } else {
                    proof {
                        assert(join_outcome(children@, slots@, n as int, now0, st0)
                            == JoinOut::AllReady(Seq::<u64>::empty()));
                        assert(vals@ + Seq::<u64>::empty() =~= vals@);
                        lemma_fut_wf_list_iff(children@, nt0, 0);
                    }
                    (Fut::Join { children, slots, done: true }, PollOut::Ready(vals))
                }
            },
            Fut::Select { mut children, .. } => {
                let ghost cs0 = children@;
                let ghost allsleep = forall|j: int|
                    0 <= j < cs0.len() ==> (#[trigger] cs0[j]) matches Fut::Sleep {
                        armed: true,
                        done: false,
                        ..
                    };
                let n: usize = children.len();
                let mut i: usize = 0;
                proof {
                    assert(fut_size(f0) == 1 + fut_size_list(cs0, 0));
                    lemma_fut_wf_list_iff(cs0, nt0, 0);
                }
                while i < n
                    invariant
                        n == cs0.len(),
                        children@.len() == n,
                        i <= n,
                        self.statuses == old(self).statuses,
                        self.futs == old(self).futs,
                        self.ready == old(self).ready,
                        self.now == old(self).now,
                        entries_ok(old(self).timers@, nt0, now0) ==> entries_ok(
                            self.timers@,
                            nt0,
                            now0,
                        ),
                        waits_ok(old(self).waits@, nt0) ==> waits_ok(self.waits@, nt0),
                        waits_extended(old(self).waits@, self.waits@),
                        forall|j: int| i <= j < n ==> (#[trigger] children@[j]) == cs0[j],
                        forall|j: int|
                            0 <= j < i ==> spec_outcome(#[trigger] cs0[j], now0, st0) is Pending,
                        forall|j: int| 0 <= j < n ==> fut_wf(#[trigger] children@[j], nt0),
                        forall|j: int| 0 <= j < n ==> !spec_resolved(#[trigger] children@[j]),
                        select_outcome(cs0, 0, now0, st0) == select_outcome(
                            cs0,
                            i as int,
                            now0,
                            st0,
                        ),
                        allsleep ==> self.timers@ == old(self).timers@,
                        allsleep ==> (forall|j: int|
                            0 <= j < n ==> (#[trigger] children@[j]) == cs0[j]),
                    decreases n - i,
                {
                    let mut tmp: Fut = Fut::Instant { value: 0, done: true };
                    children.set_and_swap(i, &mut tmp);
                    proof {
                        assert(tmp == cs0[i as int]);
                        lemma_fut_size_list_elem(cs0, 0, i as int);
                    }
                    let (c2, res) = self.poll(tmp, w);
                    match res {
                        PollOut::Pending => {
                            children.set(i, c2);
                            proof {
                                if allsleep {
                                    assert(cs0[i as int] matches Fut::Sleep {
                                        armed: true,
                                        done: false,
                                        ..
                                    });
                                    assert(c2 == cs0[i as int]);
                                }
                            }
                            i = i + 1;
                        },
                        PollOut::Ready(v) => {
                            children.set(i, c2);
                            let mut out: Vec<u64> = Vec::new();
                            out.push(i as u64);
                            append_vals(&mut out, &v);
                            proof {
                                assert(select_outcome(cs0, i as int, now0, st0)
                                    == SelOut::Winner(i as int, v@));
                                assert(out@ =~= seq![i as u64] + v@);
                            }
                            let ghost pre = self.timers@;
                            let ghost cc = children@;
                            self.cancel_children(children, w);
                            proof {
                                if entries_ok(pre, nt0, now0) {
                                    lemma_cancel_list_entries_ok(cc, w, pre, 0, nt0, now0);
                                }
                                if allsleep {
                                    assert(cs0[i as int] matches Fut::Sleep {
                                        armed: true,
                                        done: false,
                                        ..
                                    });
                                    assert(pre == remove_first_entry(
                                        old(self).timers@,
                                        sleep_entry(cs0[i as int], w),
                                    ));
                                    lemma_cancel_armed_sleep_list(cs0, cc, i as int, w, pre, 0);
                                    assert(self.timers@ == cancel_armed_sleeps(
                                        cs0,
                                        i as int,
                                        w,
                                        pre,
                                        0,
                                    ));
                                }
                                assert(select_sleeps_cleanup(
                                    cs0,
                                    w,
                                    old(self).timers@,
                                    self.timers@,
                                    now0,
                                    st0,
                                ));
                            }
                            return (
                                Fut::Select { children: Vec::new(), done: true },
                                PollOut::Ready(out),
                            );
                        },
                        PollOut::Panicked(rr) => {
                            children.set(i, c2);
                            proof {
                                assert(select_outcome(cs0, i as int, now0, st0)
                                    == SelOut::Panicked(rr));
                                if allsleep {
                                    assert(cs0[i as int] matches Fut::Sleep {
                                        armed: true,
                                        done: false,
                                        ..
                                    });
                                    assert(false);
                                }
                            }
                            let ghost pre = self.timers@;
                            let ghost cc = children@;
                            self.cancel_children(children, w);
                            proof {
                                if entries_ok(pre, nt0, now0) {
                                    lemma_cancel_list_entries_ok(cc, w, pre, 0, nt0, now0);
                                }
                                assert(select_sleeps_cleanup(
                                    cs0,
                                    w,
                                    old(self).timers@,
                                    self.timers@,
                                    now0,
                                    st0,
                                ));
                            }
                            return (
                                Fut::Select { children: Vec::new(), done: true },
                                PollOut::Panicked(rr),
                            );
                        },
                        PollOut::AlreadyDone => {
                            proof {
                                assert(false);
                            }
                            children.set(i, c2);
                        },
                    }
                }
                proof {
                    lemma_fut_wf_list_iff(children@, nt0, 0);
                    assert(select_sleeps_cleanup(
                        cs0,
                        w,
                        old(self).timers@,
                        self.timers@,
                        now0,
                        st0,
                    ));
                }
                (Fut::Select { children, done: false }, PollOut::Pending)
            },
        }
    }

    /// Hand `f` to the executor as a new independently scheduled task and
    /// return a handle to its eventual outcome immediately: spawning never
    /// suspends, and the executor's new state is fully determined here —
    /// what the caller later does with the handle (even dropping it at
    /// once) cannot affect the spawned task's progress.
    pub fn spawn(&mut self, f: Fut) -> (h: JoinHandle)
        requires
            old(self).wf(),
            fut_wf(f, old(self).nt()),
            !spec_resolved(f),
        ensures
            final(self).wf(),
            h.task == old(self).nt(),
            final(self).nt() == old(self).nt() + 1,
            final(self).statuses@ == old(self).statuses@.push(TaskState::Runnable),
            final(self).futs@ == old(self).futs@.push(f),
            final(self).ready@ == old(self).ready@.push(h.task),
            final(self).timers == old(self).timers,
            final(self).waits == old(self).waits,
            final(self).now == old(self).now,
    {
        let id = self.statuses.len();
        self.statuses.push(TaskState::Runnable);
        self.futs.push(f);
        self.ready.push(id);
        proof {
            let nt1 = old(self).nt();
            lemma_fut_wf_mono(f, nt1, nt1 + 1);
            assert forall|t: int| 0 <= t < nt1 + 1 implies fut_wf(
                #[trigger] self.futs@[t],
                nt1 + 1,
            ) by {
                if t < nt1 {
                    lemma_fut_wf_mono(self.futs@[t], nt1, nt1 + 1);
                }
            }
        }
        JoinHandle { task: id }
    }

    /// Wake, in registration order, every waiter registered on task `tid`.
    fn notify_waiters(&mut self, tid: usize)
        requires
            old(self).wf(),
        ensures
            final(self).wf(),
            final(self).nt() == old(self).nt(),
            final(self).futs == old(self).futs,
            final(self).timers == old(self).timers,
            final(self).now == old(self).now,
            (final(self).statuses@, final(self).ready@, final(self).waits@) == spec_notify(
                old(self).waits@,
                old(self).waits@.len() as int,
                tid,
                old(self).statuses@,
                old(self).ready@,
            ),
            forall|i: int|
                0 <= i < final(self).waits@.len() ==> (#[trigger] final(self).waits@[i]).task
                    != tid,
            old(self).ready@.is_prefix_of(final(self).ready@),
            forall|t: int|
                0 <= t < old(self).nt() ==> final(self).statuses@[t] == old(self).statuses@[t]
                    || (old(self).statuses@[t] is Suspended && final(self).statuses@[t]
                    is Runnable),
    {
        let mut olds: Vec<WaitEntry> = Vec::new();
        core::mem::swap(&mut self.waits, &mut olds);
        let ghost ws0 = olds@;
        let mut i: usize = 0;
        while i < olds.len()
            invariant
                i <= ws0.len(),
                olds@ == ws0,
                waits_ok(ws0, old(self).nt()),
                self.wf(),
                self.nt() == old(self).nt(),
                self.futs == old(self).futs,
                self.timers == old(self).timers,
                self.now == old(self).now,
                (self.statuses@, self.ready@, self.waits@) == spec_notify(
                    ws0,
                    i as int,
                    tid,
                    old(self).statuses@,
                    old(self).ready@,
                ),
                forall|j: int|
                    0 <= j < self.waits@.len() ==> (#[trigger] self.waits@[j]).task != tid,
                old(self).ready@.is_prefix_of(self.ready@),
                forall|t: int|
                    0 <= t < old(self).nt() ==> self.statuses@[t] == old(self).statuses@[t] || (
                    old(self).statuses@[t] is Suspended && self.statuses@[t] is Runnable),
            decreases ws0.len() - i,
        {
            let e = olds[i];
            if e.task == tid {
                self.wake(e.waker);
            } else {
                self.waits.push(e);
            }
            i = i + 1;
        }
    }

    /// Dequeue the task at the head of the FIFO ready queue, poll its
    /// future once, and record the result: `Pending` suspends the task,
    /// `Ready` or a fatal failure finishes it and wakes, in registration
    /// order, every task awaiting its handle.
    pub fn step(&mut self)
        requires
            old(self).wf(),
            old(self).ready@.len() > 0,
        ensures
            final(self).wf(),
            final(self).nt() == old(self).nt(),
            final(self).now == old(self).now,
            ({
                let tid = old(self).ready@[0] as int;
                let out = spec_outcome(
                    old(self).futs@[tid],
                    old(self).now,
                    old(self).statuses@,
                );
                &&& (out is Pending ==> final(self).statuses@ == old(self).statuses@.update(
                    tid,
                    TaskState::Suspended,
                ) && final(self).ready@ == old(self).ready@.drop_first())
                &&& (out matches FutOut::Ready(v) ==> final(self).statuses@[tid] matches
                    TaskState::Completed(cv) && cv@ == v)
                &&& (out matches FutOut::Panicked(rr) ==> final(self).statuses@[tid] == (
                TaskState::Panicked(rr)))
                &&& ((out is Ready || out is Panicked) ==> old(self).ready@.drop_first().is_prefix_of(final(self).ready@))
                &&& ((out is Ready || out is Panicked) ==> (exists|ws: Seq<WaitEntry>|
                    #[trigger] notified_from(
                        ws,
                        old(self).waits@,
                        old(self).ready@[0],
                        old(self).statuses@.update(tid, final(self).statuses@[tid]),
                        old(self).ready@.drop_first(),
                        final(self).statuses@,
                        final(self).ready@,
                        final(self).waits@,
                    )))
                &&& ((out is Ready || out is Panicked) ==> (forall|i: int|
                    0 <= i < final(self).waits@.len() ==> (#[trigger] final(self).waits@[i]).task != old(self).ready@[0]))
                &&& final(self).futs@.len() == old(self).futs@.len()
                &&& (forall|t: int|
                    0 <= t < old(self).futs@.len() && t != tid ==> final(self).futs@[t] == old(self).futs@[t])
                &&& (forall|t: int|
                    0 <= t < old(self).nt() && t != tid ==> final(self).statuses@[t] == old(self).statuses@[t] || (old(self).statuses@[t] is Suspended && final(self).statuses@[t] is Runnable))
            }),
    {
        let tid = self.ready.remove(0);
        let ghost out0 = spec_outcome(self.futs@[tid as int], self.now, self.statuses@);
        let mut fut0: Fut = Fut::Instant { value: 0, done: true };
        self.futs.set_and_swap(tid, &mut fut0);
        let (f2, res) = self.poll(fut0, Waker { task: tid });
        self.futs.set(tid, f2);
        match res {
            PollOut::Pending => {
                self.statuses.set(tid, TaskState::Suspended);
            },
            PollOut::Ready(v) => {
                self.statuses.set(tid, TaskState::Completed(v));
                let ghost ws_pre = self.waits@;
                let ghost sts_pre = self.statuses@;
                let ghost rdy_pre = self.ready@;
                self.notify_waiters(tid);
                proof {
                    assert(rdy_pre =~= old(self).ready@.drop_first());
                    assert(old(self).statuses@.update(tid as int, self.statuses@[tid as int])
                        =~= sts_pre);
                    assert(notified_from(
                        ws_pre,
                        old(self).waits@,
                        tid,
                        old(self).statuses@.update(tid as int, self.statuses@[tid as int]),
                        old(self).ready@.drop_first(),
                        self.statuses@,
                        self.ready@,
                        self.waits@,
                    ));
                }
            },
            PollOut::Panicked(rr) => {
                self.statuses.set(tid, TaskState::Panicked(rr));
                let ghost ws_pre = self.waits@;
                let ghost sts_pre = self.statuses@;
                let ghost rdy_pre = self.ready@;
                self.notify_waiters(tid);
                proof {
                    assert(rdy_pre =~= old(self).ready@.drop_first());
                    assert(old(self).statuses@.update(tid as int, self.statuses@[tid as int])
                        =~= sts_pre);
                    assert(notified_from(
                        ws_pre,
                        old(self).waits@,
                        tid,
                        old(self).statuses@.update(tid as int, self.statuses@[tid as int]),
                        old(self).ready@.drop_first(),
                        self.statuses@,
                        self.ready@,
                        self.waits@,
                    ));
                }
            },
            PollOut::AlreadyDone => {
                proof {
                    assert(false);
                }
            },
        }
    }

    /// Jump the clock to the earliest pending deadline, then fire every due
    /// timer: the clock is monotonic and never skips past a deadline.
    pub fn advance_clock(&mut self)
        requires
            old(self).wf(),
            old(self).timers@.len() > 0,
        ensures
            final(self).wf(),
            final(self).nt() == old(self).nt(),
            final(self).futs == old(self).futs,
            final(self).waits == old(self).waits,
            final(self).now == min_deadline_upto(
                old(self).timers@,
                old(self).timers@.len() as int,
            ),
            final(self).now >= old(self).now,
            (final(self).timers@, final(self).statuses@, final(self).ready@) == spec_fire(
                old(self).timers@,
                final(self).now,
                old(self).statuses@,
                old(self).ready@,
            ),
            forall|i: int|
                0 <= i < final(self).timers@.len() ==> (#[trigger] final(self).timers@[i]).deadline > final(self).now,
            old(self).ready@.is_prefix_of(final(self).ready@),
            forall|t: int|
                0 <= t < old(self).nt() ==> final(self).statuses@[t] == old(self).statuses@[t]
                    || (old(self).statuses@[t] is Suspended && final(self).statuses@[t]
                    is Runnable),
    {
        let ghost ts0 = self.timers@;
        let mut m: u64 = self.timers[0].deadline;
        let mut i: usize = 1;
        while i < self.timers.len()
            invariant
                self == old(self),
                1 <= i <= ts0.len(),
                self.timers@ == ts0,
                m == min_deadline_upto(ts0, i as int),
            decreases ts0.len() - i,
        {
            if self.timers[i].deadline < m {
                m = self.timers[i].deadline;
            }
            i = i + 1;
        }
        proof {
            lemma_min_deadline_props(ts0, ts0.len() as int);
        }
        self.now = m;
        self.fire_due();
    }

    /// Fire every due timer, in deadline order with insertion order
    /// breaking ties: remove its entry and wake its task.
    fn fire_due(&mut self)
        requires
            old(self).wf(),
        ensures
            final(self).wf(),
            final(self).nt() == old(self).nt(),
            final(self).futs == old(self).futs,
            final(self).waits == old(self).waits,
            final(self).now == old(self).now,
            (final(self).timers@, final(self).statuses@, final(self).ready@) == spec_fire(
                old(self).timers@,
                old(self).now,
                old(self).statuses@,
                old(self).ready@,
            ),
            forall|i: int|
                0 <= i < final(self).timers@.len() ==> (#[trigger] final(self).timers@[i]).deadline > final(self).now,
            old(self).ready@.is_prefix_of(final(self).ready@),
            forall|t: int|
                0 <= t < old(self).nt() ==> final(self).statuses@[t] == old(self).statuses@[t]
                    || (old(self).statuses@[t] is Suspended && final(self).statuses@[t]
                    is Runnable),
    {
        loop
            invariant
                self.wf(),
                self.nt() == old(self).nt(),
                self.futs == old(self).futs,
                self.waits == old(self).waits,
                self.now == old(self).now,
                old(self).ready@.is_prefix_of(self.ready@),
                spec_fire(old(self).timers@, old(self).now, old(self).statuses@, old(self).ready@)
                    == spec_fire(self.timers@, self.now, self.statuses@, self.ready@),
                forall|t: int|
                    0 <= t < old(self).nt() ==> self.statuses@[t] == old(self).statuses@[t] || (
                    old(self).statuses@[t] is Suspended && self.statuses@[t] is Runnable),
            decreases self.timers@.len(),
        {
            if self.timers.len() == 0 {
                return ;
            }
            let ghost ts0 = self.timers@;
            let mut idx: usize = 0;
            let mut i: usize = 1;
            while i < self.timers.len()
                invariant
                    self.timers@ == ts0,
                    ts0.len() > 0,
                    1 <= i <= ts0.len(),
                    idx as int == min_due_index_upto(ts0, i as int),
                    idx < i,
                decreases ts0.len() - i,
            {
                if self.timers[i].deadline < self.timers[idx].deadline {
                    idx = i;
                }
                i = i + 1;
            }
            proof {
                lemma_min_due_index_props(ts0, ts0.len() as int);
            }
            if self.timers[idx].deadline > self.now {
                return ;
            }
            let e = self.timers[idx];
            let ghost sts_pre = self.statuses@;
            let ghost rdy_pre = self.ready@;
            self.timers.remove(idx);
            self.wake(e.waker);
            proof {
                assert(spec_fire(ts0, self.now, sts_pre, rdy_pre) == spec_fire(
                    ts0.remove(idx as int),
                    self.now,
                    self.statuses@,
                    self.ready@,
                ));
            }
        }
    }

    /// Drive `f` to completion: create a task for it and run the executor
    /// loop — poll runnable tasks FIFO, and when nothing is runnable jump
    /// the clock to the earliest deadline — for at most `rounds` scheduling
    /// rounds or until `f`'s task finishes.  The result is pinned to the
    /// final state of `f`'s task: `Ok` exactly when it completed,
    /// `Err(Panicked)` exactly when it failed fatally, `Err(Stalled)`
    /// exactly when nothing was runnable and no timer was pending while it
    /// was still unfinished, and `Err(OutOfRounds)` only when the round
    /// budget ran out with work still pending.
    pub fn block_on(&mut self, f: Fut, rounds: u64) -> (r: Result<Vec<u64>, RunError>)
        requires
            old(self).wf(),
            fut_wf(f, old(self).nt()),
            !spec_resolved(f),
        ensures
            final(self).wf(),
            final(self).nt() == old(self).nt() + 1,
            final(self).now >= old(self).now,
            r matches Ok(v) ==> (final(self).statuses@[old(self).nt() as int] matches
                TaskState::Completed(cv) && cv@ == v@),
            r is Err ==> !(final(self).statuses@[old(self).nt() as int] is Completed),
            r matches Err(e) ==> (e matches RunError::Panicked(rr) ==> final(self).statuses@[old(self).nt() as int] == (TaskState::Panicked(rr))),
            r == Err::<Vec<u64>, RunError>(RunError::Stalled) || r == Err::<Vec<u64>, RunError>(RunError::OutOfRounds) ==> !(final(self).statuses@[old(self).nt() as int] is Panicked),
            r == Err::<Vec<u64>, RunError>(RunError::Stalled) ==> final(self).ready@.len() == 0 && final(self).timers@.len() == 0,
            r == Err::<Vec<u64>, RunError>(RunError::OutOfRounds) ==> final(self).ready@.len() > 0 || final(self).timers@.len() > 0,
            (final(self).ready@.len() == 0 && final(self).timers@.len() == 0 && !(final(self).statuses@[old(self).nt() as int] is Completed) && !(final(self).statuses@[old(self).nt() as int] is Panicked)) ==> r == Err::<Vec<u64>, RunError>(RunError::Stalled),
            rounds == 0 ==> r == Err::<Vec<u64>, RunError>(RunError::OutOfRounds),
    {
        let root = self.spawn(f);
        let mut budget: u64 = rounds;
        loop
            invariant
                self.wf(),
                root.task == old(self).nt(),
                self.nt() == old(self).nt() + 1,
                self.now >= old(self).now,
                rounds == 0 ==> budget == 0 && self.ready@.len() > 0 && self.statuses@[root.task as int] is Runnable,
            decreases budget,
        {
            let mut finished_ok: bool = false;
            let mut finished_panic: bool = false;
            let mut reason: u64 = 0;
            match &self.statuses[root.task] {
                TaskState::Completed(_v) => {
                    finished_ok = true;
                },
                TaskState::Panicked(rr) => {
                    finished_panic = true;
                    reason = *rr;
                },
                _ => {},
            }
            if finished_ok {
                let out = match &self.statuses[root.task] {
                    TaskState::Completed(v) => copy_vals(v),
                    _ => Vec::new(),
                };
                return Ok(out);
            }
            if finished_panic {
                return Err(RunError::Panicked(reason));
            }
            if self.ready.len() == 0 && self.timers.len() == 0 {
                return Err(RunError::Stalled);
            }
            if budget == 0 {
                return Err(RunError::OutOfRounds);
            }
            budget = budget - 1;
            if self.ready.len() > 0 {
                self.step();
            } else {
                self.advance_clock();
            }
        }
    }
}

} // verus!
