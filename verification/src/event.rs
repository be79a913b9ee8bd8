//! The event: a signal flag and a wait lot, with the state machine that a
//! waiting task runs each time it is polled.
//!
//! The event keeps the state of each of its waiters in a registry keyed by
//! a waiter id; a waiter is polled and dropped through the event. This keeps
//! in one place everything that the counting of waiting tasks rests on.

use vstd::prelude::*;
use std::collections::HashMap;
use core::ops::ControlFlow;
use crate::lot::{
    AsyncLotSignature, first_valid, after_unpark, invalidated, valid_tickets, valid_wakers,
    wakers_kept, lemma_unpark_valid_tickets, lemma_valid_order,
};
use crate::task::Poll;
use crate::yielder::Yield;

verus! {

broadcast use vstd::std_specs::hash::group_hash_axioms;

/// How many times a waiter that lost a race spins before it yields.
pub const BACKOFF_MAX: usize = 3;

/// The flag value of an event that is not set.
pub const SIGNAL_FREE: u8 = 0b00;

/// The flag value of a set event.
pub const SIGNAL_SET: u8 = 0b10;

/// Calls `core::hint::spin_loop`, a processor hint for busy waiting. It has
/// no effect that the library could observe, and nothing is stated of it.
#[verifier::external_body]
fn spin_hint() {
    core::hint::spin_loop()
}

/// The interface of every event of this crate.
///
/// An event is created set or unset. A task waits on it through a waiter,
/// which it polls until the poll answers `Ready`; `set_one` wakes the
/// oldest waiting task, or sets the event when no task waits; `set_all`
/// wakes them all; `try_wait` takes a set event at once, unless tasks are
/// already waiting for it.
pub trait EventSetter: Sized {
    /// A handle on one wait.
    type Waiter;

    spec fn wf(&self) -> bool;

    /// Whether the event is set.
    spec fn is_set(&self) -> bool;

    /// Whether some task is counted as waiting.
    spec fn is_waited(&self) -> bool;

    /// Whether the event's counters have room for one more wait.
    spec fn room(&self) -> bool;

    /// Whether a task is queued that a wake would reach.
    spec fn queued(&self) -> bool;

    /// The identity of the event, which the waits that it issues carry.
    spec fn instance(&self) -> int;

    /// The identity of the event that issued the wait `waiter`.
    spec fn issuer(waiter: Self::Waiter) -> int;

    /// What `new` (unset) and `new_set` (set) return.
    spec fn fresh_spec(self, set: bool) -> bool;

    /// What `wait` does: `self` before, `after` after.
    spec fn wait_spec(self, after: Self, waiter: Self::Waiter) -> bool;

    /// What `poll_waiter` does, polled with the task's `waker`.
    spec fn poll_spec(self, after: Self, waiter: Self::Waiter, waker: std::task::Waker, r: Poll) -> bool;

    /// What `drop_waiter` does.
    spec fn drop_spec(self, after: Self, waiter: Self::Waiter) -> bool;

    /// What `set_one` does.
    spec fn set_one_spec(self, after: Self, woke: bool) -> bool;

    /// What `set_all` does.
    spec fn set_all_spec(self, after: Self) -> bool;

    /// What `try_wait` does.
    spec fn try_wait_spec(self, after: Self, acquired: bool) -> bool;

    /// An event in the unset state.
    fn new() -> (e: Self)
        ensures
            e.wf(),
            !e.is_set(),
            !e.is_waited(),
            e.room(),
            e.fresh_spec(false),
    ;

    /// An event in the set state.
    fn new_set() -> (e: Self)
        ensures
            e.wf(),
            e.is_set(),
            !e.is_waited(),
            e.room(),
            e.fresh_spec(true),
    ;

    /// Starts a wait on the event.
    fn wait(&mut self) -> (w: Self::Waiter)
        requires
            old(self).wf(),
            old(self).room(),
        ensures
            final(self).wf(),
            final(self).is_set() == old(self).is_set(),
            final(self).is_waited() == old(self).is_waited(),
            final(self).instance() == old(self).instance(),
            Self::issuer(w) == old(self).instance(),
            old(self).wait_spec(*final(self), w),
    ;

    /// Polls a wait that this event issued, with the task's `waker`.
    fn poll_waiter(&mut self, waiter: &Self::Waiter, waker: &std::task::Waker) -> (r: Poll)
        requires
            old(self).wf(),
            old(self).room(),
            Self::issuer(*waiter) == old(self).instance(),
        ensures
            final(self).wf(),
            final(self).instance() == old(self).instance(),
            old(self).poll_spec(*final(self), *waiter, *waker, r),
    ;

    /// Drops a wait; a task that was queued no longer counts as waiting,
    /// and a wake that it was handed and did not see is passed on.
    fn drop_waiter(&mut self, waiter: Self::Waiter)
        requires
            old(self).wf(),
            Self::issuer(waiter) == old(self).instance(),
        ensures
            final(self).wf(),
            final(self).instance() == old(self).instance(),
            old(self).is_set() ==> final(self).is_set(),
            old(self).drop_spec(*final(self), waiter),
    ;

    /// Wakes the oldest waiting task, or sets the event when none is queued.
    /// Returns whether a task was woken.
    fn set_one(&mut self) -> (woke: bool)
        requires
            old(self).wf(),
        ensures
            final(self).wf(),
            final(self).instance() == old(self).instance(),
            !woke ==> final(self).is_set(),
            woke ==> final(self).is_set() == old(self).is_set(),
            final(self).is_waited() == old(self).is_waited(),
            old(self).set_one_spec(*final(self), woke),
    ;

    /// Wakes every queued task, calling `functor` once for each; sets the
    /// event when none was queued. The functor is called only when a task
    /// is woken: it need not be callable otherwise.
    fn set_all<F: FnMut()>(&mut self, functor: F)
        requires
            old(self).wf(),
            old(self).queued() ==> call_requires(functor, ()),
        ensures
            final(self).wf(),
            final(self).instance() == old(self).instance(),
            final(self).is_waited() == old(self).is_waited(),
            old(self).queued() ==> call_ensures(functor, (), ()),
            old(self).queued() ==> final(self).is_set() == old(self).is_set(),
            !old(self).queued() ==> final(self).is_set(),
            !final(self).queued(),
            old(self).set_all_spec(*final(self)),
    ;

    /// Takes the event at once if it is set and no task waits for it; the
    /// event is then no longer set.
    fn try_wait(&mut self) -> (acquired: bool)
        requires
            old(self).wf(),
        ensures
            final(self).wf(),
            final(self).instance() == old(self).instance(),
            acquired ==> old(self).is_set() && !old(self).is_waited() && !final(self).is_set(),
            !acquired ==> final(self).is_set() == old(self).is_set(),
            final(self).is_waited() == old(self).is_waited(),
            old(self).try_wait_spec(*final(self), acquired),
    ;

    /// Whether some task is counted as waiting on the event.
    fn has_waiters(&self) -> (b: bool)
        requires
            self.wf(),
        ensures
            b == self.is_waited(),
    ;

    /// Whether the event's counters have room for one more wait.
    fn has_room(&self) -> (b: bool)
        requires
            self.wf(),
        ensures
            b == self.room(),
    ;
}

/// The cell that holds an event's flag.
pub trait EventState: Sized {
    spec fn value(&self) -> u8;

    /// Whether a failed exchange always means that the value differed; a
    /// weak exchange may also fail spuriously.
    spec fn cas_is_strong() -> bool;

    fn new(state: u8) -> (s: Self)
        ensures
            s.value() == state,
    ;

    /// Replaces the value by `new` if it is `current`. On failure the value
    /// is unchanged and returned.
    fn cmpxchng_weak(&mut self, current: u8, new: u8) -> (r: Result<u8, u8>)
        ensures
            match r {
                Ok(_) => old(self).value() == current && final(self).value() == new,
                Err(v) => {
                    &&& v == old(self).value()
                    &&& final(self).value() == old(self).value()
                    &&& Self::cas_is_strong() ==> v != current
                },
            },
    ;

    fn store(&mut self, value: u8)
        ensures
            final(self).value() == value,
    ;
}

/// A plain flag cell.
pub struct LocalState(u8);

impl EventState for LocalState {
    closed spec fn value(&self) -> u8 {
        self.0
    }

    open spec fn cas_is_strong() -> bool {
        true
    }

    fn new(state: u8) -> (s: Self) {
        LocalState(state)
    }

    fn cmpxchng_weak(&mut self, current: u8, new: u8) -> (r: Result<u8, u8>) {
        let value = self.0;
        if value == current {
            self.0 = new;
            Ok(new)
        } else {
            Err(value)
        }
    }

    fn store(&mut self, value: u8) {
        self.0 = value;
    }
}

/// Where a waiter is in its life.
#[derive(Clone, Copy, Debug, PartialEq, Eq, Structural)]
pub enum RawEventAwaitState {
    /// Created; it has not touched the event yet.
    Init,
    /// Queued in the lot and counted as waiting.
    Waiting,
    /// Done; every change it made to the event has been undone.
    Completed,
}

/// The state of one wait.
pub struct RawEventAwait {
    pub state: RawEventAwaitState,
    pub backoff: usize,
    pub yielder: Option<Yield>,
    pub wait_link: Option<u64>,
    /// The wakers that the waiter's own yields woke, oldest first.
    pub wakes: Ghost<Seq<std::task::Waker>>,
}

/// The tickets that a waiter holds in its lot: its own while it waits.
pub open spec fn holds(w: RawEventAwait) -> Set<u64> {
    if w.state == RawEventAwaitState::Waiting {
        match w.wait_link {
            Some(t) => set![t],
            None => Set::empty(),
        }
    } else {
        Set::empty()
    }
}

/// How a waiter stands towards the lot of its event.
pub open spec fn linked<L: AsyncLotSignature>(w: RawEventAwait, lot: L) -> bool {
    &&& w.state == RawEventAwaitState::Waiting ==> (w.wait_link matches Some(t)
        && lot.parked().contains(t))
    &&& w.state == RawEventAwaitState::Init ==> w.wait_link is None
}

/// Whether the waiter is in the middle of a yield that will answer `Pending`.
pub open spec fn yield_pending(w: RawEventAwait) -> bool {
    w.yielder matches Some(y) && !y.fired()
}

/// A bound on the nested polls of one poll: it falls at each of them.
pub open spec fn spin_budget(backoff: usize) -> nat {
    if backoff < BACKOFF_MAX {
        (BACKOFF_MAX - backoff + 1) as nat
    } else {
        1
    }
}

/// What falls at each nested poll: a pending yield ends the poll at once,
/// a fired one is spent before the spinning starts again.
pub open spec fn poll_measure(w: RawEventAwait) -> nat {
    match w.yielder {
        Some(y) => if y.fired() {
            1 + spin_budget(w.backoff)
        } else {
            0
        },
        None => spin_budget(w.backoff),
    }
}

/// The backoff count of a waiter that started a poll with count `backoff`
/// and ended it yielding: it spun until the count passed `BACKOFF_MAX`.
pub open spec fn spent_backoff(backoff: usize) -> int {
    if backoff >= BACKOFF_MAX {
        backoff + 1
    } else {
        BACKOFF_MAX + 1
    }
}

/// The backoff counter can grow by one without overflow, where this poll
/// may grow it.
pub open spec fn may_poll(w: RawEventAwait) -> bool {
    yield_pending(w) || w.backoff < usize::MAX
}

/// The poll of a queued waiter: it is done once its entry was taken by a
/// wake, and gives back its ticket; until then it stays queued and answers
/// `Pending`, and nothing changes.
pub open spec fn waiting_outcome<L: AsyncLotSignature>(
    old_w: RawEventAwait,
    old_lot: L,
    w: RawEventAwait,
    lot: L,
    r: Poll,
) -> bool {
    let t = old_w.wait_link->0;
    &&& w.wait_link == old_w.wait_link
    &&& w.backoff == old_w.backoff
    &&& w.yielder == old_w.yielder
    &&& w.wakes == old_w.wakes
    &&& lot.entries() == old_lot.entries()
    &&& lot.next_ticket() == old_lot.next_ticket()
    &&& lot.wakers() == old_lot.wakers()
    &&& lot.wakes() == old_lot.wakes()
    &&& if old_lot.woken().contains(t) {
        &&& r == Poll::Ready
        &&& w.state == RawEventAwaitState::Completed
        &&& lot.parked() == old_lot.parked().remove(t)
        &&& lot.woken() == old_lot.woken().remove(t)
    } else {
        &&& r == Poll::Pending
        &&& w.state == RawEventAwaitState::Waiting
        &&& lot.parked() == old_lot.parked()
        &&& lot.woken() == old_lot.woken()
    }
}

/// The poll of a new waiter that is not yielding, once it has read the
/// flag without a spurious failure: on a set event it takes the flag and is
/// done, unless valid entries are queued, in which case it wakes the oldest
/// of them, once, through its stored waker, and queues itself with a clone
/// of `waker`; on an unset event it queues itself. The waiter itself wakes
/// nothing.
pub open spec fn init_outcome<L: AsyncLotSignature>(
    old_w: RawEventAwait,
    old_set: bool,
    old_lot: L,
    w: RawEventAwait,
    lot: L,
    waker: std::task::Waker,
    r: Poll,
) -> bool {
    let q = old_lot.entries();
    let n = old_lot.next_ticket();
    &&& w.wakes == old_w.wakes
    &&& wakers_kept(old_lot.wakers(), lot.wakers(), n)
    &&& lot.wakes() == (if old_set && first_valid(q) < q.len() {
        old_lot.wakes().push(old_lot.wakers()[q[first_valid(q) as int].0])
    } else {
        old_lot.wakes()
    })
    &&& if old_set && first_valid(q) >= q.len() {
        &&& r == Poll::Ready
        &&& w.state == RawEventAwaitState::Completed
        &&& w.wait_link == old_w.wait_link
        &&& lot.entries() == after_unpark(q)
        &&& lot.parked() == old_lot.parked()
        &&& lot.woken() == old_lot.woken()
        &&& lot.next_ticket() == n
    } else {
        &&& r == Poll::Pending
        &&& w.state == RawEventAwaitState::Waiting
        &&& w.wait_link == Some(n)
        &&& lot.entries() == (if old_set {
            after_unpark(q)
        } else {
            q
        }).push((n, true))
        &&& lot.parked() == old_lot.parked().insert(n)
        &&& lot.woken() == (if old_set {
            old_lot.woken().insert(q[first_valid(q) as int].0)
        } else {
            old_lot.woken()
        })
        &&& lot.next_ticket() == n + 1
        &&& lot.wakers().contains_key(n)
        &&& cloned(waker, lot.wakers()[n])
    }
}

/// The lot is as it was, as far as its contracts see it.
pub open spec fn lot_unchanged<L: AsyncLotSignature>(old_lot: L, lot: L) -> bool {
    &&& lot.entries() == old_lot.entries()
    &&& lot.parked() == old_lot.parked()
    &&& lot.woken() == old_lot.woken()
    &&& lot.next_ticket() == old_lot.next_ticket()
    &&& lot.wakers() == old_lot.wakers()
    &&& lot.wakes() == old_lot.wakes()
}

/// A new waiter that lost its race with the flag too often: it yields to
/// the executor, waking its own task through `waker` once, and answers
/// `Pending`; nothing else changes.
pub open spec fn yield_out<L: AsyncLotSignature>(
    old_w: RawEventAwait,
    old_lot: L,
    w: RawEventAwait,
    lot: L,
    waker: std::task::Waker,
    r: Poll,
) -> bool {
    &&& r == Poll::Pending
    &&& w.wakes@ == old_w.wakes@.push(waker)
    &&& w.state == RawEventAwaitState::Init
    &&& w.wait_link == old_w.wait_link
    &&& (w.yielder matches Some(y) && y.fired())
    &&& w.backoff > old_w.backoff
    &&& lot_unchanged(old_lot, lot)
}

/// Wakes the oldest valid entry of the queue, or sets the flag when there
/// is none. Returns whether a task was woken.
fn signal_one<S: EventState, L: AsyncLotSignature>(state: &mut S, lot: &mut L) -> (woke: bool)
    requires
        old(lot).wf(),
    ensures
        final(lot).wf(),
        woke == (first_valid(old(lot).entries()) < old(lot).entries().len()),
        final(lot).entries() == after_unpark(old(lot).entries()),
        final(lot).parked() == old(lot).parked(),
        final(lot).woken() == (if woke {
            old(lot).woken().insert(old(lot).entries()[first_valid(old(lot).entries()) as int].0)
        } else {
            old(lot).woken()
        }),
        final(lot).next_ticket() == old(lot).next_ticket(),
        final(lot).wakes() == (if woke {
            old(lot).wakes().push(
                old(lot).wakers()[old(lot).entries()[first_valid(old(lot).entries()) as int].0],
            )
        } else {
            old(lot).wakes()
        }),
        wakers_kept(old(lot).wakers(), final(lot).wakers(), old(lot).next_ticket()),
        final(state).value() == (if woke {
            old(state).value()
        } else {
            SIGNAL_SET
        }),
{
    if !lot.unpark_one() {
        state.store(SIGNAL_SET);
        false
    } else {
        true
    }
}

impl RawEventAwait {
    /// A waiter that has not touched its event yet.
    pub fn new() -> (w: RawEventAwait)
        ensures
            w.state == RawEventAwaitState::Init,
            w.backoff == 0,
            w.yielder is None,
            w.wait_link is None,
            w.wakes@ == Seq::<std::task::Waker>::empty(),
    {
        RawEventAwait {
            state: RawEventAwaitState::Init,
            backoff: 0,
            yielder: None,
            wait_link: None,
            wakes: Ghost(Seq::empty()),
        }
    }

    /// Queues the waiter in the lot and marks it waiting.
    fn park_waker<L: AsyncLotSignature>(&mut self, lot: &mut L, waker: &std::task::Waker) -> (ticket: u64)
        requires
            old(lot).wf(),
            old(lot).parked().len() < usize::MAX,
            old(lot).next_ticket() < u64::MAX,
        ensures
            final(lot).wf(),
            ticket == old(lot).next_ticket(),
            final(lot).next_ticket() == ticket + 1,
            final(lot).entries() == old(lot).entries().push((ticket, true)),
            final(lot).parked() == old(lot).parked().insert(ticket),
            final(lot).woken() == old(lot).woken(),
            final(lot).wakers().contains_key(ticket),
            cloned(*waker, final(lot).wakers()[ticket]),
            wakers_kept(old(lot).wakers(), final(lot).wakers(), ticket),
            final(lot).wakes() == old(lot).wakes(),
            final(self).state == RawEventAwaitState::Waiting,
            final(self).backoff == old(self).backoff,
            final(self).yielder == old(self).yielder,
            final(self).wait_link == old(self).wait_link,
            final(self).wakes == old(self).wakes,
    {
        self.state = RawEventAwaitState::Waiting;
        lot.park(waker)
    }

    /// Polls the pending yield, if any, with the task's `waker`, which it
    /// wakes once. `Continue` means that the yield is still pending and the
    /// waiter must answer `Pending`. Otherwise nothing is woken.
    fn try_yield(&mut self, waker: &std::task::Waker) -> (flow: ControlFlow<()>)
        ensures
            final(self).state == old(self).state,
            final(self).backoff == old(self).backoff,
            final(self).wait_link == old(self).wait_link,
            final(self).wakes@ == (if yield_pending(*old(self)) {
                old(self).wakes@.push(*waker)
            } else {
                old(self).wakes@
            }),
            yield_pending(*old(self)) ==> (flow == ControlFlow::<(), ()>::Continue(())
                && (final(self).yielder matches Some(y) && y.fired())),
            !yield_pending(*old(self)) ==> flow == ControlFlow::<(), ()>::Break(())
                && final(self).yielder is None,
    {
        match self.yielder.take() {
            Some(yielder) => {
                let mut yielder = yielder;
                match yielder.poll(waker) {
                    Poll::Pending => {
                        proof {
                            self.wakes@ = self.wakes@.push(*waker);
                        }
                        self.yielder = Some(yielder);
                        ControlFlow::Continue(())
                    },
                    Poll::Ready => ControlFlow::Break(()),
                }
            },
            None => ControlFlow::Break(()),
        }
    }

    /// After a spurious failure of the flag exchange: counts the failure;
    /// spins and polls again while the spins last, then yields to the
    /// executor, waking the task's `waker` once, and answers `Pending`.
    /// Its one caller is `poll`, for a new waiter that is not yielding and
    /// whose exchange failed: that is the state that it takes.
    fn backoff<S: EventState, L: AsyncLotSignature>(
        &mut self,
        state: &mut S,
        lot: &mut L,
        waker: &std::task::Waker,
    ) -> (r: Poll)
        requires
            old(lot).wf(),
            old(state).value() == SIGNAL_FREE || old(state).value() == SIGNAL_SET,
            linked(*old(self), *old(lot)),
            old(self).state == RawEventAwaitState::Init,
            old(self).yielder is None,
            old(self).backoff < usize::MAX,
            old(lot).parked().len() < usize::MAX,
            old(lot).next_ticket() < u64::MAX,
        ensures
            Self::poll_post(*old(self), *old(state), *old(lot), *final(self), *final(state), *final(lot), r),
            old(self).backoff >= BACKOFF_MAX ==> {
                &&& yield_out(*old(self), *old(lot), *final(self), *final(lot), *waker, r)
                &&& final(self).backoff == old(self).backoff + 1
                &&& final(state).value() == old(state).value()
            },
            old(self).backoff < BACKOFF_MAX ==> {
                ||| {
                    &&& init_outcome(
                        *old(self),
                        old(state).value() == SIGNAL_SET,
                        *old(lot),
                        *final(self),
                        *final(lot),
                        *waker,
                        r,
                    )
                    &&& final(state).value() == SIGNAL_FREE
                    &&& final(self).yielder is None
                    &&& old(self).backoff + 1 <= final(self).backoff <= BACKOFF_MAX
                }
                ||| {
                    &&& yield_out(*old(self), *old(lot), *final(self), *final(lot), *waker, r)
                    &&& final(state).value() == old(state).value()
                    &&& final(self).backoff == BACKOFF_MAX + 1
                }
            },
        decreases spin_budget(old(self).backoff), 0nat,
    {
        self.backoff = self.backoff + 1;
        if self.backoff <= BACKOFF_MAX {
            spin_hint();
            self.poll(state, lot, waker)
        } else {
            self.yielder = Some(Yield::new());
            let r = self.poll(state, lot, waker);
            r
        }
    }

    /// What every poll keeps: the lot stays well formed, the waiter stays
    /// linked to it, and the tickets counted as waiting change by exactly
    /// the ticket that this waiter gives back or takes.
    pub open spec fn poll_post<S: EventState, L: AsyncLotSignature>(
        old_w: RawEventAwait,
        old_state: S,
        old_lot: L,
        w: RawEventAwait,
        state: S,
        lot: L,
        r: Poll,
    ) -> bool {
        &&& lot.wf()
        &&& state.value() == SIGNAL_FREE || state.value() == SIGNAL_SET
        &&& linked(w, lot)
        &&& lot.parked() == old_lot.parked().difference(holds(old_w)).union(holds(w))
        &&& lot.next_ticket() >= old_lot.next_ticket()
        &&& old_w.state == RawEventAwaitState::Waiting ==> w.wait_link == old_w.wait_link
        &&& (w.state == RawEventAwaitState::Waiting && old_w.state != RawEventAwaitState::Waiting)
            ==> w.wait_link == Some(old_lot.next_ticket())
        &&& (r == Poll::Ready) == (w.state == RawEventAwaitState::Completed)
        &&& old_w.state == RawEventAwaitState::Completed ==> w.state
            == RawEventAwaitState::Completed
        &&& old_w.state == RawEventAwaitState::Waiting ==> w.state != RawEventAwaitState::Init
    }

    /// Polls the wait.
    ///
    /// A done waiter answers `Ready` again. A queued waiter answers `Ready`
    /// once a wake has taken its entry, and gives back its ticket; until
    /// then it answers `Pending`. A new waiter that is yielding answers
    /// `Pending`. Otherwise a new waiter reads the flag: on a set event it
    /// takes the flag and is done, unless valid entries are queued, in which
    /// case it wakes the oldest of them and queues itself; on an unset event
    /// it queues itself. A spurious failure of the flag exchange sends it to
    /// `backoff`.
    pub fn poll<S: EventState, L: AsyncLotSignature>(
        &mut self,
        state: &mut S,
        lot: &mut L,
        waker: &std::task::Waker,
    ) -> (r: Poll)
        requires
            old(lot).wf(),
            old(state).value() == SIGNAL_FREE || old(state).value() == SIGNAL_SET,
            linked(*old(self), *old(lot)),
            may_poll(*old(self)),
            old(lot).parked().len() < usize::MAX,
            old(lot).next_ticket() < u64::MAX,
        ensures
            Self::poll_post(*old(self), *old(state), *old(lot), *final(self), *final(state), *final(lot), r),
            old(self).state == RawEventAwaitState::Completed ==> {
                &&& r == Poll::Ready
                &&& *final(self) == *old(self)
                &&& *final(state) == *old(state)
                &&& *final(lot) == *old(lot)
            },
            old(self).state == RawEventAwaitState::Waiting ==> {
                &&& waiting_outcome(*old(self), *old(lot), *final(self), *final(lot), r)
                &&& final(state).value() == old(state).value()
            },
            (old(self).state == RawEventAwaitState::Init && yield_pending(*old(self))) ==> {
                &&& r == Poll::Pending
                &&& final(self).state == RawEventAwaitState::Init
                &&& final(self).wait_link == old(self).wait_link
                &&& final(self).backoff == old(self).backoff
                &&& (final(self).yielder matches Some(y) && y.fired())
                &&& final(state).value() == old(state).value()
                &&& lot_unchanged(*old(lot), *final(lot))
                &&& final(self).wakes@ == old(self).wakes@.push(*waker)
            },
            (old(self).state == RawEventAwaitState::Init && !yield_pending(*old(self))) ==> {
                ||| {
                    &&& init_outcome(
                        *old(self),
                        old(state).value() == SIGNAL_SET,
                        *old(lot),
                        *final(self),
                        *final(lot),
                        *waker,
                        r,
                    )
                    &&& final(state).value() == SIGNAL_FREE
                    &&& final(self).yielder is None
                    &&& final(self).backoff >= old(self).backoff
                    &&& (final(self).backoff <= BACKOFF_MAX || final(self).backoff
                        == old(self).backoff)
                }
                ||| {
                    &&& yield_out(*old(self), *old(lot), *final(self), *final(lot), *waker, r)
                    &&& final(state).value() == old(state).value()
                    &&& final(self).backoff == spent_backoff(old(self).backoff)
                }
            },
            (S::cas_is_strong() && old(self).state == RawEventAwaitState::Init && !yield_pending(
                *old(self),
            )) ==> {
                &&& init_outcome(
                    *old(self),
                    old(state).value() == SIGNAL_SET,
                    *old(lot),
                    *final(self),
                    *final(lot),
                    *waker,
                    r,
                )
                &&& final(state).value() == SIGNAL_FREE
                &&& final(self).yielder is None
                &&& final(self).backoff == old(self).backoff
            },
        decreases poll_measure(*old(self)), 1nat,
    {
        if self.state == RawEventAwaitState::Completed {
            assert(lot.parked().difference(holds(*self)).union(holds(*self)) =~= lot.parked());
            return Poll::Ready;
        }
        proof {
            lot.lemma_tickets_issued();
        }
        let ghost p = lot.parked();
        if self.state == RawEventAwaitState::Waiting {
            match self.wait_link {
                Some(ticket) => {
                    if lot.is_woken(ticket) {
                        let r = release_complete(self, lot);
                        assert(lot.parked() =~= p.difference(holds(*old(self))).union(holds(*self)));
                        return r;
                    } else {
                        assert(p.difference(holds(*self)).union(holds(*self)) =~= p);
                        return Poll::Pending;
                    }
                },
                None => {
                    return Poll::Pending;
                },
            }
        }
        if let ControlFlow::Continue(()) = self.try_yield(waker) {
            assert(lot.parked().difference(holds(*old(self))).union(holds(*self))
                =~= lot.parked());
            return Poll::Pending;
        }
        match state.cmpxchng_weak(SIGNAL_SET, SIGNAL_FREE) {
            Ok(_) => {
                if lot.unpark_one() {
                    let ticket = self.park_waker(lot, waker);
                    self.wait_link = Some(ticket);
                    assert(lot.parked() =~= p.difference(holds(*old(self))).union(holds(*self)));
                    Poll::Pending
                } else {
                    self.state = RawEventAwaitState::Completed;
                    assert(lot.parked() =~= p.difference(holds(*old(self))).union(holds(*self)));
                    Poll::Ready
                }
            },
            Err(x) => {
                if x == SIGNAL_FREE {
                    let ticket = self.park_waker(lot, waker);
                    self.wait_link = Some(ticket);
                    assert(lot.parked() =~= p.difference(holds(*old(self))).union(holds(*self)));
                    Poll::Pending
                } else {
                    self.backoff(state, lot, waker)
                }
            },
        }
    }

    /// Gives back what the waiter holds when it is dropped. A queued waiter
    /// whose entry is still queued turns the entry off; one that was woken
    /// hands its wake on, to the next valid entry or onto the flag. Either
    /// way it no longer counts as waiting.
    pub fn cancel<S: EventState, L: AsyncLotSignature>(self, state: &mut S, lot: &mut L)
        requires
            old(lot).wf(),
            old(state).value() == SIGNAL_FREE || old(state).value() == SIGNAL_SET,
            linked(self, *old(lot)),
        ensures
            final(lot).wf(),
            final(state).value() == SIGNAL_FREE || final(state).value() == SIGNAL_SET,
            final(lot).parked() == old(lot).parked().difference(holds(self)),
            final(lot).next_ticket() == old(lot).next_ticket(),
            wakers_kept(old(lot).wakers(), final(lot).wakers(), old(lot).next_ticket()),
            Self::cancel_outcome(self, old(state).value(), *old(lot), final(state).value(), *final(lot)),
    {
        proof {
            lot.lemma_tickets_issued();
        }
        match self.state {
            RawEventAwaitState::Init => {
                assert(lot.parked().difference(holds(self)) =~= lot.parked());
                assert(self.state != RawEventAwaitState::Waiting);
            },
            RawEventAwaitState::Waiting => {
                if let Some(ticket) = self.wait_link {
                    if lot.is_woken(ticket) {
                        lot.notify_wait_release(ticket);
                        signal_one(state, lot);
                    } else {
                        lot.invalidate(ticket);
                        lot.notify_wait_release(ticket);
                        assert(lot.woken() =~= old(lot).woken());
                    }
                    assert(holds(self) =~= set![ticket]);
                }
            },
            RawEventAwaitState::Completed => {
                assert(lot.parked().difference(holds(self)) =~= lot.parked());
            },
        }
    }

    /// What dropping the waiter `w` does to the flag, the queue and the
    /// wakes: a woken waiter's wake goes, once, to the waker stored for the
    /// oldest valid entry.
    pub open spec fn cancel_outcome<L: AsyncLotSignature>(
        w: RawEventAwait,
        old_flag: u8,
        old_lot: L,
        flag: u8,
        lot: L,
    ) -> bool {
        let t = w.wait_link->0;
        let q = old_lot.entries();
        if w.state != RawEventAwaitState::Waiting {
            &&& flag == old_flag
            &&& lot.entries() == q
            &&& lot.woken() == old_lot.woken()
            &&& lot.wakes() == old_lot.wakes()
        } else if old_lot.woken().contains(t) {
            let woke = first_valid(q) < q.len();
            &&& lot.entries() == after_unpark(q)
            &&& lot.wakes() == (if woke {
                old_lot.wakes().push(old_lot.wakers()[q[first_valid(q) as int].0])
            } else {
                old_lot.wakes()
            })
            &&& lot.woken() == (if woke {
                old_lot.woken().remove(t).insert(q[first_valid(q) as int].0)
            } else {
                old_lot.woken().remove(t)
            })
            &&& flag == (if woke {
                old_flag
            } else {
                SIGNAL_SET
            })
        } else {
            &&& flag == old_flag
            &&& lot.entries() == invalidated(q, t)
            &&& lot.woken() == old_lot.woken()
            &&& lot.wakes() == old_lot.wakes()
        }
    }
}

/// One wake of the lot: the waker that it woke, followed by the wakers of
/// the valid entries left, are the wakers of the valid entries before it.
proof fn lemma_wake_step<L: AsyncLotSignature>(before: L, after: L)
    requires
        before.wf(),
        after.wf(),
        after.entries() == after_unpark(before.entries()),
        after.next_ticket() == before.next_ticket(),
        wakers_kept(before.wakers(), after.wakers(), before.next_ticket()),
        after.wakes() == (if first_valid(before.entries()) < before.entries().len() {
            before.wakes().push(
                before.wakers()[before.entries()[first_valid(before.entries()) as int].0],
            )
        } else {
            before.wakes()
        }),
    ensures
        after.wakes() + valid_wakers(after.entries(), after.wakers()) == before.wakes()
            + valid_wakers(before.entries(), before.wakers()),
{
    let q = before.entries();
    let q2 = after.entries();
    let w = before.wakers();
    let w2 = after.wakers();
    after.lemma_tickets_issued();
    lemma_valid_order(q);
    lemma_valid_order(q2);
    let vo2 = crate::lot::valid_order(q2);
    assert(vo2.map_values(|t: u64| w2[t]) =~= vo2.map_values(|t: u64| w[t])) by {
        assert forall|k: int| 0 <= k < vo2.len() implies w2[vo2[k]] == w[vo2[k]] by {
            let i = choose|i: int| 0 <= i < q2.len() && q2[i].0 == #[trigger] vo2[k];
            assert(w2.contains_key(q2[i].0));
            assert(q2[i].0 < after.next_ticket());
        }
    }
    if first_valid(q) < q.len() {
        let t = q[first_valid(q) as int].0;
        assert(crate::lot::valid_order(q).map_values(|u: u64| w[u]) =~= seq![w[t]]
            + vo2.map_values(|u: u64| w[u]));
        assert(after.wakes() + valid_wakers(q2, w2) =~= before.wakes() + valid_wakers(q, w));
    } else {
        assert(q2 =~= Seq::<(u64, bool)>::empty());
        assert(valid_wakers(q, w) =~= Seq::<std::task::Waker>::empty());
        assert(valid_wakers(q2, w2) =~= Seq::<std::task::Waker>::empty());
        assert(after.wakes() + valid_wakers(q2, w2) =~= before.wakes() + valid_wakers(q, w));
    }
}

/// Ends the wait of a queued waiter whose entry was taken by a wake: it no
/// longer counts as waiting, and it is done.
fn release_complete<L: AsyncLotSignature>(waiter: &mut RawEventAwait, lot: &mut L) -> (r: Poll)
    requires
        old(lot).wf(),
        old(waiter).state == RawEventAwaitState::Waiting,
        old(waiter).wait_link matches Some(t) && old(lot).parked().contains(t) && old(
            lot,
        ).woken().contains(t),
    ensures
        r == Poll::Ready,
        final(lot).wf(),
        final(lot).parked() == old(lot).parked().remove(old(waiter).wait_link->0),
        final(lot).woken() == old(lot).woken().remove(old(waiter).wait_link->0),
        final(lot).entries() == old(lot).entries(),
        final(lot).next_ticket() == old(lot).next_ticket(),
        final(waiter).state == RawEventAwaitState::Completed,
        final(waiter).wait_link == old(waiter).wait_link,
        final(waiter).backoff == old(waiter).backoff,
        final(waiter).yielder == old(waiter).yielder,
        final(waiter).wakes == old(waiter).wakes,
        final(lot).wakers() == old(lot).wakers(),
        final(lot).wakes() == old(lot).wakes(),
{
    proof {
        lot.lemma_tickets_issued();
    }
    let ticket = match waiter.wait_link {
        Some(t) => t,
        None => 0,
    };
    lot.notify_wait_release(ticket);
    release_partial(waiter)
}

/// Marks the waiter done.
fn release_partial(waiter: &mut RawEventAwait) -> (r: Poll)
    ensures
        r == Poll::Ready,
        final(waiter).state == RawEventAwaitState::Completed,
        final(waiter).wait_link == old(waiter).wait_link,
        final(waiter).backoff == old(waiter).backoff,
        final(waiter).yielder == old(waiter).yielder,
        final(waiter).wakes == old(waiter).wakes,
{
    waiter.state = RawEventAwaitState::Completed;
    Poll::Ready
}

/// The waiter `id` is queued under ticket `t`.
pub open spec fn waits_on(waiters: Map<u64, RawEventAwait>, id: u64, t: u64) -> bool {
    &&& waiters.contains_key(id)
    &&& waiters[id].state == RawEventAwaitState::Waiting
    &&& waiters[id].wait_link == Some(t)
}

/// An event: its flag, its wait lot, and the registry of its waiters.
pub struct RawEvent<S, L> {
    state: S,
    lot: L,
    waiters: HashMap<u64, RawEventAwait>,
    next_waiter: u64,
}

impl<S: EventState, L: AsyncLotSignature> RawEvent<S, L> {
    pub closed spec fn flag(&self) -> S {
        self.state
    }

    pub closed spec fn lot(&self) -> L {
        self.lot
    }

    pub closed spec fn waiters(&self) -> Map<u64, RawEventAwait> {
        self.waiters@
    }

    pub closed spec fn next_waiter(&self) -> u64 {
        self.next_waiter
    }

    /// Whether the event is set.
    pub open spec fn signal(&self) -> bool {
        self.flag().value() == SIGNAL_SET
    }

    /// Whether some waiter is queued and counted as waiting.
    pub open spec fn waited(&self) -> bool {
        exists|id: u64| #[trigger]
            self.waiters().contains_key(id) && self.waiters()[id].state
                == RawEventAwaitState::Waiting
    }

    pub open spec fn room(&self) -> bool {
        &&& self.lot().parked().len() < usize::MAX
        &&& self.lot().next_ticket() < u64::MAX
        &&& self.next_waiter() < u64::MAX
    }

    /// The registry and the lot agree: each queued waiter holds its own
    /// ticket among those counted as waiting, and each such ticket belongs
    /// to exactly one queued waiter.
    pub open spec fn wf(&self) -> bool {
        &&& self.lot().wf()
        &&& self.flag().value() == SIGNAL_FREE || self.flag().value() == SIGNAL_SET
        &&& forall|id: u64| #[trigger]
            self.waiters().contains_key(id) ==> id < self.next_waiter() && linked(
                self.waiters()[id],
                self.lot(),
            )
        &&& forall|t: u64| #[trigger]
            self.lot().parked().contains(t) ==> exists|id: u64|
                waits_on(self.waiters(), id, t)
        &&& forall|i: u64, j: u64, t: u64|
            waits_on(self.waiters(), i, t) && waits_on(self.waiters(), j, t) ==> i == j
        &&& S::cas_is_strong() ==> forall|id: u64| #[trigger]
            self.waiters().contains_key(id) ==> self.waiters()[id].backoff == 0
                && self.waiters()[id].yielder is None
    }

    /// A new event with no waiter, set or not.
    pub open spec fn fresh(e: Self, set: bool) -> bool {
        &&& e.signal() == set
        &&& e.lot().entries() == Seq::<(u64, bool)>::empty()
        &&& e.lot().parked() == Set::<u64>::empty()
        &&& e.lot().woken() == Set::<u64>::empty()
        &&& e.lot().next_ticket() == 0
        &&& e.waiters() == Map::<u64, RawEventAwait>::empty()
        &&& e.next_waiter() == 0
    }

    /// `wait`: a new waiter, fresh, under the next id; nothing else changes.
    pub open spec fn wait_post(self, e: Self, id: u64) -> bool {
        &&& id == self.next_waiter()
        &&& !self.waiters().contains_key(id)
        &&& e.next_waiter() == id + 1
        &&& e.waiters() == self.waiters().insert(id, e.waiters()[id])
        &&& e.waiters()[id].state == RawEventAwaitState::Init
        &&& e.waiters()[id].backoff == 0
        &&& e.waiters()[id].yielder is None
        &&& e.waiters()[id].wait_link is None
        &&& e.waiters()[id].wakes@ == Seq::<std::task::Waker>::empty()
        &&& e.flag() == self.flag()
        &&& e.lot() == self.lot()
    }

    /// `poll_waiter`: the waiter `id` runs one poll with the task's
    /// `waker`; an unknown id answers `Ready` and changes nothing.
    pub open spec fn poll_waiter_post(self, e: Self, id: u64, waker: std::task::Waker, r: Poll) -> bool {
        &&& e.next_waiter() == self.next_waiter()
        &&& !self.waiters().contains_key(id) ==> {
            &&& r == Poll::Ready
            &&& e.waiters() == self.waiters()
            &&& e.flag() == self.flag()
            &&& e.lot() == self.lot()
        }
        &&& self.waiters().contains_key(id) ==> {
            let w0 = self.waiters()[id];
            let w1 = e.waiters()[id];
            &&& e.waiters() == self.waiters().insert(id, w1)
            &&& RawEventAwait::poll_post(w0, self.flag(), self.lot(), w1, e.flag(), e.lot(), r)
            &&& wakers_kept(self.lot().wakers(), e.lot().wakers(), self.lot().next_ticket())
            &&& w0.state == RawEventAwaitState::Completed ==> {
                &&& r == Poll::Ready
                &&& w1 == w0
                &&& e.flag() == self.flag()
                &&& e.lot() == self.lot()
            }
            &&& w0.state == RawEventAwaitState::Waiting ==> {
                &&& waiting_outcome(w0, self.lot(), w1, e.lot(), r)
                &&& e.flag().value() == self.flag().value()
            }
            &&& (w0.state == RawEventAwaitState::Init && yield_pending(w0)) ==> {
                &&& r == Poll::Pending
                &&& w1.state == RawEventAwaitState::Init
                &&& w1.wait_link == w0.wait_link
                &&& e.flag().value() == self.flag().value()
                &&& lot_unchanged(self.lot(), e.lot())
                &&& w1.wakes@ == w0.wakes@.push(waker)
            }
            &&& (w0.state == RawEventAwaitState::Init && !yield_pending(w0)) ==> {
                ||| {
                    &&& init_outcome(w0, self.signal(), self.lot(), w1, e.lot(), waker, r)
                    &&& !e.signal()
                }
                ||| {
                    &&& yield_out(w0, self.lot(), w1, e.lot(), waker, r)
                    &&& e.flag().value() == self.flag().value()
                }
            }
            &&& (S::cas_is_strong() && w0.state == RawEventAwaitState::Init) ==> {
                &&& init_outcome(w0, self.signal(), self.lot(), w1, e.lot(), waker, r)
                &&& !e.signal()
            }
        }
    }

    /// `drop_waiter`: the waiter leaves the registry and gives back what it
    /// held in the lot; a woken waiter hands its wake on.
    pub open spec fn drop_waiter_post(self, e: Self, id: u64) -> bool {
        &&& e.waiters() == self.waiters().remove(id)
        &&& e.next_waiter() == self.next_waiter()
        &&& e.lot().next_ticket() == self.lot().next_ticket()
        &&& !self.waiters().contains_key(id) ==> e.lot() == self.lot() && e.flag() == self.flag()
        &&& self.waiters().contains_key(id) ==> {
            let w0 = self.waiters()[id];
            &&& e.lot().parked() == self.lot().parked().difference(holds(w0))
            &&& wakers_kept(self.lot().wakers(), e.lot().wakers(), self.lot().next_ticket())
            &&& RawEventAwait::cancel_outcome(
                w0,
                self.flag().value(),
                self.lot(),
                e.flag().value(),
                e.lot(),
            )
        }
    }

    /// `set_one`: the oldest valid entry is woken, once, through its stored
    /// waker, and no other; or, when there is none, the event is set.
    pub open spec fn set_one_post(self, e: Self, woke: bool) -> bool {
        let q = self.lot().entries();
        &&& woke == (first_valid(q) < q.len())
        &&& e.lot().wakes() == (if woke {
            self.lot().wakes().push(self.lot().wakers()[q[first_valid(q) as int].0])
        } else {
            self.lot().wakes()
        })
        &&& wakers_kept(self.lot().wakers(), e.lot().wakers(), self.lot().next_ticket())
        &&& e.lot().entries() == after_unpark(q)
        &&& e.lot().parked() == self.lot().parked()
        &&& e.lot().woken() == (if woke {
            self.lot().woken().insert(q[first_valid(q) as int].0)
        } else {
            self.lot().woken()
        })
        &&& e.lot().next_ticket() == self.lot().next_ticket()
        &&& e.signal() == (if woke {
            self.signal()
        } else {
            true
        })
        &&& e.waiters() == self.waiters()
        &&& e.next_waiter() == self.next_waiter()
    }

    /// `set_all`: every entry leaves the queue; the stored waker of each
    /// valid one is woken, once, in queue order, and no other; the event is
    /// set when none of them was valid.
    pub open spec fn set_all_post(self, e: Self) -> bool {
        &&& e.lot().entries() == Seq::<(u64, bool)>::empty()
        &&& e.lot().wakes() == self.lot().wakes() + valid_wakers(
            self.lot().entries(),
            self.lot().wakers(),
        )
        &&& wakers_kept(self.lot().wakers(), e.lot().wakers(), self.lot().next_ticket())
        &&& e.lot().parked() == self.lot().parked()
        &&& e.lot().woken() == self.lot().woken().union(valid_tickets(self.lot().entries()))
        &&& e.lot().next_ticket() == self.lot().next_ticket()
        &&& e.signal() == (if first_valid(self.lot().entries()) < self.lot().entries().len() {
            self.signal()
        } else {
            true
        })
        &&& e.waiters() == self.waiters()
        &&& e.next_waiter() == self.next_waiter()
    }

    /// `try_wait`: the flag is taken only when set and nobody waits.
    pub open spec fn try_wait_post(self, e: Self, acquired: bool) -> bool {
        &&& acquired ==> self.signal() && !self.waited() && !e.signal()
        &&& !acquired ==> e.flag().value() == self.flag().value()
        &&& S::cas_is_strong() ==> acquired == (self.signal() && !self.waited())
        &&& e.lot() == self.lot()
        &&& e.waiters() == self.waiters()
        &&& e.next_waiter() == self.next_waiter()
    }

    /// Whether a valid entry is queued, that a wake would reach.
    pub open spec fn queues_a_wake(&self) -> bool {
        first_valid(self.lot().entries()) < self.lot().entries().len()
    }

    /// Whether the waiter `id` may be polled without overflowing its
    /// backoff counter.
    pub open spec fn pollable(&self, id: u64) -> bool {
        self.waiters().contains_key(id) ==> may_poll(self.waiters()[id])
    }

    /// Counting: some task counts as waiting exactly when some waiter of
    /// the registry is queued.
    pub proof fn lemma_waited(&self)
        requires
            self.wf(),
        ensures
            self.waited() == (self.lot().parked() != Set::<u64>::empty()),
    {
        if self.waited() {
            let id = choose|id: u64| #[trigger]
                self.waiters().contains_key(id) && self.waiters()[id].state
                    == RawEventAwaitState::Waiting;
            let t = self.waiters()[id].wait_link->0;
            assert(self.lot().parked().contains(t));
        }
        if self.lot().parked() != Set::<u64>::empty() {
            assert(exists|t: u64| self.lot().parked().contains(t)) by {
                if !(exists|t: u64| self.lot().parked().contains(t)) {
                    assert(self.lot().parked() =~= Set::<u64>::empty());
                }
            }
            let t = choose|t: u64| self.lot().parked().contains(t);
            assert(self.lot().parked().contains(t));
            let id = choose|id: u64| waits_on(self.waiters(), id, t);
            assert(self.waiters().contains_key(id));
        }
    }

    fn create(state: u8) -> (e: Self)
        requires
            state == SIGNAL_FREE || state == SIGNAL_SET,
        ensures
            e.wf(),
            e.flag().value() == state,
            e.lot().entries() == Seq::<(u64, bool)>::empty(),
            e.lot().parked() == Set::<u64>::empty(),
            e.lot().woken() == Set::<u64>::empty(),
            e.lot().next_ticket() == 0,
            e.waiters() == Map::<u64, RawEventAwait>::empty(),
            e.next_waiter() == 0,
    {
        RawEvent { lot: L::new(), state: S::new(state), waiters: HashMap::new(), next_waiter: 0 }
    }

    /// An unset event with no waiter.
    pub fn new() -> (e: Self)
        ensures
            e.wf(),
            Self::fresh(e, false),
    {
        Self::create(SIGNAL_FREE)
    }

    /// A set event with no waiter.
    pub fn new_set() -> (e: Self)
        ensures
            e.wf(),
            Self::fresh(e, true),
    {
        Self::create(SIGNAL_SET)
    }

    /// Registers a new wait and returns its id.
    pub fn wait(&mut self) -> (id: u64)
        requires
            old(self).wf(),
            old(self).next_waiter() < u64::MAX,
        ensures
            final(self).wf(),
            old(self).wait_post(*final(self), id),
    {
        let id = self.next_waiter;
        self.waiters.insert(id, RawEventAwait::new());
        self.next_waiter = id + 1;
        proof {
            let old_w = old(self).waiters();
            let w = self.waiters();
            assert(w == old_w.insert(id, w[id]));
            assert forall|j: u64| #[trigger] w.contains_key(j) implies j < self.next_waiter
                && linked(w[j], self.lot) by {
                if j != id {
                    assert(old_w.contains_key(j));
                }
            }
            assert forall|t: u64| #[trigger] self.lot().parked().contains(t) implies exists|i: u64|
                waits_on(w, i, t) by {
                let i = choose|i: u64| waits_on(old_w, i, t);
                assert(waits_on(w, i, t));
            }
            assert forall|i: u64, j: u64, t: u64|
                waits_on(w, i, t) && waits_on(w, j, t) implies i == j by {
                assert(waits_on(old_w, i, t) && waits_on(old_w, j, t));
            }
        }
        id
    }

    /// Polls the wait `id`; a wait that the event does not know is over.
    pub fn poll_waiter(&mut self, id: u64, waker: &std::task::Waker) -> (r: Poll)
        requires
            old(self).wf(),
            old(self).room(),
            old(self).pollable(id),
        ensures
            final(self).wf(),
            old(self).poll_waiter_post(*final(self), id, *waker, r),
    {
        let removed = self.waiters.remove(&id);
        match removed {
            None => {
                assert(self.waiters@ =~= old(self).waiters@);
                Poll::Ready
            },
            Some(w) => {
                let ghost old_w = old(self).waiters();
                let ghost p0 = self.lot.parked();
                let ghost n0 = self.lot.next_ticket();
                proof {
                    self.lot.lemma_tickets_issued();
                }
                let mut w = w;
                let r = w.poll(&mut self.state, &mut self.lot, waker);
                self.waiters.insert(id, w);
                proof {
                    let w0 = old_w[id];
                    let ws = self.waiters();
                    assert(ws =~= old_w.insert(id, w));
                    let p1 = self.lot.parked();
                    assert forall|j: u64| #[trigger] ws.contains_key(j) implies j
                        < self.next_waiter && linked(ws[j], self.lot) by {
                        if j != id && ws[j].state == RawEventAwaitState::Waiting {
                            let tj = ws[j].wait_link->0;
                            assert(waits_on(old_w, j, tj));
                            if w0.state == RawEventAwaitState::Waiting && w0.wait_link == Some(tj) {
                                assert(waits_on(old_w, id, tj));
                            }
                            assert(!holds(w0).contains(tj));
                            assert(p1.contains(tj));
                        }
                    }
                    assert forall|t: u64| #[trigger] p1.contains(t) implies exists|i: u64|
                        waits_on(ws, i, t) by {
                        if holds(w).contains(t) {
                            assert(waits_on(ws, id, t));
                        } else {
                            assert(p0.contains(t) && !holds(w0).contains(t));
                            let i = choose|i: u64| waits_on(old_w, i, t);
                            if i == id {
                                assert(holds(w0).contains(t));
                            }
                            assert(waits_on(ws, i, t));
                        }
                    }
                    assert forall|i: u64, j: u64, t: u64|
                        waits_on(ws, i, t) && waits_on(ws, j, t) implies i == j by {
                        if i != id && j != id {
                            assert(waits_on(old_w, i, t) && waits_on(old_w, j, t));
                        } else if i == id && j != id {
                            assert(waits_on(old_w, j, t));
                            assert(p0.contains(t));
                            if w0.state == RawEventAwaitState::Waiting {
                                assert(waits_on(old_w, id, t));
                            } else {
                                assert(t == n0);
                            }
                        } else if j == id && i != id {
                            assert(waits_on(old_w, i, t));
                            assert(p0.contains(t));
                            if w0.state == RawEventAwaitState::Waiting {
                                assert(waits_on(old_w, id, t));
                            } else {
                                assert(t == n0);
                            }
                        }
                    }
                }
                r
            },
        }
    }

    /// Drops the wait `id`: a queued waiter no longer counts as waiting; it
    /// turns off its entry in the queue, or, when it was woken already,
    /// hands the wake on to the next valid entry or onto the flag.
    pub fn drop_waiter(&mut self, id: u64)
        requires
            old(self).wf(),
        ensures
            final(self).wf(),
            old(self).drop_waiter_post(*final(self), id),
    {
        let removed = self.waiters.remove(&id);
        match removed {
            None => {
                assert(self.waiters@ =~= old(self).waiters@);
            },
            Some(w) => {
                let ghost old_w = old(self).waiters();
                let ghost w0 = w;
                let ghost p0 = self.lot.parked();
                w.cancel(&mut self.state, &mut self.lot);
                proof {
                    let ws = self.waiters();
                    let p1 = self.lot.parked();
                    assert forall|j: u64| #[trigger] ws.contains_key(j) implies j
                        < self.next_waiter && linked(ws[j], self.lot) by {
                        if ws[j].state == RawEventAwaitState::Waiting {
                            let tj = ws[j].wait_link->0;
                            assert(waits_on(old_w, j, tj));
                            if w0.state == RawEventAwaitState::Waiting && w0.wait_link == Some(tj) {
                                assert(waits_on(old_w, id, tj));
                            }
                            assert(!holds(w0).contains(tj));
                            assert(p1.contains(tj));
                        }
                    }
                    assert forall|t: u64| #[trigger] p1.contains(t) implies exists|i: u64|
                        waits_on(ws, i, t) by {
                        let i = choose|i: u64| waits_on(old_w, i, t);
                        if i == id {
                            assert(holds(w0).contains(t));
                        }
                        assert(waits_on(ws, i, t));
                    }
                    assert forall|i: u64, j: u64, t: u64|
                        waits_on(ws, i, t) && waits_on(ws, j, t) implies i == j by {
                        assert(waits_on(old_w, i, t) && waits_on(old_w, j, t));
                    }
                }
            },
        }
    }

    /// Wakes the oldest queued waiter whose entry is valid, or, when there
    /// is none, sets the event. Returns whether a waiter was woken.
    pub fn set_one(&mut self) -> (woke: bool)
        requires
            old(self).wf(),
        ensures
            final(self).wf(),
            old(self).set_one_post(*final(self), woke),
    {
        signal_one(&mut self.state, &mut self.lot)
    }

    /// Wakes every queued waiter whose entry is valid, oldest first, and
    /// calls `functor` after each; sets the event when there was none.
    pub fn set_all<F: FnMut()>(&mut self, functor: F)
        requires
            old(self).wf(),
            old(self).queues_a_wake() ==> call_requires(functor, ()),
        ensures
            final(self).wf(),
            old(self).set_all_post(*final(self)),
            old(self).queues_a_wake() ==> call_ensures(functor, (), ()),
    {
        let ghost f0 = functor;
        let mut functor = functor;
        let mut did_signal = false;
        let ghost q0 = self.lot.entries();
        let ghost k0 = self.lot.woken();
        proof {
            self.lot.lemma_tickets_issued();
            lemma_unpark_valid_tickets(q0);
        }
        let ghost l0 = self.lot;
        let mut woke = self.lot.unpark_one();
        assert(self.lot.woken().union(valid_tickets(self.lot.entries())) =~= k0.union(
            valid_tickets(q0),
        ));
        proof {
            lemma_wake_step(l0, self.lot);
        }
        while woke
            invariant
                self.lot.wf(),
                self.lot.woken().union(valid_tickets(self.lot.entries())) == k0.union(
                    valid_tickets(q0),
                ),
                k0 == old(self).lot().woken(),
                self.lot.wakes() + valid_wakers(self.lot.entries(), self.lot.wakers())
                    == old(self).lot().wakes() + valid_wakers(q0, old(self).lot().wakers()),
                wakers_kept(old(self).lot().wakers(), self.lot.wakers(), old(self).lot().next_ticket()),
                self.flag() == old(self).flag(),
                self.waiters() == old(self).waiters(),
                self.next_waiter() == old(self).next_waiter(),
                self.lot.parked() == old(self).lot().parked(),
                self.lot.next_ticket() == old(self).lot().next_ticket(),
                q0 == old(self).lot().entries(),
                did_signal ==> first_valid(q0) < q0.len(),
                !did_signal ==> woke == (first_valid(q0) < q0.len()),
                !woke ==> self.lot.entries() == Seq::<(u64, bool)>::empty(),
                first_valid(q0) < q0.len() ==> call_requires(functor, ()),
                functor == f0,
                did_signal ==> call_ensures(f0, (), ()),
            decreases self.lot.entries().len() + (if woke { 1nat } else { 0nat }),
        {
            did_signal = true;
            functor();
            let ghost q = self.lot.entries();
            let ghost k = self.lot.woken();
            let ghost lb = self.lot;
            proof {
                self.lot.lemma_tickets_issued();
                lemma_unpark_valid_tickets(q);
            }
            woke = self.lot.unpark_one();
            proof {
                lemma_wake_step(lb, self.lot);
                assert forall|t: u64| #[trigger]
                    self.lot.wakers().contains_key(t) && t != old(self).lot().next_ticket()
                    implies old(self).lot().wakers().contains_key(t) && self.lot.wakers()[t]
                    == old(self).lot().wakers()[t] by {
                    assert(lb.wakers().contains_key(t));
                }
                if woke {
                    let t = q[first_valid(q) as int].0;
                    assert(self.lot.woken().union(valid_tickets(self.lot.entries())) =~= k.union(
                        valid_tickets(q),
                    ));
                } else {
                    assert(self.lot.woken().union(valid_tickets(self.lot.entries())) =~= k.union(
                        valid_tickets(q),
                    ));
                }
            }
        }
        proof {
            assert(valid_wakers(self.lot.entries(), self.lot.wakers()) =~= Seq::<
                std::task::Waker,
            >::empty());
            assert(self.lot.wakes() + valid_wakers(self.lot.entries(), self.lot.wakers())
                =~= self.lot.wakes());
            assert(valid_tickets(self.lot.entries()) =~= Set::<u64>::empty());
            assert(self.lot.woken() =~= self.lot.woken().union(valid_tickets(self.lot.entries())));
        }
        if !did_signal {
            self.state.store(SIGNAL_SET);
        }
        proof {
            let ws = self.waiters();
            assert forall|t: u64| #[trigger] self.lot().parked().contains(t) implies exists|i: u64|
                waits_on(ws, i, t) by {
                let i = choose|i: u64| waits_on(old(self).waiters(), i, t);
                assert(waits_on(ws, i, t));
            }
        }
    }

    /// Takes the event at once, along the fast path: succeeds only when no
    /// waiter is queued and the event is set, and unsets it.
    pub fn try_wait(&mut self) -> (acquired: bool)
        requires
            old(self).wf(),
        ensures
            final(self).wf(),
            old(self).try_wait_post(*final(self), acquired),
    {
        proof {
            self.lemma_waited();
        }
        !self.has_waiters() && self.state.cmpxchng_weak(SIGNAL_SET, SIGNAL_FREE).is_ok()
    }

    /// Whether the counters have room for one more wait.
    pub fn has_room(&self) -> (b: bool)
        requires
            self.wf(),
        ensures
            b == self.room(),
    {
        self.lot.has_room() && self.next_waiter < u64::MAX
    }

    /// Whether some waiter is queued and counted as waiting.
    pub fn has_waiters(&self) -> (b: bool)
        requires
            self.wf(),
        ensures
            b == self.waited(),
    {
        proof {
            self.lemma_waited();
        }
        self.lot.has_waiters()
    }
}

} // verus!
