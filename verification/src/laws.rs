//! What holds of the events across calls: the laws that the operations'
//! contracts add up to.

use vstd::prelude::*;
use crate::event::{EventSetter, EventState, RawEvent, RawEventAwaitState, yield_pending};
use crate::events::Event;
use crate::counted::CountedEvent;
use crate::lot::{
    AsyncLotSignature, first_valid, after_unpark, invalidated, valid_tickets, lemma_first_valid,
    lemma_unpark_valid_tickets,
};
use crate::linked_list::LinkyList;
use crate::task::Poll;

verus! {

/// A new event is taken at once by `try_wait` exactly when it was created
/// set.
pub proof fn law_fresh_event<S: EventState, L: AsyncLotSignature>(
    e0: RawEvent<S, L>,
    e1: RawEvent<S, L>,
    set: bool,
    acquired: bool,
)
    requires
        S::cas_is_strong(),
        e0.wf(),
        RawEvent::fresh(e0, set),
        e0.try_wait_post(e1, acquired),
    ensures
        acquired == set,
{
    assert(!e0.waited());
}

/// No stealing: while a waiter is queued, `try_wait` fails, even on a set
/// event.
pub proof fn law_no_steal<S: EventState, L: AsyncLotSignature>(
    e0: RawEvent<S, L>,
    e1: RawEvent<S, L>,
    acquired: bool,
)
    requires
        e0.wf(),
        e0.waited(),
        e0.try_wait_post(e1, acquired),
    ensures
        !acquired,
        e1.signal() == e0.signal(),
{
}

/// The fast path: on a set event whose queue holds no valid entry, a new
/// wait answers `Ready` on its first poll, and takes the flag.
pub proof fn law_set_event_taken_at_once<S: EventState, L: AsyncLotSignature>(
    e0: RawEvent<S, L>,
    e1: RawEvent<S, L>,
    id: u64,
    waker: std::task::Waker,
    r: Poll,
)
    requires
        S::cas_is_strong(),
        e0.wf(),
        e0.signal(),
        first_valid(e0.lot().entries()) >= e0.lot().entries().len(),
        e0.waiters().contains_key(id),
        e0.waiters()[id].state == RawEventAwaitState::Init,
        e0.poll_waiter_post(e1, id, waker, r),
    ensures
        r == Poll::Ready,
        !e1.signal(),
        e1.waiters()[id].state == RawEventAwaitState::Completed,
{
}

/// `set_one` on an event with no valid queued entry sets it, and a wait
/// started after that answers `Ready` on its first poll.
pub proof fn law_set_one_then_wait<S: EventState, L: AsyncLotSignature>(
    e0: RawEvent<S, L>,
    e1: RawEvent<S, L>,
    e2: RawEvent<S, L>,
    e3: RawEvent<S, L>,
    woke: bool,
    id: u64,
    waker: std::task::Waker,
    r: Poll,
)
    requires
        S::cas_is_strong(),
        e0.wf(),
        first_valid(e0.lot().entries()) >= e0.lot().entries().len(),
        e0.set_one_post(e1, woke),
        e1.wf(),
        e1.wait_post(e2, id),
        e2.wf(),
        e2.poll_waiter_post(e3, id, waker, r),
    ensures
        !woke,
        e1.signal(),
        r == Poll::Ready,
{
    assert(e1.lot().entries() =~= Seq::<(u64, bool)>::empty());
    assert(first_valid(e2.lot().entries()) == 0);
}

/// A queued waiter answers `Ready` exactly when a wake has taken its entry,
/// and then leaves the count of waiting tasks; polled again before that, it
/// answers `Pending`, stays counted, and the event is left as it was.
pub proof fn law_queued_waiter_completes_only_when_woken<S: EventState, L: AsyncLotSignature>(
    e0: RawEvent<S, L>,
    e1: RawEvent<S, L>,
    id: u64,
    waker: std::task::Waker,
    r: Poll,
)
    requires
        e0.wf(),
        e0.waiters().contains_key(id),
        e0.waiters()[id].state == RawEventAwaitState::Waiting,
        e0.poll_waiter_post(e1, id, waker, r),
    ensures
        (r == Poll::Ready) == e0.lot().woken().contains(e0.waiters()[id].wait_link->0),
        r == Poll::Ready ==> e1.lot().parked() == e0.lot().parked().remove(
            e0.waiters()[id].wait_link->0,
        ),
        r == Poll::Pending ==> {
            &&& e1.lot().parked() == e0.lot().parked()
            &&& e1.lot().entries() == e0.lot().entries()
            &&& e1.lot().woken() == e0.lot().woken()
            &&& e1.signal() == e0.signal()
            &&& e1.waited()
        },
{
    if r == Poll::Pending {
        assert(e1.waiters().contains_key(id));
    }
}

/// Fairness, with the wakers: on a new unset event, a first wait polled
/// with the waker `k1` and a second polled with `k2` both queue; `set_one`
/// then wakes, once, the clone of `k1` that the first stored, and no other
/// waker, while the second stays queued with its clone of `k2`.
pub proof fn law_first_parked_is_woken_first<S: EventState, L: AsyncLotSignature>(
    e0: RawEvent<S, L>,
    e1: RawEvent<S, L>,
    e2: RawEvent<S, L>,
    e3: RawEvent<S, L>,
    e4: RawEvent<S, L>,
    e5: RawEvent<S, L>,
    id1: u64,
    id2: u64,
    k1: std::task::Waker,
    k2: std::task::Waker,
    r1: Poll,
    r2: Poll,
    woke: bool,
)
    requires
        S::cas_is_strong(),
        e0.wf(),
        RawEvent::fresh(e0, false),
        e0.wait_post(e1, id1),
        e1.wf(),
        e1.poll_waiter_post(e2, id1, k1, r1),
        e2.wf(),
        e2.wait_post(e3, id2),
        e3.wf(),
        e3.poll_waiter_post(e4, id2, k2, r2),
        e4.wf(),
        e4.set_one_post(e5, woke),
        e5.wf(),
    ensures
        r1 == Poll::Pending,
        r2 == Poll::Pending,
        woke,
        e5.lot().wakes() == e4.lot().wakes().push(e4.lot().wakers()[e2.waiters()[id1].wait_link->0]),
        cloned(k1, e4.lot().wakers()[e2.waiters()[id1].wait_link->0]),
        e5.lot().entries() == seq![(e4.waiters()[id2].wait_link->0, true)],
        cloned(k2, e5.lot().wakers()[e4.waiters()[id2].wait_link->0]),
{
    let t1 = e0.lot().next_ticket();
    let t2 = e2.lot().next_ticket();
    assert(e1.lot().entries() =~= Seq::<(u64, bool)>::empty());
    assert(first_valid(e1.lot().entries()) == 0);
    assert(e2.lot().entries() =~= seq![(t1, true)]);
    assert(first_valid(e3.lot().entries()) == 0);
    assert(e4.lot().entries() =~= seq![(t1, true), (t2, true)]);
    assert(first_valid(e4.lot().entries()) == 0);
    e4.lot().lemma_tickets_issued();
    assert(e4.lot().entries()[0].0 == t1);
    assert(e4.lot().wakers().contains_key(t1));
    assert(e5.lot().entries() =~= seq![(t2, true)]);
    e5.lot().lemma_tickets_issued();
    assert(e5.lot().entries()[0].0 == t2);
    assert(e5.lot().wakers().contains_key(t2));
    assert(t2 != e4.lot().next_ticket());
}

/// Fairness: when every queued entry is valid, `set_one` wakes the oldest
/// and leaves the others queued in their order.
pub proof fn law_fifo(q: Seq<(u64, bool)>)
    requires
        q.len() > 0,
        forall|i: int| 0 <= i < q.len() ==> #[trigger] q[i].1,
    ensures
        first_valid(q) == 0,
        after_unpark(q) == q.drop_first(),
{
    assert(q.skip(1) =~= q.drop_first());
}

/// Waiters are woken in the order in which they queued: after `k` wakes,
/// the first `k` of the entries, all valid, are gone.
pub proof fn law_wakes_in_order(q: Seq<(u64, bool)>, k: nat)
    requires
        k <= q.len(),
        forall|i: int| 0 <= i < q.len() ==> #[trigger] q[i].1,
    ensures
        unpark_times(q, k) == q.skip(k as int),
    decreases k,
{
    if k == 0 {
        assert(q.skip(0) =~= q);
    } else {
        law_wakes_in_order(q, (k - 1) as nat);
        let r = q.skip(k - 1);
        assert(forall|i: int| 0 <= i < r.len() ==> #[trigger] r[i] == q[i + k - 1]);
        law_fifo(r);
        assert(r.drop_first() =~= q.skip(k as int));
    }
}

/// The queue after `k` calls of `set_one` that each woke a task.
pub open spec fn unpark_times(q: Seq<(u64, bool)>, k: nat) -> Seq<(u64, bool)>
    decreases k,
{
    if k == 0 {
        q
    } else {
        after_unpark(unpark_times(q, (k - 1) as nat))
    }
}

/// Cancel safety: the entry of a dropped waiter is never the one woken.
pub proof fn law_cancelled_never_woken(q: Seq<(u64, bool)>, t: u64)
    ensures
        first_valid(invalidated(q, t)) < q.len() ==> invalidated(q, t)[first_valid(
            invalidated(q, t),
        ) as int].0 != t,
        first_valid(invalidated(q, t)) < q.len() ==> invalidated(q, t)[first_valid(
            invalidated(q, t),
        ) as int].1,
    decreases q.len(),
{
    let iq = invalidated(q, t);
    if q.len() > 0 {
        law_cancelled_never_woken(q.drop_first(), t);
        assert(invalidated(q.drop_first(), t) =~= iq.drop_first());
    }
}

/// Cancel safety: once the waiters of an event were dropped, so that no
/// valid entry is queued and no task counts as waiting, `set_one` sets the
/// event and `try_wait` then takes it.
pub proof fn law_cancel_then_set<S: EventState, L: AsyncLotSignature>(
    e0: RawEvent<S, L>,
    e1: RawEvent<S, L>,
    e2: RawEvent<S, L>,
    woke: bool,
    acquired: bool,
)
    requires
        S::cas_is_strong(),
        e0.wf(),
        !e0.waited(),
        first_valid(e0.lot().entries()) >= e0.lot().entries().len(),
        e0.set_one_post(e1, woke),
        e1.wf(),
        e1.try_wait_post(e2, acquired),
    ensures
        !woke,
        acquired,
        !e2.signal(),
{
}

/// Dropping the waiter `id` takes its ticket out of the count of waiting
/// tasks; when it was not woken, its entry in the queue is turned off and
/// the flag is left alone.
pub proof fn law_drop_releases<S: EventState, L: AsyncLotSignature>(
    e0: RawEvent<S, L>,
    e1: RawEvent<S, L>,
    id: u64,
)
    requires
        e0.wf(),
        e0.waiters().contains_key(id),
        e0.waiters()[id].state == RawEventAwaitState::Waiting,
        !e0.lot().woken().contains(e0.waiters()[id].wait_link->0),
        e0.drop_waiter_post(e1, id),
    ensures
        !e1.lot().parked().contains(e0.waiters()[id].wait_link->0),
        e1.lot().entries() == invalidated(e0.lot().entries(), e0.waiters()[id].wait_link->0),
        e1.signal() == e0.signal(),
        !e1.waiters().contains_key(id),
{
}

/// Cancel safety: a waiter that was woken and is dropped before it saw the
/// wake hands the wake on: to the oldest valid entry of the queue, which is
/// then woken, or, when there is none, onto the flag, which is then set.
pub proof fn law_woken_cancel_hands_on<S: EventState, L: AsyncLotSignature>(
    e0: RawEvent<S, L>,
    e1: RawEvent<S, L>,
    id: u64,
)
    requires
        e0.wf(),
        e0.waiters().contains_key(id),
        e0.waiters()[id].state == RawEventAwaitState::Waiting,
        e0.lot().woken().contains(e0.waiters()[id].wait_link->0),
        e0.drop_waiter_post(e1, id),
    ensures
        !e1.lot().parked().contains(e0.waiters()[id].wait_link->0),
        !e1.lot().woken().contains(e0.waiters()[id].wait_link->0),
        e1.lot().entries() == after_unpark(e0.lot().entries()),
        first_valid(e0.lot().entries()) < e0.lot().entries().len() ==> e1.lot().woken().contains(
            e0.lot().entries()[first_valid(e0.lot().entries()) as int].0,
        ),
        first_valid(e0.lot().entries()) >= e0.lot().entries().len() ==> e1.signal(),
{
    let t = e0.waiters()[id].wait_link->0;
    let q = e0.lot().entries();
    e0.lot().lemma_tickets_issued();
    if first_valid(q) < q.len() {
        lemma_first_valid(q);
        assert(q[first_valid(q) as int].0 != t);
    }
}

/// `set_all` on an event that nobody waits on sets it, so that `try_wait`
/// then takes it.
pub proof fn law_set_all_nobody_waiting<S: EventState, L: AsyncLotSignature>(
    e0: RawEvent<S, L>,
    e1: RawEvent<S, L>,
    e2: RawEvent<S, L>,
    acquired: bool,
)
    requires
        S::cas_is_strong(),
        e0.wf(),
        !e0.waited(),
        e0.set_all_post(e1),
        e1.wf(),
        e1.try_wait_post(e2, acquired),
    ensures
        e1.signal(),
        acquired,
        !e2.signal(),
{
    e0.lemma_waited();
    e0.lot().lemma_tickets_issued();
    let q = e0.lot().entries();
    lemma_first_valid(q);
    if first_valid(q) < q.len() {
        assert(e0.lot().parked().contains(q[first_valid(q) as int].0));
    }
}

/// `set_all` on a counted event that nobody waits on sets the inner event
/// and leaves the count as it was; `try_wait` then takes the event.
pub proof fn law_counted_set_all_nobody_waiting(
    c0: CountedEvent<Event>,
    c1: CountedEvent<Event>,
    c2: CountedEvent<Event>,
    acquired: bool,
)
    requires
        c0.wf(),
        !c0.is_waited(),
        c0.set_all_spec(c1),
        c1.wf(),
        c1.try_wait_spec(c2, acquired),
    ensures
        c1.is_set(),
        c1.counter() == c0.counter(),
        acquired,
        !c2.is_set(),
{
    law_set_all_nobody_waiting(c0.inner().raw(), c1.inner().raw(), c2.inner().raw(), acquired);
}

/// `set_all` and its functor: when the call woke some task, that is, the
/// lot's log of wakes grew, the functor was called; when it woke none, the
/// event is set afterwards. The functor need be callable only when a task
/// is woken, so a call that wakes nobody never calls it.
pub proof fn law_set_all_functor_follows_wakes<S: EventState, L: AsyncLotSignature, F: FnMut()>(
    e0: RawEvent<S, L>,
    e1: RawEvent<S, L>,
    functor: F,
)
    requires
        e0.wf(),
        e0.set_all_post(e1),
        e0.queues_a_wake() ==> call_ensures(functor, (), ()),
    ensures
        e1.lot().wakes().len() > e0.lot().wakes().len() ==> call_ensures(functor, (), ()),
        e1.lot().wakes().len() == e0.lot().wakes().len() ==> e1.signal(),
        e1.lot().wakes().len() - e0.lot().wakes().len() == valid_tickets(e0.lot().entries()).len(),
{
    let q = e0.lot().entries();
    e0.lot().lemma_tickets_issued();
    crate::lot::lemma_valid_order(q);
    lemma_unpark_valid_tickets(q);
    lemma_valid_order_counts(q);
}

/// The valid entries of a queue with distinct tickets: as many, in order,
/// as the tickets of the valid entries.
proof fn lemma_valid_order_counts(q: Seq<(u64, bool)>)
    requires
        forall|i: int, j: int|
            0 <= i < q.len() && 0 <= j < q.len() && i != j ==> #[trigger] q[i].0 != #[trigger] q[j].0,
    ensures
        crate::lot::valid_order(q).len() == valid_tickets(q).len(),
    decreases q.len(),
{
    lemma_unpark_valid_tickets(q);
    crate::lot::lemma_valid_order(q);
    if first_valid(q) < q.len() {
        let r = after_unpark(q);
        lemma_first_valid(q);
        assert forall|i: int, j: int|
            0 <= i < r.len() && 0 <= j < r.len() && i != j implies #[trigger] r[i].0 != #[trigger] r[j].0 by {
            assert(r[i] == q[i + first_valid(q) + 1]);
            assert(r[j] == q[j + first_valid(q) + 1]);
        }
        lemma_valid_order_counts(r);
        lemma_unpark_valid_tickets(r);
    } else {
        assert(valid_tickets(q).len() == 0);
    }
}

/// One call on an event, with what it answered.
pub enum EventOp {
    Wait(u64),
    Poll(u64, Poll),
    Drop(u64),
    SetOne(bool),
    SetAll,
    TryWait(bool),
}

/// The call `op` took the event from `e0` to `e1`.
pub open spec fn op_step<S: EventState, L: AsyncLotSignature>(
    e0: RawEvent<S, L>,
    op: EventOp,
    e1: RawEvent<S, L>,
) -> bool {
    &&& e1.wf()
    &&& match op {
        EventOp::Wait(id) => e0.wait_post(e1, id),
        EventOp::Poll(id, r) => exists|waker: std::task::Waker| e0.poll_waiter_post(e1, id, waker, r),
        EventOp::Drop(id) => e0.drop_waiter_post(e1, id),
        EventOp::SetOne(woke) => e0.set_one_post(e1, woke),
        EventOp::SetAll => e0.set_all_post(e1),
        EventOp::TryWait(acquired) => e0.try_wait_post(e1, acquired),
    }
}

/// Whether the call served a task: a wait that ended with `Ready`, or a
/// `try_wait` that took the event.
pub open spec fn served<S: EventState, L: AsyncLotSignature>(e0: RawEvent<S, L>, op: EventOp) -> nat {
    match op {
        EventOp::Poll(id, r) => if r == Poll::Ready && e0.waiters().contains_key(id)
            && e0.waiters()[id].state != RawEventAwaitState::Completed {
            1
        } else {
            0
        },
        EventOp::TryWait(acquired) => if acquired {
            1
        } else {
            0
        },
        _ => 0,
    }
}

/// What the call granted: one for `set_one`; for `set_all`, one for each
/// waiter that it woke, or one when it woke none.
pub open spec fn granted<S: EventState, L: AsyncLotSignature>(e0: RawEvent<S, L>, op: EventOp) -> nat {
    match op {
        EventOp::SetOne(_) => 1,
        EventOp::SetAll => {
            let n = valid_tickets(e0.lot().entries()).len();
            if n == 0 {
                1
            } else {
                n
            }
        },
        _ => 0,
    }
}

/// The permits that an event holds: one in its flag when it is set, and
/// one for each woken waiter that has not yet seen its wake.
pub open spec fn permits<S: EventState, L: AsyncLotSignature>(e: RawEvent<S, L>) -> nat {
    (if e.signal() {
        1nat
    } else {
        0nat
    }) + e.lot().woken().len()
}

/// Each call serves at most the permits that it finds or grants, and what
/// it does not serve stays in the event.
pub proof fn law_step_permits<S: EventState, L: AsyncLotSignature>(
    e0: RawEvent<S, L>,
    op: EventOp,
    e1: RawEvent<S, L>,
)
    requires
        e0.wf(),
        op_step(e0, op, e1),
    ensures
        served(e0, op) + permits(e1) <= permits(e0) + granted(e0, op),
{
    let l0 = e0.lot();
    let q = l0.entries();
    l0.lemma_tickets_issued();
    lemma_first_valid(q);
    lemma_unpark_valid_tickets(q);
    let k0 = l0.woken();
    let fv = first_valid(q) as int;
    if fv < q.len() {
        assert(!k0.contains(q[fv].0));
    }
    match op {
        EventOp::Poll(id, r) => {
            if e0.waiters().contains_key(id) {
                let w0 = e0.waiters()[id];
                if w0.state == RawEventAwaitState::Waiting {
                    let t = w0.wait_link->0;
                    if k0.contains(t) {
                        assert(e1.lot().woken().len() == k0.len() - 1);
                    }
                } else if w0.state == RawEventAwaitState::Init && !yield_pending(w0) {
                    if e0.signal() && fv < q.len() && r == Poll::Pending && !e1.signal()
                        && e1.lot().woken() == k0.insert(q[fv].0) {
                        assert(e1.lot().woken().len() == k0.len() + 1);
                    }
                }
            }
        },
        EventOp::Drop(id) => {
            if e0.waiters().contains_key(id) {
                let w0 = e0.waiters()[id];
                let t = w0.wait_link->0;
                if w0.state == RawEventAwaitState::Waiting && k0.contains(t) {
                    assert(k0.remove(t).len() == k0.len() - 1);
                    if fv < q.len() {
                        assert(q[fv].0 != t);
                        assert(!k0.remove(t).contains(q[fv].0));
                        assert(e1.lot().woken().len() == k0.len());
                    }
                }
            }
        },
        EventOp::SetOne(woke) => {
            if woke {
                assert(e1.lot().woken().len() == k0.len() + 1);
            }
        },
        EventOp::SetAll => {
            let v = valid_tickets(q);
            assert(k0.disjoint(v)) by {
                assert forall|t: u64| #[trigger] v.contains(t) implies !k0.contains(t) by {
                    let i = choose|i: int| 0 <= i < q.len() && #[trigger] q[i] == (t, true);
                    assert(q[i].0 == t);
                }
            }
            vstd::set_lib::lemma_set_disjoint_lens(k0, v);
            assert(k0.union(v) == k0 + v);
            if fv < q.len() {
                assert(v.contains(q[fv].0));
                assert(v.len() > 0) by {
                    if v.len() == 0 {
                        vstd::set_lib::lemma_set_empty_equivalency_len(v);
                        assert(v =~= Set::<u64>::empty());
                    }
                }
            } else {
                assert(v.len() == 0);
            }
        },
        _ => {},
    }
}

/// How many tasks the first `k` calls served.
pub open spec fn served_total<S: EventState, L: AsyncLotSignature>(
    es: Seq<RawEvent<S, L>>,
    ops: Seq<EventOp>,
    k: nat,
) -> nat
    decreases k,
{
    if k == 0 {
        0
    } else {
        served_total(es, ops, (k - 1) as nat) + served(es[k - 1], ops[k - 1])
    }
}

/// How many permits the first `k` calls granted.
pub open spec fn granted_total<S: EventState, L: AsyncLotSignature>(
    es: Seq<RawEvent<S, L>>,
    ops: Seq<EventOp>,
    k: nat,
) -> nat
    decreases k,
{
    if k == 0 {
        0
    } else {
        granted_total(es, ops, (k - 1) as nat) + granted(es[k - 1], ops[k - 1])
    }
}

/// The event is a semaphore: along any run of calls, the waits that end
/// with `Ready` and the successful `try_wait` calls together number at most
/// the permits that the event held at the start, plus one for each
/// `set_one`, plus, for each `set_all`, the number of waiters that it woke,
/// or one when it woke none. In particular a wait never ends on an event
/// that was neither created set nor set since.
pub proof fn law_semaphore<S: EventState, L: AsyncLotSignature>(
    es: Seq<RawEvent<S, L>>,
    ops: Seq<EventOp>,
)
    requires
        es.len() == ops.len() + 1,
        es[0].wf(),
        forall|i: int| 0 <= i < ops.len() ==> op_step(#[trigger] es[i], ops[i], es[i + 1]),
    ensures
        served_total(es, ops, ops.len()) + permits(es[ops.len() as int]) <= permits(es[0])
            + granted_total(es, ops, ops.len()),
        served_total(es, ops, ops.len()) <= permits(es[0]) + granted_total(es, ops, ops.len()),
{
    lemma_semaphore_prefix(es, ops, ops.len());
}

/// A run that starts on a new event: the permits at the start are one when
/// it was created set, none otherwise.
pub proof fn law_semaphore_fresh<S: EventState, L: AsyncLotSignature>(
    es: Seq<RawEvent<S, L>>,
    ops: Seq<EventOp>,
    set: bool,
)
    requires
        es.len() == ops.len() + 1,
        es[0].wf(),
        RawEvent::fresh(es[0], set),
        forall|i: int| 0 <= i < ops.len() ==> op_step(#[trigger] es[i], ops[i], es[i + 1]),
    ensures
        served_total(es, ops, ops.len()) <= (if set {
            1nat
        } else {
            0nat
        }) + granted_total(es, ops, ops.len()),
{
    law_semaphore(es, ops);
    assert(es[0].lot().woken().len() == 0);
}

proof fn lemma_semaphore_prefix<S: EventState, L: AsyncLotSignature>(
    es: Seq<RawEvent<S, L>>,
    ops: Seq<EventOp>,
    k: nat,
)
    requires
        es.len() == ops.len() + 1,
        es[0].wf(),
        forall|i: int| 0 <= i < ops.len() ==> op_step(#[trigger] es[i], ops[i], es[i + 1]),
        k <= ops.len(),
    ensures
        es[k as int].wf(),
        served_total(es, ops, k) + permits(es[k as int]) <= permits(es[0]) + granted_total(
            es,
            ops,
            k,
        ),
    decreases k,
{
    if k > 0 {
        let j = k - 1;
        lemma_semaphore_prefix(es, ops, j as nat);
        assert(op_step(es[j], ops[j], es[j + 1]));
        law_step_permits(es[j], ops[j], es[j + 1]);
    }
}

/// A list gives back first what was pushed last, and is then as before.
pub proof fn law_push_pop<T>(l0: LinkyList<T>, l1: LinkyList<T>, l2: LinkyList<T>, value: T, r: Option<T>)
    requires
        l0.push_front_post(l1, value),
        l1.pop_front_post(l2, r),
    ensures
        r == Some(value),
        l2.view() == l0.view(),
{
    assert((seq![value] + l0.view()).drop_first() =~= l0.view());
}

/// The node count of a list goes up by one with each push, and down by one
/// with each pop that gave a value; a pop on an empty list gives nothing
/// and changes nothing.
pub proof fn law_list_length<T>(
    l0: LinkyList<T>,
    l1: LinkyList<T>,
    value: T,
    m0: LinkyList<T>,
    m1: LinkyList<T>,
    r: Option<T>,
)
    requires
        l0.wf(),
        l1.wf(),
        l0.push_front_post(l1, value),
        m0.wf(),
        m1.wf(),
        m0.pop_front_post(m1, r),
    ensures
        l1.chain().len() == l0.chain().len() + 1,
        m1.chain().len() == m0.chain().len() - (if r is Some {
            1int
        } else {
            0int
        }),
        (r is None) == (m0.head_target() is None),
{
    l0.lemma_shape();
    l1.lemma_shape();
    m0.lemma_shape();
    m1.lemma_shape();
}

} // verus!
