//! A wait lot: the queue of tasks parked on an event. A parked task gets a
//! ticket; the ticket goes into a FIFO queue, its waker and validity marker
//! into a table keyed by the ticket. Waking takes tickets from the front and
//! skips those whose marker was turned off.

use vstd::prelude::*;
use std::collections::{HashMap, HashSet};
use crate::signal::{ValidityMarker, TechnicalCounter, WakeQueue, Marker, LocalCounter, LocalQueue};
use crate::task::{wake_by_ref, clone_waker, WakeLog};

verus! {

broadcast use vstd::std_specs::hash::group_hash_axioms;

/// Index of the first entry whose marker is valid, or the length of the
/// sequence when there is none.
pub open spec fn first_valid(entries: Seq<(u64, bool)>) -> nat
    decreases entries.len(),
{
    if entries.len() == 0 {
        0
    } else if entries[0].1 {
        0
    } else {
        1 + first_valid(entries.drop_first())
    }
}

/// What is left of the queue once the first valid entry has been taken,
/// with every invalid entry before it: nothing, when there is no valid entry.
pub open spec fn after_unpark(entries: Seq<(u64, bool)>) -> Seq<(u64, bool)> {
    if first_valid(entries) < entries.len() {
        entries.skip(first_valid(entries) + 1int)
    } else {
        Seq::empty()
    }
}

/// The tickets of the valid entries of the queue: those that a wake can
/// still reach.
pub open spec fn valid_tickets(entries: Seq<(u64, bool)>) -> Set<u64> {
    Set::new(|t: u64| exists|i: int| 0 <= i < entries.len() && #[trigger] entries[i] == (t, true))
}

/// The first valid entry is valid, and none before it is.
pub proof fn lemma_first_valid(entries: Seq<(u64, bool)>)
    ensures
        first_valid(entries) <= entries.len(),
        forall|i: int| 0 <= i < first_valid(entries) ==> !(#[trigger] entries[i]).1,
        first_valid(entries) < entries.len() ==> entries[first_valid(entries) as int].1,
    decreases entries.len(),
{
    if entries.len() > 0 && !entries[0].1 {
        let rest = entries.drop_first();
        lemma_first_valid(rest);
        assert forall|i: int| 0 <= i < first_valid(entries) implies !(#[trigger] entries[i]).1 by {
            if i > 0 {
                assert(entries[i] == rest[i - 1]);
            }
        }
        if first_valid(entries) < entries.len() {
            assert(entries[first_valid(entries) as int] == rest[first_valid(rest) as int]);
        }
    }
}

/// A wake takes exactly one valid ticket off the queue, that of the first
/// valid entry; when there is none, no ticket of the queue is valid. The
/// valid tickets are finite.
pub proof fn lemma_unpark_valid_tickets(entries: Seq<(u64, bool)>)
    requires
        forall|i: int, j: int|
            0 <= i < entries.len() && 0 <= j < entries.len() && i != j
                ==> #[trigger] entries[i].0 != #[trigger] entries[j].0,
    ensures
        valid_tickets(entries).finite(),
        first_valid(entries) < entries.len() ==> {
            &&& valid_tickets(entries) == valid_tickets(after_unpark(entries)).insert(
                entries[first_valid(entries) as int].0,
            )
            &&& !valid_tickets(after_unpark(entries)).contains(
                entries[first_valid(entries) as int].0,
            )
        },
        first_valid(entries) >= entries.len() ==> valid_tickets(entries) == Set::<u64>::empty(),
{
    lemma_first_valid(entries);
    let f = first_valid(entries) as int;
    let keys = entries.map_values(|e: (u64, bool)| e.0).to_set();
    assert(valid_tickets(entries).subset_of(keys)) by {
        assert forall|t: u64| #[trigger] valid_tickets(entries).contains(t) implies keys.contains(t) by {
            let i = choose|i: int| 0 <= i < entries.len() && #[trigger] entries[i] == (t, true);
            assert(entries.map_values(|e: (u64, bool)| e.0)[i] == t);
        }
    }
    vstd::seq_lib::seq_to_set_is_finite(entries.map_values(|e: (u64, bool)| e.0));
    vstd::set_lib::lemma_set_subset_finite(keys, valid_tickets(entries));
    if f < entries.len() {
        let rest = after_unpark(entries);
        let t0 = entries[f].0;
        assert forall|t: u64| #[trigger] valid_tickets(entries).contains(t) == valid_tickets(
            rest,
        ).insert(t0).contains(t) by {
            if valid_tickets(entries).contains(t) && t != t0 {
                let i = choose|i: int| 0 <= i < entries.len() && #[trigger] entries[i] == (t, true);
                assert(i > f);
                assert(rest[i - f - 1] == entries[i]);
            }
            if valid_tickets(rest).contains(t) {
                let i = choose|i: int| 0 <= i < rest.len() && #[trigger] rest[i] == (t, true);
                assert(entries[i + f + 1] == rest[i]);
            }
            if t == t0 {
                assert(entries[f] == (t0, true));
            }
        }
        assert(valid_tickets(entries) =~= valid_tickets(rest).insert(t0));
        if valid_tickets(rest).contains(t0) {
            let i = choose|i: int| 0 <= i < rest.len() && #[trigger] rest[i] == (t0, true);
            assert(entries[i + f + 1] == rest[i]);
        }
    } else {
        assert forall|t: u64| !#[trigger] valid_tickets(entries).contains(t) by {
            if valid_tickets(entries).contains(t) {
                let i = choose|i: int| 0 <= i < entries.len() && #[trigger] entries[i] == (t, true);
            }
        }
        assert(valid_tickets(entries) =~= Set::<u64>::empty());
    }
}

/// The tickets of the valid entries, in queue order: the order in which
/// wakes reach them.
pub open spec fn valid_order(entries: Seq<(u64, bool)>) -> Seq<u64>
    decreases entries.len(),
{
    if entries.len() == 0 {
        Seq::empty()
    } else {
        (if entries[0].1 {
            seq![entries[0].0]
        } else {
            Seq::empty()
        }) + valid_order(entries.drop_first())
    }
}

/// The wakers stored for the valid entries, in queue order.
pub open spec fn valid_wakers(
    entries: Seq<(u64, bool)>,
    wakers: Map<u64, std::task::Waker>,
) -> Seq<std::task::Waker> {
    valid_order(entries).map_values(|t: u64| wakers[t])
}

/// Every waker stored `after` was stored `before` under the same ticket,
/// but for the ticket `fresh`, which may be new.
pub open spec fn wakers_kept(
    before: Map<u64, std::task::Waker>,
    after: Map<u64, std::task::Waker>,
    fresh: u64,
) -> bool {
    forall|t: u64| #[trigger]
        after.contains_key(t) && t != fresh ==> before.contains_key(t) && after[t] == before[t]
}

/// A wake reaches the first valid entry; the rest of the valid entries
/// keep their order. Every ticket of the order is a ticket of the queue.
pub proof fn lemma_valid_order(entries: Seq<(u64, bool)>)
    ensures
        first_valid(entries) < entries.len() ==> valid_order(entries) == seq![
            entries[first_valid(entries) as int].0,
        ] + valid_order(after_unpark(entries)),
        first_valid(entries) >= entries.len() ==> valid_order(entries) == Seq::<u64>::empty(),
        forall|k: int|
            0 <= k < valid_order(entries).len() ==> exists|i: int|
                0 <= i < entries.len() && entries[i].0 == #[trigger] valid_order(entries)[k],
    decreases entries.len(),
{
    if entries.len() > 0 {
        let rest = entries.drop_first();
        lemma_valid_order(rest);
        let head: Seq<u64> = if entries[0].1 {
            seq![entries[0].0]
        } else {
            Seq::empty()
        };
        let vo = valid_order(entries);
        assert(vo == head + valid_order(rest));
        if entries[0].1 {
            assert(entries.skip(1) =~= rest);
        } else if first_valid(rest) < rest.len() {
            assert(entries.skip(first_valid(entries) + 1int) =~= rest.skip(first_valid(rest) + 1int));
            assert(head + valid_order(rest) =~= valid_order(rest));
            assert(entries[first_valid(entries) as int] == rest[first_valid(rest) as int]);
        } else {
            assert(head + valid_order(rest) =~= valid_order(rest));
        }
        assert forall|k: int| 0 <= k < vo.len() implies exists|i: int|
            0 <= i < entries.len() && entries[i].0 == #[trigger] vo[k] by {
            if k < head.len() {
                assert(entries[0].0 == vo[k]);
            } else {
                assert(vo[k] == valid_order(rest)[k - head.len()]);
                let i = choose|i: int|
                    0 <= i < rest.len() && rest[i].0 == #[trigger] valid_order(rest)[k - head.len()];
                assert(entries[i + 1].0 == vo[k]);
            }
        }
    }
}

/// The queue with the marker of `ticket` turned off.
pub open spec fn invalidated(entries: Seq<(u64, bool)>, ticket: u64) -> Seq<(u64, bool)> {
    entries.map_values(|e: (u64, bool)| if e.0 == ticket { (e.0, false) } else { e })
}

/// The operations an event needs from its wait lot.
///
/// A lot is seen as its queue of `(ticket, valid)` entries, oldest first,
/// the set of tickets whose tasks still count as waiting, the set of those
/// among them that were woken (taken off the queue by a wake), and the next
/// ticket that it will hand out.
pub trait AsyncLotSignature: Sized {
    type ValidityMarker: ValidityMarker;

    spec fn wf(&self) -> bool;

    spec fn entries(&self) -> Seq<(u64, bool)>;

    spec fn parked(&self) -> Set<u64>;

    spec fn woken(&self) -> Set<u64>;

    spec fn next_ticket(&self) -> u64;

    /// The waker stored for each ticket that the queue holds.
    spec fn wakers(&self) -> Map<u64, std::task::Waker>;

    /// The wakers that the lot has woken, oldest call first.
    spec fn wakes(&self) -> Seq<std::task::Waker>;

    /// Every ticket that the lot holds was handed out before; a valid entry
    /// belongs to a task that waits and was not woken; a woken ticket is no
    /// longer queued; no ticket is queued twice.
    proof fn lemma_tickets_issued(&self)
        requires
            self.wf(),
        ensures
            self.parked().finite(),
            self.woken().finite(),
            self.woken().subset_of(self.parked()),
            forall|t: u64| #[trigger] self.parked().contains(t) ==> t < self.next_ticket(),
            forall|i: int|
                0 <= i < self.entries().len() ==> #[trigger] self.entries()[i].0
                    < self.next_ticket(),
            forall|i: int|
                0 <= i < self.entries().len() ==> !self.woken().contains(
                    #[trigger] self.entries()[i].0,
                ),
            forall|i: int|
                0 <= i < self.entries().len() && #[trigger] self.entries()[i].1
                    ==> self.parked().contains(self.entries()[i].0),
            forall|i: int, j: int|
                0 <= i < self.entries().len() && 0 <= j < self.entries().len() && i != j
                    ==> #[trigger] self.entries()[i].0 != #[trigger] self.entries()[j].0,
            forall|i: int|
                0 <= i < self.entries().len() ==> self.wakers().contains_key(
                    #[trigger] self.entries()[i].0,
                ),
            !self.wakers().contains_key(self.next_ticket()),
    ;

    fn new() -> (l: Self)
        ensures
            l.wf(),
            l.entries() == Seq::<(u64, bool)>::empty(),
            l.parked() == Set::<u64>::empty(),
            l.woken() == Set::<u64>::empty(),
            l.next_ticket() == 0,
            l.wakes() == Seq::<std::task::Waker>::empty(),
    ;

    /// Queues the task of `waker` under a fresh ticket, counted as waiting,
    /// with a clone of `waker` stored for the ticket.
    fn park(&mut self, waker: &std::task::Waker) -> (ticket: u64)
        requires
            old(self).wf(),
            old(self).parked().len() < usize::MAX,
            old(self).next_ticket() < u64::MAX,
        ensures
            final(self).wf(),
            ticket == old(self).next_ticket(),
            final(self).next_ticket() == ticket + 1,
            final(self).entries() == old(self).entries().push((ticket, true)),
            final(self).parked() == old(self).parked().insert(ticket),
            final(self).woken() == old(self).woken(),
            final(self).wakers().contains_key(ticket),
            cloned(*waker, final(self).wakers()[ticket]),
            wakers_kept(old(self).wakers(), final(self).wakers(), ticket),
            final(self).wakes() == old(self).wakes(),
    ;

    /// Wakes the oldest task whose marker is valid, once, through the waker
    /// stored for it, dropping it and the invalid entries before it from the
    /// queue; its ticket is then woken. No other waker is woken.
    /// Returns whether a task was woken; when none was, the queue is left
    /// empty.
    fn unpark_one(&mut self) -> (woke: bool)
        requires
            old(self).wf(),
        ensures
            final(self).wf(),
            woke == (first_valid(old(self).entries()) < old(self).entries().len()),
            final(self).entries() == after_unpark(old(self).entries()),
            final(self).parked() == old(self).parked(),
            final(self).woken() == (if woke {
                old(self).woken().insert(
                    old(self).entries()[first_valid(old(self).entries()) as int].0,
                )
            } else {
                old(self).woken()
            }),
            final(self).next_ticket() == old(self).next_ticket(),
            final(self).wakes() == (if woke {
                old(self).wakes().push(
                    old(self).wakers()[old(self).entries()[first_valid(old(self).entries()) as int].0],
                )
            } else {
                old(self).wakes()
            }),
            wakers_kept(old(self).wakers(), final(self).wakers(), old(self).next_ticket()),
    ;

    /// Whether the task of `ticket` was woken.
    fn is_woken(&self, ticket: u64) -> (b: bool)
        requires
            self.wf(),
        ensures
            b == self.woken().contains(ticket),
    ;

    /// The task of `ticket` no longer waits. Its entry must not be queued
    /// as valid any more: it was woken, or its marker was turned off. A task
    /// released while a wake can still reach its entry would take that wake
    /// with it, lost; the event releases a task only after its wake or
    /// after turning its entry off, and the lot keeps every valid entry
    /// counted as waiting.
    fn notify_wait_release(&mut self, ticket: u64)
        requires
            old(self).wf(),
            old(self).parked().contains(ticket),
            forall|i: int|
                0 <= i < old(self).entries().len() && #[trigger] old(self).entries()[i].0
                    == ticket ==> !old(self).entries()[i].1,
        ensures
            final(self).wf(),
            final(self).parked() == old(self).parked().remove(ticket),
            final(self).woken() == old(self).woken().remove(ticket),
            final(self).entries() == old(self).entries(),
            final(self).next_ticket() == old(self).next_ticket(),
            final(self).wakers() == old(self).wakers(),
            final(self).wakes() == old(self).wakes(),
    ;

    /// Turns off the marker of the entry of `ticket`, so that waking skips it.
    fn invalidate(&mut self, ticket: u64)
        requires
            old(self).wf(),
        ensures
            final(self).wf(),
            final(self).entries() == invalidated(old(self).entries(), ticket),
            final(self).parked() == old(self).parked(),
            final(self).woken() == old(self).woken(),
            final(self).next_ticket() == old(self).next_ticket(),
            final(self).wakers() == old(self).wakers(),
            final(self).wakes() == old(self).wakes(),
    ;

    fn has_waiters(&self) -> (b: bool)
        requires
            self.wf(),
        ensures
            b == (self.parked() != Set::<u64>::empty()),
    ;

    /// Whether one more task can be parked without overflowing a counter.
    fn has_room(&self) -> (b: bool)
        requires
            self.wf(),
        ensures
            b == (self.parked().len() < usize::MAX && self.next_ticket() < u64::MAX),
    ;
}

/// A queued task: the waker to call and the marker of its validity.
pub struct Parked<V> {
    waker: std::task::Waker,
    marker: V,
}

/// The wait lot, generic in its marker, counter and queue.
pub struct AsyncLotTemplate<V, C, Q> {
    inner: Q,
    table: HashMap<u64, Parked<V>>,
    counter: C,
    next_ticket: u64,
    woken: HashSet<u64>,
    waiting: Ghost<Set<u64>>,
    log: WakeLog,
}

impl<V: ValidityMarker, C: TechnicalCounter, Q: WakeQueue<u64>> AsyncLotTemplate<V, C, Q> {
    pub closed spec fn queue(&self) -> Seq<u64> {
        self.inner.items()
    }

    pub closed spec fn wakers_of(&self) -> Map<u64, std::task::Waker> {
        self.table@.map_values(|p: Parked<V>| p.waker)
    }

    pub closed spec fn entries_of(&self) -> Seq<(u64, bool)> {
        self.inner.items().map_values(|t: u64| (t, self.table@[t].marker.is_valid()))
    }

    pub closed spec fn inv(&self) -> bool {
        &&& self.inner.items().no_duplicates()
        &&& forall|t: u64| #[trigger]
            self.table@.contains_key(t) == self.inner.items().contains(t)
        &&& forall|i: int|
            0 <= i < self.inner.items().len() ==> #[trigger] self.inner.items()[i]
                < self.next_ticket
        &&& self.waiting@.finite()
        &&& forall|t: u64| #[trigger] self.waiting@.contains(t) ==> t < self.next_ticket
        &&& self.counter.count() == self.waiting@.len()
        &&& self.woken@.finite()
        &&& forall|t: u64| #[trigger] self.woken@.contains(t) ==> self.waiting@.contains(t)
            && !self.inner.items().contains(t)
        &&& forall|i: int|
            0 <= i < self.inner.items().len() && self.table@[#[trigger] self.inner.items()[i]].marker.is_valid()
                ==> self.waiting@.contains(self.inner.items()[i])
    }

    /// Takes the oldest ticket off the queue, with its waker and marker.
    fn try_unpark(&mut self) -> (r: Option<(u64, Parked<V>)>)
        requires
            old(self).inv(),
        ensures
            final(self).inv(),
            final(self).waiting@ == old(self).waiting@,
            final(self).woken@ == old(self).woken@,
            final(self).next_ticket == old(self).next_ticket,
            final(self).log == old(self).log,
            forall|u: u64| #[trigger]
                final(self).table@.contains_key(u) ==> old(self).table@.contains_key(u)
                    && final(self).table@[u] == old(self).table@[u],
            match r {
                None => old(self).entries_of().len() == 0 && final(self).entries_of()
                    == old(self).entries_of(),
                Some((t, p)) => {
                    &&& old(self).entries_of().len() > 0
                    &&& t == old(self).entries_of()[0].0
                    &&& p.marker.is_valid() == old(self).entries_of()[0].1
                    &&& p == old(self).table@[t]
                    &&& final(self).entries_of() == old(self).entries_of().drop_first()
                    &&& !final(self).inner.items().contains(t)
                },
            },
    {
        let ghost old_items = self.inner.items();
        let ghost old_table = self.table@;
        match self.inner.dequeue() {
            None => None,
            Some(t) => {
                assert(old_items.contains(t)) by {
                    assert(old_items[0] == t);
                }
                let removed = self.table.remove(&t);
                let ghost items = self.inner.items();
                assert(items == old_items.drop_first());
                assert(self.table@ == old_table.remove(t));
                assert forall|i: int| 0 <= i < items.len() implies items[i] != t by {
                    assert(items[i] == old_items[i + 1]);
                }
                assert forall|u: u64| #[trigger]
                    self.table@.contains_key(u) == items.contains(u) by {
                    if items.contains(u) {
                        let k = choose|k: int| 0 <= k < items.len() && items[k] == u;
                        assert(old_items[k + 1] == u);
                        assert(u != t);
                    }
                    if self.table@.contains_key(u) {
                        assert(old_items.contains(u));
                        let k = choose|k: int| 0 <= k < old_items.len() && old_items[k] == u;
                        assert(k != 0);
                        assert(items[k - 1] == u);
                    }
                }
                assert forall|i: int| 0 <= i < items.len() implies #[trigger] items[i]
                    < self.next_ticket by {
                    assert(items[i] == old_items[i + 1]);
                }
                assert forall|u: u64| #[trigger] self.woken@.contains(u) implies self.waiting@.contains(u)
                    && !items.contains(u) by {
                    if items.contains(u) {
                        let k = choose|k: int| 0 <= k < items.len() && items[k] == u;
                        assert(old_items[k + 1] == u);
                    }
                }
                assert forall|i: int|
                    0 <= i < items.len() && self.table@[#[trigger] items[i]].marker.is_valid()
                    implies self.waiting@.contains(items[i]) by {
                    assert(items[i] == old_items[i + 1]);
                    assert(old_table[old_items[i + 1]].marker.is_valid());
                }
                assert(self.entries_of() =~= old(self).entries_of().drop_first());
                match removed {
                    Some(p) => Some((t, p)),
                    None => {
                        assert(old_table.contains_key(t));
                        None
                    },
                }
            },
        }
    }
}

impl<V: ValidityMarker, C: TechnicalCounter, Q: WakeQueue<u64>> AsyncLotSignature for AsyncLotTemplate<
    V,
    C,
    Q,
> {
    type ValidityMarker = V;

    closed spec fn wf(&self) -> bool {
        self.inv()
    }

    closed spec fn entries(&self) -> Seq<(u64, bool)> {
        self.entries_of()
    }

    closed spec fn parked(&self) -> Set<u64> {
        self.waiting@
    }

    closed spec fn woken(&self) -> Set<u64> {
        self.woken@
    }

    closed spec fn next_ticket(&self) -> u64 {
        self.next_ticket
    }

    closed spec fn wakers(&self) -> Map<u64, std::task::Waker> {
        self.wakers_of()
    }

    closed spec fn wakes(&self) -> Seq<std::task::Waker> {
        self.log.view()
    }

    proof fn lemma_tickets_issued(&self) {
        let items = self.inner.items();
        assert forall|i: int| 0 <= i < self.entries_of().len() implies !self.woken@.contains(
            #[trigger] self.entries_of()[i].0,
        ) by {
            assert(self.entries_of()[i].0 == items[i]);
            assert(items.contains(items[i]));
        }
        assert forall|i: int|
            0 <= i < self.entries_of().len() && #[trigger] self.entries_of()[i].1 implies self.waiting@.contains(
            self.entries_of()[i].0,
        ) by {
            assert(self.entries_of()[i].0 == items[i]);
        }
    }

    fn new() -> (l: Self) {
        let l = AsyncLotTemplate {
            inner: Q::empty(),
            table: HashMap::new(),
            counter: C::zero(),
            next_ticket: 0,
            woken: HashSet::new(),
            waiting: Ghost(Set::empty()),
            log: WakeLog::new(),
        };
        assert(l.entries_of() =~= Seq::<(u64, bool)>::empty());
        l
    }

    fn park(&mut self, waker: &std::task::Waker) -> (ticket: u64) {
        let ghost old_items = self.inner.items();
        let ghost old_table = self.table@;
        self.counter.increment();
        let ticket = self.next_ticket;
        let notifier = V::create();
        self.inner.enqueue(ticket);
        self.table.insert(ticket, Parked { waker: clone_waker(waker), marker: notifier });
        self.next_ticket = ticket + 1;
        proof {
            self.waiting@ = self.waiting@.insert(ticket);
            let items = self.inner.items();
            assert(items == old_items.push(ticket));
            assert(!old_items.contains(ticket));
            assert(self.table@.dom() == old_table.dom().insert(ticket));
            assert(items[items.len() - 1] == ticket);
            assert forall|u: u64| #[trigger]
                self.table@.contains_key(u) == items.contains(u) by {
                assert(old_table.contains_key(u) == old_items.contains(u));
                if old_items.contains(u) {
                    let k = choose|k: int| 0 <= k < old_items.len() && old_items[k] == u;
                    assert(items[k] == u);
                }
                if items.contains(u) && u != ticket {
                    let k = choose|k: int| 0 <= k < items.len() && items[k] == u;
                    assert(k < old_items.len());
                    assert(old_items[k] == u);
                }
            }
            assert(items.no_duplicates()) by {
                assert forall|i: int, j: int|
                    0 <= i < items.len() && 0 <= j < items.len() && i != j implies items[i]
                    != items[j] by {
                    if i < old_items.len() && j < old_items.len() {
                    } else if i < old_items.len() {
                        assert(old_items[i] < ticket);
                    } else {
                        assert(old_items[j] < ticket);
                    }
                }
            }
            assert forall|u: u64| #[trigger] self.woken@.contains(u) implies self.waiting@.contains(u)
                && !items.contains(u) by {
                assert(old(self).waiting@.contains(u));
                if items.contains(u) {
                    let k = choose|k: int| 0 <= k < items.len() && items[k] == u;
                    if k < old_items.len() {
                        assert(old_items[k] == u);
                    }
                }
            }
            assert forall|i: int|
                0 <= i < items.len() && self.table@[#[trigger] items[i]].marker.is_valid()
                implies self.waiting@.contains(items[i]) by {
                if i < old_items.len() {
                    assert(items[i] == old_items[i]);
                    assert(old_items[i] != ticket);
                }
            }
            assert(self.entries_of() =~= old(self).entries_of().push((ticket, true))) by {
                assert forall|i: int| 0 <= i < old_items.len() implies #[trigger] old_items[i]
                    != ticket by {
                }
            }
        }
        ticket
    }

    fn unpark_one(&mut self) -> (woke: bool) {
        let ghost start = self.entries_of();
        let ghost mut consumed: int = 0;
        loop
            invariant
                self.inv(),
                self.waiting@ == old(self).waiting@,
                self.woken@ == old(self).woken@,
                self.next_ticket == old(self).next_ticket,
                self.log == old(self).log,
                forall|u: u64| #[trigger]
                    self.table@.contains_key(u) ==> old(self).table@.contains_key(u)
                        && self.table@[u] == old(self).table@[u],
                start == old(self).entries_of(),
                0 <= consumed <= start.len(),
                self.entries_of() == start.skip(consumed),
                first_valid(start) == consumed + first_valid(self.entries_of()),
            decreases self.entries_of().len(),
        {
            let ghost cur = self.entries_of();
            let ghost cur_table = self.table@;
            match self.try_unpark() {
                None => {
                    assert(consumed == start.len());
                    assert(self.entries_of() =~= Seq::<(u64, bool)>::empty());
                    return false;
                },
                Some((t, p)) => {
                    assert(cur.skip(1) =~= cur.drop_first());
                    assert(start.skip(consumed).drop_first() =~= start.skip(consumed + 1));
                    if p.marker.get() {
                        proof {
                            assert(cur[0] == start[consumed]);
                            assert(self.waiting@.contains(t)) by {
                                let oi = old(self).inner.items();
                                assert(cur[0].0 == start.skip(consumed)[0].0);
                            }
                        }
                        proof {
                            assert(first_valid(cur) == 0);
                            assert(t == start[first_valid(start) as int].0);
                            assert(cur_table.contains_key(t));
                            assert(p == cur_table[t]);
                            assert(p == old(self).table@[t]);
                            assert(old(self).wakers_of()[t] == p.waker);
                        }
                        wake_by_ref(&mut self.log, &p.waker);
                        self.woken.insert(t);
                        proof {
                            assert forall|u: u64| #[trigger]
                                self.wakers_of().contains_key(u) && u != old(self).next_ticket
                                implies old(self).wakers_of().contains_key(u)
                                && self.wakers_of()[u] == old(self).wakers_of()[u] by {
                                assert(self.table@.contains_key(u));
                                assert(cur_table.contains_key(u));
                            }
                        }
                        return true;
                    }
                    assert(first_valid(cur) == 1 + first_valid(cur.drop_first()));
                    proof {
                        consumed = consumed + 1;
                        assert forall|u: u64| #[trigger] self.table@.contains_key(u) implies old(
                            self,
                        ).table@.contains_key(u) && self.table@[u] == old(self).table@[u] by {
                            assert(cur_table.contains_key(u));
                        }
                    }
                },
            }
        }
    }

    fn is_woken(&self, ticket: u64) -> (b: bool) {
        self.woken.contains(&ticket)
    }

    fn notify_wait_release(&mut self, ticket: u64) {
        proof {
            assert(self.waiting@.len() > 0) by {
                if self.waiting@.len() == 0 {
                    assert(self.waiting@ =~= Set::<u64>::empty());
                }
            }
            let items = self.inner.items();
            assert forall|i: int| 0 <= i < items.len() && self.table@[#[trigger] items[i]].marker.is_valid()
                implies items[i] != ticket by {
                assert(self.entries()[i].0 == items[i]);
                assert(self.entries()[i].1 == self.table@[items[i]].marker.is_valid());
            }
        }
        self.counter.decrement();
        self.woken.remove(&ticket);
        proof {
            self.waiting@ = self.waiting@.remove(ticket);
        }
    }

    fn invalidate(&mut self, ticket: u64) {
        let ghost old_table = self.table@;
        let removed = self.table.remove(&ticket);
        match removed {
            Some(entry) => {
                let mut entry = entry;
                entry.marker.set(false);
                self.table.insert(ticket, entry);
                proof {
                    assert(self.table@ == old_table.insert(ticket, entry));
                    let items = self.inner.items();
                    assert forall|i: int|
                        0 <= i < items.len() && self.table@[#[trigger] items[i]].marker.is_valid()
                        implies self.waiting@.contains(items[i]) by {
                        assert(items[i] != ticket);
                    }
                    assert(self.entries_of() =~= invalidated(old(self).entries_of(), ticket));
                }
            },
            None => {
                proof {
                    let items = self.inner.items();
                    assert forall|i: int| 0 <= i < items.len() implies #[trigger] items[i]
                        != ticket by {
                        assert(old_table.contains_key(items[i]));
                    }
                    assert(self.entries_of() =~= invalidated(old(self).entries_of(), ticket));
                }
            },
        }
    }

    fn has_waiters(&self) -> (b: bool) {
        proof {
            if self.waiting@.len() == 0 {
                assert(self.waiting@ =~= Set::<u64>::empty());
            } else {
                assert(self.waiting@ != Set::<u64>::empty());
            }
        }
        self.counter.get() != 0
    }

    fn has_room(&self) -> (b: bool) {
        self.counter.get() < usize::MAX && self.next_ticket < u64::MAX
    }
}

/// The lot of the single-threaded event.
pub type LocalAllocatedAsyncLot = AsyncLotTemplate<Marker, LocalCounter, LocalQueue<u64>>;

/// The lot of the thread-safe event, queued on `lfqueue`'s lock-free queue.
pub type AllocatedAsyncLot = AsyncLotTemplate<
    Marker,
    LocalCounter,
    lfqueue::UnboundedQueue<u64>,
>;

} // verus!
