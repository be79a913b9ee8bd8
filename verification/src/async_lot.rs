//! The plainest wait lot: a FIFO of tasks to wake, with no count of
//! waiting tasks and no way to take an entry back.

use vstd::prelude::*;
use std::collections::HashMap;
use crate::signal::WakeQueue;
use crate::task::{wake_by_ref, clone_waker, WakeLog};

verus! {

broadcast use vstd::std_specs::hash::group_hash_axioms;

/// A FIFO of parked tasks on `lfqueue`'s lock-free queue: the queue holds
/// tickets, the table the waker of each.
pub struct AsyncLot {
    inner: lfqueue::UnboundedQueue<u64>,
    wakers: HashMap<u64, std::task::Waker>,
    next_ticket: u64,
    log: WakeLog,
}

impl AsyncLot {
    /// The tickets of the parked tasks, oldest first.
    pub closed spec fn queued(&self) -> Seq<u64> {
        self.inner.items()
    }

    pub closed spec fn next_ticket(&self) -> u64 {
        self.next_ticket
    }

    /// The waker stored for each queued ticket.
    pub closed spec fn wakers(&self) -> Map<u64, std::task::Waker> {
        self.wakers@
    }

    /// The wakers that the lot has woken, oldest call first.
    pub closed spec fn wakes(&self) -> Seq<std::task::Waker> {
        self.log.view()
    }

    pub closed spec fn wf(&self) -> bool {
        &&& self.inner.items().no_duplicates()
        &&& forall|t: u64| #[trigger]
            self.wakers@.contains_key(t) == self.inner.items().contains(t)
        &&& forall|i: int|
            0 <= i < self.inner.items().len() ==> #[trigger] self.inner.items()[i]
                < self.next_ticket
    }

    /// An empty lot.
    pub fn new() -> (l: AsyncLot)
        ensures
            l.wf(),
            l.queued() == Seq::<u64>::empty(),
            l.next_ticket() == 0,
            l.wakers() == Map::<u64, std::task::Waker>::empty(),
            l.wakes() == Seq::<std::task::Waker>::empty(),
    {
        AsyncLot {
            inner: lfqueue::UnboundedQueue::<u64>::empty(),
            wakers: HashMap::new(),
            next_ticket: 0,
            log: WakeLog::new(),
        }
    }

    /// Parks the task of `waker` at the back of the queue, with a clone of
    /// `waker` stored under its ticket.
    pub fn park(&mut self, waker: &std::task::Waker)
        requires
            old(self).wf(),
            old(self).next_ticket() < u64::MAX,
        ensures
            final(self).wf(),
            final(self).queued() == old(self).queued().push(old(self).next_ticket()),
            final(self).next_ticket() == old(self).next_ticket() + 1,
            final(self).wakers() == old(self).wakers().insert(
                old(self).next_ticket(),
                final(self).wakers()[old(self).next_ticket()],
            ),
            cloned(*waker, final(self).wakers()[old(self).next_ticket()]),
            final(self).wakes() == old(self).wakes(),
    {
        let ghost old_items = self.inner.items();
        let ghost old_table = self.wakers@;
        let ticket = self.next_ticket;
        WakeQueue::enqueue(&mut self.inner, ticket);
        self.wakers.insert(ticket, clone_waker(waker));
        self.next_ticket = ticket + 1;
        proof {
            let items = self.inner.items();
            assert(items == old_items.push(ticket));
            assert(items[items.len() - 1] == ticket);
            assert(self.wakers@.dom() == old_table.dom().insert(ticket));
            assert forall|u: u64| #[trigger]
                self.wakers@.contains_key(u) == items.contains(u) by {
                assert(old_table.contains_key(u) == old_items.contains(u));
                if old_items.contains(u) {
                    let k = choose|k: int| 0 <= k < old_items.len() && old_items[k] == u;
                    assert(items[k] == u);
                }
                if items.contains(u) && u != ticket {
                    let k = choose|k: int| 0 <= k < items.len() && items[k] == u;
                    assert(k < old_items.len());
                    assert(old_items[k] == u);
                }
            }
            assert(items.no_duplicates()) by {
                assert forall|i: int, j: int|
                    0 <= i < items.len() && 0 <= j < items.len() && i != j implies items[i]
                    != items[j] by {
                    if i < old_items.len() && j < old_items.len() {
                    } else if i < old_items.len() {
                        assert(old_items[i] < ticket);
                    } else {
                        assert(old_items[j] < ticket);
                    }
                }
            }
        }
    }

    /// Wakes the oldest parked task, once, through the waker stored for
    /// it; returns whether there was one.
    pub fn unpark_one(&mut self) -> (woke: bool)
        requires
            old(self).wf(),
        ensures
            final(self).wf(),
            woke == (old(self).queued().len() > 0),
            final(self).queued() == (if woke {
                old(self).queued().drop_first()
            } else {
                old(self).queued()
            }),
            final(self).next_ticket() == old(self).next_ticket(),
            final(self).wakes() == (if woke {
                old(self).wakes().push(old(self).wakers()[old(self).queued()[0]])
            } else {
                old(self).wakes()
            }),
            final(self).wakers() == (if woke {
                old(self).wakers().remove(old(self).queued()[0])
            } else {
                old(self).wakers()
            }),
    {
        if let Some(value) = self.try_unpark() {
            wake_by_ref(&mut self.log, &value);
            true
        } else {
            false
        }
    }

    /// Takes the oldest parked task off the queue and returns its waker.
    fn try_unpark(&mut self) -> (r: Option<std::task::Waker>)
        requires
            old(self).wf(),
        ensures
            final(self).wf(),
            final(self).wakes() == old(self).wakes(),
            r is Some ==> r == Some(old(self).wakers()[old(self).queued()[0]])
                && final(self).wakers() == old(self).wakers().remove(old(self).queued()[0]),
            r is None ==> final(self).wakers() == old(self).wakers(),
            r is Some == (old(self).queued().len() > 0),
            final(self).queued() == (if r is Some {
                old(self).queued().drop_first()
            } else {
                old(self).queued()
            }),
            final(self).next_ticket() == old(self).next_ticket(),
    {
        let ghost old_items = self.inner.items();
        let ghost old_table = self.wakers@;
        match WakeQueue::dequeue(&mut self.inner) {
            None => None,
            Some(t) => {
                assert(old_items[0] == t);
                let removed = self.wakers.remove(&t);
                let ghost items = self.inner.items();
                assert forall|u: u64| #[trigger]
                    self.wakers@.contains_key(u) == items.contains(u) by {
                    if items.contains(u) {
                        let k = choose|k: int| 0 <= k < items.len() && items[k] == u;
                        assert(old_items[k + 1] == u);
                        assert(u != t);
                    }
                    if self.wakers@.contains_key(u) {
                        assert(old_items.contains(u));
                        let k = choose|k: int| 0 <= k < old_items.len() && old_items[k] == u;
                        assert(k != 0);
                        assert(items[k - 1] == u);
                    }
                }
                assert forall|i: int| 0 <= i < items.len() implies #[trigger] items[i]
                    < self.next_ticket by {
                    assert(items[i] == old_items[i + 1]);
                }
                match removed {
                    Some(w) => Some(w),
                    None => {
                        assert(old_table.contains_key(t));
                        None
                    },
                }
            },
        }
    }
}

} // verus!
