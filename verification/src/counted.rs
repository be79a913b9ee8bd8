//! An event wrapper that counts its waiting tasks.
//!
//! The count goes up when the first poll of a wait answers `Pending`, that
//! is, when the task really starts waiting; a wait whose first poll answers
//! `Ready` is never counted. The count goes down when a counted wait ends,
//! either by answering `Ready` or by being dropped.

use vstd::prelude::*;
use std::collections::HashMap;
use crate::event::EventSetter;
use crate::task::Poll;

verus! {

broadcast use vstd::std_specs::hash::group_hash_axioms;

/// Where a counted wait is in its life.
#[derive(Clone, Copy, Debug, PartialEq, Eq, Structural)]
pub enum CountedAwaiterState {
    /// Created; not counted.
    Init,
    /// Its first poll answered `Pending`: it is counted.
    Waiting,
    /// It was counted and is done: the count went down again.
    Complete,
}

/// The state of one counted wait: the wait on the inner event, and where
/// it stands.
pub struct CountedRecord<W> {
    pub future: W,
    pub state: CountedAwaiterState,
}

/// An event that counts how many tasks wait on it.
pub struct CountedEvent<E: EventSetter> {
    inner: E,
    counter: usize,
    awaiters: HashMap<u64, CountedRecord<E::Waiter>>,
    next_awaiter: u64,
}

/// A wait on a [`CountedEvent`].
pub struct CountedAwaiter {
    id: u64,
    event: Ghost<int>,
}

impl CountedAwaiter {
    /// The id of this wait in the registry of its event.
    pub closed spec fn id(&self) -> u64 {
        self.id
    }

    /// The identity of the event that issued this wait.
    pub closed spec fn issuer_id(&self) -> int {
        self.event@
    }

    /// Polls this wait; it must be polled on the event that issued it.
    pub fn poll<E: EventSetter>(&self, master: &mut CountedEvent<E>, waker: &std::task::Waker) -> (r: Poll)
        requires
            old(master).wf(),
            old(master).room(),
            self.issuer_id() == old(master).instance(),
        ensures
            final(master).wf(),
            old(master).poll_post(*final(master), self.id(), *waker, r),
    {
        master.poll_waiter(self, waker)
    }

    /// Drops this wait: if it was counted, the count goes down.
    pub fn cancel<E: EventSetter>(self, master: &mut CountedEvent<E>)
        requires
            old(master).wf(),
            self.issuer_id() == old(master).instance(),
        ensures
            final(master).wf(),
            old(master).drop_post(*final(master), self.id()),
    {
        master.drop_waiter(self)
    }
}

impl<E: EventSetter> CountedEvent<E> {
    pub closed spec fn inner(&self) -> E {
        self.inner
    }

    pub closed spec fn counter(&self) -> usize {
        self.counter
    }

    pub closed spec fn records(&self) -> Map<u64, CountedRecord<E::Waiter>> {
        self.awaiters@
    }

    pub closed spec fn next_awaiter(&self) -> u64 {
        self.next_awaiter
    }

    /// The ids of the counted waits: those that wait.
    pub open spec fn waiting_ids(&self) -> Set<u64> {
        self.records().dom().filter(
            |id: u64| self.records()[id].state == CountedAwaiterState::Waiting,
        )
    }

    /// The count is the number of waits that wait.
    pub open spec fn counted_wf(&self) -> bool {
        &&& self.inner().wf()
        &&& forall|id: u64| #[trigger] self.records().contains_key(id) ==> id < self.next_awaiter()
            && E::issuer(self.records()[id].future) == self.inner().instance()
        &&& self.counter() == self.waiting_ids().len()
    }

    /// `poll_waiter`: the state of the wait `id` moves as its inner wait
    /// answers; an unknown id answers `Ready` and changes nothing.
    pub open spec fn poll_post(self, e: Self, id: u64, waker: std::task::Waker, r: Poll) -> bool {
        &&& e.next_awaiter() == self.next_awaiter()
        &&& !self.records().contains_key(id) ==> {
            &&& r == Poll::Ready
            &&& e.records() == self.records()
            &&& e.inner() == self.inner()
            &&& e.counter() == self.counter()
        }
        &&& self.records().contains_key(id) ==> {
            let s0 = self.records()[id].state;
            let s1 = e.records()[id].state;
            &&& e.records() == self.records().insert(id, e.records()[id])
            &&& e.records()[id].future == self.records()[id].future
            &&& s0 == CountedAwaiterState::Init ==> (if r == Poll::Pending {
                s1 == CountedAwaiterState::Waiting && e.counter() == self.counter() + 1
            } else {
                s1 == CountedAwaiterState::Init && e.counter() == self.counter()
            })
            &&& s0 == CountedAwaiterState::Waiting ==> (if r == Poll::Pending {
                s1 == CountedAwaiterState::Waiting && e.counter() == self.counter()
            } else {
                s1 == CountedAwaiterState::Complete && e.counter() == self.counter() - 1
            })
            &&& s0 == CountedAwaiterState::Complete ==> {
                &&& r == Poll::Ready
                &&& s1 == CountedAwaiterState::Complete
                &&& e.inner() == self.inner()
                &&& e.counter() == self.counter()
            }
            &&& s0 != CountedAwaiterState::Complete ==> self.inner().poll_spec(
                e.inner(),
                self.records()[id].future,
                waker,
                r,
            )
        }
    }

    /// `drop_waiter`: the wait leaves the registry, and the count goes down
    /// if it was counted.
    pub open spec fn drop_post(self, e: Self, id: u64) -> bool {
        &&& e.records() == self.records().remove(id)
        &&& e.next_awaiter() == self.next_awaiter()
        &&& e.counter() == (if self.records().contains_key(id) && self.records()[id].state
            == CountedAwaiterState::Waiting {
            self.counter() - 1
        } else {
            self.counter() as int
        })
        &&& !self.records().contains_key(id) ==> e.inner() == self.inner()
        &&& self.records().contains_key(id) ==> self.inner().drop_spec(
            e.inner(),
            self.records()[id].future,
        )
    }

    /// `wait`: a new wait, not counted, under the next id, with a new wait
    /// on the inner event.
    pub open spec fn wait_post(self, e: Self, w: CountedAwaiter) -> bool {
        &&& w.id() == self.next_awaiter()
        &&& !self.records().contains_key(w.id())
        &&& e.records() == self.records().insert(w.id(), e.records()[w.id()])
        &&& e.records()[w.id()].state == CountedAwaiterState::Init
        &&& e.counter() == self.counter()
        &&& e.next_awaiter() == self.next_awaiter() + 1
        &&& self.inner().wait_spec(e.inner(), e.records()[w.id()].future)
    }

    /// An operation that only the inner event sees.
    pub open spec fn unchanged_books(self, e: Self) -> bool {
        &&& e.counter() == self.counter()
        &&& e.records() == self.records()
        &&& e.next_awaiter() == self.next_awaiter()
    }

    proof fn lemma_waiting_finite(&self)
        ensures
            self.waiting_ids().finite(),
            self.waiting_ids().subset_of(self.records().dom()),
    {
        self.records().dom().lemma_len_filter(
            |id: u64| self.records()[id].state == CountedAwaiterState::Waiting,
        );
    }

    /// Wraps `source`; no task is counted yet.
    pub fn new(source: E) -> (e: Self)
        requires
            source.wf(),
        ensures
            e.wf(),
            e.inner() == source,
            e.room() == source.room(),
            e.is_set() == source.is_set(),
            e.is_waited() == source.is_waited(),
            e.counter() == 0,
            e.records() == Map::<u64, CountedRecord<E::Waiter>>::empty(),
            e.next_awaiter() == 0,
    {
        let e = CountedEvent { inner: source, counter: 0, awaiters: HashMap::new(), next_awaiter: 0 };
        assert(e.waiting_ids() =~= Set::<u64>::empty());
        e
    }

    /// Starts a counted wait.
    pub fn wait(&mut self) -> (w: CountedAwaiter)
        requires
            old(self).wf(),
            old(self).room(),
        ensures
            final(self).wf(),
            old(self).wait_post(*final(self), w),
            final(self).inner().is_set() == old(self).inner().is_set(),
            final(self).inner().is_waited() == old(self).inner().is_waited(),
            final(self).inner().instance() == old(self).inner().instance(),
            w.issuer_id() == old(self).inner().instance(),
    {
        let id = self.next_awaiter;
        let future = self.inner.wait();
        let ghost old_waiting = self.waiting_ids();
        self.awaiters.insert(id, CountedRecord { future, state: CountedAwaiterState::Init });
        self.next_awaiter = id + 1;
        proof {
            assert(!old(self).records().contains_key(id));
            assert(self.waiting_ids() =~= old(self).waiting_ids());
            assert(self.awaiters@ =~= old(self).awaiters@.insert(id, self.awaiters@[id]));
        }
        CountedAwaiter { id, event: Ghost(self.inner.instance()) }
    }


    /// Wakes the oldest waiting task, or sets the event.
    pub fn set_one(&mut self)
        requires
            old(self).wf(),
        ensures
            final(self).wf(),
            old(self).unchanged_books(*final(self)),
            final(self).inner().instance() == old(self).inner().instance(),
            exists|woke: bool| old(self).inner().set_one_spec(final(self).inner(), woke),
    {
        self.inner.set_one();
    }

    /// Wakes every waiting task, or sets the event when none waits.
    pub fn set_all(&mut self)
        requires
            old(self).wf(),
        ensures
            final(self).wf(),
            old(self).unchanged_books(*final(self)),
            final(self).inner().instance() == old(self).inner().instance(),
            old(self).inner().set_all_spec(final(self).inner()),
    {
        self.inner.set_all(|| {});
    }

    /// How many tasks wait: the number of waits whose first poll answered
    /// `Pending` and that have not ended.
    pub fn count(&self) -> (n: usize)
        requires
            self.wf(),
        ensures
            n == self.waiting_ids().len(),
            n == self.counter(),
    {
        self.counter
    }
}

impl<E: EventSetter> EventSetter for CountedEvent<E> {
    type Waiter = CountedAwaiter;

    open spec fn wf(&self) -> bool {
        self.counted_wf()
    }

    open spec fn is_set(&self) -> bool {
        self.inner().is_set()
    }

    open spec fn is_waited(&self) -> bool {
        self.inner().is_waited()
    }

    open spec fn room(&self) -> bool {
        &&& self.inner().room()
        &&& self.next_awaiter() < u64::MAX
        &&& self.counter() < usize::MAX
    }

    open spec fn instance(&self) -> int {
        self.inner().instance()
    }

    open spec fn queued(&self) -> bool {
        self.inner().queued()
    }

    open spec fn issuer(waiter: CountedAwaiter) -> int {
        waiter.issuer_id()
    }

    open spec fn fresh_spec(self, set: bool) -> bool {
        &&& self.counter() == 0
        &&& self.records() == Map::<u64, CountedRecord<E::Waiter>>::empty()
        &&& self.next_awaiter() == 0
        &&& self.inner().fresh_spec(set)
    }

    open spec fn wait_spec(self, after: Self, waiter: CountedAwaiter) -> bool {
        self.wait_post(after, waiter)
    }

    open spec fn poll_spec(self, after: Self, waiter: CountedAwaiter, waker: std::task::Waker, r: Poll) -> bool {
        self.poll_post(after, waiter.id(), waker, r)
    }

    open spec fn drop_spec(self, after: Self, waiter: CountedAwaiter) -> bool {
        self.drop_post(after, waiter.id())
    }

    open spec fn set_one_spec(self, after: Self, woke: bool) -> bool {
        self.unchanged_books(after) && self.inner().set_one_spec(after.inner(), woke)
    }

    open spec fn set_all_spec(self, after: Self) -> bool {
        self.unchanged_books(after) && self.inner().set_all_spec(after.inner())
    }

    open spec fn try_wait_spec(self, after: Self, acquired: bool) -> bool {
        self.unchanged_books(after) && self.inner().try_wait_spec(after.inner(), acquired)
    }

    fn new() -> (e: Self) {
        CountedEvent::new(E::new())
    }

    fn new_set() -> (e: Self) {
        CountedEvent::new(E::new_set())
    }

    fn wait(&mut self) -> (w: CountedAwaiter) {
        CountedEvent::wait(self)
    }

    fn poll_waiter(&mut self, waiter: &CountedAwaiter, waker: &std::task::Waker) -> (r: Poll) {
        let id = waiter.id;
        let removed = self.awaiters.remove(&id);
        match removed {
            None => {
                assert(self.awaiters@ =~= old(self).awaiters@);
                Poll::Ready
            },
            Some(record) => {
                let mut record = record;
                let ghost w0 = old(self).waiting_ids();
                proof {
                    old(self).lemma_waiting_finite();
                }
                let r = match record.state {
                    CountedAwaiterState::Init => {
                        match self.inner.poll_waiter(&record.future, waker) {
                            Poll::Pending => {
                                self.counter = self.counter + 1;
                                record.state = CountedAwaiterState::Waiting;
                                Poll::Pending
                            },
                            Poll::Ready => Poll::Ready,
                        }
                    },
                    CountedAwaiterState::Waiting => {
                        match self.inner.poll_waiter(&record.future, waker) {
                            Poll::Pending => Poll::Pending,
                            Poll::Ready => {
                                assert(w0.contains(id));
                                self.counter = self.counter - 1;
                                record.state = CountedAwaiterState::Complete;
                                Poll::Ready
                            },
                        }
                    },
                    CountedAwaiterState::Complete => Poll::Ready,
                };
                self.awaiters.insert(id, record);
                proof {
                    let s0 = old(self).awaiters@[id].state;
                    assert(self.awaiters@ =~= old(self).awaiters@.insert(id, record));
                    if s0 == CountedAwaiterState::Init && record.state == CountedAwaiterState::Waiting {
                        assert(self.waiting_ids() =~= w0.insert(id));
                    } else if s0 == CountedAwaiterState::Waiting && record.state
                        == CountedAwaiterState::Complete {
                        assert(self.waiting_ids() =~= w0.remove(id));
                    } else {
                        assert(self.waiting_ids() =~= w0);
                    }
                }
                r
            },
        }
    }

    fn drop_waiter(&mut self, waiter: CountedAwaiter) {
        let id = waiter.id;
        let removed = self.awaiters.remove(&id);
        match removed {
            None => {
                assert(self.awaiters@ =~= old(self).awaiters@);
            },
            Some(record) => {
                let ghost w0 = old(self).waiting_ids();
                proof {
                    old(self).lemma_waiting_finite();
                }
                match record.state {
                    CountedAwaiterState::Init => {},
                    CountedAwaiterState::Waiting => {
                        assert(w0.contains(id));
                        self.counter = self.counter - 1;
                    },
                    CountedAwaiterState::Complete => {},
                }
                self.inner.drop_waiter(record.future);
                proof {
                    if record.state == CountedAwaiterState::Waiting {
                        assert(self.waiting_ids() =~= w0.remove(id));
                    } else {
                        assert(self.waiting_ids() =~= w0);
                    }
                }
            },
        }
    }

    fn set_one(&mut self) -> (woke: bool) {
        self.inner.set_one()
    }

    fn set_all<F: FnMut()>(&mut self, functor: F) {
        self.inner.set_all(functor)
    }

    fn try_wait(&mut self) -> (acquired: bool) {
        self.inner.try_wait()
    }

    fn has_waiters(&self) -> (b: bool) {
        self.inner.has_waiters()
    }

    fn has_room(&self) -> (b: bool) {
        self.inner.has_room() && self.next_awaiter < u64::MAX && self.counter < usize::MAX
    }
}

} // verus!
