//! The three building blocks of a wait lot: a validity marker that tells a
//! queued entry apart from one whose waiter went away, a counter of waiting
//! tasks, and a FIFO queue of tickets.

use vstd::prelude::*;
use std::collections::VecDeque;

verus! {

/// A flag attached to a queued waiter. It starts valid; a waiter that is
/// dropped while queued turns it off, and the entry is then skipped.
pub trait ValidityMarker: Sized {
    spec fn is_valid(&self) -> bool;

    fn create() -> (m: Self)
        ensures
            m.is_valid(),
    ;

    fn get(&self) -> (b: bool)
        ensures
            b == self.is_valid(),
    ;

    fn set(&mut self, value: bool)
        ensures
            final(self).is_valid() == value,
    ;
}

/// A counter of the tasks that wait on a lot.
pub trait TechnicalCounter: Sized {
    spec fn count(&self) -> nat;

    fn zero() -> (c: Self)
        ensures
            c.count() == 0,
    ;

    fn increment(&mut self)
        requires
            old(self).count() < usize::MAX,
        ensures
            final(self).count() == old(self).count() + 1,
    ;

    fn decrement(&mut self)
        requires
            old(self).count() > 0,
        ensures
            final(self).count() == old(self).count() - 1,
    ;

    fn get(&self) -> (n: usize)
        ensures
            n == self.count(),
    ;
}

/// A first-in first-out queue.
pub trait WakeQueue<T>: Sized {
    spec fn items(&self) -> Seq<T>;

    fn empty() -> (q: Self)
        ensures
            q.items() == Seq::<T>::empty(),
    ;

    fn enqueue(&mut self, item: T)
        ensures
            final(self).items() == old(self).items().push(item),
    ;

    fn dequeue(&mut self) -> (r: Option<T>)
        ensures
            match r {
                None => old(self).items().len() == 0 && final(self).items() == old(self).items(),
                Some(x) => {
                    &&& old(self).items().len() > 0
                    &&& x == old(self).items()[0]
                    &&& final(self).items() == old(self).items().drop_first()
                },
            },
    ;
}

/// The validity marker kept beside each queued waker.
pub struct Marker {
    valid: bool,
}

impl ValidityMarker for Marker {
    closed spec fn is_valid(&self) -> bool {
        self.valid
    }

    fn create() -> (m: Self) {
        Marker { valid: true }
    }

    fn get(&self) -> (b: bool) {
        self.valid
    }

    fn set(&mut self, value: bool) {
        self.valid = value;
    }
}

/// A plain counter of waiting tasks.
pub struct LocalCounter(usize);

impl TechnicalCounter for LocalCounter {
    closed spec fn count(&self) -> nat {
        self.0 as nat
    }

    fn zero() -> (c: Self) {
        LocalCounter(0)
    }

    fn increment(&mut self) {
        let current = self.0;
        self.0 = current + 1;
    }

    fn decrement(&mut self) {
        let current = self.0;
        self.0 = current - 1;
    }

    fn get(&self) -> (n: usize) {
        self.0
    }
}

/// A queue for single-threaded runtimes, backed by a `VecDeque`.
pub struct LocalQueue<T>(VecDeque<T>);

impl<T> WakeQueue<T> for LocalQueue<T> {
    closed spec fn items(&self) -> Seq<T> {
        self.0@
    }

    fn empty() -> (q: Self) {
        LocalQueue(VecDeque::new())
    }

    fn enqueue(&mut self, item: T) {
        self.0.push_back(item);
    }

    fn dequeue(&mut self) -> (r: Option<T>) {
        self.0.pop_front()
    }
}

#[verifier::external_type_specification]
#[verifier::external_body]
#[verifier::reject_recursive_types(T)]
pub struct ExUnboundedQueue<T>(lfqueue::UnboundedQueue<T>);

/// What an `lfqueue::UnboundedQueue` of tickets holds, oldest first.
pub uninterp spec fn shared_queue_items(q: lfqueue::UnboundedQueue<u64>) -> Seq<u64>;

/// Calls `lfqueue::UnboundedQueue::new`: a queue that holds nothing.
#[verifier::external_body]
fn shared_queue_new() -> (q: lfqueue::UnboundedQueue<u64>)
    ensures
        shared_queue_items(q) == Seq::<u64>::empty(),
{
    lfqueue::UnboundedQueue::new()
}

/// Calls `lfqueue::UnboundedQueue::enqueue`: the item is added at the back.
#[verifier::external_body]
fn shared_queue_enqueue(q: &mut lfqueue::UnboundedQueue<u64>, item: u64)
    ensures
        shared_queue_items(*final(q)) == shared_queue_items(*old(q)).push(item),
{
    lfqueue::UnboundedQueue::<u64>::enqueue(q, item)
}

/// Calls `lfqueue::UnboundedQueue::dequeue`: the oldest item leaves the
/// queue and is returned, or `None` comes back from an empty queue, which
/// stays as it was.
#[verifier::external_body]
fn shared_queue_dequeue(q: &mut lfqueue::UnboundedQueue<u64>) -> (r: Option<u64>)
    ensures
        match r {
            None => shared_queue_items(*old(q)).len() == 0 && shared_queue_items(*final(q))
                == shared_queue_items(*old(q)),
            Some(x) => {
                &&& shared_queue_items(*old(q)).len() > 0
                &&& x == shared_queue_items(*old(q))[0]
                &&& shared_queue_items(*final(q)) == shared_queue_items(*old(q)).drop_first()
            },
        },
{
    lfqueue::UnboundedQueue::<u64>::dequeue(q)
}

/// The lock-free queue of `lfqueue`, used by the thread-safe event.
impl WakeQueue<u64> for lfqueue::UnboundedQueue<u64> {
    open spec fn items(&self) -> Seq<u64> {
        shared_queue_items(*self)
    }

    fn empty() -> (q: Self) {
        shared_queue_new()
    }

    fn enqueue(&mut self, item: u64) {
        shared_queue_enqueue(self, item)
    }

    fn dequeue(&mut self) -> (r: Option<u64>) {
        shared_queue_dequeue(self)
    }
}

} // verus!
