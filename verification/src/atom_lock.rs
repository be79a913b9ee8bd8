//! A lock flag beside the value that it guards.

use vstd::prelude::*;
use crate::task::{wake_by_ref, Poll, WakeLog};

verus! {

/// The flag value of a free lock.
pub const LL_FREE: u8 = 0x00;

/// The flag value of a held lock.
pub const LL_LOCK: u8 = 0x01;

/// A value guarded by a lock flag.
pub struct AtomicLock<T> {
    state: u8,
    inner: T,
}

impl<T> AtomicLock<T> {
    pub closed spec fn is_locked(&self) -> bool {
        self.state == LL_LOCK
    }

    pub closed spec fn value(&self) -> T {
        self.inner
    }

    pub closed spec fn wf(&self) -> bool {
        self.state == LL_FREE || self.state == LL_LOCK
    }

    /// A free lock around `inner`.
    pub fn new(inner: T) -> (l: Self)
        ensures
            l.wf(),
            !l.is_locked(),
            l.value() == inner,
    {
        AtomicLock { state: LL_FREE, inner }
    }

    /// Takes the flag from free to held; fails when it is held.
    fn compare_exchange(&mut self, current: u8, new: u8) -> (r: Result<u8, u8>)
        ensures
            match r {
                Ok(v) => v == current && old(self).state == current && final(self).state == new,
                Err(v) => v == old(self).state && v != current && final(self).state
                    == old(self).state,
            },
            final(self).inner == old(self).inner,
    {
        let value = self.state;
        if value == current {
            self.state = new;
            Ok(value)
        } else {
            Err(value)
        }
    }

    /// Takes the lock. A held lock is never released while one task runs
    /// alone, so taking it again would spin forever; that is ruled out.
    pub fn lock(&mut self)
        requires
            old(self).wf(),
            !old(self).is_locked(),
        ensures
            final(self).wf(),
            final(self).is_locked(),
            final(self).value() == old(self).value(),
    {
        let r = self.compare_exchange(LL_FREE, LL_LOCK);
        assert(r is Ok);
    }

    /// Releases the lock.
    pub fn unlock(&mut self)
        ensures
            final(self).wf(),
            !final(self).is_locked(),
            final(self).value() == old(self).value(),
    {
        self.state = LL_FREE;
    }

    /// The guarded value.
    pub fn get(&self) -> (r: &T)
        ensures
            *r == self.value(),
    {
        &self.inner
    }

    /// Replaces the guarded value; the lock must be held.
    pub fn set(&mut self, value: T)
        requires
            old(self).is_locked(),
        ensures
            final(self).value() == value,
            final(self).is_locked(),
            final(self).wf(),
    {
        self.inner = value;
    }
}

/// A runtime-agnostic yield point, for a task that waits for the lock.
pub struct AsyncYield {
    fired: bool,
    log: WakeLog,
}

impl AsyncYield {
    pub closed spec fn fired(&self) -> bool {
        self.fired
    }

    /// The wakers that the yield has woken.
    pub closed spec fn wakes(&self) -> Seq<std::task::Waker> {
        self.log.view()
    }

    pub fn new() -> (y: AsyncYield)
        ensures
            !y.fired(),
            y.wakes() == Seq::<std::task::Waker>::empty(),
    {
        AsyncYield { fired: false, log: WakeLog::new() }
    }

    /// The first poll wakes the task through `waker`, once, and answers
    /// `Pending`; afterwards it answers `Ready` and wakes nothing.
    pub fn poll(&mut self, waker: &std::task::Waker) -> (r: Poll)
        ensures
            final(self).fired(),
            r == (if old(self).fired() { Poll::Ready } else { Poll::Pending }),
            final(self).wakes() == (if old(self).fired() {
                old(self).wakes()
            } else {
                old(self).wakes().push(*waker)
            }),
    {
        if !self.fired {
            self.fired = true;
            wake_by_ref(&mut self.log, waker);
            Poll::Pending
        } else {
            Poll::Ready
        }
    }
}

} // verus!
