//! A one-shot cooperative yield: the first poll asks to be polled again and
//! answers `Pending`, every later poll answers `Ready`.

use vstd::prelude::*;
use crate::task::{wake_by_ref, Poll, WakeLog};

verus! {

/// An asynchronous yield point.
pub struct Yield {
    state: bool,
    log: WakeLog,
}

impl Yield {
    /// Whether the yield has already been polled once.
    pub closed spec fn fired(&self) -> bool {
        self.state
    }

    /// The wakers that the yield has woken.
    pub closed spec fn wakes(&self) -> Seq<std::task::Waker> {
        self.log.view()
    }

    /// A yield that has not been polled yet.
    pub fn new() -> (y: Yield)
        ensures
            !y.fired(),
            y.wakes() == Seq::<std::task::Waker>::empty(),
    {
        Yield { state: false, log: WakeLog::new() }
    }

    /// Polls the yield: the first poll wakes the task through `waker` and
    /// answers `Pending`; afterwards it answers `Ready`.
    pub fn poll(&mut self, waker: &std::task::Waker) -> (r: Poll)
        ensures
            final(self).fired(),
            r == (if old(self).fired() { Poll::Ready } else { Poll::Pending }),
            final(self).wakes() == (if old(self).fired() {
                old(self).wakes()
            } else {
                old(self).wakes().push(*waker)
            }),
    {
        if !self.state {
            self.state = true;
            wake_by_ref(&mut self.log, waker);
            Poll::Pending
        } else {
            Poll::Ready
        }
    }
}

impl Default for Yield {
    fn default() -> (y: Yield)
        ensures
            !y.fired(),
            y.wakes() == Seq::<std::task::Waker>::empty(),
    {
        Yield::new()
    }
}

} // verus!
