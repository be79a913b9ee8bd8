//! The two things of `std::task` that the event logic touches: the waker
//! handed in by the executor, and the answer of a poll.

use vstd::prelude::*;

verus! {

#[verifier::external_type_specification]
#[verifier::external_body]
pub struct ExWaker(std::task::Waker);

/// The record of the wakes made through one part of the library: the
/// wakers on which it called `wake_by_ref`, in the order of the calls.
pub struct WakeLog {
    calls: Ghost<Seq<std::task::Waker>>,
}

impl WakeLog {
    /// The wakers woken so far, oldest call first.
    pub closed spec fn view(&self) -> Seq<std::task::Waker> {
        self.calls@
    }

    /// A record of no wake.
    pub fn new() -> (log: WakeLog)
        ensures
            log.view() == Seq::<std::task::Waker>::empty(),
    {
        WakeLog { calls: Ghost(Seq::empty()) }
    }
}

/// Calls `std::task::Waker::wake_by_ref` on `waker`: it asks the executor to
/// poll the task of `waker` again. The contract records the call in `log`,
/// which holds nothing at run time; what the executor then does is not
/// stated.
#[verifier::external_body]
pub(crate) fn wake_by_ref(log: &mut WakeLog, waker: &std::task::Waker)
    ensures
        final(log).view() == old(log).view().push(*waker),
{
    waker.wake_by_ref()
}

/// Calls `<std::task::Waker as Clone>::clone`: a second handle to the same
/// task. The contract says only that the result is a clone of `waker`.
#[verifier::external_body]
pub(crate) fn clone_waker(waker: &std::task::Waker) -> (r: std::task::Waker)
    ensures
        cloned(*waker, r),
{
    waker.clone()
}

/// The answer of one poll of a waiting task.
#[derive(Clone, Copy, Debug, PartialEq, Eq, Structural)]
pub enum Poll {
    /// The wait is over.
    Ready,
    /// The task is queued (or yielding) and will be woken.
    Pending,
}

impl Poll {
    pub fn is_ready(&self) -> (r: bool)
        ensures
            r == (*self == Poll::Ready),
    {
        match self {
            Poll::Ready => true,
            Poll::Pending => false,
        }
    }

    pub fn is_pending(&self) -> (r: bool)
        ensures
            r == (*self == Poll::Pending),
    {
        match self {
            Poll::Ready => false,
            Poll::Pending => true,
        }
    }
}

} // verus!
