//! The two events of the crate: [`Event`], queued on `lfqueue`'s lock-free
//! queue, and [`LocalEvent`], queued on a `VecDeque`. Both are the same
//! state machine over a different queue.

use vstd::prelude::*;
use crate::event::{EventSetter, LocalState, RawEvent};
use crate::lot::{AllocatedAsyncLot, LocalAllocatedAsyncLot};
use crate::task::Poll;

verus! {

/// An event for normal usage; its queue is `lfqueue`'s lock-free queue.
pub struct Event(RawEvent<LocalState, AllocatedAsyncLot>, Ghost<int>);

/// A wait on a [`Event`].
pub struct EventAwait {
    id: u64,
    event: Ghost<int>,
}

impl EventAwait {
    /// The id of this wait in the registry of its event.
    pub closed spec fn id(&self) -> u64 {
        self.id
    }

    /// The identity of the event that issued this wait.
    pub closed spec fn issuer_id(&self) -> int {
        self.event@
    }

    /// Polls this wait; it must be polled on the event that issued it.
    pub fn poll(&self, event: &mut Event, waker: &std::task::Waker) -> (r: Poll)
        requires
            old(event).wf(),
            old(event).room(),
            self.issuer_id() == old(event).instance(),
        ensures
            final(event).wf(),
            old(event).raw().poll_waiter_post(final(event).raw(), self.id(), *waker, r),
    {
        event.poll_waiter(self, waker)
    }

    /// Drops this wait.
    pub fn cancel(self, event: &mut Event)
        requires
            old(event).wf(),
            self.issuer_id() == old(event).instance(),
        ensures
            final(event).wf(),
            old(event).raw().drop_waiter_post(final(event).raw(), self.id()),
    {
        event.drop_waiter(self)
    }
}

impl Event {
    /// The identity that the event's waits carry. Its value is left
    /// unspecified: what a caller knows is that a wait carries the identity
    /// of the event whose `wait` issued it, and so hands it to that event.
    pub closed spec fn identity(&self) -> int {
        self.1@
    }

    pub closed spec fn raw(&self) -> RawEvent<LocalState, AllocatedAsyncLot> {
        self.0
    }
}

impl EventSetter for Event {
    type Waiter = EventAwait;

    open spec fn wf(&self) -> bool {
        self.raw().wf()
    }

    open spec fn is_set(&self) -> bool {
        self.raw().signal()
    }

    open spec fn is_waited(&self) -> bool {
        self.raw().waited()
    }

    open spec fn room(&self) -> bool {
        self.raw().room()
    }

    open spec fn queued(&self) -> bool {
        self.raw().queues_a_wake()
    }

    open spec fn instance(&self) -> int {
        self.identity()
    }

    open spec fn issuer(waiter: EventAwait) -> int {
        waiter.issuer_id()
    }

    open spec fn fresh_spec(self, set: bool) -> bool {
        RawEvent::fresh(self.raw(), set)
    }

    open spec fn wait_spec(self, after: Self, waiter: EventAwait) -> bool {
        self.raw().wait_post(after.raw(), waiter.id())
    }

    open spec fn poll_spec(self, after: Self, waiter: EventAwait, waker: std::task::Waker, r: Poll) -> bool {
        self.raw().poll_waiter_post(after.raw(), waiter.id(), waker, r)
    }

    open spec fn drop_spec(self, after: Self, waiter: EventAwait) -> bool {
        self.raw().drop_waiter_post(after.raw(), waiter.id())
    }

    open spec fn set_one_spec(self, after: Self, woke: bool) -> bool {
        self.raw().set_one_post(after.raw(), woke)
    }

    open spec fn set_all_spec(self, after: Self) -> bool {
        self.raw().set_all_post(after.raw())
    }

    open spec fn try_wait_spec(self, after: Self, acquired: bool) -> bool {
        &&& self.raw().try_wait_post(after.raw(), acquired)
        &&& acquired == (self.raw().signal() && !self.raw().waited())
    }

    fn new() -> (e: Self) {
        Event(RawEvent::new(), Ghost(arbitrary()))
    }

    fn new_set() -> (e: Self) {
        Event(RawEvent::new_set(), Ghost(arbitrary()))
    }

    fn wait(&mut self) -> (w: EventAwait) {
        EventAwait { id: self.0.wait(), event: Ghost(self.1@) }
    }

    fn poll_waiter(&mut self, waiter: &EventAwait, waker: &std::task::Waker) -> (r: Poll) {
        self.0.poll_waiter(waiter.id, waker)
    }

    fn drop_waiter(&mut self, waiter: EventAwait) {
        self.0.drop_waiter(waiter.id)
    }

    fn set_one(&mut self) -> (woke: bool) {
        self.0.set_one()
    }

    fn set_all<F: FnMut()>(&mut self, functor: F) {
        self.0.set_all(functor)
    }

    fn try_wait(&mut self) -> (acquired: bool) {
        self.0.try_wait()
    }

    fn has_waiters(&self) -> (b: bool) {
        self.0.has_waiters()
    }

    fn has_room(&self) -> (b: bool) {
        self.0.has_room()
    }
}

impl Default for Event {
    fn default() -> (e: Self)
        ensures
            e.wf(),
            RawEvent::fresh(e.raw(), false),
    {
        <Event as EventSetter>::new()
    }
}

/// An event for single-threaded runtimes; its queue is a `VecDeque`.
pub struct LocalEvent(RawEvent<LocalState, LocalAllocatedAsyncLot>, Ghost<int>);

/// A wait on a [`LocalEvent`].
pub struct LocalEventAwait {
    id: u64,
    event: Ghost<int>,
}

impl LocalEventAwait {
    /// The id of this wait in the registry of its event.
    pub closed spec fn id(&self) -> u64 {
        self.id
    }

    /// The identity of the event that issued this wait.
    pub closed spec fn issuer_id(&self) -> int {
        self.event@
    }

    /// Polls this wait; it must be polled on the event that issued it.
    pub fn poll(&self, event: &mut LocalEvent, waker: &std::task::Waker) -> (r: Poll)
        requires
            old(event).wf(),
            old(event).room(),
            self.issuer_id() == old(event).instance(),
        ensures
            final(event).wf(),
            old(event).raw().poll_waiter_post(final(event).raw(), self.id(), *waker, r),
    {
        event.poll_waiter(self, waker)
    }

    /// Drops this wait.
    pub fn cancel(self, event: &mut LocalEvent)
        requires
            old(event).wf(),
            self.issuer_id() == old(event).instance(),
        ensures
            final(event).wf(),
            old(event).raw().drop_waiter_post(final(event).raw(), self.id()),
    {
        event.drop_waiter(self)
    }
}

impl LocalEvent {
    /// The identity that the event's waits carry. Its value is left
    /// unspecified: what a caller knows is that a wait carries the identity
    /// of the event whose `wait` issued it, and so hands it to that event.
    pub closed spec fn identity(&self) -> int {
        self.1@
    }

    pub closed spec fn raw(&self) -> RawEvent<LocalState, LocalAllocatedAsyncLot> {
        self.0
    }
}

impl EventSetter for LocalEvent {
    type Waiter = LocalEventAwait;

    open spec fn wf(&self) -> bool {
        self.raw().wf()
    }

    open spec fn is_set(&self) -> bool {
        self.raw().signal()
    }

    open spec fn is_waited(&self) -> bool {
        self.raw().waited()
    }

    open spec fn room(&self) -> bool {
        self.raw().room()
    }

    open spec fn queued(&self) -> bool {
        self.raw().queues_a_wake()
    }

    open spec fn instance(&self) -> int {
        self.identity()
    }

    open spec fn issuer(waiter: LocalEventAwait) -> int {
        waiter.issuer_id()
    }

    open spec fn fresh_spec(self, set: bool) -> bool {
        RawEvent::fresh(self.raw(), set)
    }

    open spec fn wait_spec(self, after: Self, waiter: LocalEventAwait) -> bool {
        self.raw().wait_post(after.raw(), waiter.id())
    }

    open spec fn poll_spec(self, after: Self, waiter: LocalEventAwait, waker: std::task::Waker, r: Poll) -> bool {
        self.raw().poll_waiter_post(after.raw(), waiter.id(), waker, r)
    }

    open spec fn drop_spec(self, after: Self, waiter: LocalEventAwait) -> bool {
        self.raw().drop_waiter_post(after.raw(), waiter.id())
    }

    open spec fn set_one_spec(self, after: Self, woke: bool) -> bool {
        self.raw().set_one_post(after.raw(), woke)
    }

    open spec fn set_all_spec(self, after: Self) -> bool {
        self.raw().set_all_post(after.raw())
    }

    open spec fn try_wait_spec(self, after: Self, acquired: bool) -> bool {
        &&& self.raw().try_wait_post(after.raw(), acquired)
        &&& acquired == (self.raw().signal() && !self.raw().waited())
    }

    fn new() -> (e: Self) {
        LocalEvent(RawEvent::new(), Ghost(arbitrary()))
    }

    fn new_set() -> (e: Self) {
        LocalEvent(RawEvent::new_set(), Ghost(arbitrary()))
    }

    fn wait(&mut self) -> (w: LocalEventAwait) {
        LocalEventAwait { id: self.0.wait(), event: Ghost(self.1@) }
    }

    fn poll_waiter(&mut self, waiter: &LocalEventAwait, waker: &std::task::Waker) -> (r: Poll) {
        self.0.poll_waiter(waiter.id, waker)
    }

    fn drop_waiter(&mut self, waiter: LocalEventAwait) {
        self.0.drop_waiter(waiter.id)
    }

    fn set_one(&mut self) -> (woke: bool) {
        self.0.set_one()
    }

    fn set_all<F: FnMut()>(&mut self, functor: F) {
        self.0.set_all(functor)
    }

    fn try_wait(&mut self) -> (acquired: bool) {
        self.0.try_wait()
    }

    fn has_waiters(&self) -> (b: bool) {
        self.0.has_waiters()
    }

    fn has_room(&self) -> (b: bool) {
        self.0.has_room()
    }
}

impl Default for LocalEvent {
    fn default() -> (e: Self)
        ensures
            e.wf(),
            RawEvent::fresh(e.raw(), false),
    {
        <LocalEvent as EventSetter>::new()
    }
}

} // verus!
