use std::sync::atomic::{AtomicUsize, Ordering};
use std::sync::Arc;
use std::task::{Wake, Waker};

use asyncnal::async_lot::AsyncLot;
use asyncnal::atom_lock::AtomicLock;
use asyncnal::linked_list::{LinkPtr, LinkyList};
use asyncnal::{CountedEvent, Event, EventSetter, LocalEvent, Yield};

struct CountingWaker {
    wakes: AtomicUsize,
}

impl Wake for CountingWaker {
    fn wake(self: Arc<Self>) {
        self.wakes.fetch_add(1, Ordering::SeqCst);
    }
    fn wake_by_ref(self: &Arc<Self>) {
        self.wakes.fetch_add(1, Ordering::SeqCst);
    }
}

fn counting_waker() -> (Arc<CountingWaker>, Waker) {
    let inner = Arc::new(CountingWaker { wakes: AtomicUsize::new(0) });
    (inner.clone(), Waker::from(inner))
}

fn wakes(w: &Arc<CountingWaker>) -> usize {
    w.wakes.load(Ordering::SeqCst)
}

#[test]
fn new_set_event_is_taken_once() {
    let mut event = Event::new_set();
    assert!(event.try_wait());
    assert!(!event.try_wait());
}

#[test]
fn new_event_is_not_set() {
    let mut event = LocalEvent::new();
    assert!(!event.try_wait());
    assert!(!event.has_waiters());
}

#[test]
fn set_one_reports_whether_it_woke() {
    let mut event = Event::new();
    let (_c, waker) = counting_waker();
    assert!(!event.set_one());
    assert!(event.try_wait());

    let w = event.wait();
    assert!(w.poll(&mut event, &waker).is_pending());
    assert!(event.set_one());
    assert!(!event.try_wait());
}

#[test]
fn set_one_wakes_the_oldest_waker() {
    let mut event = Event::new();
    let (c1, waker1) = counting_waker();
    let (c2, waker2) = counting_waker();
    let w1 = event.wait();
    let w2 = event.wait();
    assert!(w1.poll(&mut event, &waker1).is_pending());
    assert!(w2.poll(&mut event, &waker2).is_pending());
    assert!(event.set_one());
    assert_eq!(wakes(&c1), 1);
    assert_eq!(wakes(&c2), 0);
    assert!(event.set_one());
    assert_eq!(wakes(&c2), 1);
}

#[test]
fn local_event_wakes_in_order() {
    let mut event = LocalEvent::new();
    let (c1, waker1) = counting_waker();
    let (c2, waker2) = counting_waker();
    let w1 = event.wait();
    let w2 = event.wait();
    assert!(w1.poll(&mut event, &waker1).is_pending());
    assert!(w2.poll(&mut event, &waker2).is_pending());
    event.set_one();
    assert_eq!((wakes(&c1), wakes(&c2)), (1, 0));
    assert!(w1.poll(&mut event, &waker1).is_ready());
    event.set_one();
    assert_eq!((wakes(&c1), wakes(&c2)), (1, 1));
    assert!(w2.poll(&mut event, &waker2).is_ready());
    assert!(!event.has_waiters());
}

#[test]
fn cancelled_waiter_is_skipped() {
    let mut event = Event::new();
    let (c1, waker1) = counting_waker();
    let (c2, waker2) = counting_waker();
    let w1 = event.wait();
    let w2 = event.wait();
    assert!(w1.poll(&mut event, &waker1).is_pending());
    assert!(w2.poll(&mut event, &waker2).is_pending());
    w1.cancel(&mut event);
    assert!(event.has_waiters());
    assert!(event.set_one());
    assert_eq!(wakes(&c1), 0);
    assert_eq!(wakes(&c2), 1);
    assert!(w2.poll(&mut event, &waker2).is_ready());
    assert!(!event.has_waiters());
}

#[test]
fn set_all_wakes_every_waiter() {
    let mut event = Event::new();
    let (c, waker) = counting_waker();
    let ws: Vec<_> = (0..3).map(|_| event.wait()).collect();
    for w in &ws {
        assert!(w.poll(&mut event, &waker).is_pending());
    }
    let mut called = 0;
    event.set_all(|| called += 1);
    assert_eq!(called, 3);
    assert_eq!(wakes(&c), 3);
    for w in &ws {
        assert!(w.poll(&mut event, &waker).is_ready());
    }
    assert!(!event.has_waiters());
    assert!(!event.try_wait());
}

#[test]
fn set_all_without_waiters_sets_the_event() {
    let mut event = LocalEvent::new();
    let mut called = 0;
    event.set_all(|| called += 1);
    assert_eq!(called, 0);
    assert!(event.try_wait());
}

#[test]
fn completed_waiter_stays_ready() {
    let mut event = Event::new_set();
    let (_c, waker) = counting_waker();
    let w = event.wait();
    assert!(w.poll(&mut event, &waker).is_ready());
    assert!(w.poll(&mut event, &waker).is_ready());
    assert!(!event.try_wait());
}

#[test]
fn waiter_queued_after_a_cancelled_one_is_woken() {
    let mut event = Event::new();
    let (c1, waker1) = counting_waker();
    let (_c2, waker2) = counting_waker();
    let w1 = event.wait();
    assert!(w1.poll(&mut event, &waker1).is_pending());
    w1.cancel(&mut event);
    let w2 = event.wait();
    assert!(w2.poll(&mut event, &waker2).is_pending());
    assert!(event.set_one());
    assert_eq!(wakes(&c1), 0);
    assert!(w2.poll(&mut event, &waker2).is_ready());
}

#[test]
fn dropping_an_unpolled_waiter_changes_nothing() {
    let mut event = Event::new_set();
    let w = event.wait();
    event.drop_waiter(w);
    assert!(!event.has_waiters());
    assert!(event.try_wait());
}

#[test]
fn counted_immediate_return_is_not_counted() {
    let mut event = CountedEvent::new(LocalEvent::new_set());
    let (_c, waker) = counting_waker();
    let w = event.wait();
    assert!(w.poll(&mut event, &waker).is_ready());
    assert_eq!(event.count(), 0);
}

#[test]
fn counted_set_all_counts_each_waiter_out_once() {
    let mut event = CountedEvent::new(Event::new());
    let (_c, waker) = counting_waker();
    let w1 = event.wait();
    let w2 = event.wait();
    assert!(w1.poll(&mut event, &waker).is_pending());
    assert!(w2.poll(&mut event, &waker).is_pending());
    assert_eq!(event.count(), 2);
    event.set_all();
    assert_eq!(event.count(), 2);
    assert!(w1.poll(&mut event, &waker).is_ready());
    assert_eq!(event.count(), 1);
    assert!(w2.poll(&mut event, &waker).is_ready());
    assert_eq!(event.count(), 0);
}

#[test]
fn counted_cancel_of_waiting_counts_out() {
    let mut event = CountedEvent::new(Event::new());
    let (_c, waker) = counting_waker();
    let w1 = event.wait();
    let w2 = event.wait();
    assert!(w1.poll(&mut event, &waker).is_pending());
    assert_eq!(event.count(), 1);
    w2.cancel(&mut event);
    assert_eq!(event.count(), 1);
    w1.cancel(&mut event);
    assert_eq!(event.count(), 0);
    assert!(!event.has_waiters());
}

#[test]
fn counted_try_wait_goes_to_inner_event() {
    let mut event: CountedEvent<Event> = CountedEvent::new_set();
    assert!(event.try_wait());
    assert!(!event.try_wait());
    assert_eq!(event.count(), 0);
}

#[test]
fn yield_pends_once_and_wakes() {
    let (c, waker) = counting_waker();
    let mut y = Yield::new();
    assert!(y.poll(&waker).is_pending());
    assert_eq!(wakes(&c), 1);
    assert!(y.poll(&waker).is_ready());
    assert!(y.poll(&waker).is_ready());
    assert_eq!(wakes(&c), 1);
}

#[test]
fn async_lot_wakes_oldest_first() {
    let mut lot = AsyncLot::new();
    let (c1, waker1) = counting_waker();
    let (c2, waker2) = counting_waker();
    assert!(!lot.unpark_one());
    lot.park(&waker1);
    lot.park(&waker2);
    assert!(lot.unpark_one());
    assert_eq!((wakes(&c1), wakes(&c2)), (1, 0));
    assert!(lot.unpark_one());
    assert_eq!((wakes(&c1), wakes(&c2)), (1, 1));
    assert!(!lot.unpark_one());
}

#[test]
fn linked_list_push_pop_law() {
    let mut list = LinkyList::new();
    list.push_front(1);
    list.push_front(2);
    assert_eq!(list.pop_front(), Some(2));
    list.push_front(3);
    assert_eq!(list.pop_front(), Some(3));
    assert_eq!(list.pop_front(), Some(1));
    assert_eq!(list.pop_front(), None);
    list.push_front(4);
    assert_eq!(list.pop_front(), Some(4));
    assert_eq!(list.pop_front(), None);
}

#[test]
fn link_ptr_basics() {
    let null = LinkPtr::null();
    assert!(null.is_null());
    let mut p = LinkPtr::from_raw(Some(3));
    assert!(!p.is_null());
    p.equalize(&null);
    assert!(p.is_null());
}

#[test]
fn atomic_lock_guards_its_value() {
    let mut lock = AtomicLock::new(5);
    assert_eq!(*lock.get(), 5);
    lock.lock();
    lock.set(7);
    lock.unlock();
    assert_eq!(*lock.get(), 7);
    lock.lock();
    lock.unlock();
}

#[test]
fn async_yield_pends_once() {
    let (c, waker) = counting_waker();
    let mut y = asyncnal::atom_lock::AsyncYield::new();
    assert!(y.poll(&waker).is_pending());
    assert!(y.poll(&waker).is_ready());
    assert_eq!(wakes(&c), 1);
}

#[test]
fn double_set_without_waiters_gives_one_permit() {
    let mut event = Event::new();
    assert!(!event.set_one());
    assert!(!event.set_one());
    assert!(event.try_wait());
    assert!(!event.try_wait());
}

#[test]
fn spurious_repoll_stays_pending() {
    let mut event = Event::new();
    let (c, waker) = counting_waker();
    let w = event.wait();
    assert!(w.poll(&mut event, &waker).is_pending());
    assert!(w.poll(&mut event, &waker).is_pending());
    assert!(w.poll(&mut event, &waker).is_pending());
    assert!(event.has_waiters());
    assert!(!event.try_wait());
    assert_eq!(wakes(&c), 0);
    assert!(event.set_one());
    assert_eq!(wakes(&c), 1);
    assert!(w.poll(&mut event, &waker).is_ready());
    assert!(!event.has_waiters());
    assert!(!event.try_wait());
}

#[test]
fn one_set_completes_one_wait() {
    let mut event = LocalEvent::new();
    let (_c, waker) = counting_waker();
    let w1 = event.wait();
    let w2 = event.wait();
    assert!(w1.poll(&mut event, &waker).is_pending());
    assert!(w2.poll(&mut event, &waker).is_pending());
    assert!(event.set_one());
    assert!(w2.poll(&mut event, &waker).is_pending());
    assert!(w1.poll(&mut event, &waker).is_ready());
    assert!(w2.poll(&mut event, &waker).is_pending());
    assert!(event.has_waiters());
}

#[test]
fn woken_then_dropped_waiter_leaves_the_event_set() {
    let mut event = Event::new();
    let (_c, waker) = counting_waker();
    let w = event.wait();
    assert!(w.poll(&mut event, &waker).is_pending());
    assert!(event.set_one());
    w.cancel(&mut event);
    assert!(!event.has_waiters());
    assert!(event.try_wait());
    assert!(!event.try_wait());
}

#[test]
fn woken_then_dropped_waiter_wakes_the_next() {
    let mut event = Event::new();
    let (c1, waker1) = counting_waker();
    let (c2, waker2) = counting_waker();
    let w1 = event.wait();
    let w2 = event.wait();
    assert!(w1.poll(&mut event, &waker1).is_pending());
    assert!(w2.poll(&mut event, &waker2).is_pending());
    assert!(event.set_one());
    assert_eq!((wakes(&c1), wakes(&c2)), (1, 0));
    w1.cancel(&mut event);
    assert_eq!(wakes(&c2), 1);
    assert!(w2.poll(&mut event, &waker2).is_ready());
    assert!(!event.try_wait());
}

#[test]
fn set_all_after_a_completed_wait_sets_the_event() {
    let mut event = Event::new();
    let (_c, waker) = counting_waker();
    let w = event.wait();
    assert!(w.poll(&mut event, &waker).is_pending());
    assert!(event.set_one());
    assert!(w.poll(&mut event, &waker).is_ready());
    let mut called = 0;
    event.set_all(|| called += 1);
    assert_eq!(called, 0);
    assert!(event.try_wait());
}

#[test]
fn counted_set_all_with_nobody_waiting_sets_the_event() {
    let mut event = CountedEvent::new(Event::new());
    assert_eq!(event.count(), 0);
    assert!(!event.has_waiters());
    event.set_all();
    assert_eq!(event.count(), 0);
    assert!(event.try_wait());
    assert!(!event.try_wait());
}
