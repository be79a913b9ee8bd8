use std::sync::Arc;
use std::task::{Wake, Waker};

use asyncnal::{CountedEvent, Event, EventSetter};

struct TestWaker {}

impl Wake for TestWaker {
    fn wake(self: Arc<Self>) {}
}

fn test_waker() -> Waker {
    Waker::from(Arc::new(TestWaker {}))
}

/// Checks if a wait on the event will immediately return.
fn can_poll_immediate<E: EventSetter>(event: &mut E) -> bool {
    let waker = test_waker();
    let waiter = event.wait();
    event.poll_waiter(&waiter, &waker).is_ready()
}

/// Sets up a wait that parks itself and is then dropped.
fn setup_drop_cancel_test<E: EventSetter>(event: &mut E) {
    let waker = test_waker();
    let waiter = event.wait();
    assert!(event.poll_waiter(&waiter, &waker).is_pending());
    event.drop_waiter(waiter);
}

#[test]
fn test_countable_correctness() {
    let mut event = CountedEvent::new(Event::new());
    assert_eq!(event.count(), 0);

    let waker = test_waker();

    let waiting = event.wait();
    assert_eq!(event.count(), 0);

    assert!(waiting.poll(&mut event, &waker).is_pending());
    assert_eq!(event.count(), 1);

    event.set_one();
    assert!(waiting.poll(&mut event, &waker).is_ready());
    assert_eq!(event.count(), 0);
}

#[test]
fn test_event_hotpath() {
    let mut event = Event::new();
    let waker = test_waker();

    event.set_one();

    let waiter = event.wait();
    assert!(waiter.poll(&mut event, &waker).is_ready());
}

#[test]
fn test_event_hotpath_steal() {
    let mut event = Event::new();
    let waker = test_waker();

    let waiter = event.wait();
    assert!(waiter.poll(&mut event, &waker).is_pending());

    event.set_one();

    let other = event.wait();
    assert!(other.poll(&mut event, &waker).is_pending());

    assert!(waiter.poll(&mut event, &waker).is_ready());
}

#[test]
fn event_has_waiter_with_priors() {
    let mut event = Event::new();
    assert!(!event.has_waiters());

    let waker = test_waker();

    let waiter1 = event.wait();
    let waiter2 = event.wait();
    assert!(waiter1.poll(&mut event, &waker).is_pending());
    assert!(waiter2.poll(&mut event, &waker).is_pending());

    assert!(event.has_waiters());

    event.set_one();

    assert!(event.has_waiters());

    assert!(waiter1.poll(&mut event, &waker).is_ready());

    assert!(event.has_waiters());
}

#[test]
fn event_has_waiter() {
    let mut event = Event::new();
    assert!(!event.has_waiters());

    let waker = test_waker();

    let waiter = event.wait();
    assert!(waiter.poll(&mut event, &waker).is_pending());

    assert!(event.has_waiters());

    event.set_one();

    assert!(event.has_waiters());

    assert!(waiter.poll(&mut event, &waker).is_ready());

    assert!(!event.has_waiters());
}

#[test]
fn test_event_standard() {
    let mut event = Event::new();
    let waker = test_waker();

    let waiter = event.wait();
    assert!(waiter.poll(&mut event, &waker).is_pending());

    event.set_one();

    assert!(waiter.poll(&mut event, &waker).is_ready());
}

#[test]
fn test_countable_correctness_hotpath() {
    let mut event = CountedEvent::new(Event::new());
    assert_eq!(event.count(), 0);

    let waker = test_waker();

    let waiting = event.wait();
    assert_eq!(event.count(), 0);

    event.set_one();

    assert!(waiting.poll(&mut event, &waker).is_ready());
    assert_eq!(event.count(), 0);
}

#[test]
fn test_drop_cancel_countable() {
    let mut event = CountedEvent::new(Event::new());
    assert_eq!(event.count(), 0);

    setup_drop_cancel_test(&mut event);

    assert_eq!(event.count(), 0);
}

#[test]
fn test_drop_cancel_try_wait() {
    let mut event = Event::new();
    assert!(!event.try_wait());

    setup_drop_cancel_test(&mut event);

    event.set_one();

    assert!(event.try_wait());
}

#[test]
fn test_drop_cancel_real_wait() {
    let mut event = Event::new();
    assert!(!event.try_wait());

    setup_drop_cancel_test(&mut event);

    event.set_one();

    assert!(can_poll_immediate(&mut event));
}

#[test]
fn test_proper_order() {
    let mut event = Event::new();
    let waker = test_waker();

    let mut array = Vec::new();
    for _ in 0..10 {
        let ev = event.wait();
        assert!(ev.poll(&mut event, &waker).is_pending());
        array.push(ev);
    }

    for i in 0..10 {
        event.set_one();
        assert!(array[i].poll(&mut event, &waker).is_ready());
    }
}

#[test]
fn test_double_set() {
    let mut event = Event::new();
    let waker = test_waker();

    let waiter1 = event.wait();
    let waiter2 = event.wait();
    assert!(waiter1.poll(&mut event, &waker).is_pending());
    assert!(waiter2.poll(&mut event, &waker).is_pending());

    event.set_one();
    event.set_one();

    assert!(waiter1.poll(&mut event, &waker).is_ready());
    assert!(waiter2.poll(&mut event, &waker).is_ready());
}

#[test]
fn no_steal() {
    let mut event = Event::new();
    assert!(!event.try_wait());

    let waiter = event.wait();
    let waker = test_waker();

    assert!(waiter.poll(&mut event, &waker).is_pending());

    event.set_one();

    assert!(!event.try_wait());

    assert!(waiter.poll(&mut event, &waker).is_ready());
}
