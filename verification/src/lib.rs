//! Signalling primitives for asynchronous tasks: an event that tasks wait
//! on, queued in FIFO order and woken one at a time or all at once, plus a
//! counted variant that reports how many tasks are waiting.

pub mod task;
pub mod yielder;
pub mod signal;
pub mod lot;
pub mod async_lot;
pub mod event;
pub mod events;
pub mod counted;
pub mod atom_lock;
pub mod linked_list;
pub mod laws;

pub use task::Poll;
pub use yielder::Yield;
pub use event::EventSetter;
pub use events::{Event, EventAwait, LocalEvent, LocalEventAwait};
pub use counted::{CountedAwaiter, CountedEvent};
