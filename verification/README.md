# asyncnal

Signalling primitives for asynchronous tasks, verified with Verus.

An event is created set or unset. Tasks wait on it; `set_one` wakes the
oldest waiting task (or sets the event when nobody waits), `set_all` wakes
every one of them, and `try_wait` takes a set event at once unless tasks are
already queued for it. Waiting tasks are woken in FIFO order; a queued wait
ends only once a wake has reached it, so the event counts like a semaphore
without permits. A wait that is dropped while queued gives its place back,
and one dropped after its wake hands the wake on. `CountedEvent` reports how
many tasks are waiting.

Layout:

- `src/` — the library, every function with its contract, proved by Verus.
  - `task`, `yielder`: the waker handed in by the executor, the answer of a
    poll, and a one-shot yield.
  - `signal`, `lot`, `async_lot`: validity markers, counters and FIFO queues,
    and the wait lots built from them (`lfqueue`'s lock-free queue for
    `Event`, a `VecDeque` for `LocalEvent`).
  - `event`, `events`: the state machine of a wait, the event that keeps the
    registry of its waits, and the two events of the crate.
  - `counted`: `CountedEvent`.
  - `atom_lock`, `linked_list`: a lock flag and a locked singly linked list.
  - `laws`: what the contracts add up to across calls (the semaphore count,
    fast path, no stealing, FIFO wakes down to the waker woken, cancel
    safety, list shape, push/pop).

Each wake is recorded: the wrapper around `Waker::wake_by_ref` appends the
waker that it woke to a ghost log of the part that made the call (a yield,
a wait lot), so that the contracts say which task was woken, and how often.
- `app/` — async plumbing: a shared event whose waits are `Future`s.
- `tests/` — the scenarios, run against the compiled library.

The event is a sequential state machine: a waiter is polled and dropped
through the event that issued it, and sharing between threads is the
caller's concern (`app/` puts the event behind a mutex).
