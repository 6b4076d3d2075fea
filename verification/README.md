# firefly

Concurrent channels whose logic is verified with Verus.

Each channel flavor (bounded and unbounded; single- or multi-producer; single-
or multi-consumer) keeps its state in a value that the library models
exactly: the queue of values, the parked tasks on each side, and the counts of
handles. Every operation is a verified step on that state. It answers what
it returns and the ids of the tasks to wake; a task that has to wait is a
small state machine that the caller polls again once woken.

Layout:

- `src/raw`: ring and block queues, slot words, the parking primitives, the
  reference counts of a channel and helpers.
- `src/wait`, `src/waker`, `src/task.rs`: wake-up cells and wait queues.
- `src/channels`: the channel flavors built on them; `src/mpmc`, `src/mpsc`,
  `src/spsc` and `src/mpfc` hold further flavors and their queues.
- `tests/`: scenarios and laws on concrete values.
- `app/`: async and blocking handles that keep a channel state behind a lock,
  map waker ids to real wakers, and park threads.
