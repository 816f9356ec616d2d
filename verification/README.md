# clockworker

Task schedulers for an asynchronous executor, with contracts that Verus proves.

- `src/` is the verified library. `scheduler` holds the schedulers: first in first out by the time
  tasks become runnable or by the time groups arrive, least attained service (exact and in
  power-of-two steps), and shortest remaining processing time (plain and with a fairness bound).
  `mpsc` is the queue of runnable tasks, `join` the hand-over of a result; `wakeup` and `handoff`
  prove what holds of these two however the steps of several threads interleave.
- `tests/` runs the library with the real hash tables and wakers.
- `app/` is ordinary Rust around the library: the clock, handles that threads share, and the
  floating-point estimates that steer the two SRPT schedulers. Shared handles wake a task only after
  they have unlocked what they share, with the waker that the library's deferred operations hand
  over.

Times are nanoseconds in `u128`. Nothing in the library panics as long as callers keep to the
preconditions. These ask that sums of measured times fit their type, that a group is known and idle
when its state is cleared, that the index of a bucket is below their number, and that something is
queued when `QSRPT::fair_pop` is called. The one exception is code that callers bring along:
cloning, waking or dropping a waker runs its owner's code, which may panic.

What is believed without proof stands in `table` (the maps of `ahash` and `nohash-hasher`), `notify`
(the waker cell of `futures`: which waker it holds and which were woken) and at the top of `join`
(two conversions of the standard library).
