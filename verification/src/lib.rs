//! Schedulers that choose which task of a queue an executor runs next, the queue through which
//! tasks reach them, and the hand-over of a task's result to whoever waits for it.
//!
//! * `scheduler`: the schedulers and the contract that they share
//! * `mpsc` and `wakeup`: the queue of runnable tasks, and why its consumer misses no wake-up
//! * `join` and `handoff`: the hand-over of a result, and why it is handed over once
//! * `queue`: a queue's name, share and scheduler
//! * `groups`, `buckets`, `bucket`, `turns`, `pool`, `bits`, `count`, `time`: what the schedulers
//!   are made of
//! * `table`, `notify`: what is taken on trust of the crates that hold hash tables and wakers
pub mod bits;
pub mod bucket;
pub mod buckets;
pub mod count;
pub mod groups;
pub mod handoff;
pub mod join;
pub mod mpsc;
pub mod notify;
pub mod pool;
pub mod queue;
pub mod scheduler;
pub mod table;
pub mod time;
pub mod turns;
pub mod wakeup;
