//! Schedulers that choose which task of a queue runs next.
pub mod arrival_fifo;
pub mod fsrpt;
pub mod las;
pub mod qlas;
pub mod qsrpt;
pub mod runnable_fifo;

pub use self::arrival_fifo::ArrivalFifo;
pub use self::fsrpt::FairSRPT;
pub use self::las::LAS;
pub use self::qlas::QLAS;
pub use self::qsrpt::QSRPT;
pub use self::runnable_fifo::RunnableFifo;

use crate::mpsc::Mpsc;
use crate::queue::TaskId;
use crate::time::Nanos;
use vstd::multiset::Multiset;
use vstd::prelude::*;

verus! {

/// The tasks in a channel that may be absent.
pub open spec fn channel_tasks(channel: Option<Mpsc<TaskId>>) -> Multiset<TaskId> {
    match channel {
        Some(mpsc) => mpsc@.items.to_multiset(),
        None => Multiset::empty(),
    }
}

/// Per-queue scheduler: chooses *which task* to run within the queue.
///
/// Whatever order a scheduler chooses, it hands out every task that was pushed, each as often as it
/// was pushed, and hands out a task whenever one is queued.
pub trait Scheduler {
    /// The scheduler is in good order. Unless a scheduler says otherwise, it always is.
    open spec fn inv(&self) -> bool {
        true
    }

    /// The tasks that wait to be popped.
    spec fn queued(&self) -> Multiset<TaskId>;

    /// Whether the state of `group` can be cleared. Unless a scheduler says otherwise, it can.
    open spec fn can_clear(&self, group: u64) -> bool {
        true
    }

    /// Whether a run of a task of `group` can be recorded. Unless a scheduler says otherwise, it
    /// can.
    open spec fn can_observe(&self, group: u64, start: Nanos, end: Nanos) -> bool {
        true
    }

    /// Gives the scheduler its queue's channel, from which it can then take tasks directly in
    /// `pop`. Returns the channel that the scheduler does not hold: the one offered, if it has no
    /// use for it, or the one that it replaces.
    fn init(&mut self, mpsc: Mpsc<TaskId>) -> (rest: Option<Mpsc<TaskId>>)
        requires
            old(self).inv(),
            mpsc.inv(),
        ensures
            final(self).inv(),
            rest matches Some(channel) ==> channel.inv(),
            final(self).queued().add(channel_tasks(rest)) == old(self).queued().add(
                mpsc@.items.to_multiset(),
            ),
    ;

    /// Queues a task of a group that became runnable at the given time.
    fn push(&mut self, id: TaskId, group: u64, at: Nanos)
        requires
            old(self).inv(),
        ensures
            final(self).inv(),
            final(self).queued() == old(self).queued().insert(id),
    ;

    /// Takes the task to run next.
    fn pop(&mut self) -> (r: Option<TaskId>)
        requires
            old(self).inv(),
        ensures
            final(self).inv(),
            match r {
                Some(id) => {
                    &&& old(self).queued().contains(id)
                    &&& final(self).queued() == old(self).queued().remove(id)
                },
                None => {
                    &&& old(self).queued() == Multiset::<TaskId>::empty()
                    &&& final(self).queued() == old(self).queued()
                },
            },
    ;

    /// Forgets what is remembered of a task.
    fn clear_task_state(&mut self, id: TaskId, group: u64)
        requires
            old(self).inv(),
        ensures
            final(self).inv(),
            final(self).queued() == old(self).queued(),
    ;

    /// Whether the state of `group` can be cleared.
    fn may_clear(&self, group: u64) -> (r: bool)
        requires
            self.inv(),
        ensures
            r == self.can_clear(group),
    ;

    /// Forgets what is remembered of a group.
    fn clear_group_state(&mut self, group: u64)
        requires
            old(self).inv(),
            old(self).can_clear(group),
        ensures
            final(self).inv(),
            final(self).queued() == old(self).queued(),
    ;

    /// Whether any task is queued.
    fn is_runnable(&self) -> (r: bool)
        requires
            self.inv(),
        ensures
            r == (self.queued() != Multiset::<TaskId>::empty()),
    ;

    /// Whether a run of a task of `group` can be recorded.
    fn may_observe(&self, group: u64, start: Nanos, end: Nanos) -> (r: bool)
        requires
            self.inv(),
        ensures
            r == self.can_observe(group, start, end),
    ;

    /// Records that a task of a group ran from `start` to `end`, and whether that finished it.
    fn observe(&mut self, id: TaskId, group: u64, start: Nanos, end: Nanos, ready: bool)
        requires
            old(self).inv(),
            old(self).can_observe(group, start, end),
        ensures
            final(self).inv(),
            final(self).queued() == old(self).queued(),
    ;
}

} // verus!
