//! Queues of tasks, each with its share of the processor and its own scheduler.
use crate::scheduler::Scheduler;
use vstd::prelude::*;

verus! {

/// What a task is known by.
pub type TaskId = usize;

/// What a queue can be known by.
pub trait QueueKey: Eq + Sized + Copy + Send + Sync + std::fmt::Debug + 'static {

}

impl<K> QueueKey for K where K: Eq + Sized + Copy + Send + Sync + std::fmt::Debug + 'static {

}

/// A queue before it is set up: what it is known by, its share, and its scheduler.
pub struct Queue<K: QueueKey, S = Box<dyn Scheduler>> {
    id: K,
    share: u64,
    scheduler: S,
}

/// The parts of a `Queue`.
pub struct QueueParts<K, S> {
    pub id: K,
    pub share: u64,
    pub scheduler: S,
}

impl<K: QueueKey, S> View for Queue<K, S> {
    type V = QueueParts<K, S>;

    closed spec fn view(&self) -> QueueParts<K, S> {
        QueueParts { id: self.id, share: self.share, scheduler: self.scheduler }
    }
}

impl<K: QueueKey, S> Queue<K, S> {
    /// Makes a queue of the given parts.
    pub fn new(id: K, share: u64, scheduler: S) -> (r: Self)
        ensures
            r@ == (QueueParts { id, share, scheduler }),
    {
        Self { id, share, scheduler }
    }

    /// What the queue is known by.
    pub fn id(&self) -> (r: K)
        ensures
            r == self@.id,
    {
        self.id
    }

    /// The queue's share of the processor.
    pub fn share(&self) -> (r: u64)
        ensures
            r == self@.share,
    {
        self.share
    }

    /// Takes the scheduler out of the queue.
    pub fn scheduler(self) -> (r: S)
        ensures
            r == self@.scheduler,
    {
        self.scheduler
    }
}

} // verus!
