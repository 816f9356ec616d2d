//! First in, first out, by the time at which groups arrived.
use crate::groups::{
    has_waiting, joined, lemma_waiting_empty, lemma_waiting_front_left, lemma_waiting_joined,
    lemma_waiting_removed, pops, runs_first, waiting, Groups, RankedGroups,
};
use crate::mpsc::Mpsc;
use crate::queue::TaskId;
use crate::scheduler::Scheduler;
use crate::time::Nanos;
use vstd::multiset::Multiset;
use vstd::prelude::*;

verus! {

broadcast use RankedGroups::lemma_finite;

/// Scheduler that does FIFO in order of when tasks arrived.
///
/// A group arrives with its first task and keeps that time until its state is cleared. The group
/// that arrived first runs first, and its tasks run in the order in which they were pushed.
pub struct ArrivalFifo {
    groups: RankedGroups,
}

impl View for ArrivalFifo {
    type V = Groups;

    /// The arrival time and the waiting tasks of each group.
    closed spec fn view(&self) -> Groups {
        self.groups@
    }
}

impl ArrivalFifo {
    /// Starts without groups.
    pub fn new() -> (r: Self)
        ensures
            r.inv(),
            r@ == Groups::empty(),
    {
        ArrivalFifo { groups: RankedGroups::new() }
    }
}

impl Scheduler for ArrivalFifo {
    closed spec fn inv(&self) -> bool {
        self.groups.inv()
    }

    open spec fn queued(&self) -> Multiset<TaskId> {
        waiting(self@)
    }

    /// The group is known, and none of its tasks waits.
    open spec fn can_clear(&self, group: u64) -> bool {
        self@.contains_key(group) && self@[group].1.len() == 0
    }

    /// Has no use for the channel: tasks come through `push`.
    fn init(&mut self, mpsc: Mpsc<TaskId>) -> (rest: Option<Mpsc<TaskId>>)
        ensures
            *final(self) == *old(self),
            rest == Some(mpsc),
    {
        Some(mpsc)
    }

    fn push(&mut self, id: TaskId, group: u64, at: Nanos)
        ensures
            final(self)@ == joined(old(self)@, group, at, id),
    {
        proof {
            lemma_waiting_joined(self@, group, at, id);
        }
        self.groups.push(id, group, at);
    }

    fn pop(&mut self) -> (r: Option<TaskId>)
        ensures
            pops(old(self)@, r, final(self)@),
    {
        let r = self.groups.pop();
        proof {
            lemma_waiting_empty(old(self)@);
            if let Some(id) = r {
                let g = choose|g: u64| #[trigger]
                    runs_first(old(self)@, g) && id == old(self)@[g].1[0] && self@
                        == crate::groups::front_left(old(self)@, g);
                lemma_waiting_front_left(old(self)@, g);
            }
        }
        r
    }

    fn clear_task_state(&mut self, id: TaskId, group: u64)
        ensures
            *final(self) == *old(self),
    {
    }

    fn may_clear(&self, group: u64) -> (r: bool)
        ensures
            r <==> self@.contains_key(group) && self@[group].1.len() == 0,
    {
        self.groups.is_idle(group)
    }

    fn clear_group_state(&mut self, group: u64)
        ensures
            final(self)@ == old(self)@.remove(group),
    {
        proof {
            lemma_waiting_removed(self@, group);
        }
        self.groups.remove(group);
    }

    fn is_runnable(&self) -> (r: bool)
        ensures
            r == exists|g: u64| has_waiting(self@, g),
    {
        proof {
            lemma_waiting_empty(self@);
        }
        self.groups.is_runnable()
    }

    fn may_observe(&self, group: u64, start: Nanos, end: Nanos) -> (r: bool)
        ensures
            r,
    {
        true
    }

    fn observe(&mut self, id: TaskId, group: u64, start: Nanos, end: Nanos, ready: bool)
        ensures
            *final(self) == *old(self),
    {
    }
}

} // verus!
