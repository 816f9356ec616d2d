//! Least attained service.
use crate::groups::{
    has_waiting, joined, lemma_waiting_empty, lemma_waiting_front_left, lemma_waiting_joined,
    lemma_waiting_removed, lemma_waiting_reranked, pops, runs_first, waiting, Groups, RankedGroups,
};
use crate::mpsc::Mpsc;
use crate::queue::TaskId;
use crate::scheduler::Scheduler;
use crate::time::{duration_since, lemma_last_run, span, total_time, Nanos};
use vstd::multiset::Multiset;
use vstd::prelude::*;

verus! {

broadcast use RankedGroups::lemma_finite;

/// Scheduler that picks tasks on the basis of least attained service time.
///
/// The group that has been served the least runs first, and its tasks run in the order in which
/// they were pushed. The service time of a group is kept until its state is cleared.
pub struct LAS {
    groups: RankedGroups,
}

impl View for LAS {
    type V = Groups;

    /// The total service time and the waiting tasks of each group.
    closed spec fn view(&self) -> Groups {
        self.groups@
    }
}

/// The groups after a task of `group` ran for `time`: the service time of a known group grows.
pub open spec fn served(groups: Groups, group: u64, time: nat) -> Groups {
    if groups.contains_key(group) {
        groups.insert(group, ((groups[group].0 + time) as u128, groups[group].1))
    } else {
        groups
    }
}

impl LAS {
    /// Starts without groups.
    pub fn new() -> (r: Self)
        ensures
            r.inv(),
            r@ == Groups::empty(),
    {
        LAS { groups: RankedGroups::new() }
    }

    /// The total service time of a group, if it is known.
    pub fn total_service_time(&self, group: u64) -> (r: Option<u128>)
        ensures
            match r {
                Some(time) => self@.contains_key(group) && self@[group].0 == time,
                None => !self@.contains_key(group),
            },
    {
        self.groups.rank(group)
    }
}

impl Scheduler for LAS {
    closed spec fn inv(&self) -> bool {
        self.groups.inv()
    }

    open spec fn queued(&self) -> Multiset<TaskId> {
        waiting(self@)
    }

    /// The group is known, and none of its tasks waits.
    open spec fn can_clear(&self, group: u64) -> bool {
        self@.contains_key(group) && self@[group].1.len() == 0
    }

    /// The service time of the group, if it is known, stays within its type.
    open spec fn can_observe(&self, group: u64, start: Nanos, end: Nanos) -> bool {
        self@.contains_key(group) ==> self@[group].0 + span(start, end) <= u128::MAX
    }

    /// Has no use for the channel: tasks come through `push`.
    fn init(&mut self, mpsc: Mpsc<TaskId>) -> (rest: Option<Mpsc<TaskId>>)
        ensures
            *final(self) == *old(self),
            rest == Some(mpsc),
    {
        Some(mpsc)
    }

    fn push(&mut self, id: TaskId, group: u64, at: Nanos)
        ensures
            final(self)@ == joined(old(self)@, group, 0, id),
    {
        proof {
            lemma_waiting_joined(self@, group, 0, id);
        }
        self.groups.push(id, group, 0);
    }

    fn pop(&mut self) -> (r: Option<TaskId>)
        ensures
            pops(old(self)@, r, final(self)@),
    {
        let r = self.groups.pop();
        proof {
            lemma_waiting_empty(old(self)@);
            if let Some(id) = r {
                let g = choose|g: u64| #[trigger]
                    runs_first(old(self)@, g) && id == old(self)@[g].1[0] && self@
                        == crate::groups::front_left(old(self)@, g);
                lemma_waiting_front_left(old(self)@, g);
            }
        }
        r
    }

    fn clear_task_state(&mut self, id: TaskId, group: u64)
        ensures
            *final(self) == *old(self),
    {
    }

    fn may_clear(&self, group: u64) -> (r: bool)
        ensures
            r <==> self@.contains_key(group) && self@[group].1.len() == 0,
    {
        self.groups.is_idle(group)
    }

    fn clear_group_state(&mut self, group: u64)
        ensures
            final(self)@ == old(self)@.remove(group),
    {
        proof {
            lemma_waiting_removed(self@, group);
        }
        self.groups.remove(group);
    }

    fn is_runnable(&self) -> (r: bool)
        ensures
            r == exists|g: u64| has_waiting(self@, g),
    {
        proof {
            lemma_waiting_empty(self@);
        }
        self.groups.is_runnable()
    }

    fn may_observe(&self, group: u64, start: Nanos, end: Nanos) -> (r: bool)
        ensures
            r <==> (self@.contains_key(group) && start <= end ==> self@[group].0 + (end - start)
                <= u128::MAX),
    {
        match self.groups.rank(group) {
            Some(time) => time <= u128::MAX - duration_since(end, start),
            None => true,
        }
    }

    fn observe(&mut self, id: TaskId, group: u64, start: Nanos, end: Nanos, ready: bool)
        ensures
            final(self)@ == served(old(self)@, group, span(start, end)),
    {
        if let Some(time) = self.groups.rank(group) {
            let total: u128 = time + duration_since(end, start);
            proof {
                lemma_waiting_reranked(self@, group, total);
            }
            self.groups.rerank(group, total);
        }
    }
}

/// The groups after tasks of `group` ran as listed, one run after the other.
pub open spec fn served_all(groups: Groups, group: u64, runs: Seq<(Nanos, Nanos)>) -> Groups
    decreases runs.len(),
{
    if runs.len() == 0 {
        groups
    } else {
        served(
            served_all(groups, group, runs.drop_last()),
            group,
            span(runs.last().0, runs.last().1),
        )
    }
}

/// Service adds up: after any runs of a known group, its total service time is what it was before
/// and what the runs took together, so that no run lowers it. Its waiting tasks stay, a group that
/// is not known stays so, and every other group stays as it is.
pub proof fn service_adds_up(groups: Groups, group: u64, other: u64, runs: Seq<(Nanos, Nanos)>)
    requires
        groups.contains_key(group) ==> groups[group].0 + total_time(runs) <= u128::MAX,
        other != group,
    ensures
        served_all(groups, group, runs).contains_key(group) == groups.contains_key(group),
        groups.contains_key(group) ==> served_all(groups, group, runs)[group].0 == groups[group].0
            + total_time(runs),
        groups.contains_key(group) ==> served_all(groups, group, runs)[group].1 == groups[group].1,
        served_all(groups, group, runs).contains_key(other) == groups.contains_key(other),
        groups.contains_key(other) ==> served_all(groups, group, runs)[other] == groups[other],
    decreases runs.len(),
{
    if runs.len() > 0 {
        lemma_last_run(runs);
        service_adds_up(groups, group, other, runs.drop_last());
    }
}

/// Two runs of a known group add both their lengths, and neither lowers the service time.
pub proof fn two_runs_add_up(groups: Groups, group: u64, first: nat, second: nat)
    requires
        groups.contains_key(group),
        groups[group].0 + first + second <= u128::MAX,
    ensures
        served(served(groups, group, first), group, second).contains_key(group),
        served(groups, group, first)[group].0 >= groups[group].0,
        served(served(groups, group, first), group, second)[group].0 == groups[group].0 + first
            + second,
{
}

} // verus!
