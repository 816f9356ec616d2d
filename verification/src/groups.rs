//! Groups of tasks, of which the group with the least rank runs first.
use crate::pool::{lemma_empty, lemma_pop_front, lemma_push_back};
use crate::queue::TaskId;
use crate::table::{
    find_group, find_group_mut, groups_of, insert_group, new_groups, remove_group, Group,
};
use ahash::AHashMap;
use std::collections::{BTreeMap, VecDeque};
use vstd::multiset::Multiset;
use vstd::prelude::*;
use vstd::std_specs::cmp::OrdSpec;

verus! {

broadcast use vstd::laws_cmp::group_laws_cmp;

/// The rank and the waiting tasks of each known group.
pub type Groups = Map<u64, (u128, Seq<TaskId>)>;

/// Whether group `g` is known and has a task waiting.
pub open spec fn has_waiting(groups: Groups, g: u64) -> bool {
    groups.contains_key(g) && groups[g].1.len() > 0
}

/// Whether `g` is the group to run: no group with a waiting task has a lesser rank, nor the same
/// rank and a lesser identifier.
pub open spec fn runs_first(groups: Groups, g: u64) -> bool {
    &&& has_waiting(groups, g)
    &&& forall|h: u64| #[trigger]
        has_waiting(groups, h) ==> groups[g].0 < groups[h].0 || (groups[g].0 == groups[h].0 && g
            <= h)
}

/// Task `id` joins group `g`, which is given `rank` if it is not known yet.
pub open spec fn joined(groups: Groups, g: u64, rank: u128, id: TaskId) -> Groups {
    if groups.contains_key(g) {
        groups.insert(g, (groups[g].0, groups[g].1.push(id)))
    } else {
        groups.insert(g, (rank, seq![id]))
    }
}

/// The front task of group `g` leaves.
pub open spec fn front_left(groups: Groups, g: u64) -> Groups {
    groups.insert(g, (groups[g].0, groups[g].1.subrange(1, groups[g].1.len() as int)))
}

/// `popped` is what a pop hands out, and `after` are the groups it leaves.
pub open spec fn pops(groups: Groups, popped: Option<TaskId>, after: Groups) -> bool {
    match popped {
        None => after == groups && forall|g: u64| !#[trigger] has_waiting(groups, g),
        Some(id) => exists|g: u64| #[trigger]
            runs_first(groups, g) && id == groups[g].1[0] && after == front_left(groups, g),
    }
}

/// At most one group is the one to run.
pub proof fn runs_first_is_unique(groups: Groups, g: u64, h: u64)
    requires
        runs_first(groups, g),
        runs_first(groups, h),
    ensures
        g == h,
{
    assert(has_waiting(groups, g));
    assert(has_waiting(groups, h));
}

/// Every waiting task of every group.
pub open spec fn waiting(groups: Groups) -> Multiset<TaskId>
    decreases groups.dom().len(),
    when groups.dom().finite()
{
    if groups.dom().len() == 0 {
        Multiset::empty()
    } else {
        let g = groups.dom().choose();
        waiting(groups.remove(g)).add(groups[g].1.to_multiset())
    }
}

/// The waiting tasks are those of any one group and those of the others.
pub proof fn lemma_waiting_split(groups: Groups, g: u64)
    requires
        groups.dom().finite(),
        groups.contains_key(g),
    ensures
        waiting(groups) == waiting(groups.remove(g)).add(groups[g].1.to_multiset()),
    decreases groups.dom().len(),
{
    let c = groups.dom().choose();
    assert(groups.dom().contains(g));
    if c != g {
        let rest = groups.remove(c);
        lemma_waiting_split(rest, g);
        lemma_waiting_split(groups.remove(g), c);
        assert(rest.remove(g) =~= groups.remove(g).remove(c));
        assert(waiting(groups) =~= waiting(groups.remove(g)).add(groups[g].1.to_multiset()));
    }
}

/// Nothing waits exactly when no group has a waiting task.
pub proof fn lemma_waiting_empty(groups: Groups)
    requires
        groups.dom().finite(),
    ensures
        waiting(groups) == Multiset::<TaskId>::empty() <==> (forall|g: u64|
            !#[trigger] has_waiting(groups, g)),
    decreases groups.dom().len(),
{
    if groups.dom().len() == 0 {
        assert forall|g: u64| !#[trigger] has_waiting(groups, g) by {
            assert(!groups.dom().contains(g));
        }
    } else {
        let c = groups.dom().choose();
        let rest = groups.remove(c);
        lemma_waiting_empty(rest);
        lemma_empty(groups[c].1);
        assert(forall|g: u64| #[trigger]
            has_waiting(rest, g) == (g != c && has_waiting(groups, g)));
        if forall|g: u64| !#[trigger] has_waiting(groups, g) {
            assert(!has_waiting(groups, c));
            assert(waiting(groups) =~= Multiset::empty());
        }
        if waiting(groups) == Multiset::<TaskId>::empty() {
            let last = groups[c].1.to_multiset();
            assert forall|x: TaskId| waiting(rest).count(x) == 0 && last.count(x) == 0 by {
                assert(waiting(groups).count(x) == waiting(rest).count(x) + last.count(x));
            }
            assert(waiting(rest) =~= Multiset::empty());
            assert(last =~= Multiset::empty());
            assert forall|g: u64| !#[trigger] has_waiting(groups, g) by {
                if g != c {
                    assert(!has_waiting(rest, g));
                }
            }
        }
    }
}

/// A task that joins a group is added to the waiting tasks.
pub proof fn lemma_waiting_joined(groups: Groups, g: u64, rank: u128, id: TaskId)
    requires
        groups.dom().finite(),
    ensures
        waiting(joined(groups, g, rank, id)) == waiting(groups).insert(id),
{
    let after = joined(groups, g, rank, id);
    lemma_waiting_split(after, g);
    if groups.contains_key(g) {
        lemma_waiting_split(groups, g);
        lemma_push_back(groups[g].1, id);
        assert(after.remove(g) =~= groups.remove(g));
    } else {
        let none = Seq::<TaskId>::empty();
        lemma_push_back(none, id);
        lemma_empty(none);
        assert(none.push(id) =~= seq![id]);
        assert(after.remove(g) =~= groups);
    }
    assert(waiting(after) =~= waiting(groups).insert(id));
}

/// The task that a group's front leaves behind is one of the waiting tasks, and the others wait on.
pub proof fn lemma_waiting_front_left(groups: Groups, g: u64)
    requires
        groups.dom().finite(),
        has_waiting(groups, g),
    ensures
        waiting(groups).contains(groups[g].1[0]),
        waiting(front_left(groups, g)) == waiting(groups).remove(groups[g].1[0]),
{
    let after = front_left(groups, g);
    lemma_waiting_split(groups, g);
    lemma_waiting_split(after, g);
    lemma_pop_front(groups[g].1);
    assert(after.remove(g) =~= groups.remove(g));
    assert(waiting(after) =~= waiting(groups).remove(groups[g].1[0]));
}

/// A change of a group's rank leaves the waiting tasks as they are.
pub proof fn lemma_waiting_reranked(groups: Groups, g: u64, rank: u128)
    requires
        groups.dom().finite(),
        groups.contains_key(g),
    ensures
        waiting(groups.insert(g, (rank, groups[g].1))) == waiting(groups),
{
    let after = groups.insert(g, (rank, groups[g].1));
    lemma_waiting_split(groups, g);
    lemma_waiting_split(after, g);
    assert(after.remove(g) =~= groups.remove(g));
}

/// Forgetting a group without waiting tasks leaves the waiting tasks as they are.
pub proof fn lemma_waiting_removed(groups: Groups, g: u64)
    requires
        groups.dom().finite(),
        groups.contains_key(g),
        groups[g].1.len() == 0,
    ensures
        waiting(groups.remove(g)) == waiting(groups),
{
    lemma_waiting_split(groups, g);
    lemma_empty(groups[g].1);
    assert(waiting(groups.remove(g)) =~= waiting(groups));
}

proof fn lemma_increasing<K: Ord>(s: Seq<K>, i: int, j: int)
    requires
        vstd::laws_cmp::obeys_cmp::<K>(),
        vstd::std_specs::btree::increasing_seq(s),
        0 <= i < j < s.len(),
    ensures
        s[i].cmp_spec(&s[j]) is Less,
{
}

/// The least key of an ordered map.
fn first_key(map: &BTreeMap<(u128, u64), ()>) -> (first: Option<(u128, u64)>)
    ensures
        match first {
            None => forall|k: (u128, u64)| !map@.contains_key(k),
            Some(k) => map@.contains_key(k) && forall|o: (u128, u64)| #[trigger]
                map@.contains_key(o) ==> k.0 < o.0 || (k.0 == o.0 && k.1 <= o.1),
        },
{
    for k in it: map.keys()
        invariant
            it.index() == 0,
            vstd::std_specs::btree::increasing_seq(it.seq()),
            it.seq().unref().to_set() == map@.dom(),
    {
        proof {
            let keys = it.seq();
            assert(keys.unref()[0] == *k);
            assert forall|o: (u128, u64)| #[trigger] map@.contains_key(o) implies k.0 < o.0 || (k.0
                == o.0 && k.1 <= o.1) by {
                assert(keys.unref().to_set().contains(o));
                let j = choose|j: int| 0 <= j < keys.unref().len() && keys.unref()[j] == o;
                if j > 0 {
                    lemma_increasing(keys, 0, j);
                }
            }
            assert(keys.unref().to_set().contains(*k));
        }
        return Some(*k);
    }
    proof {
        assert forall|k: (u128, u64)| !map@.contains_key(k) by {
            assert(!map@.dom().contains(k));
        }
    }
    None
}

/// Known groups with their waiting tasks, and an index of the groups that have any.
pub struct RankedGroups {
    /// rank and identifier of the groups that have waiting tasks, and of no others
    runnable: BTreeMap<(u128, u64), ()>,
    /// every known group by its identifier
    groups: AHashMap<u64, Group>,
}

impl View for RankedGroups {
    type V = Groups;

    closed spec fn view(&self) -> Groups {
        groups_of(self.groups)
    }
}

impl RankedGroups {
    /// There are finitely many groups, and the index holds exactly those with waiting tasks.
    pub closed spec fn inv(self) -> bool {
        &&& self@.dom().finite()
        &&& forall|rank: u128, g: u64| #[trigger]
            self.runnable@.contains_key((rank, g)) <==> has_waiting(self@, g) && self@[g].0 == rank
    }

    /// Only finitely many groups are known at a time.
    pub broadcast proof fn lemma_finite(self)
        requires
            #[trigger] self.inv(),
        ensures
            self@.dom().finite(),
    {
    }

    /// Starts without groups.
    pub fn new() -> (r: Self)
        ensures
            r.inv(),
            r@ == Groups::empty(),
    {
        RankedGroups { runnable: BTreeMap::new(), groups: new_groups() }
    }

    /// Whether any group has a waiting task.
    pub fn is_runnable(&self) -> (r: bool)
        requires
            self.inv(),
        ensures
            r == exists|g: u64| has_waiting(self@, g),
    {
        let empty = self.runnable.is_empty();
        proof {
            if exists|g: u64| has_waiting(self@, g) {
                let g = choose|g: u64| has_waiting(self@, g);
                assert(self.runnable@.contains_key((self@[g].0, g)));
                assert(self.runnable@.dom().contains((self@[g].0, g)));
            } else {
                assert(self.runnable@.dom() =~= Set::empty()) by {
                    assert forall|k: (u128, u64)| !self.runnable@.dom().contains(k) by {
                        let (rank, g) = k;
                        assert(self.runnable@.contains_key((rank, g)) ==> has_waiting(self@, g));
                    }
                }
            }
        }
        !empty
    }

    /// The rank of a group, if it is known.
    pub fn rank(&self, gid: u64) -> (r: Option<u128>)
        ensures
            match r {
                Some(rank) => self@.contains_key(gid) && self@[gid].0 == rank,
                None => !self@.contains_key(gid),
            },
    {
        match find_group(&self.groups, gid) {
            Some(group) => Some(group.rank),
            None => None,
        }
    }

    /// Whether a group is known and has no waiting task.
    pub fn is_idle(&self, gid: u64) -> (r: bool)
        ensures
            r == (self@.contains_key(gid) && self@[gid].1.len() == 0),
    {
        match find_group(&self.groups, gid) {
            Some(group) => group.tasks.len() == 0,
            None => false,
        }
    }

    /// Appends a task to its group. A group that is not known yet starts with the given rank.
    pub fn push(&mut self, id: TaskId, gid: u64, rank: u128)
        requires
            old(self).inv(),
        ensures
            final(self).inv(),
            final(self)@ == joined(old(self)@, gid, rank, id),
    {
        match find_group_mut(&mut self.groups, gid) {
            None => {
                let mut tasks: VecDeque<TaskId> = VecDeque::new();
                tasks.push_back(id);
                assert(tasks@ =~= seq![id]);
                insert_group(&mut self.groups, gid, Group { rank, tasks });
                self.runnable.insert((rank, gid), ());
            },
            Some(group) => {
                let was_empty = group.tasks.len() == 0;
                let known_rank: u128 = group.rank;
                group.tasks.push_back(id);
                if was_empty {
                    self.runnable.insert((known_rank, gid), ());
                }
            },
        }
    }

    /// Takes the front task of the group to run.
    pub fn pop(&mut self) -> (r: Option<TaskId>)
        requires
            old(self).inv(),
        ensures
            final(self).inv(),
            pops(old(self)@, r, final(self)@),
    {
        let first = first_key(&self.runnable);
        match first {
            None => {
                proof {
                    assert forall|g: u64| !#[trigger] has_waiting(self@, g) by {
                        assert(!self.runnable@.contains_key((self@[g].0, g)));
                    }
                }
                None
            },
            Some((rank, gid)) => {
                proof {
                    assert(self.runnable@.contains_key((rank, gid)));
                    assert forall|h: u64| #[trigger] has_waiting(self@, h) implies self@[gid].0
                        < self@[h].0 || (self@[gid].0 == self@[h].0 && gid <= h) by {
                        assert(self.runnable@.contains_key((self@[h].0, h)));
                    }
                    assert(runs_first(self@, gid));
                }
                match find_group_mut(&mut self.groups, gid) {
                    None => None,
                    Some(group) => {
                        let id = group.tasks.pop_front();
                        if group.tasks.len() == 0 {
                            self.runnable.remove(&(rank, gid));
                        }
                        proof {
                            assert(runs_first(old(self)@, gid));
                        }
                        id
                    },
                }
            },
        }
    }

    /// Gives a known group a new rank; a group that is not known stays so.
    pub fn rerank(&mut self, gid: u64, rank: u128)
        requires
            old(self).inv(),
        ensures
            final(self).inv(),
            final(self)@ == (if old(self)@.contains_key(gid) {
                old(self)@.insert(gid, (rank, old(self)@[gid].1))
            } else {
                old(self)@
            }),
    {
        match find_group_mut(&mut self.groups, gid) {
            None => {},
            Some(group) => {
                let before: u128 = group.rank;
                let waits = group.tasks.len() > 0;
                group.rank = rank;
                if waits {
                    self.runnable.remove(&(before, gid));
                    self.runnable.insert((rank, gid), ());
                }
            },
        }
    }

    /// Forgets a group that has no waiting task.
    pub fn remove(&mut self, gid: u64)
        requires
            old(self).inv(),
            old(self)@.contains_key(gid),
            old(self)@[gid].1.len() == 0,
        ensures
            final(self).inv(),
            final(self)@ == old(self)@.remove(gid),
    {
        remove_group(&mut self.groups, gid);
    }
}

/// The groups after the tasks `ids` joined group `g` with the given ranks, one after the other.
pub open spec fn joined_all(groups: Groups, g: u64, tasks: Seq<(u128, TaskId)>) -> Groups
    decreases tasks.len(),
{
    if tasks.len() == 0 {
        groups
    } else {
        joined(joined_all(groups, g, tasks.drop_last()), g, tasks.last().0, tasks.last().1)
    }
}

/// Within a group tasks are first in, first out: those that join stand behind those that waited, in
/// the order in which they joined. A known group keeps its rank, a new one has the rank that its
/// first task brought, and every other group stays as it is.
pub proof fn tasks_queue_up_in_their_group(
    groups: Groups,
    g: u64,
    tasks: Seq<(u128, TaskId)>,
    other: u64,
)
    requires
        other != g,
    ensures
        ({
            let after = joined_all(groups, g, tasks);
            let ids = tasks.map_values(|task: (u128, TaskId)| task.1);
            &&& groups.contains_key(g) ==> after.contains_key(g) && after[g].1 == groups[g].1 + ids
                && after[g].0 == groups[g].0
            &&& !groups.contains_key(g) && tasks.len() > 0 ==> after.contains_key(g) && after[g].1
                == ids && after[g].0 == tasks[0].0
            &&& after.contains_key(other) == groups.contains_key(other)
            &&& groups.contains_key(other) ==> after[other] == groups[other]
        }),
    decreases tasks.len(),
{
    let ids = tasks.map_values(|task: (u128, TaskId)| task.1);
    if tasks.len() > 0 {
        let rest = tasks.drop_last();
        let rest_ids = rest.map_values(|task: (u128, TaskId)| task.1);
        tasks_queue_up_in_their_group(groups, g, rest, other);
        assert(rest_ids.push(tasks.last().1) =~= ids);
        if groups.contains_key(g) {
            assert((groups[g].1 + rest_ids).push(tasks.last().1) =~= groups[g].1 + ids);
        } else if rest.len() == 0 {
            assert(seq![tasks.last().1] =~= ids);
        } else {
            assert(rest[0] == tasks[0]);
        }
    } else if groups.contains_key(g) {
        assert(groups[g].1 + ids =~= groups[g].1);
    }
}

/// The task that leaves a group is the one that waited longest; those behind it move up, the group
/// keeps its rank, and every other group stays as it is.
pub proof fn first_task_of_a_group_leaves(groups: Groups, g: u64, other: u64)
    requires
        groups.contains_key(g),
        groups[g].1.len() > 0,
        other != g,
    ensures
        front_left(groups, g).contains_key(g),
        seq![groups[g].1[0]] + front_left(groups, g)[g].1 == groups[g].1,
        front_left(groups, g)[g].0 == groups[g].0,
        front_left(groups, g).contains_key(other) == groups.contains_key(other),
        groups.contains_key(other) ==> front_left(groups, g)[other] == groups[other],
{
    assert(seq![groups[g].1[0]] + front_left(groups, g)[g].1 =~= groups[g].1);
}

/// A pop hands out the task that waited longest in a group of least rank, where the least
/// identifier decides between equal ranks; it hands out nothing only if no group has a waiting
/// task.
pub proof fn least_rank_goes_first(
    groups: Groups,
    popped: Option<TaskId>,
    after: Groups,
    h: u64,
)
    requires
        pops(groups, popped, after),
    ensures
        popped is None ==> after == groups && !(groups.contains_key(h) && groups[h].1.len() > 0),
        popped is Some ==> exists|g: u64|
            {
                &&& #[trigger] groups.contains_key(g)
                &&& groups[g].1.len() > 0
                &&& groups[g].1[0] == popped->Some_0
                &&& after == front_left(groups, g)
                &&& groups.contains_key(h) && groups[h].1.len() > 0 ==> groups[g].0 < groups[h].0
                    || (groups[g].0 == groups[h].0 && g <= h)
            },
{
    if popped is None {
        assert(!has_waiting(groups, h));
    } else {
        let g = choose|g: u64| #[trigger]
            runs_first(groups, g) && popped->Some_0 == groups[g].1[0] && after == front_left(
                groups,
                g,
            );
        assert(groups.contains_key(g));
        if groups.contains_key(h) && groups[h].1.len() > 0 {
            assert(has_waiting(groups, h));
        }
    }
}

/// A group is the one to run exactly when it has a waiting task and no group with one comes before
/// it by rank, or by identifier where the ranks are equal.
pub proof fn group_to_run_is_of_least_rank(groups: Groups, g: u64)
    ensures
        runs_first(groups, g) ==> groups.contains_key(g) && groups[g].1.len() > 0,
        runs_first(groups, g) ==> forall|h: u64| #[trigger]
            groups.contains_key(h) && groups[h].1.len() > 0 ==> groups[g].0 < groups[h].0 || (
            groups[g].0 == groups[h].0 && g <= h),
        groups.contains_key(g) && groups[g].1.len() > 0 && (forall|h: u64| #[trigger]
            groups.contains_key(h) && groups[h].1.len() > 0 ==> groups[g].0 < groups[h].0 || (
            groups[g].0 == groups[h].0 && g <= h)) ==> runs_first(groups, g),
{
    if runs_first(groups, g) {
        assert forall|h: u64| #[trigger]
            groups.contains_key(h) && groups[h].1.len() > 0 implies groups[g].0 < groups[h].0 || (
        groups[g].0 == groups[h].0 && g <= h) by {
            assert(has_waiting(groups, h));
        }
    }
}

/// A group has a task waiting exactly when it is known and its line is not empty.
pub proof fn waiting_means_a_task_in_line(groups: Groups, g: u64)
    ensures
        has_waiting(groups, g) <==> groups.contains_key(g) && groups[g].1.len() > 0,
{
}

} // verus!
