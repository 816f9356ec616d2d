//! Least attained service, in power-of-two steps.
use crate::bucket::{
    bucket_is_reached, bucket_of, bucket_of_covers, bucket_of_monotone, micros_to_bucket,
    NUM_BUCKETS,
};
use crate::buckets::{
    all_empty, append, drop_front, front_item_leaves, is_lowest, BucketQueues,
};
use crate::count::counted;
use crate::mpsc::Mpsc;
use crate::pool::{lemma_pooled_empty, lemma_pooled_pop, lemma_pooled_push, pooled};
use crate::queue::TaskId;
use crate::scheduler::Scheduler;
use crate::table::{int_map_get, int_map_insert, int_map_remove, new_int_map};
use crate::time::{duration_since, lemma_last_run, span, total_time, Nanos};
use crate::turns::{following, is_next_in_turn, turn, turns_go_round};
use nohash_hasher::IntMap;
use vstd::arithmetic::power2::pow2;
use vstd::multiset::Multiset;
use vstd::prelude::*;

verus! {

broadcast use BucketQueues::lemma_len;

/// One pop in this many serves the queues in turn.
pub const FAIR_INTERVAL: u64 = 16;

/// What a `QLAS` holds.
#[verifier::ext_equal]
pub struct QlasState {
    /// the waiting tasks: `queues[b]` holds those whose group had a service time in bucket `b`
    /// when they were pushed, oldest first
    pub queues: Seq<Seq<TaskId>>,
    /// the service time of each group that was observed, in nanoseconds
    pub service: Map<u64, u128>,
    /// the queue with which the next turn starts
    pub head: int,
    /// the number of pops, modulo 2^64
    pub pops: u64,
}

impl QlasState {
    /// The service time of a group in nanoseconds; zero if it was not observed.
    pub open spec fn service_of(self, group: u64) -> u128 {
        if self.service.contains_key(group) {
            self.service[group]
        } else {
            0
        }
    }

    /// The queue that a task of `group` joins.
    pub open spec fn bucket(self, group: u64) -> int {
        bucket_of((self.service_of(group) / 1000) as nat)
    }

    /// The state after a task of `group` was pushed.
    pub open spec fn pushed(self, id: TaskId, group: u64) -> Self {
        QlasState { queues: append(self.queues, self.bucket(group), id), ..self }
    }

    /// The state after a task of `group` ran from `start` to `end`.
    pub open spec fn observed(self, group: u64, start: Nanos, end: Nanos) -> Self {
        QlasState {
            service: self.service.insert(
                group,
                (self.service_of(group) + span(start, end)) as u128,
            ),
            ..self
        }
    }

    /// The state after the service time of `group` was forgotten.
    pub open spec fn cleared(self, group: u64) -> Self {
        QlasState { service: self.service.remove(group), ..self }
    }

    /// The state after tasks of `group` ran as listed, one run after the other.
    pub open spec fn observed_all(self, group: u64, runs: Seq<(Nanos, Nanos)>) -> Self
        decreases runs.len(),
    {
        if runs.len() == 0 {
            self
        } else {
            self.observed_all(group, runs.drop_last()).observed(
                group,
                runs.last().0,
                runs.last().1,
            )
        }
    }

    /// The state after the tasks `ids` of `group` were pushed, one after the other.
    pub open spec fn pushed_all(self, ids: Seq<TaskId>, group: u64) -> Self
        decreases ids.len(),
    {
        if ids.len() == 0 {
            self
        } else {
            self.pushed_all(ids.drop_last(), group).pushed(ids.last(), group)
        }
    }

    /// The number of pops after the next one.
    pub open spec fn next_pops(self) -> u64 {
        counted(self.pops)
    }

    /// Whether the next pop serves the queues in turn.
    pub open spec fn is_fair(self) -> bool {
        self.next_pops() % FAIR_INTERVAL == 0
    }

    /// Whether the next pop takes the front task of queue `b`.
    pub open spec fn serves(self, b: int) -> bool {
        if self.is_fair() {
            is_next_in_turn(self.queues, self.head, b)
        } else {
            is_lowest(self.queues, b)
        }
    }

    /// The state is one that a `QLAS` can hold, and the next pop takes the front task of queue `b`.
    pub open spec fn has_shape_and_serves(self, b: int) -> bool {
        &&& self.queues.len() == NUM_BUCKETS
        &&& 0 <= self.head < NUM_BUCKETS
        &&& self.serves(b)
    }

    /// What a pop that serves queue `b` leaves.
    pub open spec fn rest(self, b: int) -> Self {
        QlasState {
            queues: drop_front(self.queues, b),
            head: if self.is_fair() {
                following(b)
            } else {
                self.head
            },
            pops: self.next_pops(),
            ..self
        }
    }
}

/// Quantized LAS scheduler.
///
/// Groups are told apart by the power of two of their service time in microseconds only. The tasks
/// of the least served groups run first, in the order in which they were pushed; one pop in
/// `FAIR_INTERVAL` takes the queues in turn, so that no task waits forever.
pub struct QLAS {
    queues: BucketQueues<TaskId>,
    service: IntMap<u64, u128>,
    head: usize,
    iter: u64,
}

impl View for QLAS {
    type V = QlasState;

    closed spec fn view(&self) -> QlasState {
        QlasState {
            queues: self.queues@,
            service: self.service@,
            head: self.head as int,
            pops: self.iter,
        }
    }
}

impl QLAS {
    /// Starts without tasks and without known service times.
    pub fn new() -> (r: Self)
        ensures
            r.inv(),
            all_empty(r@.queues),
            r@.service == Map::<u64, u128>::empty(),
            r@.head == 0,
            r@.pops == 0,
    {
        let r = QLAS { queues: BucketQueues::new(), service: new_int_map(1024), head: 0, iter: 0 };
        assert(r@.service =~= Map::empty());
        r
    }

    /// The service time of a group in nanoseconds, if it was observed.
    pub fn service_time(&self, group: u64) -> (r: Option<u128>)
        ensures
            match r {
                Some(time) => self@.service.contains_key(group) && self@.service[group] == time,
                None => !self@.service.contains_key(group),
            },
    {
        match int_map_get(&self.service, group) {
            Some(time) => Some(*time),
            None => None,
        }
    }

    /// There are `NUM_BUCKETS` queues, and turns start at one of them.
    pub proof fn lemma_shape(&self)
        requires
            self.inv(),
        ensures
            self@.queues.len() == NUM_BUCKETS,
            0 <= self@.head < NUM_BUCKETS,
    {
    }

    /// Takes the front task of the queue that is next in turn.
    fn fair_pop(&mut self) -> (r: Option<TaskId>)
        requires
            old(self).inv(),
            !all_empty(old(self)@.queues),
        ensures
            final(self).inv(),
            r matches Some(id) && exists|b: int| #[trigger]
                is_next_in_turn(old(self)@.queues, old(self)@.head, b) && id
                    == old(self)@.queues[b][0] && final(self)@ == (QlasState {
                    queues: drop_front(old(self)@.queues, b),
                    head: following(b),
                    ..old(self)@
                }),
    {
        let mut passed: usize = 0;
        while passed < NUM_BUCKETS
            invariant
                old(self).inv(),
                self.inv(),
                passed <= NUM_BUCKETS,
                self@.queues == old(self)@.queues,
                self@.service == old(self)@.service,
                self@.pops == old(self)@.pops,
                passed < NUM_BUCKETS ==> turn(old(self)@.head, self@.head) == passed,
                forall|i: int|
                    0 <= i < NUM_BUCKETS && turn(old(self)@.head, i) < passed ==> (
                    #[trigger] self@.queues[i]).len() == 0,
            decreases NUM_BUCKETS - passed,
        {
            let head: usize = self.head;
            self.head = (head + 1) % NUM_BUCKETS;
            assert(self@.head == following(head as int));
            let ghost queues = self@.queues;
            if let Some(id) = self.queues.pop(head) {
                assert(is_next_in_turn(queues, old(self)@.head, head as int));
                return Some(id);
            }
            proof {
                assert forall|i: int|
                    0 <= i < NUM_BUCKETS && turn(old(self)@.head, i) < passed + 1 implies (
                #[trigger] self@.queues[i]).len() == 0 by {
                    if turn(old(self)@.head, i) == passed {
                        assert(i == head);
                    }
                }
            }
            passed = passed + 1;
        }
        proof {
            assert(all_empty(old(self)@.queues)) by {
                assert forall|i: int| 0 <= i < old(self)@.queues.len() implies (
                #[trigger] old(self)@.queues[i]).len() == 0 by {
                    assert(turn(old(self)@.head, i) < NUM_BUCKETS);
                    assert(self@.queues[i].len() == 0);
                }
            }
        }
        None
    }
}

impl Scheduler for QLAS {
    closed spec fn inv(&self) -> bool {
        self.queues.inv() && self.head < NUM_BUCKETS
    }

    open spec fn queued(&self) -> Multiset<TaskId> {
        pooled(self@.queues)
    }

    /// The service time of the group stays within its type.
    open spec fn can_observe(&self, group: u64, start: Nanos, end: Nanos) -> bool {
        self@.service_of(group) + span(start, end) <= u128::MAX
    }

    /// Has no use for the channel: tasks come through `push`.
    fn init(&mut self, mpsc: Mpsc<TaskId>) -> (rest: Option<Mpsc<TaskId>>)
        ensures
            *final(self) == *old(self),
            rest == Some(mpsc),
    {
        Some(mpsc)
    }

    fn push(&mut self, id: TaskId, group: u64, at: Nanos)
        ensures
            final(self)@ == (QlasState {
                queues: append(old(self)@.queues, old(self)@.bucket(group), id),
                ..old(self)@
            }),
            final(self)@ == old(self)@.pushed(id, group),
    {
        let service: u128 = match int_map_get(&self.service, group) {
            Some(time) => *time,
            None => 0,
        };
        let b: usize = micros_to_bucket(service / 1000);
        proof {
            crate::bucket::bucket_of_covers((service / 1000) as nat);
            lemma_pooled_push(self@.queues, b as int, id);
        }
        self.queues.push(b, id);
    }

    fn pop(&mut self) -> (r: Option<TaskId>)
        ensures
            match r {
                None => all_empty(old(self)@.queues) && final(self)@ == old(self)@,
                Some(id) => exists|b: int| #[trigger]
                    old(self)@.serves(b) && id == old(self)@.queues[b][0] && final(self)@ == old(
                        self,
                    )@.rest(b),
            },
    {
        proof {
            lemma_pooled_empty(self@.queues);
        }
        if self.queues.is_empty() {
            return None;
        }
        self.iter = self.iter.wrapping_add(1);
        if self.iter % FAIR_INTERVAL == 0 {
            let ghost before = *self;
            let r = self.fair_pop();
            proof {
                let id = r->Some_0;
                let b = choose|b: int| #[trigger]
                    is_next_in_turn(before@.queues, before@.head, b) && id == before@.queues[b][0]
                        && self@ == (QlasState {
                        queues: drop_front(before@.queues, b),
                        head: following(b),
                        ..before@
                    });
                assert(old(self)@.serves(b));
                lemma_pooled_pop(old(self)@.queues, b);
            }
            return r;
        }
        match self.queues.lowest() {
            None => None,
            Some(b) => {
                let r = self.queues.pop(b);
                proof {
                    assert(old(self)@.serves(b as int));
                    lemma_pooled_pop(old(self)@.queues, b as int);
                }
                r
            },
        }
    }

    fn clear_task_state(&mut self, id: TaskId, group: u64)
        ensures
            *final(self) == *old(self),
    {
    }

    fn may_clear(&self, group: u64) -> (r: bool)
        ensures
            r,
    {
        true
    }

    fn clear_group_state(&mut self, group: u64)
        ensures
            final(self)@ == (QlasState { service: old(self)@.service.remove(group), ..old(self)@ }),
            final(self)@ == old(self)@.cleared(group),
    {
        int_map_remove(&mut self.service, group);
    }

    fn is_runnable(&self) -> (r: bool)
        ensures
            r == !all_empty(self@.queues),
    {
        proof {
            lemma_pooled_empty(self@.queues);
        }
        !self.queues.is_empty()
    }

    fn may_observe(&self, group: u64, start: Nanos, end: Nanos) -> (r: bool)
        ensures
            r <==> (self@.service.contains_key(group) && start <= end ==> self@.service[group] + (
            end - start) <= u128::MAX),
    {
        match self.service_time(group) {
            Some(time) => time <= u128::MAX - duration_since(end, start),
            None => true,
        }
    }

    fn observe(&mut self, id: TaskId, group: u64, start: Nanos, end: Nanos, ready: bool)
        ensures
            final(self)@ == (QlasState {
                service: old(self)@.service.insert(
                    group,
                    (old(self)@.service_of(group) + span(start, end)) as u128,
                ),
                ..old(self)@
            }),
            final(self)@ == old(self)@.observed(group, start, end),
    {
        let service: u128 = match int_map_get(&self.service, group) {
            Some(time) => *time,
            None => 0,
        };
        int_map_insert(&mut self.service, group, service + duration_since(end, start));
    }
}

/// How often `b` occurs in `served`.
pub open spec fn times_served(served: Seq<int>, b: int) -> nat
    decreases served.len(),
{
    if served.len() == 0 {
        0
    } else {
        times_served(served.drop_last(), b) + if served.last() == b {
            1nat
        } else {
            0
        }
    }
}

/// A run of pops: the state before each pop, and which queue it serves.
pub struct QlasRun {
    pub before: Seq<QlasState>,
    pub served: Seq<int>,
}

impl QlasRun {
    /// Each pop serves a queue as `pop` does. Between pops tasks may join any queue, and service
    /// times may change in any way.
    pub open spec fn valid(self) -> bool {
        &&& self.before.len() == self.served.len()
        &&& forall|k: int|
            #![trigger self.served[k]]
            0 <= k < self.served.len() ==> self.before[k].has_shape_and_serves(self.served[k])
        &&& forall|k: int|
            #![trigger self.served[k]]
            0 <= k < self.served.len() - 1 ==> {
                &&& self.before[k + 1].head == self.before[k].rest(self.served[k]).head
                &&& self.before[k + 1].pops == self.before[k].next_pops()
            }
    }

    /// Between pops nothing leaves queue `b`, and what joins it joins at the end.
    pub open spec fn keeps_order(self, b: int) -> bool {
        forall|k: int|
            #![trigger self.served[k]]
            0 <= k < self.served.len() - 1 ==> self.before[k].rest(
                self.served[k],
            ).queues[b].is_prefix_of(self.before[k + 1].queues[b])
    }

    /// The first `n` pops of the run.
    pub open spec fn first(self, n: int) -> Self {
        QlasRun { before: self.before.take(n), served: self.served.take(n) }
    }

    /// Queue `b` has something waiting at every pop.
    pub open spec fn keeps_waiting(self, b: int) -> bool {
        forall|k: int|
            0 <= k < self.before.len() ==> (#[trigger] self.before[k]).queues[b].len() > 0
    }
}

/// An upper bound of the pops that pass over queue `b` from `state` on.
spec fn pops_ahead(state: QlasState, b: int) -> int {
    turn(state.head, b) * FAIR_INTERVAL + (FAIR_INTERVAL - 1 - state.pops % FAIR_INTERVAL)
}

proof fn lemma_pops_ahead_bound(state: QlasState, b: int)
    requires
        0 <= b < NUM_BUCKETS,
        0 <= state.head < NUM_BUCKETS,
    ensures
        0 <= pops_ahead(state, b) < 512,
{
    assert(0 <= turn(state.head, b) < 32);
}

proof fn lemma_ordinary_pop(last: QlasState, now: QlasState, b: int)
    requires
        !last.is_fair(),
        now.head == last.head,
        now.pops == last.next_pops(),
    ensures
        pops_ahead(now, b) == pops_ahead(last, b) - 1,
{
    assert(now.pops % 16 == last.pops % 16 + 1);
}

proof fn lemma_fair_pop(last: QlasState, now: QlasState, served: int, b: int)
    requires
        last.is_fair(),
        last.queues.len() == NUM_BUCKETS,
        0 <= last.head < NUM_BUCKETS,
        is_next_in_turn(last.queues, last.head, served),
        0 <= b < NUM_BUCKETS,
        last.queues[b].len() > 0,
        served != b,
        now.head == following(served),
        now.pops == last.next_pops(),
    ensures
        pops_ahead(now, b) < pops_ahead(last, b),
{
    assert(last.pops % 16 == 15 && now.pops % 16 == 0);
    assert(turn(last.head, served) < turn(last.head, b));
    assert(turn(now.head, b) <= turn(last.head, b) - 1);
}

proof fn lemma_pops_ahead(run: QlasRun, b: int, k: int)
    requires
        run.valid(),
        run.keeps_waiting(b),
        0 <= b < NUM_BUCKETS,
        0 <= k < run.served.len(),
    ensures
        pops_ahead(run.before[k], b) + k < 512 * (1 + times_served(run.served.take(k), b)),
    decreases k,
{
    let now = run.before[k];
    assert(now.serves(run.served[k]));
    lemma_pops_ahead_bound(now, b);
    if k > 0 {
        lemma_pops_ahead(run, b, k - 1);
        let last = run.before[k - 1];
        let served = run.served[k - 1];
        assert(run.served.take(k).drop_last() =~= run.served.take(k - 1));
        assert(run.served.take(k).last() == served);
        assert(last.serves(served));
        assert(last.queues[b].len() > 0);
        if served == b {
            lemma_pops_ahead_bound(last, b);
        } else if last.is_fair() {
            lemma_fair_pop(last, now, served, b);
        } else {
            lemma_ordinary_pop(last, now, b);
        }
    }
}

/// No queue starves: among the pops at which a queue has something waiting, it is served at least
/// once in every `NUM_BUCKETS * FAIR_INTERVAL`, whatever joins the queues in the meantime.
pub proof fn waiting_queue_is_served(run: QlasRun, b: int)
    requires
        run.valid(),
        run.keeps_waiting(b),
        0 <= b < NUM_BUCKETS,
    ensures
        run.served.len() < NUM_BUCKETS * FAIR_INTERVAL * (1 + times_served(run.served, b)),
        run.served.len() < 512 * (1 + times_served(run.served, b)),
{
    let n = run.served.len() as int;
    let times = times_served(run.served, b);
    assert(NUM_BUCKETS * FAIR_INTERVAL == 512);
    assert(NUM_BUCKETS * FAIR_INTERVAL * (1 + times) == 512 * (1 + times));
    if n > 0 {
        lemma_pops_ahead(run, b, n - 1);
        assert(run.served.take(n - 1) =~= run.served.drop_last());
        let last = run.before[n - 1];
        let served = run.served[n - 1];
        assert(last.serves(served));
        assert(last.queues[b].len() > 0);
        lemma_pops_ahead_bound(last, b);
        if served != b {
            let next = last.rest(served);
            lemma_pops_ahead_bound(next, b);
            if last.is_fair() {
                lemma_fair_pop(last, next, served, b);
            } else {
                lemma_ordinary_pop(last, next, b);
            }
        }
    }
}

proof fn lemma_times_served_monotone(served: Seq<int>, b: int, j: int, k: int)
    requires
        0 <= j <= k <= served.len(),
    ensures
        times_served(served.take(j), b) <= times_served(served.take(k), b),
    decreases k - j,
{
    if j < k {
        lemma_times_served_monotone(served, b, j, k - 1);
        assert(served.take(k).drop_last() =~= served.take(k - 1));
    }
}

proof fn lemma_serve_exists(served: Seq<int>, b: int, m: nat, n: int)
    requires
        0 <= n <= served.len(),
        times_served(served.take(n), b) > m,
    ensures
        exists|k: int|
            0 <= k < n && #[trigger] served[k] == b && times_served(served.take(k), b) == m,
    decreases n,
{
    if n > 0 {
        assert(served.take(n).drop_last() =~= served.take(n - 1));
        if times_served(served.take(n - 1), b) > m {
            lemma_serve_exists(served, b, m, n - 1);
        } else {
            assert(served[n - 1] == b);
        }
    }
}

proof fn lemma_task_moves_up(run: QlasRun, b: int, m: int, k: int)
    requires
        run.valid(),
        run.keeps_order(b),
        0 <= b < NUM_BUCKETS,
        0 <= k < run.served.len(),
        0 <= m < run.before[0].queues[b].len(),
        times_served(run.served.take(k), b) <= m,
    ensures
        ({
            let ahead = m - times_served(run.served.take(k), b);
            &&& ahead < run.before[k].queues[b].len()
            &&& run.before[k].queues[b][ahead] == run.before[0].queues[b][m]
        }),
    decreases k,
{
    if k > 0 {
        lemma_times_served_monotone(run.served, b, k - 1, k);
        lemma_task_moves_up(run, b, m, k - 1);
        let last = run.before[k - 1];
        let served = run.served[k - 1];
        assert(run.served.take(k).drop_last() =~= run.served.take(k - 1));
        assert(run.served.take(k).last() == served);
        assert(last.serves(served));
        let left = last.rest(served).queues[b];
        let ahead = m - times_served(run.served.take(k), b);
        assert(left.is_prefix_of(run.before[k].queues[b]));
        assert(left[ahead] == run.before[0].queues[b][m]);
        assert(run.before[k].queues[b].subrange(0, left.len() as int)[ahead] == left[ahead]);
    }
}

proof fn lemma_first_valid(run: QlasRun, n: int)
    requires
        run.valid(),
        0 <= n <= run.served.len(),
    ensures
        run.first(n).valid(),
{
    let first = run.first(n);
    assert forall|k: int|
        #![trigger first.served[k]]
        0 <= k < first.served.len() implies first.before[k].has_shape_and_serves(
        first.served[k],
    ) by {
        assert(first.served[k] == run.served[k]);
        assert(first.before[k] == run.before[k]);
    }
    assert forall|k: int|
        #![trigger first.served[k]]
        0 <= k < first.served.len() - 1 implies first.before[k + 1].head == first.before[k].rest(
        first.served[k],
    ).head && first.before[k + 1].pops == first.before[k].next_pops() by {
        assert(first.served[k] == run.served[k]);
        assert(first.before[k] == run.before[k]);
        assert(first.before[k + 1] == run.before[k + 1]);
    }
}

/// No task waits forever: a task with `m` tasks ahead of it in its queue is taken within
/// `NUM_BUCKETS * FAIR_INTERVAL * (m + 1)` pops. The pop that takes it serves its queue after `m`
/// others have, and finds it at the front.
pub proof fn waiting_task_is_taken(run: QlasRun, b: int, m: int)
    requires
        run.valid(),
        run.keeps_order(b),
        0 <= b < NUM_BUCKETS,
        0 <= m < run.before[0].queues[b].len(),
        run.served.len() >= NUM_BUCKETS * FAIR_INTERVAL * (m + 1),
    ensures
        NUM_BUCKETS * FAIR_INTERVAL == 512,
        exists|k: int|
            0 <= k < NUM_BUCKETS * FAIR_INTERVAL * (m + 1) && #[trigger] run.served[k] == b
                && times_served(run.served.take(k), b) == m && run.before[k].queues[b][0]
                == run.before[0].queues[b][m],
{
    let n = 512 * (m + 1);
    assert(NUM_BUCKETS * FAIR_INTERVAL == 512);
    assert(NUM_BUCKETS * FAIR_INTERVAL * (m + 1) == n);
    let first = run.first(n);
    if times_served(first.served, b) <= m {
        assert forall|k: int| 0 <= k < first.before.len() implies (
        #[trigger] first.before[k]).queues[b].len() > 0 by {
            lemma_times_served_monotone(run.served, b, k, n);
            lemma_task_moves_up(run, b, m, k);
        }
        lemma_first_valid(run, n);
        waiting_queue_is_served(first, b);
        let times = times_served(first.served, b);
        assert(NUM_BUCKETS * FAIR_INTERVAL * (1 + times) == 512 * (1 + times));
    }
    lemma_serve_exists(run.served, b, m as nat, n);
    let k = choose|k: int|
        0 <= k < n && #[trigger] run.served[k] == b && times_served(run.served.take(k), b) == m;
    lemma_task_moves_up(run, b, m, k);
}

/// Service adds up: after any runs of a group, its service time is what it was before and what the
/// runs took together, that of every other group is what it was, and nothing else changes.
pub proof fn service_adds_up(state: QlasState, group: u64, other: u64, runs: Seq<(Nanos, Nanos)>)
    requires
        state.service_of(group) + total_time(runs) <= u128::MAX,
        other != group,
    ensures
        state.observed_all(group, runs).service_of(group) == state.service_of(group) + total_time(
            runs,
        ),
        state.observed_all(group, runs).service_of(other) == state.service_of(other),
        runs.len() > 0 ==> state.observed_all(group, runs).service.contains_key(group),
        state.observed_all(group, runs).service.contains_key(other)
            == state.service.contains_key(other),
        state.observed_all(group, runs).queues == state.queues,
        state.observed_all(group, runs).head == state.head,
        state.observed_all(group, runs).pops == state.pops,
    decreases runs.len(),
{
    if runs.len() > 0 {
        lemma_last_run(runs);
        service_adds_up(state, group, other, runs.drop_last());
    }
}

/// The service time of a group is what is recorded of it, and zero without a record; clearing a
/// group takes its record away and leaves the others.
pub proof fn service_is_what_was_recorded(state: QlasState, group: u64, other: u64)
    requires
        other != group,
    ensures
        state.service.contains_key(group) ==> state.service_of(group) == state.service[group],
        !state.service.contains_key(group) ==> state.service_of(group) == 0,
        !state.cleared(group).service.contains_key(group),
        state.cleared(group).service_of(group) == 0,
        state.cleared(group).service_of(other) == state.service_of(other),
        state.cleared(group).service.contains_key(other) == state.service.contains_key(other),
        state.cleared(group).queues == state.queues,
        state.cleared(group).head == state.head,
        state.cleared(group).pops == state.pops,
{
}

/// The queue of a group covers the whole microseconds that the group was served: `2^b` or more
/// above queue 0, and less than `2^(b+1)` below queue 31.
pub proof fn queue_covers_the_service(state: QlasState, group: u64)
    ensures
        0 <= state.bucket(group) <= 31,
        state.bucket(group) > 0 ==> pow2(state.bucket(group) as nat) <= state.service_of(group)
            / 1000,
        state.bucket(group) < 31 ==> state.service_of(group) / 1000 < pow2(
            (state.bucket(group) + 1) as nat,
        ),
{
    bucket_of_covers((state.service_of(group) / 1000) as nat);
}

/// A group that was served more never joins a lower queue.
pub proof fn more_service_is_no_lower_queue(state: QlasState, g: u64, h: u64)
    requires
        state.service_of(g) <= state.service_of(h),
    ensures
        state.bucket(g) <= state.bucket(h),
{
    bucket_of_monotone(
        (state.service_of(g) / 1000) as nat,
        (state.service_of(h) / 1000) as nat,
    );
}

/// Pushed tasks stand in their group's queue behind those that were there, in the order in which
/// they were pushed, and nothing else changes.
pub proof fn pushed_tasks_queue_up(state: QlasState, ids: Seq<TaskId>, group: u64)
    requires
        state.queues.len() == 32,
    ensures
        state.pushed_all(ids, group).queues.len() == 32,
        state.pushed_all(ids, group).queues[state.bucket(group)]
            == state.queues[state.bucket(group)] + ids,
        forall|c: int|
            0 <= c < 32 && c != state.bucket(group) ==> #[trigger] state.pushed_all(
                ids,
                group,
            ).queues[c] == state.queues[c],
        state.pushed_all(ids, group).service == state.service,
        state.pushed_all(ids, group).head == state.head,
        state.pushed_all(ids, group).pops == state.pops,
    decreases ids.len(),
{
    let b = state.bucket(group);
    bucket_of_covers((state.service_of(group) / 1000) as nat);
    if ids.len() > 0 {
        pushed_tasks_queue_up(state, ids.drop_last(), group);
        assert((state.queues[b] + ids.drop_last()).push(ids.last()) =~= state.queues[b] + ids);
    } else {
        assert(state.queues[b] + ids =~= state.queues[b]);
    }
}

/// Every 16th pop takes the queues in turn: it serves the first one that holds something, upwards
/// and round from where the turn starts, and the next turn starts behind it. Every other pop serves
/// the lowest queue that holds something and leaves the turn alone.
pub proof fn pops_serve_the_least_served(state: QlasState, b: int)
    requires
        state.queues.len() == 32,
        0 <= state.head < 32,
        state.serves(b),
    ensures
        0 <= b < 32,
        state.queues[b].len() > 0,
        (state.pops + 1) % 16 != 0 ==> {
            &&& forall|c: int| 0 <= c < b ==> (#[trigger] state.queues[c]).len() == 0
            &&& state.rest(b).head == state.head
        },
        (state.pops + 1) % 16 == 0 ==> {
            &&& exists|n: int|
                0 <= n < 32 && b == #[trigger] ((state.head + n) % 32) && forall|i: int|
                    0 <= i < n ==> state.queues[#[trigger] ((state.head + i) % 32)].len() == 0
            &&& state.rest(b).head == (b + 1) % 32
        },
{
    assert(state.next_pops() as int % 16 == (state.pops + 1) % 16);
    if state.is_fair() {
        turns_go_round(state.queues, state.head, b);
    }
}

/// A pop takes the front task of the queue that it serves and counts; nothing else but the turn
/// changes.
pub proof fn pop_takes_the_front_task(state: QlasState, b: int)
    requires
        0 <= b < state.queues.len(),
        state.queues[b].len() > 0,
    ensures
        seq![state.queues[b][0]] + state.rest(b).queues[b] == state.queues[b],
        state.rest(b).queues.len() == state.queues.len(),
        forall|c: int|
            0 <= c < state.queues.len() && c != b ==> #[trigger] state.rest(b).queues[c]
                == state.queues[c],
        state.rest(b).service == state.service,
        state.rest(b).pops as int == (state.pops + 1) % 0x1_0000_0000_0000_0000,
{
    front_item_leaves(state.queues, b);
}

/// Of two groups on either side of a power of two of microseconds, the one that was served less
/// runs first, whichever was pushed first, unless the queues have their turn.
pub proof fn less_served_group_runs_first(
    state: QlasState,
    g: u64,
    h: u64,
    first: TaskId,
    second: TaskId,
    j: int,
    b: int,
)
    requires
        state.queues.len() == 32,
        forall|c: int| 0 <= c < 32 ==> (#[trigger] state.queues[c]).len() == 0,
        (state.pops + 1) % 16 != 0,
        0 < j < 32,
        state.service_of(g) / 1000 < pow2(j as nat) <= state.service_of(h) / 1000,
        state.pushed(first, g).pushed(second, h).serves(b) || state.pushed(second, h).pushed(
            first,
            g,
        ).serves(b),
    ensures
        state.pushed(first, g).pushed(second, h).queues[b][0] == first,
        state.pushed(second, h).pushed(first, g).queues[b][0] == first,
{
    bucket_is_reached((state.service_of(g) / 1000) as nat, j);
    bucket_is_reached((state.service_of(h) / 1000) as nat, j);
    bucket_of_covers((state.service_of(g) / 1000) as nat);
    bucket_of_covers((state.service_of(h) / 1000) as nat);
    let one = state.pushed(first, g).pushed(second, h);
    let two = state.pushed(second, h).pushed(first, g);
    let c = state.bucket(g);
    assert(c < state.bucket(h));
    assert(one.queues[c].len() > 0 && two.queues[c].len() > 0);
    assert(state.queues[c].len() == 0);
    assert(state.next_pops() as int % 16 == (state.pops + 1) % 16);
    if b < c {
        assert(state.queues[b].len() == 0);
    }
    assert(b == c);
}

} // verus!
