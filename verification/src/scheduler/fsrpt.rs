//! Shortest remaining processing time first, with a fast lane for tasks that waited too long.
//!
//! The estimates that steer this scheduler (how much of a group's work remains, how long a task
//! will wait, which slowdown is fair) are kept by its driver. The scheduler holds the queues and
//! the measured times, hands the driver what it estimates from, and takes its decisions as
//! arguments.
use crate::bucket::{
    bucket_is_reached, bucket_of, bucket_of_covers, bucket_of_monotone, micros_to_bucket,
    NUM_BUCKETS,
};
use crate::buckets::{
    all_empty, append, drop_front, front_item_leaves, is_lowest, lowest_is_unique, BucketQueues,
};
use crate::count::counted;
use crate::pool::{
    lemma_empty, lemma_pooled_empty, lemma_pooled_pop, lemma_pooled_push, lemma_pop_front,
    lemma_push_back, pooled,
};
use crate::queue::TaskId;
use crate::table::{int_map_get, int_map_insert, int_map_remove, new_int_map};
use crate::time::{duration_since, lemma_last_run, span, total_time, Nanos};
use nohash_hasher::IntMap;
use std::collections::VecDeque;
use vstd::arithmetic::power2::{
    lemma2_to64, lemma_pow2_strictly_increases, lemma_pow2_unfold, pow2,
};
use vstd::multiset::Multiset;
use vstd::prelude::*;

verus! {

broadcast use BucketQueues::lemma_len;

/// One completion in this many is sampled.
pub const SAMPLE_RATE: u64 = 4;

/// The slowdown bound is adjusted after this many completions.
pub const ADJUST_INTERVAL: u64 = 64;

/// A queued task: the task, its group, and when it was queued.
pub type Entry = (TaskId, u64, Nanos);

/// The tasks of a row of queues, without groups and times.
pub open spec fn task_rows(rows: Seq<Seq<Entry>>) -> Seq<Seq<TaskId>> {
    rows.map_values(|row: Seq<Entry>| row.map_values(|entry: Entry| entry.0))
}

/// Inner SRPT queues bucketed by expected remaining time.
pub struct SRPTQueues {
    rows: BucketQueues<Entry>,
}

impl View for SRPTQueues {
    type V = Seq<Seq<Entry>>;

    /// `self@[b]` holds the tasks with an expected remaining time in bucket `b`, oldest first.
    closed spec fn view(&self) -> Seq<Seq<Entry>> {
        self.rows@
    }
}

impl SRPTQueues {
    /// The queues are in good order.
    pub closed spec fn inv(self) -> bool {
        self.rows.inv()
    }

    /// There are `NUM_BUCKETS` queues.
    pub broadcast proof fn lemma_shape(self)
        requires
            #[trigger] self.inv(),
        ensures
            self@.len() == NUM_BUCKETS,
    {
    }

    /// Starts without tasks.
    pub fn new() -> (r: Self)
        ensures
            r.inv(),
            all_empty(r@),
    {
        SRPTQueues { rows: BucketQueues::new() }
    }

    /// Appends a task to the queue of its bucket.
    pub fn push(&mut self, id: TaskId, gid: u64, enqueue_time: Nanos, bucket: usize)
        requires
            old(self).inv(),
            bucket < NUM_BUCKETS,
        ensures
            final(self).inv(),
            final(self)@ == append(old(self)@, bucket as int, (id, gid, enqueue_time)),
    {
        self.rows.push(bucket, (id, gid, enqueue_time));
    }

    /// Takes the oldest task of the lowest non-empty bucket, and tells which bucket that is.
    pub fn pop(&mut self) -> (r: Option<(TaskId, u64, Nanos, usize)>)
        requires
            old(self).inv(),
        ensures
            final(self).inv(),
            match r {
                None => all_empty(old(self)@) && final(self)@ == old(self)@,
                Some((id, gid, enqueue_time, bucket)) => {
                    &&& is_lowest(old(self)@, bucket as int)
                    &&& (id, gid, enqueue_time) == old(self)@[bucket as int][0]
                    &&& final(self)@ == drop_front(old(self)@, bucket as int)
                },
            },
    {
        match self.rows.lowest() {
            None => None,
            Some(bucket) => match self.rows.pop(bucket) {
                None => None,
                Some((id, gid, enqueue_time)) => Some((id, gid, enqueue_time, bucket)),
            },
        }
    }

    /// The task that `pop` would take.
    pub fn front(&self) -> (r: Option<Entry>)
        requires
            self.inv(),
        ensures
            match r {
                None => all_empty(self@),
                Some(entry) => exists|b: int| #[trigger]
                    is_lowest(self@, b) && entry == self@[b][0],
            },
    {
        match self.rows.lowest() {
            None => None,
            Some(bucket) => match self.rows.front(bucket) {
                None => None,
                Some(entry) => {
                    assert(is_lowest(self@, bucket as int));
                    Some(*entry)
                },
            },
        }
    }

    /// Whether every queue is empty.
    pub fn is_empty(&self) -> (r: bool)
        requires
            self.inv(),
        ensures
            r == all_empty(self@),
    {
        self.rows.is_empty()
    }
}

/// A task that was popped.
pub struct Popped {
    /// the task
    pub id: TaskId,
    /// for a task from the normal queues: the bucket it was in, and how many nanoseconds it waited
    pub waited: Option<(usize, u128)>,
}

/// What is to be done after a group completed.
pub struct Completed {
    /// if this completion is sampled: the service time, which is not zero, and the waiting time of
    /// the group, in nanoseconds
    pub sample: Option<(u128, u128)>,
    /// if this completion is sampled: what remained of the service time, in nanoseconds, at the
    /// entry into each service bucket that the group passed through
    pub remaining: Vec<u128>,
    /// whether the slowdown bound is to be adjusted
    pub adjust: bool,
}

/// What a `FairSRPT` holds.
#[verifier::ext_equal]
pub struct FairState {
    /// tasks predicted to be slowed down too much, oldest first
    pub urgent: Seq<TaskId>,
    /// the other tasks, by the bucket of their expected remaining time, oldest first
    pub normal: Seq<Seq<Entry>>,
    /// the service time and the waiting time of each known group, in nanoseconds
    pub service: Map<u64, (u128, u128)>,
    /// the number of completed groups, modulo 2^64
    pub completions: u64,
    /// the number of tasks that were pushed as urgent, modulo 2^64
    pub urgent_pushes: u64,
    /// the number of tasks that were pushed as normal, modulo 2^64
    pub normal_pushes: u64,
}

impl FairState {
    /// The service time and the waiting time of a group; zero if it is not known.
    pub open spec fn timing(self, gid: u64) -> (u128, u128) {
        if self.service.contains_key(gid) {
            self.service[gid]
        } else {
            (0, 0)
        }
    }

    /// Every waiting task.
    pub open spec fn queued(self) -> Multiset<TaskId> {
        self.urgent.to_multiset().add(pooled(task_rows(self.normal)))
    }

    /// The state after a task was pushed.
    pub open spec fn push(
        self,
        id: TaskId,
        gid: u64,
        at: Nanos,
        e_remaining: u128,
        urgent: bool,
    ) -> Self {
        if urgent {
            FairState {
                urgent: self.urgent.push(id),
                urgent_pushes: counted(self.urgent_pushes),
                ..self
            }
        } else {
            FairState {
                normal: append(
                    self.normal,
                    bucket_of((e_remaining / 1000) as nat),
                    (id, gid, at),
                ),
                normal_pushes: counted(self.normal_pushes),
                ..self
            }
        }
    }

    /// The state after the tasks `ids` of a group were pushed at the given times, one after the
    /// other, all with the same prediction.
    pub open spec fn push_all(
        self,
        tasks: Seq<(TaskId, Nanos)>,
        gid: u64,
        e_remaining: u128,
        urgent: bool,
    ) -> Self
        decreases tasks.len(),
    {
        if tasks.len() == 0 {
            self
        } else {
            self.push_all(tasks.drop_last(), gid, e_remaining, urgent).push(
                tasks.last().0,
                gid,
                tasks.last().1,
                e_remaining,
                urgent,
            )
        }
    }

    /// The state after a task of a group ran from `start` to `end`.
    pub open spec fn observed(self, gid: u64, start: Nanos, end: Nanos) -> Self {
        FairState {
            service: self.service.insert(
                gid,
                ((self.timing(gid).0 + span(start, end)) as u128, self.timing(gid).1),
            ),
            ..self
        }
    }

    /// The state after tasks of a group ran as listed, one run after the other.
    pub open spec fn observed_all(self, gid: u64, runs: Seq<(Nanos, Nanos)>) -> Self
        decreases runs.len(),
    {
        if runs.len() == 0 {
            self
        } else {
            self.observed_all(gid, runs.drop_last()).observed(gid, runs.last().0, runs.last().1)
        }
    }

    /// The state after a group has completed and was forgotten.
    pub open spec fn cleared(self, gid: u64) -> Self {
        FairState {
            service: self.service.remove(gid),
            completions: counted(self.completions),
            ..self
        }
    }

    /// Whether a pop takes task `id`: out of the urgent ones, or out of normal queue `b`.
    pub open spec fn takes(self, id: TaskId, from: Option<usize>) -> bool {
        match from {
            None => self.urgent.len() > 0 && id == self.urgent[0],
            Some(b) => {
                &&& self.urgent.len() == 0
                &&& is_lowest(self.normal, b as int)
                &&& id == self.normal[b as int][0].0
            },
        }
    }

    /// Whether the next completion is sampled, if it is that of group `gid`.
    pub open spec fn samples(self, gid: u64) -> bool {
        counted(self.completions) % SAMPLE_RATE == 0 && self.timing(gid).0 > 0
    }

    /// Whether the slowdown bound is to be adjusted after the next completion.
    pub open spec fn adjusts(self) -> bool {
        counted(self.completions) % ADJUST_INTERVAL == 0
    }

    /// The state after the oldest urgent task was popped.
    pub open spec fn pop_urgent(self) -> Self {
        FairState { urgent: self.urgent.skip(1), ..self }
    }

    /// The state after the oldest task of bucket `b` was popped at `now`: its group's waiting time
    /// grows by the time the task was queued.
    pub open spec fn pop_normal(self, b: int, now: Nanos) -> Self {
        let (id, gid, at) = self.normal[b][0];
        let (s, w) = self.timing(gid);
        FairState {
            normal: drop_front(self.normal, b),
            service: self.service.insert(gid, (s, (w + span(at, now)) as u128)),
            ..self
        }
    }

    /// Whether the waiting time that a pop at `now` records stays within its type.
    pub open spec fn can_pop(self, now: Nanos) -> bool {
        self.urgent.len() == 0 ==> forall|b: int| #[trigger]
            is_lowest(self.normal, b) ==> self.timing(self.normal[b][0].1).1 + span(
                self.normal[b][0].2,
                now,
            ) <= u128::MAX
    }
}

/// The bucket of a service time in nanoseconds.
///
/// Up to ten microseconds, services are told apart by the microsecond they have reached, where
/// exactly one and exactly ten microseconds still count as the microsecond before. Longer services
/// are told apart by the power of two of their microseconds, from bucket 10 upwards.
pub open spec fn service_bucket(service_ns: nat) -> int {
    if service_ns <= 1000 {
        0
    } else if service_ns < 10_000 {
        (service_ns / 1000) as int
    } else if service_ns == 10_000 {
        9
    } else if bucket_of(service_ns / 1000) > 10 {
        bucket_of(service_ns / 1000)
    } else {
        10
    }
}

/// A longer service never lies in a lower bucket, and there are `NUM_BUCKETS` of them.
pub proof fn service_bucket_monotone(short: nat, long: nat)
    requires
        short <= long,
    ensures
        0 <= service_bucket(short) <= service_bucket(long) < NUM_BUCKETS,
{
    bucket_of_covers(short / 1000);
    bucket_of_covers(long / 1000);
    bucket_of_monotone(short / 1000, long / 1000);
}

/// The service time in nanoseconds with which a group enters service bucket `b`. It enters bucket 0
/// with its first nanosecond.
pub open spec fn bucket_entry(b: int) -> nat {
    if b <= 0 {
        1
    } else if b == 1 {
        1001
    } else if b <= 9 {
        (b * 1000) as nat
    } else if b == 10 {
        10_001
    } else {
        pow2(b as nat) * 1000
    }
}

/// A service has reached a bucket exactly when it is at least as long as at the bucket's entry: the
/// entry is the least service time in the bucket.
pub proof fn bucket_is_entered(service_ns: nat, b: int)
    requires
        service_ns > 0,
        0 <= b < NUM_BUCKETS,
    ensures
        service_bucket(service_ns) >= b <==> bucket_entry(b) <= service_ns,
{
    service_bucket_monotone(service_ns, service_ns);
    if b > 10 {
        lemma2_to64();
        if b > 11 {
            lemma_pow2_strictly_increases(11, b as nat);
        }
        bucket_is_reached(service_ns / 1000, b);
        let p = pow2(b as nat);
        assert(p <= service_ns / 1000 <==> p * 1000 <= service_ns);
    }
}

/// Whether `samples` lists, for each service bucket that a group with the given service time passed
/// through, what then remained: `samples[b]` is what remained of the service when the group entered
/// bucket `b`. A group without service has entered no bucket.
pub open spec fn remaining_in_buckets(service_ns: nat, samples: Seq<u128>) -> bool {
    &&& samples.len() == (if service_ns == 0 {
        0
    } else {
        service_bucket(service_ns) + 1
    })
    &&& forall|b: int|
        0 <= b < samples.len() ==> #[trigger] samples[b] == service_ns - bucket_entry(b)
}

/// Lists what remained of a service time at the entry into each service bucket that was passed
/// through.
pub fn service_samples(service_ns: u128) -> (samples: Vec<u128>)
    ensures
        remaining_in_buckets(service_ns as nat, samples@),
{
    let mut samples: Vec<u128> = Vec::new();
    let mut power: u128 = 1;
    let mut bucket: usize = 0;
    proof {
        lemma2_to64();
        if service_ns > 0 {
            bucket_is_entered(service_ns as nat, 0);
        }
    }
    while bucket < NUM_BUCKETS
        invariant
            bucket <= NUM_BUCKETS,
            samples@.len() == bucket,
            power == pow2(bucket as nat),
            power <= 0x1_0000_0000,
            bucket > 0 ==> service_ns > 0 && service_bucket(service_ns as nat) >= bucket - 1,
            forall|b: int|
                0 <= b < bucket ==> #[trigger] samples@[b] == service_ns - bucket_entry(b),
        decreases NUM_BUCKETS - bucket,
    {
        let entry: u128 = if bucket == 0 {
            1
        } else if bucket == 1 {
            1001
        } else if bucket <= 9 {
            bucket as u128 * 1000
        } else if bucket == 10 {
            10_001
        } else {
            power * 1000
        };
        assert(entry == bucket_entry(bucket as int));
        proof {
            if service_ns > 0 {
                bucket_is_entered(service_ns as nat, bucket as int);
            }
        }
        if entry > service_ns {
            return samples;
        }
        samples.push(service_ns - entry);
        proof {
            lemma2_to64();
            lemma_pow2_unfold((bucket + 1) as nat);
            if bucket < 31 {
                lemma_pow2_strictly_increases((bucket + 1) as nat, 32);
            }
        }
        power = power * 2;
        bucket = bucket + 1;
    }
    proof {
        service_bucket_monotone(service_ns as nat, service_ns as nat);
    }
    samples
}

/// Fair SRPT scheduler.
///
/// Tasks that are predicted to be slowed down too much run first, in the order in which they were
/// pushed. The others run in the order of their expected remaining time, in power-of-two steps.
pub struct FairSRPT {
    urgent: VecDeque<TaskId>,
    normal: SRPTQueues,
    service: IntMap<u64, (u128, u128)>,
    completion_count: u64,
    urgent_enqueue_count: u64,
    normal_enqueue_count: u64,
}

impl View for FairSRPT {
    type V = FairState;

    closed spec fn view(&self) -> FairState {
        FairState {
            urgent: self.urgent@,
            normal: self.normal@,
            service: self.service@,
            completions: self.completion_count,
            urgent_pushes: self.urgent_enqueue_count,
            normal_pushes: self.normal_enqueue_count,
        }
    }
}

proof fn lemma_task_rows_append(rows: Seq<Seq<Entry>>, b: int, entry: Entry)
    requires
        0 <= b < rows.len(),
    ensures
        task_rows(append(rows, b, entry)) == append(task_rows(rows), b, entry.0),
{
    assert(rows[b].push(entry).map_values(|e: Entry| e.0) =~= task_rows(rows)[b].push(entry.0));
    assert(task_rows(append(rows, b, entry)) =~= append(task_rows(rows), b, entry.0));
}

proof fn lemma_task_rows_drop_front(rows: Seq<Seq<Entry>>, b: int)
    requires
        0 <= b < rows.len(),
        rows[b].len() > 0,
    ensures
        task_rows(drop_front(rows, b)) == drop_front(task_rows(rows), b),
{
    assert(rows[b].subrange(1, rows[b].len() as int).map_values(|e: Entry| e.0) =~= task_rows(
        rows,
    )[b].subrange(1, rows[b].len() as int));
    assert(task_rows(drop_front(rows, b)) =~= drop_front(task_rows(rows), b));
}

/// Nothing is queued exactly when there is neither an urgent nor a normal task.
pub proof fn queued_is_empty(state: FairState)
    ensures
        state.queued() == Multiset::<TaskId>::empty() <==> state.urgent.len() == 0 && all_empty(
            state.normal,
        ),
{
    let rows = task_rows(state.normal);
    lemma_empty(state.urgent);
    lemma_pooled_empty(rows);
    assert(all_empty(state.normal) <==> all_empty(rows)) by {
        assert(forall|i: int|
            0 <= i < rows.len() ==> (#[trigger] rows[i]).len() == state.normal[i].len());
        if all_empty(rows) {
            assert forall|i: int| 0 <= i < state.normal.len() implies (
            #[trigger] state.normal[i]).len() == 0 by {
                assert(rows[i].len() == 0);
            }
        }
    }
    let urgent = state.urgent.to_multiset();
    let normal = pooled(rows);
    if state.queued() == Multiset::<TaskId>::empty() {
        assert forall|x: TaskId| urgent.count(x) == 0 && normal.count(x) == 0 by {
            assert(state.queued().count(x) == urgent.count(x) + normal.count(x));
        }
        assert(urgent =~= Multiset::empty());
        assert(normal =~= Multiset::empty());
    } else if state.urgent.len() == 0 && all_empty(state.normal) {
        assert(state.queued() =~= Multiset::empty());
    }
}

/// A push adds the pushed task to the waiting ones, as urgent or as normal.
pub proof fn push_adds_the_task(
    state: FairState,
    id: TaskId,
    gid: u64,
    at: Nanos,
    e_remaining: u128,
    urgent: bool,
)
    requires
        state.normal.len() == NUM_BUCKETS,
    ensures
        state.push(id, gid, at, e_remaining, urgent).queued() == state.queued().insert(id),
{
    let after = state.push(id, gid, at, e_remaining, urgent);
    if urgent {
        lemma_push_back(state.urgent, id);
    } else {
        let b = bucket_of((e_remaining / 1000) as nat);
        bucket_of_covers((e_remaining / 1000) as nat);
        lemma_task_rows_append(state.normal, b, (id, gid, at));
        lemma_pooled_push(task_rows(state.normal), b, id);
    }
    assert(after.queued() =~= state.queued().insert(id));
}

/// A pop of an urgent task takes that task out of the waiting ones.
pub proof fn pop_urgent_takes_the_task(state: FairState)
    requires
        state.urgent.len() > 0,
    ensures
        state.queued().contains(state.urgent[0]),
        state.pop_urgent().queued() == state.queued().remove(state.urgent[0]),
{
    lemma_pop_front(state.urgent);
    assert(state.urgent.skip(1) =~= state.urgent.subrange(1, state.urgent.len() as int));
    assert(state.pop_urgent().queued() =~= state.queued().remove(state.urgent[0]));
}

/// A pop of a normal task takes that task out of the waiting ones.
pub proof fn pop_normal_takes_the_task(state: FairState, b: int, now: Nanos)
    requires
        is_lowest(state.normal, b),
    ensures
        state.queued().contains(state.normal[b][0].0),
        state.pop_normal(b, now).queued() == state.queued().remove(state.normal[b][0].0),
{
    lemma_task_rows_drop_front(state.normal, b);
    lemma_pooled_pop(task_rows(state.normal), b);
    assert(task_rows(state.normal)[b][0] == state.normal[b][0].0);
    assert(state.pop_normal(b, now).queued() =~= state.queued().remove(state.normal[b][0].0));
}

impl FairSRPT {
    /// The scheduler is in good order.
    pub closed spec fn inv(self) -> bool {
        self.normal.inv()
    }

    /// There are `NUM_BUCKETS` normal queues.
    pub proof fn lemma_shape(self)
        requires
            self.inv(),
        ensures
            self@.normal.len() == NUM_BUCKETS,
    {
    }

    /// Starts without tasks and without known times.
    pub fn new() -> (r: Self)
        ensures
            r.inv(),
            r@.urgent == Seq::<TaskId>::empty(),
            all_empty(r@.normal),
            r@.service == Map::<u64, (u128, u128)>::empty(),
            r@.completions == 0,
            r@.urgent_pushes == 0,
            r@.normal_pushes == 0,
    {
        let r = FairSRPT {
            urgent: VecDeque::new(),
            normal: SRPTQueues::new(),
            service: new_int_map(1024),
            completion_count: 0,
            urgent_enqueue_count: 0,
            normal_enqueue_count: 0,
        };
        assert(r@.service =~= Map::empty());
        r
    }

    /// Converts a service time in nanoseconds to a bucket index.
    pub fn service_to_bucket(service_ns: u128) -> (b: usize)
        ensures
            b == service_bucket(service_ns as nat),
            b < NUM_BUCKETS,
    {
        proof {
            bucket_of_covers((service_ns / 1000) as nat);
        }
        if service_ns <= 1000 {
            0
        } else if service_ns < 10_000 {
            (service_ns / 1000) as usize
        } else if service_ns == 10_000 {
            9
        } else {
            let b: usize = micros_to_bucket(service_ns / 1000);
            if b > 10 {
                b
            } else {
                10
            }
        }
    }

    /// Converts an expected remaining time in nanoseconds to a bucket index: the power of two of
    /// its microseconds.
    pub fn remaining_to_bucket(e_remaining_ns: u128) -> (b: usize)
        ensures
            b == bucket_of((e_remaining_ns / 1000) as nat),
            b < NUM_BUCKETS,
            b <= 31,
            b > 0 ==> pow2(b as nat) <= e_remaining_ns / 1000,
            b < 31 ==> e_remaining_ns / 1000 < pow2((b + 1) as nat),
    {
        proof {
            bucket_of_covers((e_remaining_ns / 1000) as nat);
        }
        micros_to_bucket(e_remaining_ns / 1000)
    }

    /// The service time and the waiting time of a group in nanoseconds; zero if it is not known.
    pub fn timing(&self, gid: u64) -> (r: (u128, u128))
        ensures
            r == self@.timing(gid),
    {
        match int_map_get(&self.service, gid) {
            Some(timing) => *timing,
            None => (0, 0),
        }
    }

    /// How many tasks were pushed as urgent and how many as normal.
    pub fn push_counts(&self) -> (r: (u64, u64))
        ensures
            r == (self@.urgent_pushes, self@.normal_pushes),
    {
        (self.urgent_enqueue_count, self.normal_enqueue_count)
    }

    /// Queues a task, given the expected remaining time of its group and whether one more wait
    /// would slow it down too much.
    pub fn push(&mut self, id: TaskId, gid: u64, at: Nanos, e_remaining: u128, urgent: bool)
        requires
            old(self).inv(),
        ensures
            final(self).inv(),
            final(self)@ == old(self)@.push(id, gid, at, e_remaining, urgent),
            final(self)@.queued() == old(self)@.queued().insert(id),
    {
        proof {
            push_adds_the_task(self@, id, gid, at, e_remaining, urgent);
        }
        if urgent {
            self.urgent.push_back(id);
            self.urgent_enqueue_count = self.urgent_enqueue_count.wrapping_add(1);
        } else {
            let bucket: usize = Self::remaining_to_bucket(e_remaining);
            self.normal.push(id, gid, at, bucket);
            self.normal_enqueue_count = self.normal_enqueue_count.wrapping_add(1);
        }
    }

    /// Whether the waiting time that a pop at `now` records stays within its type.
    pub fn can_pop(&self, now: Nanos) -> (r: bool)
        requires
            self.inv(),
        ensures
            r == self@.can_pop(now),
    {
        if self.urgent.len() > 0 {
            return true;
        }
        match self.normal.front() {
            None => true,
            Some((_, gid, enqueue_time)) => {
                let wait: u128 = duration_since(now, enqueue_time);
                let (_, w) = self.timing(gid);
                proof {
                    let b = choose|b: int| #[trigger]
                        is_lowest(self@.normal, b) && self@.normal[b][0].1 == gid
                            && self@.normal[b][0].2 == enqueue_time;
                    assert(is_lowest(self@.normal, b));
                    assert forall|c: int| #[trigger] is_lowest(self@.normal, c) implies c == b by {
                        lowest_is_unique(self@.normal, b, c);
                    }
                }
                w <= u128::MAX - wait
            },
        }
    }

    /// Takes the oldest urgent task or, without one, the oldest task of the lowest non-empty
    /// bucket, whose wait ends at `now` and is added to the waiting time of its group.
    pub fn pop(&mut self, now: Nanos) -> (r: Option<Popped>)
        requires
            old(self).inv(),
            old(self)@.can_pop(now),
        ensures
            final(self).inv(),
            match r {
                None => {
                    &&& old(self)@.queued() == Multiset::<TaskId>::empty()
                    &&& old(self)@.urgent.len() == 0
                    &&& all_empty(old(self)@.normal)
                    &&& final(self)@ == old(self)@
                },
                Some(Popped { id, waited: None }) => {
                    &&& old(self)@.urgent.len() > 0
                    &&& id == old(self)@.urgent[0]
                    &&& final(self)@ == old(self)@.pop_urgent()
                },
                Some(Popped { id, waited: Some((bucket, wait)) }) => {
                    &&& old(self)@.urgent.len() == 0
                    &&& is_lowest(old(self)@.normal, bucket as int)
                    &&& id == old(self)@.normal[bucket as int][0].0
                    &&& wait == span(old(self)@.normal[bucket as int][0].2, now)
                    &&& final(self)@ == old(self)@.pop_normal(bucket as int, now)
                },
            },
            r matches Some(popped) ==> old(self)@.takes(
                popped.id,
                match popped.waited {
                    Some((bucket, _)) => Some(bucket),
                    None => None,
                },
            ),
            r matches Some(popped) ==> {
                &&& old(self)@.queued().contains(popped.id)
                &&& final(self)@.queued() == old(self)@.queued().remove(popped.id)
            },
    {
        proof {
            queued_is_empty(self@);
        }
        if let Some(id) = self.urgent.pop_front() {
            proof {
                pop_urgent_takes_the_task(old(self)@);
                assert(self@ =~= old(self)@.pop_urgent());
            }
            return Some(Popped { id, waited: None });
        }
        match self.normal.pop() {
            None => None,
            Some((id, gid, enqueue_time, bucket)) => {
                proof {
                    assert(is_lowest(old(self)@.normal, bucket as int));
                    pop_normal_takes_the_task(old(self)@, bucket as int, now);
                }
                let wait: u128 = duration_since(now, enqueue_time);
                let (s, w) = self.timing(gid);
                int_map_insert(&mut self.service, gid, (s, w + wait));
                proof {
                    assert(self@ =~= old(self)@.pop_normal(bucket as int, now));
                }
                Some(Popped { id, waited: Some((bucket, wait)) })
            },
        }
    }

    /// Keeps no state per task.
    pub fn clear_task_state(&mut self, id: TaskId, gid: u64)
        ensures
            *final(self) == *old(self),
    {
    }

    /// Forgets a group that completed, and says what is to be recorded of it.
    pub fn clear_group_state(&mut self, gid: u64) -> (r: Completed)
        requires
            old(self).inv(),
        ensures
            final(self).inv(),
            final(self)@ == (FairState {
                service: old(self)@.service.remove(gid),
                completions: counted(old(self)@.completions),
                ..old(self)@
            }),
            final(self)@ == old(self)@.cleared(gid),
            r.sample is Some <==> (old(self)@.completions + 1) % 4 == 0 && old(
                self,
            )@.service.contains_key(gid) && old(self)@.service[gid].0 > 0,
            r.sample is Some ==> r.sample == Some(old(self)@.service[gid]),
            r.adjust <==> (old(self)@.completions + 1) % 64 == 0,
            r.sample is Some <==> old(self)@.samples(gid),
            r.adjust <==> old(self)@.adjusts(),
            r.sample == (if counted(old(self)@.completions) % SAMPLE_RATE == 0 && old(
                self,
            )@.timing(gid).0 > 0 {
                Some(old(self)@.timing(gid))
            } else {
                None
            }),
            match r.sample {
                Some((service, _)) => remaining_in_buckets(service as nat, r.remaining@),
                None => r.remaining@ == Seq::<u128>::empty(),
            },
            r.adjust == (counted(old(self)@.completions) % ADJUST_INTERVAL == 0),
    {
        let timing = int_map_remove(&mut self.service, gid);
        self.completion_count = self.completion_count.wrapping_add(1);
        let adjust = self.completion_count % ADJUST_INTERVAL == 0;
        if self.completion_count % SAMPLE_RATE == 0 {
            if let Some((service, wait)) = timing {
                // Without service there is no slowdown to record, and no bucket was entered.
                if service > 0 {
                    return Completed {
                        sample: Some((service, wait)),
                        remaining: service_samples(service),
                        adjust,
                    };
                }
            }
        }
        Completed { sample: None, remaining: Vec::new(), adjust }
    }

    /// Whether any task is queued.
    pub fn is_runnable(&self) -> (r: bool)
        requires
            self.inv(),
        ensures
            r == (self@.urgent.len() > 0 || !all_empty(self@.normal)),
            r == (self@.queued() != Multiset::<TaskId>::empty()),
    {
        proof {
            queued_is_empty(self@);
        }
        self.urgent.len() > 0 || !self.normal.is_empty()
    }

    /// Adds the time from `start` to `end` to the service time of a group.
    pub fn observe(&mut self, id: TaskId, gid: u64, start: Nanos, end: Nanos, ready: bool)
        requires
            old(self).inv(),
            old(self)@.timing(gid).0 + span(start, end) <= u128::MAX,
        ensures
            final(self).inv(),
            final(self)@ == (FairState {
                service: old(self)@.service.insert(
                    gid,
                    (
                        (old(self)@.timing(gid).0 + span(start, end)) as u128,
                        old(self)@.timing(gid).1,
                    ),
                ),
                ..old(self)@
            }),
            final(self)@ == old(self)@.observed(gid, start, end),
    {
        let (s, w) = self.timing(gid);
        int_map_insert(&mut self.service, gid, (s + duration_since(end, start), w));
    }
}

impl Default for FairSRPT {
    /// Starts without tasks and without known times.
    fn default() -> (r: Self)
        ensures
            r.inv(),
            r@.urgent == Seq::<TaskId>::empty(),
            all_empty(r@.normal),
            r@.service == Map::<u64, (u128, u128)>::empty(),
            r@.completions == 0,
            r@.urgent_pushes == 0,
            r@.normal_pushes == 0,
    {
        Self::new()
    }
}

/// Urgent tasks are first in, first out: pushed ones stand behind those that were there, in the
/// order in which they were pushed. They are counted, and nothing else changes.
pub proof fn urgent_tasks_queue_up(
    state: FairState,
    tasks: Seq<(TaskId, Nanos)>,
    gid: u64,
    e_remaining: u128,
)
    ensures
        state.push_all(tasks, gid, e_remaining, true).urgent == state.urgent
            + tasks.map_values(|task: (TaskId, Nanos)| task.0),
        state.push_all(tasks, gid, e_remaining, true).urgent_pushes as int == (state.urgent_pushes
            + tasks.len()) % 0x1_0000_0000_0000_0000,
        state.push_all(tasks, gid, e_remaining, true) == (FairState {
            urgent: state.push_all(tasks, gid, e_remaining, true).urgent,
            urgent_pushes: state.push_all(tasks, gid, e_remaining, true).urgent_pushes,
            ..state
        }),
    decreases tasks.len(),
{
    let ids = tasks.map_values(|task: (TaskId, Nanos)| task.0);
    if tasks.len() > 0 {
        let rest = tasks.drop_last();
        let rest_ids = rest.map_values(|task: (TaskId, Nanos)| task.0);
        urgent_tasks_queue_up(state, rest, gid, e_remaining);
        assert((state.urgent + rest_ids).push(tasks.last().0) =~= state.urgent + ids);
    } else {
        assert(state.urgent + ids =~= state.urgent);
    }
}

/// Tasks that are not urgent join the queue that covers the whole microseconds of their expected
/// remaining time: `2^b` or more above queue 0, and less than `2^(b+1)` below queue 31. There they
/// stand behind those that were there, in the order in which they were pushed, each with its group
/// and its time. They are counted, and nothing else changes.
pub proof fn normal_tasks_queue_up(
    state: FairState,
    tasks: Seq<(TaskId, Nanos)>,
    gid: u64,
    e_remaining: u128,
)
    requires
        state.normal.len() == 32,
    ensures
        exists|b: int|
            {
                &&& 0 <= b < 32
                &&& b > 0 ==> pow2(b as nat) <= e_remaining / 1000
                &&& b < 31 ==> e_remaining / 1000 < pow2((b + 1) as nat)
                &&& #[trigger] state.push_all(tasks, gid, e_remaining, false).normal[b]
                    == state.normal[b] + tasks.map_values(
                    |task: (TaskId, Nanos)| (task.0, gid, task.1),
                )
                &&& forall|c: int|
                    0 <= c < 32 && c != b ==> #[trigger] state.push_all(
                        tasks,
                        gid,
                        e_remaining,
                        false,
                    ).normal[c] == state.normal[c]
            },
        state.push_all(tasks, gid, e_remaining, false).normal.len() == 32,
        state.push_all(tasks, gid, e_remaining, false).normal_pushes as int == (state.normal_pushes
            + tasks.len()) % 0x1_0000_0000_0000_0000,
        state.push_all(tasks, gid, e_remaining, false) == (FairState {
            normal: state.push_all(tasks, gid, e_remaining, false).normal,
            normal_pushes: state.push_all(tasks, gid, e_remaining, false).normal_pushes,
            ..state
        }),
{
    let b = bucket_of((e_remaining / 1000) as nat);
    bucket_of_covers((e_remaining / 1000) as nat);
    lemma_normal_tasks_queue_up(state, tasks, gid, e_remaining);
    let after = state.push_all(tasks, gid, e_remaining, false);
    assert(after.normal[b] == state.normal[b] + tasks.map_values(
        |task: (TaskId, Nanos)| (task.0, gid, task.1),
    ));
}

proof fn lemma_normal_tasks_queue_up(
    state: FairState,
    tasks: Seq<(TaskId, Nanos)>,
    gid: u64,
    e_remaining: u128,
)
    requires
        state.normal.len() == 32,
    ensures
        ({
            let b = bucket_of((e_remaining / 1000) as nat);
            let after = state.push_all(tasks, gid, e_remaining, false);
            &&& after.normal.len() == 32
            &&& after.normal[b] == state.normal[b] + tasks.map_values(
                |task: (TaskId, Nanos)| (task.0, gid, task.1),
            )
            &&& forall|c: int|
                0 <= c < 32 && c != b ==> #[trigger] after.normal[c] == state.normal[c]
            &&& after.normal_pushes as int == (state.normal_pushes + tasks.len())
                % 0x1_0000_0000_0000_0000
            &&& after == (FairState {
                normal: after.normal,
                normal_pushes: after.normal_pushes,
                ..state
            })
        }),
    decreases tasks.len(),
{
    let b = bucket_of((e_remaining / 1000) as nat);
    bucket_of_covers((e_remaining / 1000) as nat);
    let entries = tasks.map_values(|task: (TaskId, Nanos)| (task.0, gid, task.1));
    if tasks.len() > 0 {
        let rest = tasks.drop_last();
        let rest_entries = rest.map_values(|task: (TaskId, Nanos)| (task.0, gid, task.1));
        lemma_normal_tasks_queue_up(state, rest, gid, e_remaining);
        assert((state.normal[b] + rest_entries).push((tasks.last().0, gid, tasks.last().1))
            =~= state.normal[b] + entries);
    } else {
        assert(state.normal[b] + entries =~= state.normal[b]);
    }
}

/// A pop of an urgent task takes the one that was pushed first; the others move up, and nothing
/// else changes.
pub proof fn first_urgent_task_leaves(state: FairState)
    requires
        state.urgent.len() > 0,
    ensures
        seq![state.urgent[0]] + state.pop_urgent().urgent == state.urgent,
        state.pop_urgent() == (FairState { urgent: state.pop_urgent().urgent, ..state }),
{
    assert(seq![state.urgent[0]] + state.pop_urgent().urgent =~= state.urgent);
}

/// A pop of a normal task takes the front one of its queue, and the waiting time of its group grows
/// by what lies between its push and the pop, if the pop came later. The service time of the group,
/// the times of other groups and the other queues stay as they are.
pub proof fn popped_task_waited(state: FairState, b: int, now: Nanos, other: u64)
    requires
        0 <= b < state.normal.len(),
        state.normal[b].len() > 0,
        state.normal[b][0].2 <= now ==> state.timing(state.normal[b][0].1).1 + (now
            - state.normal[b][0].2) <= u128::MAX,
        other != state.normal[b][0].1,
    ensures
        seq![state.normal[b][0]] + state.pop_normal(b, now).normal[b] == state.normal[b],
        state.pop_normal(b, now).normal.len() == state.normal.len(),
        forall|c: int|
            0 <= c < state.normal.len() && c != b ==> #[trigger] state.pop_normal(b, now).normal[c]
                == state.normal[c],
        state.pop_normal(b, now).timing(state.normal[b][0].1).0 == state.timing(
            state.normal[b][0].1,
        ).0,
        state.pop_normal(b, now).timing(state.normal[b][0].1).1 == state.timing(
            state.normal[b][0].1,
        ).1 + (if state.normal[b][0].2 <= now {
            now - state.normal[b][0].2
        } else {
            0
        }),
        state.pop_normal(b, now).service.contains_key(state.normal[b][0].1),
        state.pop_normal(b, now).timing(other) == state.timing(other),
        state.pop_normal(b, now).service.contains_key(other) == state.service.contains_key(other),
        state.pop_normal(b, now) == (FairState {
            normal: state.pop_normal(b, now).normal,
            service: state.pop_normal(b, now).service,
            ..state
        }),
{
    front_item_leaves(state.normal, b);
}

/// Service adds up: after any runs of a group, its service time is what it was before and what the
/// runs took together, and its waiting time is what it was. The times of every other group are what
/// they were, and nothing else changes.
pub proof fn service_adds_up(state: FairState, gid: u64, other: u64, runs: Seq<(Nanos, Nanos)>)
    requires
        state.timing(gid).0 + total_time(runs) <= u128::MAX,
        other != gid,
    ensures
        state.observed_all(gid, runs).timing(gid).0 == state.timing(gid).0 + total_time(runs),
        state.observed_all(gid, runs).timing(gid).1 == state.timing(gid).1,
        state.observed_all(gid, runs).timing(other) == state.timing(other),
        runs.len() > 0 ==> state.observed_all(gid, runs).service.contains_key(gid),
        state.observed_all(gid, runs).service.contains_key(other) == state.service.contains_key(
            other,
        ),
        state.observed_all(gid, runs) == (FairState {
            service: state.observed_all(gid, runs).service,
            ..state
        }),
    decreases runs.len(),
{
    if runs.len() > 0 {
        lemma_last_run(runs);
        service_adds_up(state, gid, other, runs.drop_last());
    }
}

/// The times of a group are what is recorded of it, and zero without a record; a group that
/// completed loses its record, counts, and leaves the others and the queues alone.
pub proof fn completed_group_is_forgotten(state: FairState, gid: u64, other: u64)
    requires
        other != gid,
    ensures
        state.service.contains_key(gid) ==> state.timing(gid) == state.service[gid],
        !state.service.contains_key(gid) ==> state.timing(gid) == (0u128, 0u128),
        !state.cleared(gid).service.contains_key(gid),
        state.cleared(gid).timing(other) == state.timing(other),
        state.cleared(gid).service.contains_key(other) == state.service.contains_key(other),
        state.cleared(gid).completions as int == (state.completions + 1)
            % 0x1_0000_0000_0000_0000,
        state.cleared(gid) == (FairState {
            service: state.cleared(gid).service,
            completions: state.cleared(gid).completions,
            ..state
        }),
{
}

/// A pop can always be made while an urgent task waits or nothing does; otherwise the waiting time
/// that it records has to fit its type.
pub proof fn pop_needs_room_for_the_wait(state: FairState, b: int, now: Nanos)
    requires
        0 <= b < state.normal.len(),
        state.normal[b].len() > 0,
        forall|c: int| 0 <= c < b ==> (#[trigger] state.normal[c]).len() == 0,
    ensures
        state.urgent.len() > 0 ==> state.can_pop(now),
        state.urgent.len() == 0 && now <= state.normal[b][0].2 ==> state.can_pop(now),
        state.urgent.len() == 0 && state.normal[b][0].2 <= now ==> (state.can_pop(now)
            <==> state.timing(state.normal[b][0].1).1 + (now - state.normal[b][0].2)
            <= u128::MAX),
{
    assert(is_lowest(state.normal, b));
    assert forall|c: int| #[trigger] is_lowest(state.normal, c) implies c == b by {
        lowest_is_unique(state.normal, b, c);
    }
}

/// Without tasks, a pop can always be made.
pub proof fn pop_of_nothing_needs_no_room(state: FairState, now: Nanos)
    requires
        forall|c: int| 0 <= c < state.normal.len() ==> (#[trigger] state.normal[c]).len() == 0,
    ensures
        state.can_pop(now),
{
    assert forall|b: int| !(#[trigger] is_lowest(state.normal, b)) by {
        if is_lowest(state.normal, b) {
            assert(state.normal[b].len() == 0);
        }
    }
}

/// Services up to ten microseconds are told apart by the microsecond, the longest ones by the power
/// of two of their microseconds, and those between have a bucket of their own.
pub proof fn service_buckets_have_ranges(service_ns: nat)
    ensures
        service_ns <= 1000 ==> service_bucket(service_ns) == 0,
        1000 < service_ns < 10_000 ==> service_bucket(service_ns) * 1000 <= service_ns < (
        service_bucket(service_ns) + 1) * 1000,
        service_ns == 10_000 ==> service_bucket(service_ns) == 9,
        10_000 < service_ns < 2_048_000 ==> service_bucket(service_ns) == 10,
        2_048_000 <= service_ns ==> 11 <= service_bucket(service_ns) <= 31 && pow2(
            service_bucket(service_ns) as nat,
        ) * 1000 <= service_ns,
        2_048_000 <= service_ns && service_bucket(service_ns) < 31 ==> service_ns < pow2(
            (service_bucket(service_ns) + 1) as nat,
        ) * 1000,
{
    lemma2_to64();
    let us = service_ns / 1000;
    bucket_of_covers(us);
    bucket_is_reached(us, 11);
}

/// There is a sample for each service bucket up to that of the service, and none without service.
/// What remained at a bucket's entry leaves the least service time in that bucket: one nanosecond
/// in bucket 0, and in a higher bucket a service that, one nanosecond shorter, lies in the bucket
/// below.
pub proof fn samples_are_taken_at_bucket_entries(service_ns: nat, samples: Seq<u128>, b: int)
    requires
        remaining_in_buckets(service_ns, samples),
        0 <= b < samples.len(),
    ensures
        service_ns > 0,
        samples.len() == service_bucket(service_ns) + 1,
        0 < service_ns - samples[b],
        service_bucket((service_ns - samples[b]) as nat) == b,
        b == 0 ==> service_ns - samples[b] == 1,
        b > 0 ==> service_bucket((service_ns - samples[b] - 1) as nat) == b - 1,
{
    assert(samples[b] == service_ns - bucket_entry(b));
    lemma2_to64();
    service_bucket_monotone(service_ns, service_ns);
    let entry = bucket_entry(b);
    service_buckets_have_ranges(entry);
    service_buckets_have_ranges((entry - 1) as nat);
    if b > 10 {
        if b > 11 {
            lemma_pow2_strictly_increases(11, b as nat);
        }
        bucket_is_entered(entry, b);
        if b < 31 {
            lemma_pow2_strictly_increases(b as nat, (b + 1) as nat);
            bucket_is_entered(entry, b + 1);
        }
        service_bucket_monotone(entry, entry);
        service_bucket_monotone((entry - 1) as nat, (entry - 1) as nat);
        bucket_is_entered((entry - 1) as nat, b);
        if b > 11 {
            lemma_pow2_unfold(b as nat);
            bucket_is_entered((entry - 1) as nat, b - 1);
        }
    }
}

/// There are as many samples as there are buckets up to that of the service, and none without
/// service.
pub proof fn every_bucket_gives_a_sample(service_ns: nat, samples: Seq<u128>)
    requires
        remaining_in_buckets(service_ns, samples),
    ensures
        service_ns > 0 ==> samples.len() == service_bucket(service_ns) + 1,
        service_ns == 0 ==> samples.len() == 0,
{
}

/// Urgent tasks run first, in the order of their line; without one, the front task of the queue
/// below which nothing waits runs.
pub proof fn urgent_tasks_run_first(state: FairState, id: TaskId, from: Option<usize>)
    requires
        state.takes(id, from),
    ensures
        state.urgent.len() > 0 ==> from is None && id == state.urgent[0],
        state.urgent.len() == 0 ==> from is Some && from->Some_0 < state.normal.len(),
        from matches Some(b) ==> {
            &&& state.normal[b as int].len() > 0
            &&& id == state.normal[b as int][0].0
            &&& forall|c: int| 0 <= c < b ==> (#[trigger] state.normal[c]).len() == 0
        },
{
}

/// Every 4th completion is sampled, if it is that of a group that was served, and the slowdown
/// bound is adjusted after every 64th.
pub proof fn completions_are_sampled_and_lead_to_adjustment(state: FairState, gid: u64)
    ensures
        state.samples(gid) <==> (state.completions + 1) % 4 == 0 && state.service.contains_key(gid)
            && state.service[gid].0 > 0,
        state.adjusts() <==> (state.completions + 1) % 64 == 0,
{
}

} // verus!
