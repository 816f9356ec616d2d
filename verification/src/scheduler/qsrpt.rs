//! Shortest remaining processing time first, as learned from the groups that completed.
//!
//! The estimates of how much work remains are kept by the scheduler's driver. The scheduler holds
//! the queues and the measured times, hands the driver what it estimates from, and orders its
//! queues by the estimates that the driver brings.
use crate::bits::{bit, lemma_zero_mask, lowest_bit, with_bit, without_bit};
use crate::bucket::{
    bucket_of, bucket_of_covers, bucket_of_monotone, entry_samples, micros_to_bucket,
    remaining_at_entry, NUM_BUCKETS,
};
use crate::buckets::{all_empty, append, drop_front, front_item_leaves, rows};
use crate::count::counted;
use crate::pool::{lemma_pooled_empty, lemma_pooled_pop, lemma_pooled_push, pooled};
use crate::queue::TaskId;
use crate::table::{
    find_service_time, insert_service_time, new_service_times, remove_service_time,
    service_times_of,
};
use crate::time::{duration_since, lemma_last_run, span, total_time, Nanos};
use crate::turns::{following, is_next_in_turn, turn};
use ahash::AHashMap;
use std::collections::VecDeque;
use vstd::arithmetic::power2::pow2;
use vstd::multiset::Multiset;
use vstd::prelude::*;

verus! {

/// One completion in this many is sampled.
pub const SAMPLE_RATE: u64 = 4;

/// The queues are reordered after this many completions.
pub const REORDER_INTERVAL: u64 = 128;

/// Whether `order` lists every bucket once.
pub open spec fn is_order(order: Seq<usize>) -> bool {
    &&& order.len() == NUM_BUCKETS
    &&& order.no_duplicates()
    &&& forall|b: usize| b < NUM_BUCKETS <==> #[trigger] order.contains(b)
}

/// Whether bucket `a` comes before bucket `b` by the given estimates: the lesser estimate first,
/// and among equal estimates the lower bucket.
pub open spec fn comes_before(expected: Seq<u64>, a: usize, b: usize) -> bool {
    expected[a as int] < expected[b as int] || (expected[a as int] == expected[b as int] && a < b)
}

/// Whether `order` lists buckets by the given estimates.
pub open spec fn is_sorted_by(expected: Seq<u64>, order: Seq<usize>) -> bool {
    forall|p: int, q: int|
        0 <= p < q < order.len() ==> comes_before(
            expected,
            #[trigger] order[p],
            #[trigger] order[q],
        )
}

/// Whether `p` is the highest priority whose queue holds anything.
pub open spec fn is_foremost(queues: Seq<Seq<TaskId>>, order: Seq<usize>, p: int) -> bool {
    &&& 0 <= p < order.len()
    &&& queues[order[p] as int].len() > 0
    &&& forall|q: int| 0 <= q < p ==> queues[(#[trigger] order[q]) as int].len() == 0
}

proof fn lemma_sorted_insert(expected: Seq<u64>, sorted: Seq<usize>, j: int, b: usize)
    requires
        0 <= j <= sorted.len(),
        is_sorted_by(expected, sorted),
        forall|c: usize| c < b <==> #[trigger] sorted.contains(c),
        forall|k: int|
            j <= k < sorted.len() ==> expected[(#[trigger] sorted[k]) as int] > expected[b as int],
        j > 0 ==> expected[sorted[j - 1] as int] <= expected[b as int],
    ensures
        is_sorted_by(expected, sorted.insert(j, b)),
        forall|c: usize| c < b + 1 <==> #[trigger] sorted.insert(j, b).contains(c),
{
    let next = sorted.insert(j, b);
    assert forall|k: int| 0 <= k < sorted.len() implies (#[trigger] sorted[k]) < b by {
        assert(sorted.contains(sorted[k]));
    }
    assert forall|p: int, q: int| 0 <= p < q < next.len() implies comes_before(
        expected,
        #[trigger] next[p],
        #[trigger] next[q],
    ) by {
        let p0 = if p < j { p } else { p - 1 };
        let q0 = if q < j { q } else { q - 1 };
        if p == j {
            assert(sorted[q0] == next[q]);
        } else if q == j {
            assert(sorted[p0] == next[p]);
            if p0 < j - 1 {
                assert(comes_before(expected, sorted[p0], sorted[j - 1]));
            }
        } else {
            assert(comes_before(expected, sorted[p0], sorted[q0]));
        }
    }
    assert forall|c: usize| c < b + 1 <==> #[trigger] next.contains(c) by {
        if c == b {
            assert(next[j] == c);
        } else if c < b {
            assert(sorted.contains(c));
            let k = choose|k: int| 0 <= k < sorted.len() && sorted[k] == c;
            assert(next[if k < j { k } else { k + 1 }] == c);
        } else if next.contains(c) {
            let k = choose|k: int| 0 <= k < next.len() && next[k] == c;
            assert(sorted[if k < j { k } else { k - 1 }] == c);
            assert(sorted.contains(c));
        }
    }
}

/// What is to be done after a group completed.
pub struct Completion {
    /// if this completion is sampled: what remained of the service time, in microseconds, at each
    /// bucket entry
    pub sample: Option<Vec<u128>>,
    /// whether the queues are to be reordered
    pub reorder: bool,
}

/// What a `QSRPT` holds.
#[verifier::ext_equal]
pub struct QsrptState {
    /// the waiting tasks: `queues[b]` holds those whose group had a service time in bucket `b`
    /// when they were pushed, oldest first
    pub queues: Seq<Seq<TaskId>>,
    /// the service time of each group that was observed, in nanoseconds
    pub service: Map<u64, u128>,
    /// the buckets in order of priority, highest first
    pub order: Seq<usize>,
    /// the number of completed groups, modulo 2^64
    pub completions: u64,
    /// the number of completions since the last one that was sampled
    pub unsampled: u64,
    /// the queue with which the next turn starts
    pub head: int,
    /// the number of pops, modulo 2^64
    pub pops: u64,
}

impl QsrptState {
    /// The service time of a group in nanoseconds; zero if it was not observed.
    pub open spec fn service_of(self, group: u64) -> u128 {
        if self.service.contains_key(group) {
            self.service[group]
        } else {
            0
        }
    }

    /// The queue that a task of `group` joins.
    pub open spec fn bucket(self, group: u64) -> int {
        bucket_of((self.service_of(group) / 1000) as nat)
    }

    /// The state after a task of `group` was pushed.
    pub open spec fn pushed(self, id: TaskId, group: u64) -> Self {
        QsrptState { queues: append(self.queues, self.bucket(group), id), ..self }
    }

    /// The state after the tasks `ids` of `group` were pushed, one after the other.
    pub open spec fn pushed_all(self, ids: Seq<TaskId>, group: u64) -> Self
        decreases ids.len(),
    {
        if ids.len() == 0 {
            self
        } else {
            self.pushed_all(ids.drop_last(), group).pushed(ids.last(), group)
        }
    }

    /// The state after a task of `group` ran from `start` to `end`.
    pub open spec fn observed(self, group: u64, start: Nanos, end: Nanos) -> Self {
        QsrptState {
            service: self.service.insert(
                group,
                (self.service_of(group) + span(start, end)) as u128,
            ),
            ..self
        }
    }

    /// The state after tasks of `group` ran as listed, one run after the other.
    pub open spec fn observed_all(self, group: u64, runs: Seq<(Nanos, Nanos)>) -> Self
        decreases runs.len(),
    {
        if runs.len() == 0 {
            self
        } else {
            self.observed_all(group, runs.drop_last()).observed(
                group,
                runs.last().0,
                runs.last().1,
            )
        }
    }

    /// The state after a group that was observed has completed and was forgotten.
    pub open spec fn cleared(self, group: u64) -> Self {
        QsrptState { service: self.service.remove(group), ..self.complete() }
    }

    /// The state after `n` completions were counted.
    pub open spec fn complete_times(self, n: nat) -> Self
        decreases n,
    {
        if n == 0 {
            self
        } else {
            self.complete_times((n - 1) as nat).complete()
        }
    }

    /// What a pop that serves priority `p` leaves.
    pub open spec fn rest(self, p: int) -> Self {
        QsrptState {
            queues: drop_front(self.queues, self.order[p] as int),
            pops: counted(self.pops),
            ..self
        }
    }

    /// Whether the next completion is sampled.
    pub open spec fn samples_next(self) -> bool {
        self.unsampled + 1 >= SAMPLE_RATE
    }

    /// Whether the queues are to be reordered after the next completion.
    pub open spec fn reorders(self) -> bool {
        counted(self.completions) % REORDER_INTERVAL == 0
    }

    /// The state after a completion was counted.
    pub open spec fn complete(self) -> Self {
        QsrptState {
            completions: counted(self.completions),
            unsampled: if self.samples_next() {
                0
            } else {
                (self.unsampled + 1) as u64
            },
            ..self
        }
    }
}

/// Quantized SRPT-approximation scheduler.
///
/// Like in `QLAS`, tasks are placed in queues based on their group's service time bucket. Unlike
/// there, the queues are served in order of the expected remaining time of their bucket.
pub struct QSRPT {
    /// bit `p`: whether the queue with priority `p` holds anything
    present: u32,
    queues: Vec<VecDeque<TaskId>>,
    service: AHashMap<u64, u128>,
    /// `priority_to_bucket[p]`: which bucket has priority `p`, where 0 is the highest
    priority_to_bucket: [usize; NUM_BUCKETS],
    /// `bucket_to_priority[b]`: which priority bucket `b` has
    bucket_to_priority: [usize; NUM_BUCKETS],
    completion_count: u64,
    sample_counter: u64,
    head: usize,
    iter: u64,
}

impl View for QSRPT {
    type V = QsrptState;

    closed spec fn view(&self) -> QsrptState {
        QsrptState {
            queues: rows(self.queues@),
            service: service_times_of(self.service),
            order: self.priority_to_bucket@,
            completions: self.completion_count,
            unsampled: self.sample_counter,
            head: self.head as int,
            pops: self.iter,
        }
    }
}

impl QSRPT {
    /// Priorities and buckets map to each other.
    spec fn maps_inv(self) -> bool {
        &&& forall|p: int|
            0 <= p < NUM_BUCKETS ==> 0 <= #[trigger] self.priority_to_bucket@[p] < NUM_BUCKETS
                && self.bucket_to_priority@[self.priority_to_bucket@[p] as int] == p
        &&& forall|b: int|
            0 <= b < NUM_BUCKETS ==> 0 <= #[trigger] self.bucket_to_priority@[b] < NUM_BUCKETS
                && self.priority_to_bucket@[self.bucket_to_priority@[b] as int] == b
    }

    /// The mask agrees with the queues.
    spec fn mask_inv(self) -> bool {
        forall|p: int|
            0 <= p < NUM_BUCKETS ==> #[trigger] bit(self.present, p) == (
            self.queues@[self.priority_to_bucket@[p] as int]@.len() > 0)
    }

    /// The scheduler is in good order.
    pub closed spec fn inv(self) -> bool {
        &&& self.queues@.len() == NUM_BUCKETS
        &&& self.maps_inv()
        &&& self.mask_inv()
        &&& self.sample_counter < SAMPLE_RATE
        &&& self.head < NUM_BUCKETS
    }

    /// There are `NUM_BUCKETS` queues, the order lists each of them once, and turns start at one
    /// of them.
    pub broadcast proof fn lemma_shape(self)
        requires
            #[trigger] self.inv(),
        ensures
            self@.queues.len() == NUM_BUCKETS,
            is_order(self@.order),
            0 <= self@.head < NUM_BUCKETS,
            self@.unsampled < SAMPLE_RATE,
    {
        let order = self@.order;
        assert forall|b: usize| b < NUM_BUCKETS <==> #[trigger] order.contains(b) by {
            if b < NUM_BUCKETS {
                let p = self.bucket_to_priority@[b as int];
                assert(order[p as int] == b);
            }
        }
        assert(order.no_duplicates());
    }

    /// Every waiting task.
    pub open spec fn queued(self) -> Multiset<TaskId> {
        pooled(self@.queues)
    }

    proof fn lemma_present(self)
        requires
            self.inv(),
        ensures
            self.present == 0 <==> all_empty(self@.queues),
            all_empty(self@.queues) <==> self.queued() == Multiset::<TaskId>::empty(),
    {
        lemma_pooled_empty(self@.queues);
        lemma_zero_mask(self.present);
        if all_empty(self@.queues) {
            assert forall|p: int| 0 <= p < 32 implies !bit(self.present, p) by {
                let b = self.priority_to_bucket@[p];
                assert(self@.queues[b as int].len() == 0);
            }
        } else {
            let b = choose|b: int|
                0 <= b < self@.queues.len() && (#[trigger] self@.queues[b]).len() != 0;
            assert(bit(self.present, self.bucket_to_priority@[b] as int));
        }
    }

    /// Starts without tasks and without known service times, with the lowest bucket first.
    pub fn new() -> (r: Self)
        ensures
            r.inv(),
            all_empty(r@.queues),
            r@.service == Map::<u64, u128>::empty(),
            forall|p: int| 0 <= p < NUM_BUCKETS ==> #[trigger] r@.order[p] == p,
            r@.completions == 0,
            r@.unsampled == 0,
            r@.head == 0,
            r@.pops == 0,
    {
        let mut queues: Vec<VecDeque<TaskId>> = Vec::new();
        let mut identity: [usize; NUM_BUCKETS] = [0;NUM_BUCKETS];
        let mut i: usize = 0;
        while i < NUM_BUCKETS
            invariant
                i <= NUM_BUCKETS,
                queues@.len() == i,
                forall|j: int| 0 <= j < i ==> (#[trigger] queues@[j])@.len() == 0,
                forall|j: int| 0 <= j < i ==> #[trigger] identity@[j] == j,
            decreases NUM_BUCKETS - i,
        {
            queues.push(VecDeque::new());
            identity[i] = i;
            i = i + 1;
        }
        proof {
            lemma_zero_mask(0);
        }
        let r = QSRPT {
            present: 0,
            queues,
            service: new_service_times(1024),
            priority_to_bucket: identity,
            bucket_to_priority: identity,
            completion_count: 0,
            sample_counter: 0,
            head: 0,
            iter: 0,
        };
        assert(r@.service =~= Map::empty());
        r
    }

    /// The service time of a group in nanoseconds; zero if it was not observed.
    pub fn service_time(&self, gid: u64) -> (r: u128)
        ensures
            r == self@.service_of(gid),
    {
        match find_service_time(&self.service, gid) {
            Some(time) => *time,
            None => 0,
        }
    }

    /// Lists the buckets by the given estimates.
    fn sort_buckets(expected: &[u64; NUM_BUCKETS]) -> (order: [usize; NUM_BUCKETS])
        ensures
            is_order(order@),
            is_sorted_by(expected@, order@),
    {
        let mut order: [usize; NUM_BUCKETS] = [0;NUM_BUCKETS];
        let mut b: usize = 0;
        while b < NUM_BUCKETS
            invariant
                b <= NUM_BUCKETS,
                is_sorted_by(expected@, order@.take(b as int)),
                forall|c: usize| c < b <==> #[trigger] order@.take(b as int).contains(c),
            decreases NUM_BUCKETS - b,
        {
            let ghost sorted = order@.take(b as int);
            proof {
                assert forall|k: int| 0 <= k < b implies (#[trigger] sorted[k]) < b by {
                    assert(sorted.contains(sorted[k]));
                }
            }
            let mut j: usize = b;
            while j > 0 && expected[order[j - 1]] > expected[b]
                invariant
                    j <= b < NUM_BUCKETS,
                    sorted.len() == b,
                    forall|c: usize| c < b <==> #[trigger] sorted.contains(c),
                    forall|k: int| 0 <= k < j ==> #[trigger] order@[k] == sorted[k],
                    forall|k: int| j < k <= b ==> #[trigger] order@[k] == sorted[k - 1],
                    forall|k: int|
                        j <= k < b ==> expected@[(#[trigger] sorted[k]) as int]
                            > expected@[b as int],
                    forall|k: int| 0 <= k < b ==> (#[trigger] sorted[k]) < b,
                decreases j,
            {
                order[j] = order[j - 1];
                j = j - 1;
            }
            order[j] = b;
            proof {
                assert(order@.take(b + 1) =~= sorted.insert(j as int, b));
                lemma_sorted_insert(expected@, sorted, j as int, b);
            }
            b = b + 1;
        }
        assert(order@.take(NUM_BUCKETS as int) =~= order@);
        order
    }

    /// Orders the queues by the given estimates of the remaining time in each bucket, shortest
    /// first.
    pub fn recompute_priority_order(&mut self, expected: &[u64; NUM_BUCKETS])
        requires
            old(self).inv(),
        ensures
            final(self).inv(),
            is_order(final(self)@.order),
            is_sorted_by(expected@, final(self)@.order),
            final(self)@ == (QsrptState { order: final(self)@.order, ..old(self)@ }),
    {
        let order: [usize; NUM_BUCKETS] = Self::sort_buckets(expected);
        let mut priority: usize = 0;
        while priority < NUM_BUCKETS
            invariant
                priority <= NUM_BUCKETS,
                is_order(order@),
                self.queues == old(self).queues,
                self.service == old(self).service,
                self.completion_count == old(self).completion_count,
                self.sample_counter == old(self).sample_counter,
                self.head == old(self).head,
                self.iter == old(self).iter,
                forall|p: int|
                    0 <= p < priority ==> self.bucket_to_priority@[(#[trigger] order@[p]) as int]
                        == p,
            decreases NUM_BUCKETS - priority,
        {
            proof {
                assert forall|p: int| 0 <= p < NUM_BUCKETS implies (#[trigger] order@[p])
                    < NUM_BUCKETS by {
                    assert(order@.contains(order@[p]));
                }
            }
            self.bucket_to_priority[order[priority]] = priority;
            priority = priority + 1;
        }
        self.priority_to_bucket = order;
        proof {
            assert forall|p: int|
                0 <= p < NUM_BUCKETS implies 0 <= #[trigger] self.priority_to_bucket@[p]
                < NUM_BUCKETS && self.bucket_to_priority@[self.priority_to_bucket@[p] as int]
                == p by {
                assert(order@.contains(order@[p]));
            }
            assert forall|b: int|
                0 <= b < NUM_BUCKETS implies 0 <= #[trigger] self.bucket_to_priority@[b]
                < NUM_BUCKETS && self.priority_to_bucket@[self.bucket_to_priority@[b] as int]
                == b by {
                assert(order@.contains(b as usize));
                let p = choose|p: int| 0 <= p < order@.len() && order@[p] == b as usize;
                assert(self.bucket_to_priority@[order@[p] as int] == p);
            }
        }
        self.present = 0;
        proof {
            lemma_zero_mask(0);
        }
        let mut bucket: usize = 0;
        while bucket < NUM_BUCKETS
            invariant
                bucket <= NUM_BUCKETS,
                self.queues == old(self).queues,
                self.queues@.len() == NUM_BUCKETS,
                self.service == old(self).service,
                self.completion_count == old(self).completion_count,
                self.sample_counter == old(self).sample_counter,
                self.head == old(self).head,
                self.iter == old(self).iter,
                self.priority_to_bucket@ == order@,
                self.maps_inv(),
                forall|p: int|
                    0 <= p < NUM_BUCKETS ==> #[trigger] bit(self.present, p) == (
                    self.priority_to_bucket@[p] < bucket
                        && self.queues@[self.priority_to_bucket@[p] as int]@.len() > 0),
            decreases NUM_BUCKETS - bucket,
        {
            let ghost present = self.present;
            if self.queues[bucket].len() > 0 {
                self.present = with_bit(self.present, self.bucket_to_priority[bucket]);
            }
            proof {
                assert forall|p: int|
                    0 <= p < NUM_BUCKETS implies #[trigger] bit(self.present, p) == (
                self.priority_to_bucket@[p] < bucket + 1
                    && self.queues@[self.priority_to_bucket@[p] as int]@.len() > 0) by {
                    assert(bit(present, p) == (self.priority_to_bucket@[p] < bucket
                        && self.queues@[self.priority_to_bucket@[p] as int]@.len() > 0));
                    assert(self.bucket_to_priority@[self.priority_to_bucket@[p] as int] == p);
                    assert(self.priority_to_bucket@[self.bucket_to_priority@[bucket as int] as int]
                        == bucket);
                }
            }
            bucket = bucket + 1;
        }
        proof {
            assert forall|p: int| 0 <= p < NUM_BUCKETS implies #[trigger] bit(self.present, p) == (
            self.queues@[self.priority_to_bucket@[p] as int]@.len() > 0) by {
                assert(self.priority_to_bucket@[p] < NUM_BUCKETS);
            }
            self.lemma_shape();
        }
    }

    /// Takes the front of the queue of `bucket`, which is not empty.
    fn take_front(&mut self, bucket: usize) -> (r: Option<TaskId>)
        requires
            old(self).inv(),
            bucket < NUM_BUCKETS,
        ensures
            final(self).inv(),
            match r {
                None => old(self)@.queues[bucket as int].len() == 0 && final(self)@ == old(self)@,
                Some(id) => {
                    &&& old(self)@.queues[bucket as int].len() > 0
                    &&& id == old(self)@.queues[bucket as int][0]
                    &&& final(self)@ == (QsrptState {
                        queues: drop_front(old(self)@.queues, bucket as int),
                        ..old(self)@
                    })
                },
            },
    {
        let r = self.queues[bucket].pop_front();
        if r.is_some() && self.queues[bucket].len() == 0 {
            self.present = without_bit(self.present, self.bucket_to_priority[bucket]);
        }
        proof {
            assert forall|p: int| 0 <= p < NUM_BUCKETS implies #[trigger] bit(self.present, p) == (
            self.queues@[self.priority_to_bucket@[p] as int]@.len() > 0) by {
                assert(bit(old(self).present, p) == (old(
                    self,
                ).queues@[self.priority_to_bucket@[p] as int]@.len() > 0));
                assert(self.bucket_to_priority@[self.priority_to_bucket@[p] as int] == p);
                assert(self.priority_to_bucket@[self.bucket_to_priority@[bucket as int] as int]
                    == bucket);
            }
            if r is Some {
                assert(self@.queues =~= drop_front(old(self)@.queues, bucket as int));
            } else {
                assert(self@.queues =~= old(self)@.queues);
            }
        }
        r
    }

    /// Takes the front task of the queue that is next in turn, whatever its priority.
    pub fn fair_pop(&mut self) -> (r: Option<TaskId>)
        requires
            old(self).inv(),
            !all_empty(old(self)@.queues),
        ensures
            final(self).inv(),
            r matches Some(id) && exists|b: int| #[trigger]
                is_next_in_turn(old(self)@.queues, old(self)@.head, b) && id
                    == old(self)@.queues[b][0] && final(self)@ == (QsrptState {
                    queues: drop_front(old(self)@.queues, b),
                    head: following(b),
                    ..old(self)@
                }),
    {
        proof {
            self.lemma_shape();
        }
        let mut passed: usize = 0;
        while passed < NUM_BUCKETS
            invariant
                old(self).inv(),
                old(self)@.queues.len() == NUM_BUCKETS,
                0 <= old(self)@.head < NUM_BUCKETS,
                self.inv(),
                passed <= NUM_BUCKETS,
                self@ == (QsrptState { head: self@.head, ..old(self)@ }),
                passed < NUM_BUCKETS ==> turn(old(self)@.head, self@.head) == passed,
                forall|i: int|
                    0 <= i < NUM_BUCKETS && turn(old(self)@.head, i) < passed ==> (
                    #[trigger] old(self)@.queues[i]).len() == 0,
            decreases NUM_BUCKETS - passed,
        {
            let bucket: usize = self.head;
            self.head = (bucket + 1) % NUM_BUCKETS;
            assert(self@.head == following(bucket as int));
            assert(self@.queues == old(self)@.queues);
            if let Some(id) = self.take_front(bucket) {
                assert(is_next_in_turn(old(self)@.queues, old(self)@.head, bucket as int));
                return Some(id);
            }
            proof {
                assert forall|i: int|
                    0 <= i < NUM_BUCKETS && turn(old(self)@.head, i) < passed + 1 implies (
                #[trigger] old(self)@.queues[i]).len() == 0 by {
                    if turn(old(self)@.head, i) == passed {
                        assert(i == bucket);
                    }
                }
            }
            passed = passed + 1;
        }
        proof {
            assert forall|i: int| 0 <= i < old(self)@.queues.len() implies (
            #[trigger] old(self)@.queues[i]).len() == 0 by {
                assert(turn(old(self)@.head, i) < NUM_BUCKETS);
            }
            assert(all_empty(old(self)@.queues));
        }
        None
    }

    /// Takes the front task of the non-empty queue with the highest priority.
    fn priority_pop(&mut self) -> (r: Option<TaskId>)
        requires
            old(self).inv(),
            !all_empty(old(self)@.queues),
        ensures
            final(self).inv(),
            r matches Some(id) && exists|p: int| #[trigger]
                is_foremost(old(self)@.queues, old(self)@.order, p) && id == old(
                    self,
                )@.queues[old(self)@.order[p] as int][0] && final(self)@ == (QsrptState {
                    queues: drop_front(old(self)@.queues, old(self)@.order[p] as int),
                    ..old(self)@
                }),
    {
        proof {
            self.lemma_present();
        }
        let priority: usize = lowest_bit(self.present);
        let bucket: usize = self.priority_to_bucket[priority];
        proof {
            assert(bit(self.present, priority as int));
            assert forall|q: int| 0 <= q < priority implies self@.queues[(
            #[trigger] self@.order[q]) as int].len() == 0 by {
                assert(!bit(self.present, q));
            }
            assert(is_foremost(self@.queues, self@.order, priority as int));
        }
        self.take_front(bucket)
    }

    /// Queues a task behind those of the same bucket.
    pub fn push(&mut self, id: TaskId, gid: u64, at: Nanos)
        requires
            old(self).inv(),
        ensures
            final(self).inv(),
            final(self)@ == (QsrptState {
                queues: append(old(self)@.queues, old(self)@.bucket(gid), id),
                ..old(self)@
            }),
            final(self)@ == old(self)@.pushed(id, gid),
            final(self).queued() == old(self).queued().insert(id),
    {
        let service_us: u128 = self.service_time(gid) / 1000;
        let bucket: usize = micros_to_bucket(service_us);
        proof {
            bucket_of_covers(service_us as nat);
            lemma_pooled_push(self@.queues, bucket as int, id);
        }
        self.queues[bucket].push_back(id);
        self.present = with_bit(self.present, self.bucket_to_priority[bucket]);
        proof {
            assert forall|p: int| 0 <= p < NUM_BUCKETS implies #[trigger] bit(self.present, p) == (
            self.queues@[self.priority_to_bucket@[p] as int]@.len() > 0) by {
                assert(bit(old(self).present, p) == (old(
                    self,
                ).queues@[self.priority_to_bucket@[p] as int]@.len() > 0));
                assert(self.bucket_to_priority@[self.priority_to_bucket@[p] as int] == p);
                assert(self.priority_to_bucket@[self.bucket_to_priority@[bucket as int] as int]
                    == bucket);
            }
            assert(self@.queues =~= append(old(self)@.queues, bucket as int, id));
        }
    }

    /// Takes the oldest task of the bucket with the highest priority among those with tasks.
    pub fn pop(&mut self) -> (r: Option<TaskId>)
        requires
            old(self).inv(),
        ensures
            final(self).inv(),
            match r {
                None => {
                    &&& all_empty(old(self)@.queues)
                    &&& old(self).queued() == Multiset::<TaskId>::empty()
                    &&& final(self)@ == old(self)@
                },
                Some(id) => {
                    &&& exists|p: int| #[trigger]
                        is_foremost(old(self)@.queues, old(self)@.order, p) && id == old(
                            self,
                        )@.queues[old(self)@.order[p] as int][0] && final(self)@ == (QsrptState {
                            queues: drop_front(old(self)@.queues, old(self)@.order[p] as int),
                            pops: counted(old(self)@.pops),
                            ..old(self)@
                        }) && final(self)@ == old(self)@.rest(p)
                    &&& old(self).queued().contains(id)
                    &&& final(self).queued() == old(self).queued().remove(id)
                },
            },
    {
        proof {
            self.lemma_present();
            self.lemma_shape();
        }
        if self.present == 0 {
            return None;
        }
        self.iter = self.iter.wrapping_add(1);
        let ghost before = *self;
        let r = self.priority_pop();
        proof {
            let id = r->Some_0;
            let p = choose|p: int| #[trigger]
                is_foremost(before@.queues, before@.order, p) && id
                    == before@.queues[before@.order[p] as int][0] && self@ == (QsrptState {
                    queues: drop_front(before@.queues, before@.order[p] as int),
                    ..before@
                });
            assert(is_foremost(old(self)@.queues, old(self)@.order, p));
            assert(old(self)@.order.contains(old(self)@.order[p]));
            lemma_pooled_pop(old(self)@.queues, old(self)@.order[p] as int);
        }
        r
    }

    /// Keeps no state per task.
    pub fn clear_task_state(&mut self, id: TaskId, gid: u64)
        ensures
            *final(self) == *old(self),
    {
    }

    /// Counts a completed group, and says what is to be recorded of it.
    pub fn on_completion(&mut self, total_service_ns: u128) -> (r: Completion)
        requires
            old(self).inv(),
        ensures
            final(self).inv(),
            final(self)@ == old(self)@.complete(),
            match r.sample {
                Some(samples) => {
                    &&& old(self)@.samples_next()
                    &&& remaining_at_entry((total_service_ns / 1000) as nat, samples@)
                },
                None => !old(self)@.samples_next(),
            },
            r.reorder == (counted(old(self)@.completions) % REORDER_INTERVAL == 0),
            r.reorder <==> (old(self)@.completions + 1) % 128 == 0,
            r.reorder <==> old(self)@.reorders(),
            r.sample is Some <==> old(self)@.unsampled + 1 >= 4,
    {
        self.completion_count = self.completion_count.wrapping_add(1);
        self.sample_counter = self.sample_counter + 1;
        let mut sample: Option<Vec<u128>> = None;
        if self.sample_counter >= SAMPLE_RATE {
            self.sample_counter = 0;
            sample = Some(entry_samples(total_service_ns / 1000));
        }
        Completion { sample, reorder: self.completion_count % REORDER_INTERVAL == 0 }
    }

    /// Forgets a group. If it was ever observed it counts as completed, and the result says what
    /// is to be recorded of it.
    pub fn clear_group_state(&mut self, gid: u64) -> (r: Option<Completion>)
        requires
            old(self).inv(),
        ensures
            final(self).inv(),
            match r {
                None => {
                    &&& !old(self)@.service.contains_key(gid)
                    &&& final(self)@ == old(self)@
                },
                Some(completion) => {
                    &&& old(self)@.service.contains_key(gid)
                    &&& final(self)@ == (QsrptState {
                        service: old(self)@.service.remove(gid),
                        ..old(self)@.complete()
                    })
                    &&& final(self)@ == old(self)@.cleared(gid)
                    &&& match completion.sample {
                        Some(samples) => {
                            &&& old(self)@.samples_next()
                            &&& remaining_at_entry(
                                (old(self)@.service[gid] / 1000) as nat,
                                samples@,
                            )
                        },
                        None => !old(self)@.samples_next(),
                    }
                    &&& completion.reorder == (counted(old(self)@.completions) % REORDER_INTERVAL
                        == 0)
                    &&& completion.reorder <==> (old(self)@.completions + 1) % 128 == 0
                    &&& completion.reorder <==> old(self)@.reorders()
                    &&& completion.sample is Some <==> old(self)@.unsampled + 1 >= 4
                },
            },
    {
        let total: u128 = match find_service_time(&self.service, gid) {
            None => {
                return None;
            },
            Some(time) => *time,
        };
        let completion = self.on_completion(total);
        remove_service_time(&mut self.service, gid);
        Some(completion)
    }

    /// Whether any task is queued.
    pub fn is_runnable(&self) -> (r: bool)
        requires
            self.inv(),
        ensures
            r == !all_empty(self@.queues),
            r == (self.queued() != Multiset::<TaskId>::empty()),
    {
        proof {
            self.lemma_present();
        }
        self.present != 0
    }

    /// Adds the time from `start` to `end` to the service time of a group.
    pub fn observe(&mut self, id: TaskId, gid: u64, start: Nanos, end: Nanos, ready: bool)
        requires
            old(self).inv(),
            old(self)@.service_of(gid) + span(start, end) <= u128::MAX,
        ensures
            final(self).inv(),
            final(self)@ == (QsrptState {
                service: old(self)@.service.insert(
                    gid,
                    (old(self)@.service_of(gid) + span(start, end)) as u128,
                ),
                ..old(self)@
            }),
            final(self)@ == old(self)@.observed(gid, start, end),
    {
        let total: u128 = self.service_time(gid) + duration_since(end, start);
        insert_service_time(&mut self.service, gid, total);
    }
}

impl Default for QSRPT {
    /// Starts without tasks and without known service times, with the lowest bucket first.
    fn default() -> (r: Self)
        ensures
            r.inv(),
            all_empty(r@.queues),
            r@.service == Map::<u64, u128>::empty(),
            forall|p: int| 0 <= p < NUM_BUCKETS ==> #[trigger] r@.order[p] == p,
            r@.completions == 0,
            r@.unsampled == 0,
            r@.head == 0,
            r@.pops == 0,
    {
        Self::new()
    }
}

proof fn lemma_orders_agree(expected: Seq<u64>, a: Seq<usize>, b: Seq<usize>, p: int)
    requires
        is_order(a),
        is_order(b),
        is_sorted_by(expected, a),
        is_sorted_by(expected, b),
        0 <= p <= NUM_BUCKETS,
    ensures
        forall|k: int| 0 <= k < p ==> a[k] == b[k],
    decreases p,
{
    if p > 0 {
        let k = p - 1;
        lemma_orders_agree(expected, a, b, k);
        if a[k] != b[k] {
            assert(a.contains(a[k]) && b.contains(b[k]));
            assert(b.contains(a[k]) && a.contains(b[k]));
            let i = choose|i: int| 0 <= i < b.len() && b[i] == a[k];
            let j = choose|j: int| 0 <= j < a.len() && a[j] == b[k];
            assert(i > k && j > k);
            assert(comes_before(expected, a[k], a[j]));
            assert(comes_before(expected, b[k], b[i]));
        }
    }
}

/// The estimates determine the order of the buckets.
pub proof fn sorted_order_is_unique(expected: Seq<u64>, a: Seq<usize>, b: Seq<usize>)
    requires
        is_order(a),
        is_order(b),
        is_sorted_by(expected, a),
        is_sorted_by(expected, b),
    ensures
        a == b,
{
    lemma_orders_agree(expected, a, b, NUM_BUCKETS as int);
    assert(a =~= b);
}

/// At most one priority is the foremost with tasks.
pub proof fn foremost_is_unique(queues: Seq<Seq<TaskId>>, order: Seq<usize>, p: int, q: int)
    requires
        is_foremost(queues, order, p),
        is_foremost(queues, order, q),
    ensures
        p == q,
{
    if p < q {
        assert(queues[order[p] as int].len() == 0);
    } else if q < p {
        assert(queues[order[q] as int].len() == 0);
    }
}

/// Where the order follows the estimates, the bucket that is served has the shortest expected
/// remaining time among the buckets with tasks, and is the lowest of those with the shortest.
pub proof fn served_bucket_is_shortest(
    expected: Seq<u64>,
    queues: Seq<Seq<TaskId>>,
    order: Seq<usize>,
    p: int,
    b: usize,
)
    requires
        is_order(order),
        is_sorted_by(expected, order),
        is_foremost(queues, order, p),
        b < NUM_BUCKETS,
        queues[b as int].len() > 0,
    ensures
        expected[order[p] as int] <= expected[b as int],
        expected[order[p] as int] == expected[b as int] ==> order[p] <= b,
{
    assert(order.contains(b));
    let q = choose|q: int| 0 <= q < order.len() && order[q] == b;
    if q < p {
        assert(queues[order[q] as int].len() == 0);
    } else if p < q {
        assert(comes_before(expected, order[p], order[q]));
    }
}

/// Service adds up: after any runs of a group, its service time is what it was before and what the
/// runs took together, that of every other group is what it was, and nothing else changes.
pub proof fn service_adds_up(state: QsrptState, group: u64, other: u64, runs: Seq<(Nanos, Nanos)>)
    requires
        state.service_of(group) + total_time(runs) <= u128::MAX,
        other != group,
    ensures
        state.observed_all(group, runs).service_of(group) == state.service_of(group) + total_time(
            runs,
        ),
        state.observed_all(group, runs).service_of(other) == state.service_of(other),
        runs.len() > 0 ==> state.observed_all(group, runs).service.contains_key(group),
        state.observed_all(group, runs).service.contains_key(other)
            == state.service.contains_key(other),
        state.observed_all(group, runs) == (QsrptState {
            service: state.observed_all(group, runs).service,
            ..state
        }),
    decreases runs.len(),
{
    if runs.len() > 0 {
        lemma_last_run(runs);
        service_adds_up(state, group, other, runs.drop_last());
    }
}

/// The service time of a group is what is recorded of it, and zero without a record; a group that
/// completed loses its record, counts, and leaves the others, the queues and their order alone.
pub proof fn completed_group_is_forgotten(state: QsrptState, group: u64, other: u64)
    requires
        other != group,
    ensures
        state.service.contains_key(group) ==> state.service_of(group) == state.service[group],
        !state.service.contains_key(group) ==> state.service_of(group) == 0,
        !state.cleared(group).service.contains_key(group),
        state.cleared(group).service_of(other) == state.service_of(other),
        state.cleared(group).service.contains_key(other) == state.service.contains_key(other),
        state.cleared(group).completions as int == (state.completions + 1)
            % 0x1_0000_0000_0000_0000,
        state.cleared(group).unsampled == state.complete().unsampled,
        state.cleared(group).queues == state.queues,
        state.cleared(group).order == state.order,
        state.cleared(group).head == state.head,
        state.cleared(group).pops == state.pops,
{
}

/// Every 4th completion is sampled, and each one counts.
pub proof fn every_fourth_completion_is_sampled(state: QsrptState, n: nat)
    requires
        state.unsampled < 4,
    ensures
        state.complete_times(n).samples_next() <==> (state.unsampled + n + 1) % 4 == 0,
        state.complete_times(n).unsampled == (state.unsampled + n) % 4,
        state.complete_times(n).completions as int == (state.completions + n)
            % 0x1_0000_0000_0000_0000,
        state.complete_times(n) == (QsrptState {
            completions: state.complete_times(n).completions,
            unsampled: state.complete_times(n).unsampled,
            ..state
        }),
    decreases n,
{
    if n > 0 {
        every_fourth_completion_is_sampled(state, (n - 1) as nat);
    }
}

/// The queue of a group covers the whole microseconds that the group was served: `2^b` or more
/// above queue 0, and less than `2^(b+1)` below queue 31.
pub proof fn queue_covers_the_service(state: QsrptState, group: u64)
    ensures
        0 <= state.bucket(group) <= 31,
        state.bucket(group) > 0 ==> pow2(state.bucket(group) as nat) <= state.service_of(group)
            / 1000,
        state.bucket(group) < 31 ==> state.service_of(group) / 1000 < pow2(
            (state.bucket(group) + 1) as nat,
        ),
{
    bucket_of_covers((state.service_of(group) / 1000) as nat);
}

/// A group that was served more never joins a lower queue.
pub proof fn more_service_is_no_lower_queue(state: QsrptState, g: u64, h: u64)
    requires
        state.service_of(g) <= state.service_of(h),
    ensures
        state.bucket(g) <= state.bucket(h),
{
    bucket_of_monotone(
        (state.service_of(g) / 1000) as nat,
        (state.service_of(h) / 1000) as nat,
    );
}

/// Pushed tasks stand in their group's queue behind those that were there, in the order in which
/// they were pushed, and nothing else changes.
pub proof fn pushed_tasks_queue_up(state: QsrptState, ids: Seq<TaskId>, group: u64)
    requires
        state.queues.len() == 32,
    ensures
        state.pushed_all(ids, group).queues.len() == 32,
        state.pushed_all(ids, group).queues[state.bucket(group)]
            == state.queues[state.bucket(group)] + ids,
        forall|c: int|
            0 <= c < 32 && c != state.bucket(group) ==> #[trigger] state.pushed_all(
                ids,
                group,
            ).queues[c] == state.queues[c],
        state.pushed_all(ids, group) == (QsrptState {
            queues: state.pushed_all(ids, group).queues,
            ..state
        }),
    decreases ids.len(),
{
    let b = state.bucket(group);
    bucket_of_covers((state.service_of(group) / 1000) as nat);
    if ids.len() > 0 {
        pushed_tasks_queue_up(state, ids.drop_last(), group);
        assert((state.queues[b] + ids.drop_last()).push(ids.last()) =~= state.queues[b] + ids);
    } else {
        assert(state.queues[b] + ids =~= state.queues[b]);
    }
}

/// A pop serves the first queue in order of priority that holds something, takes its front task and
/// counts; nothing else changes.
pub proof fn pop_takes_the_foremost_task(state: QsrptState, p: int)
    requires
        is_foremost(state.queues, state.order, p),
        forall|q: int|
            0 <= q < state.order.len() ==> (#[trigger] state.order[q]) < state.queues.len(),
    ensures
        0 <= p < state.order.len(),
        state.queues[state.order[p] as int].len() > 0,
        forall|q: int|
            0 <= q < p ==> state.queues[(#[trigger] state.order[q]) as int].len() == 0,
        seq![state.queues[state.order[p] as int][0]] + state.rest(p).queues[state.order[p] as int]
            == state.queues[state.order[p] as int],
        forall|c: int|
            0 <= c < state.queues.len() && c != state.order[p] ==> #[trigger] state.rest(
                p,
            ).queues[c] == state.queues[c],
        state.rest(p).pops as int == (state.pops + 1) % 0x1_0000_0000_0000_0000,
        state.rest(p) == (QsrptState {
            queues: state.rest(p).queues,
            pops: state.rest(p).pops,
            ..state
        }),
{
    front_item_leaves(state.queues, state.order[p] as int);
}

/// An order of the buckets lists each of the 32 buckets at exactly one place.
pub proof fn order_lists_each_bucket_once(order: Seq<usize>, b: usize)
    requires
        is_order(order),
        b < 32,
    ensures
        order.len() == 32,
        exists|p: int| 0 <= p < 32 && #[trigger] order[p] == b,
        forall|p: int, q: int|
            0 <= p < 32 && 0 <= q < 32 && #[trigger] order[p] == #[trigger] order[q] ==> p == q,
        forall|p: int| 0 <= p < 32 ==> (#[trigger] order[p]) < 32,
{
    assert(order.contains(b));
    assert forall|p: int| 0 <= p < 32 implies (#[trigger] order[p]) < 32 by {
        assert(order.contains(order[p]));
    }
}

/// Of two buckets in an order that follows the estimates, the one with the lesser estimate comes
/// first, and the lower one where the estimates are equal.
pub proof fn order_follows_the_estimates(expected: Seq<u64>, order: Seq<usize>, p: int, q: int)
    requires
        is_order(order),
        is_sorted_by(expected, order),
        0 <= p < q < 32,
    ensures
        expected[order[p] as int] <= expected[order[q] as int],
        expected[order[p] as int] == expected[order[q] as int] ==> order[p] < order[q],
{
    assert(comes_before(expected, order[p], order[q]));
}

/// The queues are to be reordered after every 128th completion.
pub proof fn completions_lead_to_reordering(state: QsrptState)
    ensures
        state.reorders() <==> (state.completions + 1) % 128 == 0,
{
}

} // verus!
