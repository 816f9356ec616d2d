//! A row of first-in-first-out queues with a bitmask of the non-empty ones.
use crate::bits::{bit, has_bit, lemma_zero_mask, lowest_bit, with_bit, without_bit};
use crate::bucket::NUM_BUCKETS;
use std::collections::VecDeque;
use vstd::prelude::*;

verus! {

/// The contents of each queue of a row.
pub open spec fn rows<T>(queues: Seq<VecDeque<T>>) -> Seq<Seq<T>> {
    queues.map_values(|q: VecDeque<T>| q@)
}

/// Whether `b` is the lowest non-empty queue.
pub open spec fn is_lowest<T>(queues: Seq<Seq<T>>, b: int) -> bool {
    &&& 0 <= b < queues.len()
    &&& queues[b].len() > 0
    &&& forall|i: int| 0 <= i < b ==> (#[trigger] queues[i]).len() == 0
}

/// At most one queue is the lowest non-empty one.
pub proof fn lowest_is_unique<T>(queues: Seq<Seq<T>>, a: int, b: int)
    requires
        is_lowest(queues, a),
        is_lowest(queues, b),
    ensures
        a == b,
{
    if a < b {
        assert(queues[a].len() == 0);
    } else if b < a {
        assert(queues[b].len() == 0);
    }
}

/// Whether every queue is empty.
pub open spec fn all_empty<T>(queues: Seq<Seq<T>>) -> bool {
    forall|i: int| 0 <= i < queues.len() ==> (#[trigger] queues[i]).len() == 0
}

/// Queue `b` after its front item has left.
pub open spec fn drop_front<T>(queues: Seq<Seq<T>>, b: int) -> Seq<Seq<T>> {
    queues.update(b, queues[b].subrange(1, queues[b].len() as int))
}

/// Queue `b` after `item` has joined it.
pub open spec fn append<T>(queues: Seq<Seq<T>>, b: int, item: T) -> Seq<Seq<T>> {
    queues.update(b, queues[b].push(item))
}

/// `NUM_BUCKETS` queues; bit `b` of the mask says whether queue `b` holds anything.
pub struct BucketQueues<T> {
    present: u32,
    queues: Vec<VecDeque<T>>,
}

impl<T> View for BucketQueues<T> {
    type V = Seq<Seq<T>>;

    closed spec fn view(&self) -> Seq<Seq<T>> {
        rows(self.queues@)
    }
}

impl<T> BucketQueues<T> {
    /// The row has all its queues and the mask agrees with them.
    pub closed spec fn inv(self) -> bool {
        &&& self.queues@.len() == NUM_BUCKETS
        &&& forall|i: int|
            0 <= i < NUM_BUCKETS ==> #[trigger] bit(self.present, i) == (self.queues@[i]@.len() > 0)
    }

    /// A row in good order has `NUM_BUCKETS` queues.
    pub broadcast proof fn lemma_len(self)
        requires
            #[trigger] self.inv(),
        ensures
            self@.len() == NUM_BUCKETS,
    {
    }

    /// Makes a row of empty queues.
    pub fn new() -> (row: Self)
        ensures
            row.inv(),
            all_empty(row@),
    {
        let mut queues: Vec<VecDeque<T>> = Vec::new();
        let mut i: usize = 0;
        while i < NUM_BUCKETS
            invariant
                i <= NUM_BUCKETS,
                queues@.len() == i,
                forall|j: int| 0 <= j < i ==> (#[trigger] queues@[j])@.len() == 0,
            decreases NUM_BUCKETS - i,
        {
            queues.push(VecDeque::new());
            i = i + 1;
        }
        proof {
            lemma_zero_mask(0);
        }
        BucketQueues { present: 0, queues }
    }

    proof fn lemma_present(self)
        requires
            self.inv(),
        ensures
            self.present == 0 <==> all_empty(self@),
            forall|i: int|
                0 <= i < NUM_BUCKETS ==> #[trigger] bit(self.present, i) == (self@[i].len() > 0),
    {
        lemma_zero_mask(self.present);
        if all_empty(self@) {
            assert forall|i: int| 0 <= i < 32 implies !bit(self.present, i) by {
                assert(self@[i].len() == 0);
            }
        } else {
            let i = choose|i: int| 0 <= i < self@.len() && (#[trigger] self@[i]).len() != 0;
            assert(bit(self.present, i));
        }
    }

    /// Whether every queue is empty.
    pub fn is_empty(&self) -> (r: bool)
        requires
            self.inv(),
        ensures
            r == all_empty(self@),
    {
        proof {
            self.lemma_present();
        }
        self.present == 0
    }

    /// The lowest non-empty queue.
    pub fn lowest(&self) -> (r: Option<usize>)
        requires
            self.inv(),
        ensures
            match r {
                None => all_empty(self@),
                Some(b) => is_lowest(self@, b as int),
            },
    {
        proof {
            self.lemma_present();
        }
        if self.present == 0 {
            None
        } else {
            let b: usize = lowest_bit(self.present);
            proof {
                assert forall|i: int| 0 <= i < b implies (#[trigger] self@[i]).len() == 0 by {
                    assert(!bit(self.present, i));
                }
            }
            Some(b)
        }
    }

    /// The front item of queue `b`.
    pub fn front(&self, b: usize) -> (r: Option<&T>)
        requires
            self.inv(),
            b < NUM_BUCKETS,
        ensures
            match r {
                None => self@[b as int].len() == 0,
                Some(item) => self@[b as int].len() > 0 && *item == self@[b as int][0],
            },
    {
        if self.queues[b].len() == 0 {
            None
        } else {
            Some(&self.queues[b][0])
        }
    }

    /// Appends `item` to queue `b`.
    pub fn push(&mut self, b: usize, item: T)
        requires
            old(self).inv(),
            b < NUM_BUCKETS,
        ensures
            final(self).inv(),
            final(self)@ == append(old(self)@, b as int, item),
    {
        self.queues[b].push_back(item);
        self.present = with_bit(self.present, b);
        assert(self@ =~= append(old(self)@, b as int, item));
    }

    /// Takes the front item off queue `b`.
    pub fn pop(&mut self, b: usize) -> (r: Option<T>)
        requires
            old(self).inv(),
            b < NUM_BUCKETS,
        ensures
            final(self).inv(),
            match r {
                None => old(self)@[b as int].len() == 0 && final(self)@ == old(self)@,
                Some(item) => {
                    &&& old(self)@[b as int].len() > 0
                    &&& item == old(self)@[b as int][0]
                    &&& final(self)@ == drop_front(old(self)@, b as int)
                },
            },
    {
        if !has_bit(self.present, b) {
            return None;
        }
        let item = self.queues[b].pop_front();
        if self.queues[b].len() == 0 {
            self.present = without_bit(self.present, b);
        }
        assert(self@ =~= drop_front(old(self)@, b as int));
        item
    }
}

/// The queues after `items` have joined queue `b`, one after the other.
pub open spec fn append_all<T>(queues: Seq<Seq<T>>, b: int, items: Seq<T>) -> Seq<Seq<T>>
    decreases items.len(),
{
    if items.len() == 0 {
        queues
    } else {
        append(append_all(queues, b, items.drop_last()), b, items.last())
    }
}

/// Items that join a queue stand behind those that were there, in the order in which they joined,
/// and every other queue stays as it is.
pub proof fn items_queue_up_in_order<T>(queues: Seq<Seq<T>>, b: int, items: Seq<T>)
    requires
        0 <= b < queues.len(),
    ensures
        append_all(queues, b, items).len() == queues.len(),
        append_all(queues, b, items)[b] == queues[b] + items,
        forall|c: int|
            0 <= c < queues.len() && c != b ==> #[trigger] append_all(queues, b, items)[c]
                == queues[c],
    decreases items.len(),
{
    if items.len() > 0 {
        items_queue_up_in_order(queues, b, items.drop_last());
        assert((queues[b] + items.drop_last()).push(items.last()) =~= queues[b] + items);
    } else {
        assert(queues[b] + items =~= queues[b]);
    }
}

/// What leaves a queue is its front item, those behind it move up, and every other queue stays as
/// it is.
pub proof fn front_item_leaves<T>(queues: Seq<Seq<T>>, b: int)
    requires
        0 <= b < queues.len(),
        queues[b].len() > 0,
    ensures
        drop_front(queues, b).len() == queues.len(),
        seq![queues[b][0]] + drop_front(queues, b)[b] == queues[b],
        forall|c: int|
            0 <= c < queues.len() && c != b ==> #[trigger] drop_front(queues, b)[c] == queues[c],
{
    assert(seq![queues[b][0]] + drop_front(queues, b)[b] =~= queues[b]);
}

/// A queue is the lowest non-empty one exactly when it holds something and no queue before it does.
pub proof fn nothing_waits_below_the_lowest<T>(queues: Seq<Seq<T>>, b: int)
    ensures
        is_lowest(queues, b) ==> 0 <= b < queues.len() && queues[b].len() > 0,
        is_lowest(queues, b) ==> forall|c: int| 0 <= c < b ==> (#[trigger] queues[c]).len() == 0,
        0 <= b < queues.len() && queues[b].len() > 0 && (forall|c: int|
            0 <= c < b ==> (#[trigger] queues[c]).len() == 0) ==> is_lowest(queues, b),
{
}

/// Every queue is empty exactly when none holds anything.
pub proof fn emptiness_is_of_every_queue<T>(queues: Seq<Seq<T>>)
    ensures
        all_empty(queues) <==> !exists|i: int|
            0 <= i < queues.len() && (#[trigger] queues[i]).len() > 0,
{
}

} // verus!
