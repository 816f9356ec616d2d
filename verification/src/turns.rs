//! Queues that are served in turn.
use crate::bucket::NUM_BUCKETS;
use vstd::prelude::*;

verus! {

/// How many queues come before queue `b` when turns start at queue `head`.
pub open spec fn turn(head: int, b: int) -> int {
    if b >= head {
        b - head
    } else {
        b - head + NUM_BUCKETS
    }
}

/// The queue that follows queue `b` in turn.
pub open spec fn following(b: int) -> int {
    if b + 1 < NUM_BUCKETS {
        b + 1
    } else {
        0
    }
}

/// Whether `b` is the first non-empty queue when turns start at queue `head`.
pub open spec fn is_next_in_turn<T>(queues: Seq<Seq<T>>, head: int, b: int) -> bool {
    &&& 0 <= b < queues.len()
    &&& queues[b].len() > 0
    &&& forall|i: int|
        0 <= i < queues.len() && (#[trigger] queues[i]).len() > 0 ==> turn(head, b) <= turn(head, i)
}

/// At most one queue is next in turn.
pub proof fn next_in_turn_is_unique<T>(queues: Seq<Seq<T>>, head: int, a: int, b: int)
    requires
        queues.len() == NUM_BUCKETS,
        0 <= head < NUM_BUCKETS,
        is_next_in_turn(queues, head, a),
        is_next_in_turn(queues, head, b),
    ensures
        a == b,
{
    assert(queues[a].len() > 0);
    assert(queues[b].len() > 0);
}

/// A run of turns: the queues before each turn, where each turn starts, and which queue it serves.
pub struct Turns<T> {
    pub queues: Seq<Seq<Seq<T>>>,
    pub heads: Seq<int>,
    pub served: Seq<int>,
}

impl<T> Turns<T> {
    /// Each turn serves the next queue, and the turn after it starts behind that queue. Between
    /// turns the queues may change in any way.
    pub open spec fn valid(self) -> bool {
        &&& self.queues.len() == self.served.len()
        &&& self.heads.len() == self.served.len() + 1
        &&& forall|k: int|
            0 <= k < self.heads.len() ==> 0 <= #[trigger] self.heads[k] < NUM_BUCKETS
        &&& forall|k: int|
            #![trigger self.served[k]]
            0 <= k < self.served.len() ==> {
                &&& self.queues[k].len() == NUM_BUCKETS
                &&& is_next_in_turn(self.queues[k], self.heads[k], self.served[k])
                &&& self.heads[k + 1] == following(self.served[k])
            }
    }

    /// Queue `b` has something waiting at every turn and is never served.
    pub open spec fn passes_over(self, b: int) -> bool {
        forall|k: int|
            #![trigger self.served[k]]
            0 <= k < self.served.len() ==> self.queues[k][b].len() > 0 && self.served[k] != b
    }
}

proof fn lemma_turn_comes_closer<T>(turns: Turns<T>, b: int, k: int)
    requires
        turns.valid(),
        turns.passes_over(b),
        0 <= b < NUM_BUCKETS,
        0 <= k < turns.heads.len(),
    ensures
        turn(turns.heads[k], b) + k <= turn(turns.heads[0], b),
    decreases k,
{
    if k > 0 {
        lemma_turn_comes_closer(turns, b, k - 1);
        let served = turns.served[k - 1];
        assert(is_next_in_turn(turns.queues[k - 1], turns.heads[k - 1], served));
        assert(turns.queues[k - 1][b].len() > 0);
        assert(turns.heads[k] == following(served));
        assert(0 <= turns.heads[k - 1] < NUM_BUCKETS);
    }
}

/// Nothing starves: a queue with something waiting is passed over in fewer turns than there are
/// queues, whatever joins and leaves the queues in the meantime.
pub proof fn turns_pass_over_briefly<T>(turns: Turns<T>, b: int)
    requires
        turns.valid(),
        turns.passes_over(b),
        0 <= b < NUM_BUCKETS,
    ensures
        turns.served.len() < NUM_BUCKETS,
{
    lemma_turn_comes_closer(turns, b, turns.served.len() as int);
    assert(0 <= turns.heads[0] < NUM_BUCKETS);
    assert(0 <= turns.heads[turns.served.len() as int] < NUM_BUCKETS);
}

/// The queue that is served in turn is the first one that holds something when the 32 queues are
/// gone through upwards from `head`, with the first one after the last; the next turn starts behind
/// it.
pub proof fn turns_go_round<T>(queues: Seq<Seq<T>>, head: int, b: int)
    requires
        queues.len() == 32,
        0 <= head < 32,
        is_next_in_turn(queues, head, b),
    ensures
        0 <= b < 32,
        queues[b].len() > 0,
        following(b) == (b + 1) % 32,
        exists|n: int|
            0 <= n < 32 && b == #[trigger] ((head + n) % 32) && forall|i: int|
                0 <= i < n ==> queues[#[trigger] ((head + i) % 32)].len() == 0,
{
    let n = turn(head, b);
    assert(b == (head + n) % 32);
    assert forall|i: int| 0 <= i < n implies queues[#[trigger] ((head + i) % 32)].len() == 0 by {
        let c = (head + i) % 32;
        assert(turn(head, c) == i);
        if queues[c].len() > 0 {
            assert(turn(head, b) <= turn(head, c));
        }
    }
}

} // verus!
