//! First in, first out, by the time at which tasks become runnable.
use crate::mpsc::{Channel, Mpsc};
use crate::pool::{lemma_empty, lemma_pop_front, lemma_push_back};
use crate::queue::TaskId;
use crate::scheduler::{channel_tasks, Scheduler};
use crate::time::Nanos;
use std::collections::VecDeque;
use vstd::multiset::Multiset;
use vstd::prelude::*;

verus! {

/// What a `RunnableFifo` holds.
#[verifier::ext_equal]
pub struct FifoState {
    /// the channel it takes tasks from first, once it was given one
    pub channel: Option<Channel<TaskId>>,
    /// the tasks that were pushed, oldest first
    pub pushed: Seq<TaskId>,
}

impl FifoState {
    /// The tasks in the channel, oldest first.
    pub open spec fn in_channel(self) -> Seq<TaskId> {
        match self.channel {
            Some(channel) => channel.items,
            None => Seq::empty(),
        }
    }

    /// The state after a task was pushed.
    pub open spec fn push(self, id: TaskId) -> Self {
        FifoState { pushed: self.pushed.push(id), ..self }
    }

    /// The state after the tasks `ids` were pushed, one after the other.
    pub open spec fn push_all(self, ids: Seq<TaskId>) -> Self
        decreases ids.len(),
    {
        if ids.len() == 0 {
            self
        } else {
            self.push_all(ids.drop_last()).push(ids.last())
        }
    }

    /// What a pop hands out: the oldest task of the channel, or else the oldest pushed task.
    pub open spec fn next(self) -> Option<TaskId> {
        if self.in_channel().len() > 0 {
            Some(self.in_channel()[0])
        } else if self.pushed.len() > 0 {
            Some(self.pushed[0])
        } else {
            None
        }
    }

    /// What a pop leaves.
    pub open spec fn rest(self) -> Self {
        if self.in_channel().len() > 0 {
            FifoState { channel: Some(self.channel->Some_0.take(1)), ..self }
        } else if self.pushed.len() > 0 {
            FifoState { pushed: self.pushed.skip(1), ..self }
        } else {
            self
        }
    }
}

/// Scheduler that does FIFO in order of when tasks become runnable.
/// When initialized with a channel, it drains directly from the channel in `pop`.
pub struct RunnableFifo {
    mpsc: Option<Mpsc<TaskId>>,
    q: VecDeque<TaskId>,
}

impl View for RunnableFifo {
    type V = FifoState;

    closed spec fn view(&self) -> FifoState {
        FifoState {
            channel: match self.mpsc {
                Some(mpsc) => Some(mpsc@),
                None => None,
            },
            pushed: self.q@,
        }
    }
}

impl RunnableFifo {
    /// Starts without a channel and without tasks.
    pub fn new() -> (r: Self)
        ensures
            r.inv(),
            r@ == (FifoState { channel: None, pushed: Seq::empty() }),
    {
        RunnableFifo { mpsc: None, q: VecDeque::new() }
    }

    /// The channel, for those who enqueue to it.
    pub fn channel(&mut self) -> (channel: Option<&mut Mpsc<TaskId>>)
        requires
            old(self).inv(),
        ensures
            match channel {
                Some(mpsc) => {
                    &&& old(self)@.channel == Some(mpsc@)
                    &&& mpsc.inv()
                    &&& final(mpsc).inv() ==> final(self).inv()
                    &&& final(self)@ == (FifoState {
                        channel: Some(final(mpsc)@),
                        ..old(self)@
                    })
                },
                None => old(self)@.channel is None && *final(self) == *old(self),
            },
    {
        self.mpsc.as_mut()
    }

    proof fn lemma_rest(state: FifoState)
        ensures
            match state.next() {
                Some(id) => {
                    let before = state.pushed.to_multiset().add(state.in_channel().to_multiset());
                    let after = state.rest().pushed.to_multiset().add(
                        state.rest().in_channel().to_multiset(),
                    );
                    before.contains(id) && after == before.remove(id)
                },
                None => state.pushed.to_multiset().add(state.in_channel().to_multiset())
                    == Multiset::<TaskId>::empty(),
            },
    {
        let before = state.pushed.to_multiset().add(state.in_channel().to_multiset());
        let after = state.rest().pushed.to_multiset().add(state.rest().in_channel().to_multiset());
        if state.in_channel().len() > 0 {
            lemma_pop_front(state.in_channel());
            assert(state.in_channel().skip(1) =~= state.in_channel().subrange(
                1,
                state.in_channel().len() as int,
            ));
            assert(after =~= before.remove(state.in_channel()[0]));
        } else if state.pushed.len() > 0 {
            lemma_pop_front(state.pushed);
            assert(state.pushed.skip(1) =~= state.pushed.subrange(1, state.pushed.len() as int));
            assert(after =~= before.remove(state.pushed[0]));
        } else {
            lemma_empty(state.pushed);
            lemma_empty(state.in_channel());
            assert(before =~= Multiset::empty());
        }
    }
}

impl Scheduler for RunnableFifo {
    closed spec fn inv(&self) -> bool {
        self.mpsc matches Some(mpsc) ==> mpsc.inv()
    }

    open spec fn queued(&self) -> Multiset<TaskId> {
        self@.pushed.to_multiset().add(self@.in_channel().to_multiset())
    }

    /// Takes tasks from `mpsc` from now on, and hands back the channel it had before.
    fn init(&mut self, mpsc: Mpsc<TaskId>) -> (rest: Option<Mpsc<TaskId>>)
        ensures
            final(self)@ == (FifoState { channel: Some(mpsc@), ..old(self)@ }),
            match rest {
                Some(channel) => old(self)@.channel == Some(channel@),
                None => old(self)@.channel is None,
            },
    {
        let rest = self.mpsc.take();
        self.mpsc = Some(mpsc);
        proof {
            lemma_empty(Seq::<TaskId>::empty());
            assert(self.queued().add(channel_tasks(rest)) =~= old(self).queued().add(
                mpsc@.items.to_multiset(),
            ));
        }
        rest
    }

    fn push(&mut self, id: TaskId, group: u64, at: Nanos)
        ensures
            final(self)@ == (FifoState { pushed: old(self)@.pushed.push(id), ..old(self)@ }),
            final(self)@ == old(self)@.push(id),
    {
        self.q.push_back(id);
        proof {
            lemma_push_back(old(self)@.pushed, id);
            assert(self.queued() =~= old(self).queued().insert(id));
        }
    }

    fn pop(&mut self) -> (r: Option<TaskId>)
        ensures
            r == old(self)@.next(),
            final(self)@ == old(self)@.rest(),
    {
        proof {
            Self::lemma_rest(self@);
        }
        if let Some(mpsc) = &mut self.mpsc {
            if !mpsc.is_empty() {
                return mpsc.pop_one();
            }
        }
        let r = self.q.pop_front();
        assert(r is Some ==> self@.pushed =~= old(self)@.pushed.skip(1));
        r
    }

    fn clear_task_state(&mut self, id: TaskId, group: u64)
        ensures
            *final(self) == *old(self),
    {
    }

    fn may_clear(&self, group: u64) -> (r: bool)
        ensures
            r,
    {
        true
    }

    fn clear_group_state(&mut self, group: u64)
        ensures
            *final(self) == *old(self),
    {
    }

    fn is_runnable(&self) -> (r: bool)
        ensures
            r == (self@.next() is Some),
    {
        proof {
            Self::lemma_rest(self@);
        }
        if self.q.len() > 0 {
            return true;
        }
        if let Some(mpsc) = &self.mpsc {
            return !mpsc.is_empty();
        }
        false
    }

    fn may_observe(&self, group: u64, start: Nanos, end: Nanos) -> (r: bool)
        ensures
            r,
    {
        true
    }

    fn observe(&mut self, id: TaskId, group: u64, start: Nanos, end: Nanos, ready: bool)
        ensures
            *final(self) == *old(self),
    {
    }
}

/// The tasks of the channel are those that are queued in it, and there are none without a channel.
pub proof fn channel_tasks_are_its_items(state: FifoState)
    ensures
        state.channel matches Some(channel) ==> state.in_channel() == channel.items,
        state.channel is None ==> state.in_channel().len() == 0,
{
}

/// Tasks leave one by one from the front of one line: the channel's tasks, oldest first, and behind
/// them the pushed ones, oldest first. None moves between the two parts of the line, and nothing
/// else of the channel changes.
pub proof fn tasks_leave_in_line(state: FifoState)
    ensures
        ({
            let line = state.in_channel() + state.pushed;
            let after = state.rest().in_channel() + state.rest().pushed;
            &&& line.len() == 0 ==> state.next() is None && state.rest() == state
            &&& line.len() > 0 ==> state.next() == Some(line[0]) && seq![line[0]] + after == line
        }),
        state.in_channel().len() > 0 ==> state.rest().pushed == state.pushed,
        state.in_channel().len() == 0 ==> state.rest().channel == state.channel,
        (state.rest().channel is Some) == (state.channel is Some),
        state.channel is Some ==> state.rest().channel->Some_0 == (Channel {
            items: state.rest().channel->Some_0.items,
            ..state.channel->Some_0
        }),
{
    let line = state.in_channel() + state.pushed;
    let after = state.rest().in_channel() + state.rest().pushed;
    if line.len() > 0 {
        assert(seq![line[0]] + after =~= line);
    }
}

/// Pushed tasks stand at the end of the line, in the order in which they were pushed, and the
/// channel stays as it is.
pub proof fn pushed_tasks_queue_up(state: FifoState, ids: Seq<TaskId>)
    ensures
        state.push_all(ids).pushed == state.pushed + ids,
        state.push_all(ids).channel == state.channel,
    decreases ids.len(),
{
    if ids.len() > 0 {
        pushed_tasks_queue_up(state, ids.drop_last());
        assert((state.pushed + ids.drop_last()).push(ids.last()) =~= state.pushed + ids);
    } else {
        assert(state.pushed + ids =~= state.pushed);
    }
}

} // verus!
