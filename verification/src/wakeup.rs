//! No wake-up is lost, however the steps of producers, closers and the consumer interleave.
//!
//! Producers, closers and the consumer of a queue act in steps that other parties may run between.
//! This module describes every such run and proves that a parked consumer is never forgotten: as
//! long as there is an item or the queue was closed, the consumer has been notified, or somebody is
//! still on the way to notify it.
use crate::mpsc::Channel;
use crate::notify::{lemma_woken_since, with_waker, woken_since};
use std::task::Waker;
use vstd::prelude::*;

verus! {

/// Where the consumer stands.
pub enum Consumer {
    /// running, with no receive under way
    Awake,
    /// receiving: its waker is registered
    Registered,
    /// receiving: the flag has been taken down
    Lowered,
    /// receiving: the second look found no item
    Rechecked,
    /// the receive returned without an item, and the task waits for a notification
    Parked,
    /// draining: the queue was seen to be empty
    SawEmpty,
    /// draining: the flag has been taken down
    DrainLowered,
}

/// A queue in the middle of the work of all its parties.
pub struct Run<T> {
    /// what the parties share
    pub channel: Channel<T>,
    /// for each queued item, whether the item before it leads to it already
    pub links: Seq<bool>,
    /// producers that have claimed the place of their item and not yet linked it
    pub claimed: nat,
    /// producers that have linked their item and not yet raised the flag
    pub linked: nat,
    /// producers that found the flag down and have not yet woken the consumer
    pub waking: nat,
    /// closers that have closed the queue and not yet woken the consumer
    pub closing: nat,
    /// every item for which a producer has claimed a place so far, in that order
    pub sent: Seq<T>,
    /// every item that the consumer has taken so far, in that order
    pub received: Seq<T>,
    /// what wakes the consumer's task
    pub waker: Waker,
    /// how many wakers had been woken where they were registered when the consumer's task last
    /// started to run
    pub heard: nat,
    /// the wakers that producers and closers have taken out and not yet woken
    pub held: Seq<Waker>,
    /// the wakers that were woken after they had been taken out, in order
    pub by_hand: Seq<Waker>,
    /// how many of these had been woken when the consumer's task last started to run
    pub heard_by_hand: nat,
    /// where the consumer stands
    pub consumer: Consumer,
}

/// A step of one of the parties.
pub enum Step<T> {
    /// a producer claims the last place for its item
    Claim(T),
    /// a producer links its item, which is at the given place
    Link(int),
    /// a producer raises the flag, and remembers to wake the consumer if the flag was down
    Raise,
    /// a producer wakes the consumer
    Wake,
    /// a producer adds its item, raises the flag and, if it found the flag down, takes out the
    /// consumer's waker, all in one
    EnqueueDeferred(T),
    /// a closer closes the queue and takes out the consumer's waker, all in one
    CloseDeferred,
    /// the waker at the given place among those that were taken out is woken
    WakeHeld(int),
    /// a closer closes the queue
    Shut,
    /// a closer wakes the consumer
    ShutWake,
    /// the running consumer takes an item that is linked
    Take,
    /// the running consumer sees that the queue was closed
    SeeClosed,
    /// the consumer, which found neither an item nor the queue closed, registers its waker
    Register,
    /// the receiving consumer takes the flag down
    Lower,
    /// the receiving consumer looks for an item again; it waits for an item that is about to be
    /// linked
    Recheck,
    /// the receiving consumer looks whether the queue was closed, and parks if not
    Park,
    /// the consumer's task runs again because it was notified
    Resume,
    /// the draining consumer sees that the queue is empty
    SeeEmpty,
    /// the draining consumer takes the flag down
    DrainLower,
    /// the draining consumer looks again, and raises the flag and wakes itself if it must
    DrainRecheck,
}

/// How many of the items are not linked yet.
pub open spec fn gaps(links: Seq<bool>) -> nat
    decreases links.len(),
{
    if links.len() == 0 {
        0
    } else {
        gaps(links.drop_last()) + if links.last() {
            0nat
        } else {
            1
        }
    }
}

proof fn lemma_gap_closes(links: Seq<bool>, i: int)
    requires
        0 <= i < links.len(),
        !links[i],
    ensures
        gaps(links) == gaps(links.update(i, true)) + 1,
    decreases links.len(),
{
    if i < links.len() - 1 {
        lemma_gap_closes(links.drop_last(), i);
        assert(links.update(i, true).drop_last() =~= links.drop_last().update(i, true));
    } else {
        assert(links.update(i, true).drop_last() =~= links.drop_last());
    }
}

proof fn lemma_gaps_skip(links: Seq<bool>)
    requires
        links.len() > 0,
        links[0],
    ensures
        gaps(links.skip(1)) == gaps(links),
    decreases links.len(),
{
    if links.len() > 1 {
        lemma_gaps_skip(links.drop_last());
        assert(links.skip(1).drop_last() =~= links.drop_last().skip(1));
    } else {
        assert(links.skip(1) =~= Seq::empty());
        assert(links.drop_last() =~= Seq::empty());
    }
}

proof fn lemma_no_gap(links: Seq<bool>, i: int)
    requires
        gaps(links) == 0,
        0 <= i < links.len(),
    ensures
        links[i],
{
    if !links[i] {
        lemma_gap_closes(links, i);
    }
}

impl<T> Run<T> {
    /// A fresh queue with a running consumer.
    pub open spec fn start(waker: Waker) -> Self {
        Run {
            channel: Channel::fresh(),
            sent: Seq::empty(),
            received: Seq::empty(),
            waker,
            links: Seq::empty(),
            claimed: 0,
            linked: 0,
            waking: 0,
            closing: 0,
            heard: 0,
            held: Seq::empty(),
            by_hand: Seq::empty(),
            heard_by_hand: 0,
            consumer: Consumer::Awake,
        }
    }

    /// Whether the consumer's waker was woken since its task last started to run.
    pub open spec fn notified(self) -> bool {
        woken_since(self.channel.woken, self.heard, self.waker) || woken_since(
            self.by_hand,
            self.heard_by_hand,
            self.waker,
        )
    }

    /// The consumer takes the oldest item.
    pub open spec fn taken(self) -> Self {
        Run {
            channel: self.channel.take(1),
            links: self.links.skip(1),
            received: self.received.push(self.channel.items[0]),
            ..self
        }
    }

    /// The consumer takes the oldest `n` items, one by one.
    pub open spec fn taken_times(self, n: nat) -> Self
        decreases n,
    {
        if n == 0 {
            self
        } else {
            self.taken_times((n - 1) as nat).after(Step::Take)
        }
    }

    /// Whether `step` can be taken here.
    pub open spec fn enabled(self, step: Step<T>) -> bool {
        match step {
            Step::Claim(_) => true,
            Step::Link(i) => 0 <= i < self.links.len() && !self.links[i],
            Step::Raise => self.linked > 0,
            Step::Wake => self.waking > 0,
            Step::EnqueueDeferred(_) => true,
            Step::CloseDeferred => true,
            Step::WakeHeld(i) => 0 <= i < self.held.len(),
            Step::Shut => true,
            Step::ShutWake => self.closing > 0,
            Step::Take => self.consumer is Awake && self.links.len() > 0 && self.links[0],
            Step::SeeClosed => self.consumer is Awake && self.channel.closed,
            Step::Register => self.consumer is Awake,
            Step::Lower => self.consumer is Registered,
            Step::Recheck => self.consumer is Lowered && (self.links.len() > 0 ==> self.links[0]),
            Step::Park => self.consumer is Rechecked,
            Step::Resume => self.consumer is Parked && self.notified(),
            Step::SeeEmpty => self.consumer is Awake && self.channel.items.len() == 0,
            Step::DrainLower => self.consumer is SawEmpty,
            Step::DrainRecheck => self.consumer is DrainLowered,
        }
    }

    /// What `step` leads to.
    pub open spec fn after(self, step: Step<T>) -> Self {
        match step {
            Step::Claim(item) => Run {
                channel: self.channel.link(item),
                links: self.links.push(false),
                sent: self.sent.push(item),
                claimed: self.claimed + 1,
                ..self
            },
            Step::Link(i) => Run {
                links: self.links.update(i, true),
                claimed: (self.claimed - 1) as nat,
                linked: self.linked + 1,
                ..self
            },
            Step::Raise => Run {
                channel: self.channel.raise(),
                linked: (self.linked - 1) as nat,
                waking: if self.channel.has_items {
                    self.waking
                } else {
                    self.waking + 1
                },
                ..self
            },
            Step::Wake => Run {
                channel: self.channel.wake(),
                waking: (self.waking - 1) as nat,
                ..self
            },
            Step::EnqueueDeferred(item) => Run {
                channel: if self.channel.has_items {
                    self.channel.link(item).raise()
                } else {
                    self.channel.link(item).raise().release()
                },
                links: self.links.push(true),
                sent: self.sent.push(item),
                held: if self.channel.has_items {
                    self.held
                } else {
                    with_waker(self.held, self.channel.registered)
                },
                ..self
            },
            Step::CloseDeferred => Run {
                channel: self.channel.shut().release(),
                held: with_waker(self.held, self.channel.registered),
                ..self
            },
            Step::WakeHeld(i) => Run {
                held: self.held.remove(i),
                by_hand: self.by_hand.push(self.held[i]),
                ..self
            },
            Step::Shut => Run {
                channel: self.channel.shut(),
                closing: self.closing + 1,
                ..self
            },
            Step::ShutWake => Run {
                channel: self.channel.wake(),
                closing: (self.closing - 1) as nat,
                ..self
            },
            Step::Take => self.taken(),
            Step::SeeClosed => self,
            Step::Register => Run {
                channel: self.channel.register(self.waker),
                consumer: Consumer::Registered,
                ..self
            },
            Step::Lower => Run {
                channel: self.channel.lower(),
                consumer: Consumer::Lowered,
                ..self
            },
            Step::Recheck => if self.channel.items.len() > 0 {
                Run { consumer: Consumer::Awake, ..self.taken() }
            } else {
                Run { consumer: Consumer::Rechecked, ..self }
            },
            Step::Park => if self.channel.closed {
                Run { consumer: Consumer::Awake, ..self }
            } else {
                Run { consumer: Consumer::Parked, ..self }
            },
            Step::Resume => Run {
                heard: self.channel.woken.len(),
                heard_by_hand: self.by_hand.len(),
                consumer: Consumer::Awake,
                ..self
            },
            Step::SeeEmpty => Run { consumer: Consumer::SawEmpty, ..self },
            Step::DrainLower => Run {
                channel: self.channel.lower(),
                consumer: Consumer::DrainLowered,
                ..self
            },
            Step::DrainRecheck => if self.channel.items.len() > 0 && !self.channel.has_items {
                Run {
                    channel: self.channel.raise().wake(),
                    consumer: Consumer::Awake,
                    ..self
                }
            } else {
                Run { consumer: Consumer::Awake, ..self }
            },
        }
    }

    /// Whether somebody has notified the consumer's task or is on the way to do so.
    pub open spec fn notice_is_due(self) -> bool {
        ||| self.notified()
        ||| self.held.contains(self.waker)
        ||| self.waking > 0
        ||| self.closing > 0
        ||| self.claimed + self.linked > 0 && !self.channel.has_items
    }

    /// What holds between any two steps.
    pub open spec fn consistent(self) -> bool {
        &&& self.sent == self.received + self.channel.items
        &&& self.links.len() == self.channel.items.len()
        &&& self.claimed == gaps(self.links)
        &&& self.channel.registered is Some ==> self.channel.registered == Some(self.waker)
        &&& self.heard <= self.channel.woken.len()
        &&& self.heard_by_hand <= self.by_hand.len()
        &&& forall|k: int| 0 <= k < self.held.len() ==> #[trigger] self.held[k] == self.waker
        &&& self.consumer is Registered || self.consumer is Lowered || self.consumer is Rechecked
            || self.consumer is Parked ==> self.channel.registered is Some
            || self.held.len() > 0 || self.notified()
        &&& self.consumer is Lowered || self.consumer is Rechecked || self.consumer is Parked ==> (
        self.channel.has_items ==> self.waking > 0 || self.held.len() > 0 || self.notified())
        &&& self.consumer is Rechecked || self.consumer is Parked ==> (self.channel.items.len() > 0
            ==> self.notified() || self.held.len() > 0 || self.waking > 0 || (self.claimed
            + self.linked > 0 && !self.channel.has_items))
        &&& self.consumer is Parked && self.channel.closed ==> self.notified()
            || self.held.len() > 0 || self.closing > 0
    }
}

/// Whether `run` starts with a fresh queue and each state follows from the one before by a step.
pub open spec fn is_history<T>(run: Seq<Run<T>>, steps: Seq<Step<T>>) -> bool {
    &&& run.len() == steps.len() + 1
    &&& run[0] == Run::<T>::start(run[0].waker)
    &&& forall|i: int|
        #![trigger steps[i]]
        0 <= i < steps.len() ==> run[i].enabled(steps[i]) && run[i + 1] == run[i].after(steps[i])
}

/// Every step keeps the run consistent.
pub proof fn step_keeps_consistent<T>(run: Run<T>, step: Step<T>)
    requires
        run.consistent(),
        run.enabled(step),
    ensures
        run.after(step).consistent(),
{
    let next = run.after(step);
    lemma_woken_since(run.channel.woken, run.heard, run.waker, run.channel.registered);
    assert(next.sent =~= next.received + next.channel.items);
    match step {
        Step::Claim(_) => {
            assert(run.links.push(false).drop_last() =~= run.links);
        },
        Step::EnqueueDeferred(_) => {
            assert(run.links.push(true).drop_last() =~= run.links);
        },
        Step::WakeHeld(i) => {
            lemma_woken_since(run.by_hand, run.heard_by_hand, run.waker, Some(run.held[i]));
        },
        Step::Link(i) => {
            lemma_gap_closes(run.links, i);
        },
        Step::Take | Step::Recheck => {
            if run.links.len() > 0 {
                lemma_gaps_skip(run.links);
            }
        },
        _ => {},
    }
}

proof fn lemma_history_consistent<T>(run: Seq<Run<T>>, steps: Seq<Step<T>>, i: int)
    requires
        is_history(run, steps),
        0 <= i < run.len(),
    ensures
        run[i].consistent(),
    decreases i,
{
    if i > 0 {
        lemma_history_consistent(run, steps, i - 1);
        let step = steps[i - 1];
        step_keeps_consistent(run[i - 1], step);
    }
}

/// However the steps interleave, an item that is not linked yet belongs to a producer that is about
/// to link it: the consumer never waits for nothing.
pub proof fn gap_is_about_to_close<T>(run: Seq<Run<T>>, steps: Seq<Step<T>>, i: int, k: int)
    requires
        is_history(run, steps),
        0 <= i < run.len(),
        0 <= k < run[i].links.len(),
        !run[i].links[k],
    ensures
        run[i].claimed > 0,
        run[i].enabled(Step::Link(k)),
{
    lemma_history_consistent(run, steps, i);
    lemma_gap_closes(run[i].links, k);
}

/// However the steps interleave, the consumer receives the items in the order of their places,
/// and has every item that it has not received yet before it: nothing is lost, repeated or
/// reordered.
pub proof fn items_arrive_in_order<T>(run: Seq<Run<T>>, steps: Seq<Step<T>>, i: int)
    requires
        is_history(run, steps),
        0 <= i < run.len(),
    ensures
        run[i].sent == run[i].received + run[i].channel.items,
{
    lemma_history_consistent(run, steps, i);
}

/// However the steps interleave, a consumer that parked while an item is queued or the queue is
/// closed has been notified or is about to be.
pub proof fn parked_consumer_is_noticed<T>(run: Seq<Run<T>>, steps: Seq<Step<T>>, i: int)
    requires
        is_history(run, steps),
        0 <= i < run.len(),
        run[i].consumer is Parked,
        run[i].channel.items.len() > 0 || run[i].channel.closed,
    ensures
        run[i].notice_is_due(),
{
    lemma_history_consistent(run, steps, i);
    if run[i].held.len() > 0 {
        assert(run[i].held.contains(run[i].held[0]));
    }
}

/// Once every producer and every closer has finished and has woken what it held, a consumer that
/// parked while an item is queued or the queue is closed has been notified: no wake-up is lost.
pub proof fn no_wakeup_is_lost<T>(run: Seq<Run<T>>, steps: Seq<Step<T>>, i: int)
    requires
        is_history(run, steps),
        0 <= i < run.len(),
        run[i].claimed == 0,
        run[i].linked == 0,
        run[i].waking == 0,
        run[i].closing == 0,
        run[i].held.len() == 0,
        run[i].consumer is Parked,
        run[i].channel.items.len() > 0 || run[i].channel.closed,
    ensures
        run[i].notified(),
{
    lemma_history_consistent(run, steps, i);
}

/// A producer that is not interrupted takes the steps of `Mpsc::enqueue`.
pub proof fn enqueue_is_its_steps<T>(run: Run<T>, item: T)
    requires
        run.consistent(),
        run.claimed == 0,
        run.linked == 0,
        run.waking == 0,
    ensures
        ({
            let claimed = run.after(Step::Claim(item));
            let place = run.links.len() as int;
            let linked = claimed.after(Step::Link(place));
            let raised = linked.after(Step::Raise);
            &&& run.enabled(Step::Claim(item))
            &&& claimed.enabled(Step::Link(place))
            &&& linked.enabled(Step::Raise)
            &&& if raised.waking == 0 {
                raised.channel == run.channel.enqueue(item)
            } else {
                raised.enabled(Step::Wake) && raised.after(Step::Wake).channel
                    == run.channel.enqueue(item)
            }
        }),
{
}

/// The one step that a producer or a closer takes with the queue locked is that of
/// `Mpsc::enqueue_deferred` or `Mpsc::close_deferred`: what is then held in addition is the waker
/// that these hand over.
pub proof fn deferred_operations_are_their_steps<T>(run: Run<T>, item: T)
    ensures
        run.enabled(Step::EnqueueDeferred(item)),
        run.channel.has_items ==> {
            &&& run.after(Step::EnqueueDeferred(item)).channel == run.channel.link(item).raise()
            &&& run.after(Step::EnqueueDeferred(item)).held == run.held
        },
        !run.channel.has_items ==> {
            &&& run.after(Step::EnqueueDeferred(item)).channel == run.channel.link(
                item,
            ).raise().release()
            &&& run.after(Step::EnqueueDeferred(item)).held == with_waker(
                run.held,
                run.channel.registered,
            )
        },
        run.enabled(Step::CloseDeferred),
        run.after(Step::CloseDeferred).channel == run.channel.shut().release(),
        run.after(Step::CloseDeferred).held == with_waker(run.held, run.channel.registered),
{
}

/// A closer that is not interrupted takes the steps of `Mpsc::close`.
pub proof fn close_is_its_steps<T>(run: Run<T>)
    ensures
        run.enabled(Step::Shut),
        run.after(Step::Shut).enabled(Step::ShutWake),
        run.after(Step::Shut).after(Step::ShutWake).channel == run.channel.shut().wake(),
        run.after(Step::Shut).after(Step::ShutWake).closing == run.closing,
{
}

/// A consumer that no producer interrupts takes the steps of `Mpsc::poll_recv_one`: it takes an
/// item if there is one, sees that the queue was closed if it was, and parks otherwise.
pub proof fn receive_is_its_steps<T>(run: Run<T>)
    requires
        run.consistent(),
        run.claimed == 0,
        run.consumer is Awake,
    ensures
        run.channel.items.len() > 0 ==> {
            &&& run.enabled(Step::Take)
            &&& run.after(Step::Take).channel == run.channel.take(1)
            &&& run.after(Step::Take).received == run.received.push(run.channel.items[0])
            &&& run.after(Step::Take).consumer is Awake
        },
        run.channel.items.len() == 0 && run.channel.closed ==> {
            &&& run.enabled(Step::SeeClosed)
            &&& run.after(Step::SeeClosed) == run
        },
        run.channel.items.len() == 0 && !run.channel.closed ==> {
            let registered = run.after(Step::Register);
            let lowered = registered.after(Step::Lower);
            let rechecked = lowered.after(Step::Recheck);
            let parked = rechecked.after(Step::Park);
            &&& run.enabled(Step::Register)
            &&& registered.enabled(Step::Lower)
            &&& lowered.enabled(Step::Recheck)
            &&& rechecked.enabled(Step::Park)
            &&& parked.consumer is Parked
            &&& parked.channel == run.channel.register(run.waker).lower()
        },
{
    if run.channel.items.len() > 0 {
        lemma_no_gap(run.links, 0);
    }
}

proof fn lemma_taken_times<T>(run: Run<T>, n: nat)
    requires
        run.consistent(),
        run.claimed == 0,
        run.consumer is Awake,
        n <= run.channel.items.len(),
    ensures
        run.taken_times(n).consistent(),
        run.taken_times(n).claimed == 0,
        run.taken_times(n).consumer is Awake,
        run.taken_times(n).channel == run.channel.take(n as int),
        n < run.channel.items.len() ==> run.taken_times(n).enabled(Step::Take),
    decreases n,
{
    if n > 0 {
        lemma_taken_times(run, (n - 1) as nat);
        let before = run.taken_times((n - 1) as nat);
        step_keeps_consistent(before, Step::Take);
        assert(run.channel.items.skip(n - 1).skip(1) =~= run.channel.items.skip(n as int));
    } else {
        assert(run.channel.items.skip(0) =~= run.channel.items);
    }
    if n < run.channel.items.len() {
        lemma_no_gap(run.taken_times(n).links, 0);
    }
}

/// A consumer that no producer interrupts takes the steps of `Mpsc::try_drain`: it takes `n` items
/// and, if that leaves the queue empty, takes the flag down and looks again in vain.
pub proof fn drain_is_its_steps<T>(run: Run<T>, n: nat)
    requires
        run.consistent(),
        run.claimed == 0,
        run.consumer is Awake,
        n <= run.channel.items.len(),
    ensures
        forall|k: nat| k < n ==> (#[trigger] run.taken_times(k)).enabled(Step::Take),
        run.taken_times(n).channel == run.channel.take(n as int),
        n == run.channel.items.len() ==> {
            let emptied = run.taken_times(n);
            let seen = emptied.after(Step::SeeEmpty);
            let lowered = seen.after(Step::DrainLower);
            let drained = lowered.after(Step::DrainRecheck);
            &&& emptied.enabled(Step::SeeEmpty)
            &&& seen.enabled(Step::DrainLower)
            &&& lowered.enabled(Step::DrainRecheck)
            &&& drained.consumer is Awake
            &&& drained.channel == run.channel.take(n as int).lower()
        },
{
    assert forall|k: nat| k < n implies (#[trigger] run.taken_times(k)).enabled(Step::Take) by {
        lemma_taken_times(run, k);
    }
    lemma_taken_times(run, n);
}

} // verus!
