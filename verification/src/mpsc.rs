//! A multi-producer single-consumer queue for task scheduling.
//!
//! A producer that finds the `has_items` flag down wakes the consumer. The consumer takes the flag
//! down before it parks, and looks at the queue once more after that. The flag may be up while the
//! queue is empty, which costs a wake-up at most; an item never waits unnoticed for a parked
//! consumer.
use crate::notify::{
    new_cell, register, registered_waker, take, wake, with_waker, woken_through,
};
use futures_util::task::AtomicWaker;
use std::collections::VecDeque;
use std::task::Waker;
use vstd::prelude::*;

verus! {

/// What the producers and the consumer of a queue share.
#[verifier::ext_equal]
pub struct Channel<T> {
    /// the queued items, oldest first
    pub items: Seq<T>,
    /// set by producers, cleared by the consumer before it parks
    pub has_items: bool,
    /// set once the queue takes no more items
    pub closed: bool,
    /// the waker that the consumer has registered, until it is woken or taken out
    pub registered: Option<Waker>,
    /// the wakers that were woken, in order
    pub woken: Seq<Waker>,
}

impl<T> Channel<T> {
    /// A queue that nobody has used yet.
    pub open spec fn fresh() -> Self {
        Channel {
            items: Seq::empty(),
            has_items: false,
            closed: false,
            registered: None,
            woken: Seq::empty(),
        }
    }

    /// `item` becomes the newest item.
    pub open spec fn link(self, item: T) -> Self {
        Channel { items: self.items.push(item), ..self }
    }

    /// The flag goes up.
    pub open spec fn raise(self) -> Self {
        Channel { has_items: true, ..self }
    }

    /// The flag goes down.
    pub open spec fn lower(self) -> Self {
        Channel { has_items: false, ..self }
    }

    /// The registered waker, if any, is woken.
    pub open spec fn wake(self) -> Self {
        Channel {
            registered: None,
            woken: with_waker(self.woken, self.registered),
            ..self
        }
    }

    /// The registered waker, if any, is taken out, to be woken elsewhere.
    pub open spec fn release(self) -> Self {
        Channel { registered: None, ..self }
    }

    /// The consumer registers its waker.
    pub open spec fn register(self, waker: Waker) -> Self {
        Channel { registered: Some(waker), ..self }
    }

    /// No more items are taken.
    pub open spec fn shut(self) -> Self {
        Channel { closed: true, ..self }
    }

    /// The oldest `n` items leave.
    pub open spec fn take(self, n: int) -> Self {
        Channel { items: self.items.skip(n), ..self }
    }

    /// A producer adds `item` and wakes the consumer if it found the flag down.
    pub open spec fn enqueue(self, item: T) -> Self {
        if self.has_items {
            self.link(item).raise()
        } else {
            self.link(item).raise().wake()
        }
    }

    /// Producers add `items`, one after the other.
    pub open spec fn enqueue_all(self, items: Seq<T>) -> Self
        decreases items.len(),
    {
        if items.len() == 0 {
            self
        } else {
            self.enqueue_all(items.drop_last()).enqueue(items.last())
        }
    }

    /// A consumer with a registered waker has nothing to come back for: no item is queued, the
    /// next producer will find the flag down, and the queue is open.
    pub open spec fn parked_for_a_reason(self) -> bool {
        self.registered is Some ==> self.items.len() == 0 && !self.has_items && !self.closed
    }
}

/// A first-in-first-out queue with one consumer, which may park until an item comes.
#[derive(Debug)]
pub struct Mpsc<T> {
    items: VecDeque<T>,
    has_items: bool,
    waker: AtomicWaker,
    closed: bool,
}

impl<T> View for Mpsc<T> {
    type V = Channel<T>;

    closed spec fn view(&self) -> Channel<T> {
        Channel {
            items: self.items@,
            has_items: self.has_items,
            closed: self.closed,
            registered: registered_waker(self.waker),
            woken: woken_through(self.waker),
        }
    }
}

impl<T> Mpsc<T> {
    /// A parked consumer has nothing to come back for.
    pub open spec fn inv(self) -> bool {
        self@.parked_for_a_reason()
    }

    /// Makes an empty, open queue.
    pub fn new() -> (q: Self)
        ensures
            q.inv(),
            q@ == Channel::<T>::fresh(),
    {
        let q = Mpsc { items: VecDeque::new(), has_items: false, waker: new_cell(), closed: false };
        assert(q@ =~= Channel::<T>::fresh());
        q
    }

    /// Appends an item, and wakes the consumer if it found the queue flagged as empty.
    /// A closed queue refuses the item.
    pub fn enqueue(&mut self, item: T) -> (r: Result<(), ()>)
        requires
            old(self).inv(),
        ensures
            final(self).inv(),
            r is Err <==> old(self)@.closed,
            r is Err ==> final(self)@ == old(self)@,
            r is Ok ==> final(self)@ == old(self)@.enqueue(item),
    {
        if self.closed {
            return Err(());
        }
        self.items.push_back(item);
        let flagged = self.has_items;
        self.has_items = true;
        if !flagged {
            wake(&mut self.waker);
        }
        Ok(())
    }

    /// Does what `enqueue` does, but leaves it to the caller to wake the consumer: hands over the
    /// waker that is to be woken, if any.
    pub fn enqueue_deferred(&mut self, item: T) -> (r: Result<Option<Waker>, ()>)
        requires
            old(self).inv(),
        ensures
            final(self).inv(),
            r is Err <==> old(self)@.closed,
            match r {
                Err(_) => final(self)@ == old(self)@,
                Ok(waker) => if old(self)@.has_items {
                    &&& waker is None
                    &&& final(self)@ == old(self)@.link(item).raise()
                } else {
                    &&& waker == old(self)@.registered
                    &&& final(self)@ == old(self)@.link(item).raise().release()
                },
            },
    {
        if self.closed {
            return Err(());
        }
        self.items.push_back(item);
        let flagged = self.has_items;
        self.has_items = true;
        if flagged {
            Ok(None)
        } else {
            Ok(take(&mut self.waker))
        }
    }

    /// Closes the queue to new items and wakes the consumer, so that it can see that.
    pub fn close(&mut self)
        requires
            old(self).inv(),
        ensures
            final(self).inv(),
            final(self)@ == old(self)@.shut().wake(),
    {
        self.closed = true;
        wake(&mut self.waker);
    }

    /// Does what `close` does, but leaves it to the caller to wake the consumer: hands over the
    /// waker that is to be woken, if any.
    pub fn close_deferred(&mut self) -> (waker: Option<Waker>)
        requires
            old(self).inv(),
        ensures
            final(self).inv(),
            waker == old(self)@.registered,
            final(self)@ == old(self)@.shut().release(),
    {
        self.closed = true;
        take(&mut self.waker)
    }

    /// Whether the queue has been closed.
    pub fn is_closed(&self) -> (r: bool)
        ensures
            r == self@.closed,
    {
        self.closed
    }

    /// Takes the oldest item.
    pub fn pop_one(&mut self) -> (r: Option<T>)
        requires
            old(self).inv(),
        ensures
            final(self).inv(),
            match r {
                Some(item) => {
                    &&& old(self)@.items.len() > 0
                    &&& item == old(self)@.items[0]
                    &&& final(self)@ == old(self)@.take(1)
                },
                None => old(self)@.items.len() == 0 && final(self)@ == old(self)@,
            },
    {
        let r = self.items.pop_front();
        assert(r is Some ==> self@.items =~= old(self)@.items.skip(1));
        r
    }

    /// Whether no item is queued.
    pub fn is_empty(&self) -> (r: bool)
        ensures
            r == (self@.items.len() == 0),
    {
        self.items.len() == 0
    }

    /// Moves up to `N` of the oldest items into `out`, in order, and returns how many. The flag
    /// goes down if that leaves the queue empty.
    pub fn try_drain<const N: usize>(&mut self, out: &mut [T; N]) -> (n: usize)
        requires
            old(self).inv(),
        ensures
            final(self).inv(),
            n == (if old(self)@.items.len() < N {
                old(self)@.items.len() as int
            } else {
                N as int
            }),
            final(out)@ == old(self)@.items.take(n as int) + old(out)@.skip(n as int),
            final(self)@ == (if n == old(self)@.items.len() {
                old(self)@.take(n as int).lower()
            } else {
                old(self)@.take(n as int)
            }),
    {
        let mut n: usize = 0;
        let mut more = true;
        while n < N && more
            invariant
                old(self).inv(),
                self.inv(),
                n <= N,
                n <= old(self)@.items.len(),
                !more ==> n == old(self)@.items.len(),
                self@ == old(self)@.take(n as int),
                out@ == old(self)@.items.take(n as int) + old(out)@.skip(n as int),
            decreases N - n + (if more { 1int } else { 0int }),
        {
            match self.pop_one() {
                Some(item) => {
                    out[n] = item;
                    n = n + 1;
                    assert(self@.items =~= old(self)@.items.skip(n as int));
                    assert(out@ =~= old(self)@.items.take(n as int) + old(out)@.skip(n as int));
                },
                None => {
                    more = false;
                },
            }
        }
        if self.is_empty() {
            self.has_items = false;
        }
        n
    }

    /// One attempt of the consumer to receive an item.
    ///
    /// Returns the oldest item if there is one, and `Err` if the queue is closed and empty.
    /// Otherwise the consumer is to park: its waker is registered, the flag is down, and `None` is
    /// returned.
    pub fn poll_recv_one(&mut self, waker: &Waker) -> (r: Option<Result<T, ()>>)
        requires
            old(self).inv(),
        ensures
            final(self).inv(),
            match r {
                Some(Ok(item)) => {
                    &&& old(self)@.items.len() > 0
                    &&& item == old(self)@.items[0]
                    &&& final(self)@ == old(self)@.take(1)
                },
                Some(Err(_)) => {
                    &&& old(self)@.items.len() == 0
                    &&& old(self)@.closed
                    &&& final(self)@ == old(self)@
                },
                None => {
                    &&& old(self)@.items.len() == 0
                    &&& !old(self)@.closed
                    &&& final(self)@ == old(self)@.register(*waker).lower()
                },
            },
    {
        if let Some(item) = self.pop_one() {
            return Some(Ok(item));
        }
        if self.closed {
            return Some(Err(()));
        }
        // The order matters: register, take the flag down, and only then look again. A producer
        // that comes after the flag went down will wake the waker; what came before is seen here.
        register(&mut self.waker, waker);
        self.has_items = false;
        if let Some(item) = self.pop_one() {
            return Some(Ok(item));
        }
        if self.closed {
            return Some(Err(()));
        }
        None
    }
}

impl<T> Default for Mpsc<T> {
    /// Makes an empty, open queue.
    fn default() -> (q: Self)
        ensures
            q.inv(),
            q@ == Channel::<T>::fresh(),
    {
        Self::new()
    }
}

/// Items come out in the order in which they went in, behind those that were there before.
pub proof fn items_come_out_in_order<T>(channel: Channel<T>, items: Seq<T>, n: int)
    requires
        0 <= n <= channel.items.len() + items.len(),
    ensures
        channel.enqueue_all(items).take(n).items == (channel.items + items).skip(n),
{
    lemma_enqueue_all(channel, items);
}

proof fn lemma_enqueue_all<T>(channel: Channel<T>, items: Seq<T>)
    ensures
        channel.enqueue_all(items).items == channel.items + items,
    decreases items.len(),
{
    if items.len() > 0 {
        lemma_enqueue_all(channel, items.drop_last());
        assert(channel.items + items =~= (channel.items + items.drop_last()).push(items.last()));
    } else {
        assert(channel.items + items =~= channel.items);
    }
}

/// A queue that was closed stays closed and keeps its items until they are taken.
pub proof fn closed_queue_can_be_emptied<T>(channel: Channel<T>, n: int)
    requires
        0 <= n <= channel.items.len(),
    ensures
        channel.shut().wake().take(n).closed,
        channel.shut().wake().take(n).items == channel.items.skip(n),
{
}

/// A consumer whose receive found nothing is woken by the next item: its waker is woken by that
/// enqueue, and no other waker is.
pub proof fn next_item_wakes_the_consumer<T>(channel: Channel<T>, waker: Waker, item: T)
    ensures
        channel.register(waker).lower().enqueue(item).woken == channel.woken.push(waker),
{
}

/// A consumer that waits is woken by an enqueue, whatever happened since it parked.
pub proof fn waiting_consumer_is_woken<T>(channel: Channel<T>, waker: Waker, item: T)
    requires
        channel.parked_for_a_reason(),
        channel.registered == Some(waker),
    ensures
        channel.enqueue(item).woken == channel.woken.push(waker),
        channel.shut().wake().woken == channel.woken.push(waker),
{
}

/// The waker that an enqueue or a close leaves to the caller is the one that it would have woken:
/// waking it makes up for the difference.
pub proof fn deferred_wake_is_the_same<T>(channel: Channel<T>, item: T)
    ensures
        !channel.has_items ==> channel.enqueue(item) == (Channel {
            woken: with_waker(channel.woken, channel.registered),
            ..channel.link(item).raise().release()
        }),
        channel.has_items ==> channel.enqueue(item) == channel.link(item).raise(),
        channel.shut().wake() == (Channel {
            woken: with_waker(channel.woken, channel.registered),
            ..channel.shut().release()
        }),
{
}

/// A call that moves items: a producer adds one, or the consumer takes the oldest if there is one.
pub enum Move<T> {
    Add(T),
    TakeOne,
}

/// The queue after the given moves, and what they handed out, in order.
pub open spec fn after_moves<T>(channel: Channel<T>, moves: Seq<Move<T>>) -> (Channel<T>, Seq<T>)
    decreases moves.len(),
{
    if moves.len() == 0 {
        (channel, Seq::empty())
    } else {
        let (before, out) = after_moves(channel, moves.drop_last());
        match moves.last() {
            Move::Add(item) => (before.enqueue(item), out),
            Move::TakeOne => if before.items.len() > 0 {
                (before.take(1), out.push(before.items[0]))
            } else {
                (before, out)
            },
        }
    }
}

/// The items that the given moves add, in order.
pub open spec fn added<T>(moves: Seq<Move<T>>) -> Seq<T>
    decreases moves.len(),
{
    if moves.len() == 0 {
        Seq::empty()
    } else {
        match moves.last() {
            Move::Add(item) => added(moves.drop_last()).push(item),
            Move::TakeOne => added(moves.drop_last()),
        }
    }
}

/// First in, first out, however adding and taking alternate: what was handed out, followed by what
/// is still queued, is what was queued at first, followed by what was added, in that order.
pub proof fn moves_keep_the_order<T>(channel: Channel<T>, moves: Seq<Move<T>>)
    ensures
        after_moves(channel, moves).1 + after_moves(channel, moves).0.items == channel.items
            + added(moves),
        after_moves(channel, moves).0.closed == channel.closed,
    decreases moves.len(),
{
    if moves.len() > 0 {
        moves_keep_the_order(channel, moves.drop_last());
        let (before, out) = after_moves(channel, moves.drop_last());
        let (after, given) = after_moves(channel, moves);
        match moves.last() {
            Move::Add(item) => {
                assert(given + after.items =~= (out + before.items).push(item));
                assert(channel.items + added(moves) =~= (channel.items + added(
                    moves.drop_last(),
                )).push(item));
            },
            Move::TakeOne => {
                if before.items.len() > 0 {
                    assert(given + after.items =~= out + before.items);
                }
            },
        }
    } else {
        assert(Seq::<T>::empty() + channel.items =~= channel.items + added(moves));
    }
}

/// Taking the oldest items leaves the others in order, and nothing else changes.
pub proof fn oldest_items_leave<T>(channel: Channel<T>, n: int)
    requires
        0 <= n <= channel.items.len(),
    ensures
        channel.items.take(n) + channel.take(n).items == channel.items,
        channel.take(n) == (Channel { items: channel.take(n).items, ..channel }),
{
    assert(channel.items.take(n) + channel.take(n).items =~= channel.items);
}

/// An item that is added comes last, and the queue stays as open as it was. A registered waker is
/// woken unless the flag was up, and then no waker is.
pub proof fn item_is_added_last<T>(channel: Channel<T>, item: T, waker: Waker)
    ensures
        channel.enqueue(item).items == channel.items + seq![item],
        channel.enqueue(item).closed == channel.closed,
        channel.enqueue(item).has_items,
        channel.link(item).items == channel.items + seq![item],
        channel.link(item) == (Channel { items: channel.link(item).items, ..channel }),
        channel.has_items ==> channel.enqueue(item).woken == channel.woken
            && channel.enqueue(item).registered == channel.registered,
        !channel.has_items ==> channel.enqueue(item).registered is None,
        !channel.has_items && channel.registered is None ==> channel.enqueue(item).woken
            == channel.woken,
        !channel.has_items && channel.registered == Some(waker) ==> channel.enqueue(item).woken
            == channel.woken + seq![waker],
{
    assert(channel.enqueue(item).items =~= channel.items + seq![item]);
    assert(channel.link(item).items =~= channel.items + seq![item]);
    assert(channel.woken.push(waker) =~= channel.woken + seq![waker]);
}

/// Flags, closing and wakers are kept apart: raising and lowering concern the flag, closing the
/// closed mark, registering and taking out the registered waker, and waking the registered waker
/// and the woken ones.
pub proof fn marks_are_kept_apart<T>(channel: Channel<T>, waker: Waker)
    ensures
        channel.raise().has_items && channel.raise() == (Channel {
            has_items: channel.raise().has_items,
            ..channel
        }),
        !channel.lower().has_items && channel.lower() == (Channel {
            has_items: channel.lower().has_items,
            ..channel
        }),
        channel.shut().closed && channel.shut() == (Channel {
            closed: channel.shut().closed,
            ..channel
        }),
        channel.register(waker).registered == Some(waker) && channel.register(waker) == (Channel {
            registered: channel.register(waker).registered,
            ..channel
        }),
        channel.release().registered is None && channel.release() == (Channel {
            registered: channel.release().registered,
            ..channel
        }),
        channel.wake().registered is None && channel.wake() == (Channel {
            registered: channel.wake().registered,
            woken: channel.wake().woken,
            ..channel
        }),
        channel.registered is None ==> channel.wake().woken == channel.woken,
        channel.registered == Some(waker) ==> channel.wake().woken == channel.woken + seq![waker],
{
    assert(channel.woken.push(waker) =~= channel.woken + seq![waker]);
}

/// A new queue is open and empty, with the flag down and no waker registered or woken.
pub proof fn new_queue_is_empty<T>()
    ensures
        Channel::<T>::fresh().items.len() == 0,
        !Channel::<T>::fresh().has_items,
        !Channel::<T>::fresh().closed,
        Channel::<T>::fresh().registered is None,
        Channel::<T>::fresh().woken.len() == 0,
{
}

} // verus!
