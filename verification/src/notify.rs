//! The cell that holds the waker of a task until it is woken.
use futures_util::task::AtomicWaker;
use std::task::Waker;
use vstd::prelude::*;

verus! {

/// `futures`' cell for one waker.
#[verifier::external_type_specification]
#[verifier::external_body]
pub struct ExAtomicWaker(futures_util::task::AtomicWaker);

/// The standard library's handle for waking a task.
#[verifier::external_type_specification]
#[verifier::external_body]
pub struct ExWaker(std::task::Waker);

/// The waker that the cell holds, which has not been woken since it was registered. Wakers that
/// wake the same task count as one waker here, as a waker and its clones do.
pub uninterp spec fn registered_waker(cell: AtomicWaker) -> Option<Waker>;

/// The wakers that were woken through the cell since it was made, in order.
pub uninterp spec fn woken_through(cell: AtomicWaker) -> Seq<Waker>;

/// `wakers` with `waker`, if there is one, behind them.
pub open spec fn with_waker(wakers: Seq<Waker>, waker: Option<Waker>) -> Seq<Waker> {
    match waker {
        Some(waker) => wakers.push(waker),
        None => wakers,
    }
}

/// Whether `waker` is among the woken wakers, the first `heard` of them left aside.
pub open spec fn woken_since(woken: Seq<Waker>, heard: nat, waker: Waker) -> bool {
    exists|k: int| heard <= k < woken.len() && #[trigger] woken[k] == waker
}

/// A waker that was woken stays so when more are woken, and the last one is woken then.
pub proof fn lemma_woken_since(woken: Seq<Waker>, heard: nat, waker: Waker, more: Option<Waker>)
    requires
        heard <= woken.len(),
    ensures
        woken_since(woken, heard, waker) ==> woken_since(with_waker(woken, more), heard, waker),
        more == Some(waker) ==> woken_since(with_waker(woken, more), heard, waker),
{
    let next = with_waker(woken, more);
    if woken_since(woken, heard, waker) {
        let k = choose|k: int| heard <= k < woken.len() && #[trigger] woken[k] == waker;
        assert(next[k] == waker);
    }
    if more == Some(waker) {
        assert(next[woken.len() as int] == waker);
    }
}

/// `AtomicWaker::new` makes a cell without a waker, through which nothing was woken.
#[verifier::external_body]
pub(crate) fn new_cell() -> (cell: AtomicWaker)
    ensures
        registered_waker(cell) is None,
        woken_through(cell) == Seq::<Waker>::empty(),
{
    AtomicWaker::new()
}

/// `AtomicWaker::register` puts a clone of the waker into the cell, in place of the one it held,
/// which it keeps if it wakes the same task. As nobody else uses the cell meanwhile, it wakes
/// nobody.
#[verifier::external_body]
pub(crate) fn register(cell: &mut AtomicWaker, waker: &Waker)
    ensures
        registered_waker(*final(cell)) == Some(*waker),
        woken_through(*final(cell)) == woken_through(*old(cell)),
{
    cell.register(waker)
}

/// `AtomicWaker::wake` takes the waker out of the cell, if there is one, and wakes it. What the
/// woken task does is left unsaid: that is up to whoever runs it.
#[verifier::external_body]
pub(crate) fn wake(cell: &mut AtomicWaker)
    ensures
        registered_waker(*final(cell)) is None,
        woken_through(*final(cell)) == with_waker(
            woken_through(*old(cell)),
            registered_waker(*old(cell)),
        ),
{
    cell.wake()
}

/// `AtomicWaker::take` takes the waker out of the cell, if there is one, and hands it over without
/// waking it.
#[verifier::external_body]
pub(crate) fn take(cell: &mut AtomicWaker) -> (waker: Option<Waker>)
    ensures
        waker == registered_waker(*old(cell)),
        registered_waker(*final(cell)) is None,
        woken_through(*final(cell)) == woken_through(*old(cell)),
{
    cell.take()
}

/// A waker stands behind the others; without one they stay as they are.
pub proof fn waker_comes_last(wakers: Seq<Waker>, waker: Waker)
    ensures
        with_waker(wakers, Some(waker)) == wakers + seq![waker],
        with_waker(wakers, None) == wakers,
{
    assert(with_waker(wakers, Some(waker)) =~= wakers + seq![waker]);
}

/// A waker was woken since the first `heard` exactly when it is among the later ones.
pub proof fn later_wakers_count(woken: Seq<Waker>, heard: nat, waker: Waker)
    requires
        heard <= woken.len(),
    ensures
        woken_since(woken, heard, waker) <==> woken.skip(heard as int).contains(waker),
{
    let later = woken.skip(heard as int);
    if woken_since(woken, heard, waker) {
        let k = choose|k: int| heard <= k < woken.len() && #[trigger] woken[k] == waker;
        assert(later[k - heard] == waker);
    }
    if later.contains(waker) {
        let k = choose|k: int| 0 <= k < later.len() && later[k] == waker;
        assert(woken[k + heard] == waker);
    }
}

} // verus!
