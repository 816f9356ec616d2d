//! The hand-over of a result, however the steps of completers and of the waiting task interleave.
//!
//! Any number of parties try to complete a task while another task waits for the result. Each acts
//! in steps that others may run between. This module describes every such run and proves that one
//! party wins, that the result is there when completion is announced, and that the waiting task is
//! woken.
use crate::join::{Join, JoinError, Outcome};
use crate::notify::{lemma_woken_since, with_waker, woken_since};
use std::task::Waker;
use vstd::prelude::*;

verus! {

/// How far the party that won has come.
pub enum Winner {
    /// nobody has won yet
    Nobody,
    /// the result is stored
    Stored,
    /// completion is announced
    Announced,
    /// completion is announced, and the registered waker was taken out to be woken by hand
    Holding,
    /// the waiting task was woken
    Finished,
}

/// Where the waiting task stands.
pub enum Waiter {
    /// running
    Awake,
    /// its waker is registered, and it is about to look again
    Registered,
    /// it waits for a notification
    Parked,
}

/// A hand-over in the middle of the work of all its parties.
pub struct Handoff<T> {
    /// the announcement of completion
    pub done: bool,
    /// the stored result
    pub result: Option<Result<T, JoinError>>,
    /// what wakes the waiting task
    pub waker: Waker,
    /// the registered waker, until it is woken or taken out
    pub registered: Option<Waker>,
    /// the wakers that were woken where they were registered, in order
    pub woken: Seq<Waker>,
    /// how many of these had been woken when the waiting task last started to run
    pub heard: nat,
    /// the waker that the winner has taken out, until it is woken
    pub held: Option<Waker>,
    /// the wakers that were woken after they had been taken out, in order
    pub by_hand: Seq<Waker>,
    /// how many of these had been woken when the waiting task last started to run
    pub heard_by_hand: nat,
    /// how far the winner has come
    pub winner: Winner,
    /// how many parties have been told that they won
    pub wins: nat,
    /// the result that was taken first, once one was taken
    pub taken: Option<Result<T, JoinError>>,
    /// what the first winner stored
    pub won_with: Option<Result<T, JoinError>>,
    /// where the waiting task stands
    pub waiter: Waiter,
}

/// A step of one of the parties.
pub enum Step<T> {
    /// a party looks whether the task was completed, and stores its result if not
    Complete(Result<T, JoinError>),
    /// the winner announces completion
    Announce,
    /// the winner wakes the waiting task
    Wake,
    /// a party looks whether the task was completed and, if not, stores its result, announces
    /// completion and takes out the waker of the waiting task, all in one
    CompleteDeferred(Result<T, JoinError>),
    /// the winner wakes the waker that it took out
    WakeHeld,
    /// the running task sees the announcement and takes the result
    Take,
    /// the running task registers its waker
    Register,
    /// the registered task looks again, takes the result if it can, and parks if not
    Recheck,
    /// the parked task runs again because it was notified
    Resume,
}

impl<T> Handoff<T> {
    /// Nobody has done anything.
    pub open spec fn start(waker: Waker) -> Self {
        Handoff {
            done: false,
            result: None,
            waker,
            registered: None,
            woken: Seq::empty(),
            heard: 0,
            held: None,
            by_hand: Seq::empty(),
            heard_by_hand: 0,
            winner: Winner::Nobody,
            wins: 0,
            taken: None,
            won_with: None,
            waiter: Waiter::Awake,
        }
    }

    /// Whether `step` can be taken here.
    pub open spec fn enabled(self, step: Step<T>) -> bool {
        match step {
            Step::Complete(_) => true,
            Step::Announce => self.winner is Stored,
            Step::Wake => self.winner is Announced,
            Step::CompleteDeferred(_) => true,
            Step::WakeHeld => self.winner is Holding,
            Step::Take => self.waiter is Awake && self.done,
            Step::Register => self.waiter is Awake,
            Step::Recheck => self.waiter is Registered,
            Step::Resume => self.waiter is Parked && self.notified(),
        }
    }

    /// The stored result leaves, if there is one.
    pub open spec fn emptied(self) -> Self {
        Handoff {
            result: None,
            taken: if self.taken is None {
                self.result
            } else {
                self.taken
            },
            waiter: Waiter::Awake,
            ..self
        }
    }

    /// What `step` leads to.
    pub open spec fn after(self, step: Step<T>) -> Self {
        match step {
            Step::Complete(result) => if self.done || self.result is Some {
                self
            } else {
                Handoff {
                    result: Some(result),
                    winner: Winner::Stored,
                    wins: self.wins + 1,
                    won_with: Some(result),
                    ..self
                }
            },
            Step::Announce => Handoff { done: true, winner: Winner::Announced, ..self },
            Step::Wake => Handoff {
                winner: Winner::Finished,
                registered: None,
                woken: with_waker(self.woken, self.registered),
                ..self
            },
            Step::CompleteDeferred(result) => if self.done || self.result is Some {
                self
            } else {
                Handoff {
                    done: true,
                    result: Some(result),
                    registered: None,
                    held: self.registered,
                    winner: Winner::Holding,
                    wins: self.wins + 1,
                    won_with: Some(result),
                    ..self
                }
            },
            Step::WakeHeld => Handoff {
                winner: Winner::Finished,
                held: None,
                by_hand: with_waker(self.by_hand, self.held),
                ..self
            },
            Step::Take => self.emptied(),
            Step::Register => Handoff {
                registered: Some(self.waker),
                waiter: Waiter::Registered,
                ..self
            },
            Step::Recheck => if self.done {
                self.emptied()
            } else {
                Handoff { waiter: Waiter::Parked, ..self }
            },
            Step::Resume => Handoff {
                heard: self.woken.len(),
                heard_by_hand: self.by_hand.len(),
                waiter: Waiter::Awake,
                ..self
            },
        }
    }

    /// What the steps so far amount to, as long as the winner is not in the middle of its own.
    pub open spec fn joined(self) -> Join<T> {
        Join {
            outcome: match self.result {
                Some(result) => Outcome::Ready(result),
                None => if self.done {
                    Outcome::Taken
                } else {
                    Outcome::Pending
                },
            },
            registered: self.registered,
            woken: self.woken,
        }
    }

    /// Whether the waiting task's waker was woken since the task last started to run.
    pub open spec fn notified(self) -> bool {
        woken_since(self.woken, self.heard, self.waker) || woken_since(
            self.by_hand,
            self.heard_by_hand,
            self.waker,
        )
    }

    /// What holds between any two steps.
    pub open spec fn consistent(self) -> bool {
        &&& self.registered is Some ==> self.registered == Some(self.waker)
        &&& self.heard <= self.woken.len()
        &&& self.heard_by_hand <= self.by_hand.len()
        &&& self.held is Some ==> self.winner is Holding && self.held == Some(self.waker)
        &&& self.done <==> self.winner is Announced || self.winner is Holding
            || self.winner is Finished
        &&& self.wins == (if self.winner is Nobody {
            0nat
        } else {
            1nat
        })
        &&& self.won_with is Some <==> !(self.winner is Nobody)
        &&& self.winner is Nobody ==> self.result is None && self.taken is None
        &&& self.winner is Stored ==> self.taken is None
        &&& !(self.winner is Nobody) && self.taken is None ==> self.result == self.won_with
        &&& self.taken is Some ==> self.result is None && self.taken == self.won_with
        &&& self.waiter is Registered || self.waiter is Parked ==> self.registered is Some
            || self.held is Some || self.notified()
        &&& self.waiter is Parked && self.done ==> self.notified() || self.winner is Announced
            || self.held is Some
    }
}

/// Whether `run` starts at the beginning and each state follows from the one before by a step.
pub open spec fn is_history<T>(run: Seq<Handoff<T>>, steps: Seq<Step<T>>) -> bool {
    &&& run.len() == steps.len() + 1
    &&& run[0] == Handoff::<T>::start(run[0].waker)
    &&& forall|i: int|
        #![trigger steps[i]]
        0 <= i < steps.len() ==> run[i].enabled(steps[i]) && run[i + 1] == run[i].after(steps[i])
}

/// Every step keeps the hand-over consistent.
pub proof fn step_keeps_consistent<T>(handoff: Handoff<T>, step: Step<T>)
    requires
        handoff.consistent(),
        handoff.enabled(step),
    ensures
        handoff.after(step).consistent(),
{
    lemma_woken_since(handoff.woken, handoff.heard, handoff.waker, handoff.registered);
    lemma_woken_since(handoff.by_hand, handoff.heard_by_hand, handoff.waker, handoff.held);
}

proof fn lemma_history_consistent<T>(run: Seq<Handoff<T>>, steps: Seq<Step<T>>, i: int)
    requires
        is_history(run, steps),
        0 <= i < run.len(),
    ensures
        run[i].consistent(),
    decreases i,
{
    if i > 0 {
        lemma_history_consistent(run, steps, i - 1);
        let step = steps[i - 1];
        step_keeps_consistent(run[i - 1], step);
    }
}

/// However the steps interleave, a result is available whenever completion is announced and
/// nobody has taken the result: it is what the winner stored.
pub proof fn result_is_there_when_done<T>(run: Seq<Handoff<T>>, steps: Seq<Step<T>>, i: int)
    requires
        is_history(run, steps),
        0 <= i < run.len(),
        run[i].done,
        run[i].taken is None,
    ensures
        run[i].result is Some,
        run[i].result == run[i].won_with,
{
    lemma_history_consistent(run, steps, i);
}

/// However the steps interleave, at most one party wins.
pub proof fn at_most_one_wins<T>(run: Seq<Handoff<T>>, steps: Seq<Step<T>>, i: int)
    requires
        is_history(run, steps),
        0 <= i < run.len(),
    ensures
        run[i].wins <= 1,
        run[i].taken is Some ==> run[i].taken == run[i].won_with,
{
    lemma_history_consistent(run, steps, i);
}

/// However the steps interleave, a task that parked although completion is announced has been
/// notified, or the winner is about to wake it or holds its waker in order to wake it.
pub proof fn waiting_task_is_woken<T>(run: Seq<Handoff<T>>, steps: Seq<Step<T>>, i: int)
    requires
        is_history(run, steps),
        0 <= i < run.len(),
        run[i].waiter is Parked,
        run[i].done,
    ensures
        run[i].notified() || run[i].winner is Announced || (run[i].winner is Holding && run[i].held
            == Some(run[i].waker)),
{
    lemma_history_consistent(run, steps, i);
}

/// The steps of a completer, taken without interruption, amount to a completion: they store,
/// announce and wake if nobody has won, and are over after the first look otherwise.
pub proof fn completion_is_its_steps<T>(handoff: Handoff<T>, result: Result<T, JoinError>)
    requires
        handoff.consistent(),
        handoff.winner is Nobody || handoff.winner is Finished,
    ensures
        ({
            let looked = handoff.after(Step::Complete(result));
            if handoff.winner is Nobody {
                let announced = looked.after(Step::Announce);
                &&& looked.enabled(Step::Announce)
                &&& announced.enabled(Step::Wake)
                &&& announced.after(Step::Wake).joined() == handoff.joined().complete(result)
            } else {
                looked.joined() == handoff.joined().complete(result)
            }
        }),
{
}

/// The one step that a completer takes with the state locked is a deferred completion: what it then
/// holds is the waker that was registered.
pub proof fn deferred_completion_is_its_step<T>(handoff: Handoff<T>, result: Result<T, JoinError>)
    requires
        handoff.consistent(),
        handoff.winner is Nobody || handoff.winner is Finished,
    ensures
        handoff.enabled(Step::CompleteDeferred(result)),
        handoff.after(Step::CompleteDeferred(result)).joined() == handoff.joined().settle(result),
        handoff.winner is Nobody ==> handoff.after(Step::CompleteDeferred(result)).held
            == handoff.registered,
{
}

/// The steps of a waiting task, taken without interruption, amount to one attempt to get the
/// result: it is taken if the task was completed, and the waker is registered otherwise.
pub proof fn poll_is_its_steps<T>(handoff: Handoff<T>)
    requires
        handoff.consistent(),
        handoff.winner is Nobody || handoff.winner is Finished,
        handoff.waiter is Awake,
    ensures
        handoff.done == !(handoff.joined().outcome is Pending),
        handoff.done ==> handoff.enabled(Step::Take) && handoff.after(Step::Take).joined()
            == handoff.joined().take(),
        !handoff.done ==> ({
            let registered = handoff.after(Step::Register);
            &&& handoff.enabled(Step::Register)
            &&& registered.enabled(Step::Recheck)
            &&& registered.after(Step::Recheck).joined() == handoff.joined().register(handoff.waker)
        }),
{
}

} // verus!
