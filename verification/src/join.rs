//! How a task hands its result to whoever waits for it.
use crate::notify::{
    new_cell, register, registered_waker, take, wake, with_waker, woken_through,
};
use futures::task::AtomicWaker;
use std::task::Waker;
use vstd::prelude::*;
use vstd::string::StringExecFns;

verus! {

/// `String::from` copies the characters of a string slice.
pub assume_specification<'a>[ <String as From<&'a str>>::from ](s: &str) -> (r: String)
    ensures
        r@ == s@,
;

/// `From::from` of a type for itself returns the argument unchanged.
pub assume_specification<A>[ <A as From<A>>::from ](value: A) -> (r: A)
    ensures
        r == value,
;

/// What a panicking task left behind: a message, if it panicked with one.
pub enum PanicPayload {
    /// the panic carried a `String`
    Owned(String),
    /// the panic carried a string literal
    Literal(&'static str),
    /// the panic carried anything else
    Other,
}

/// Error representing a panic that occurred in a task.
#[derive(Debug, Clone, PartialEq, Eq)]
pub struct PanicError {
    message: String,
}

impl View for PanicError {
    type V = Seq<char>;

    closed spec fn view(&self) -> Seq<char> {
        self.message@
    }
}

/// The message for a panic with the given payload.
pub open spec fn panic_message(payload: PanicPayload) -> Seq<char> {
    match payload {
        PanicPayload::Owned(text) => "Task panicked: "@ + text@,
        PanicPayload::Literal(text) => "Task panicked: "@ + text@,
        PanicPayload::Other => "Task panicked with unknown payload"@,
    }
}

impl PanicError {
    /// The message as the caller's conversion makes it.
    pub closed spec fn text(self) -> String {
        self.message
    }

    /// Makes an error with the given message.
    pub fn new<M: Into<String>>(message: M) -> (e: Self)
        ensures
            call_ensures(<M as Into<String>>::into, (message,), e.text()),
            e.text()@ == e@,
    {
        PanicError { message: message.into() }
    }

    /// The message.
    pub fn message(&self) -> (text: &str)
        ensures
            text@ == self@,
    {
        self.message.as_str()
    }

    /// Makes an error that tells what the task panicked with.
    pub fn from_panic_payload(payload: PanicPayload) -> (e: Self)
        ensures
            e@ == panic_message(payload),
    {
        match payload {
            PanicPayload::Owned(text) => {
                let mut message: String = String::from("Task panicked: ");
                message.append(text.as_str());
                Self::new(message)
            },
            PanicPayload::Literal(text) => {
                let mut message: String = String::from("Task panicked: ");
                message.append(text);
                Self::new(message)
            },
            PanicPayload::Other => Self::new("Task panicked with unknown payload"),
        }
    }
}

/// Error returned from awaiting a task.
#[derive(Debug, Clone, PartialEq, Eq)]
pub enum JoinError {
    /// the task was cancelled
    Cancelled,
    /// the result was already taken
    ResultTaken,
    /// the task panicked
    Panic(PanicError),
}

/// What has become of a task's result.
pub enum Outcome<T> {
    /// nobody has completed the task yet
    Pending,
    /// the winner's result waits to be taken
    Ready(Result<T, JoinError>),
    /// the result was taken
    Taken,
}

/// The outcome, and what concerns whoever waits for it.
#[verifier::ext_equal]
pub struct Join<T> {
    pub outcome: Outcome<T>,
    /// the waker that a waiting task has registered, until it is woken or taken out
    pub registered: Option<Waker>,
    /// the wakers that were woken, in order
    pub woken: Seq<Waker>,
}

impl<T> Join<T> {
    /// The first completion decides and wakes who waits; later ones change nothing.
    pub open spec fn complete(self, result: Result<T, JoinError>) -> Self {
        match self.outcome {
            Outcome::Pending => Join {
                outcome: Outcome::Ready(result),
                registered: None,
                woken: with_waker(self.woken, self.registered),
            },
            _ => self,
        }
    }

    /// The first completion decides and takes the registered waker out, to be woken elsewhere;
    /// later ones change nothing.
    pub open spec fn settle(self, result: Result<T, JoinError>) -> Self {
        match self.outcome {
            Outcome::Pending => Join {
                outcome: Outcome::Ready(result),
                registered: None,
                ..self
            },
            _ => self,
        }
    }

    /// What taking the result hands out.
    pub open spec fn taken(self) -> Result<T, JoinError> {
        match self.outcome {
            Outcome::Ready(result) => result,
            _ => Err(JoinError::ResultTaken),
        }
    }

    /// A result that waits is taken.
    pub open spec fn take(self) -> Self {
        match self.outcome {
            Outcome::Ready(_) => Join { outcome: Outcome::Taken, ..self },
            _ => self,
        }
    }

    /// The waiting task registers its waker.
    pub open spec fn register(self, waker: Waker) -> Self {
        Join { registered: Some(waker), ..self }
    }
}

/// The place where a task's result is stored, once, by whoever completes the task first.
#[derive(Debug)]
pub struct JoinState<T> {
    done: bool,
    // Stored exactly once, by the winner; empty again when taken.
    result: Option<Result<T, JoinError>>,
    waker: AtomicWaker,
}

impl<T> View for JoinState<T> {
    type V = Join<T>;

    closed spec fn view(&self) -> Join<T> {
        Join {
            outcome: match self.result {
                Some(result) => Outcome::Ready(result),
                None => if self.done {
                    Outcome::Taken
                } else {
                    Outcome::Pending
                },
            },
            registered: registered_waker(self.waker),
            woken: woken_through(self.waker),
        }
    }
}

impl<T> JoinState<T> {
    /// A stored result is announced, and nobody waits for a result that was announced.
    pub closed spec fn inv(self) -> bool {
        &&& self.result is Some ==> self.done
        &&& registered_waker(self.waker) is Some ==> !self.done
    }

    /// Nobody waits for a task that was completed.
    pub broadcast proof fn lemma_waits_only_while_pending(self)
        requires
            #[trigger] self.inv(),
        ensures
            self@.registered is Some ==> self@.outcome is Pending,
    {
    }

    /// Makes the state of a task that nobody has completed or waits for.
    pub fn new() -> (state: Self)
        ensures
            state.inv(),
            state@ == (Join::<T> {
                outcome: Outcome::Pending,
                registered: None,
                woken: Seq::empty(),
            }),
    {
        JoinState { done: false, result: None, waker: new_cell() }
    }

    /// Whether the task was completed.
    pub fn is_done(&self) -> (r: bool)
        requires
            self.inv(),
        ensures
            r == !(self@.outcome is Pending),
    {
        self.done
    }

    /// Completes the task with `result`. Returns true if we won.
    pub fn try_complete(&mut self, result: Result<T, JoinError>) -> (won: bool)
        requires
            old(self).inv(),
        ensures
            final(self).inv(),
            won == (old(self)@.outcome is Pending),
            final(self)@ == old(self)@.complete(result),
    {
        // Somebody else won, whether or not the result was taken since.
        if self.done || self.result.is_some() {
            return false;
        }
        self.result = Some(result);
        self.done = true;
        wake(&mut self.waker);
        true
    }

    /// Does what `try_complete` does, but leaves it to the caller to wake who waits: returns
    /// whether we won, and the waker that is to be woken, if any.
    pub fn try_complete_deferred(&mut self, result: Result<T, JoinError>) -> (r: (
        bool,
        Option<Waker>,
    ))
        requires
            old(self).inv(),
        ensures
            final(self).inv(),
            r.0 == (old(self)@.outcome is Pending),
            r.1 == (if r.0 {
                old(self)@.registered
            } else {
                None
            }),
            final(self)@ == old(self)@.settle(result),
    {
        if self.done || self.result.is_some() {
            return (false, None);
        }
        self.result = Some(result);
        self.done = true;
        (true, take(&mut self.waker))
    }

    /// Attempts to complete with a value. Returns true if we won.
    pub fn try_complete_ok(&mut self, val: T) -> (won: bool)
        requires
            old(self).inv(),
        ensures
            final(self).inv(),
            won == (old(self)@.outcome is Pending),
            final(self)@ == old(self)@.complete(Ok(val)),
    {
        self.try_complete(Ok(val))
    }

    /// Attempts to complete with `Cancelled`. Returns true if we won.
    pub fn try_complete_cancelled(&mut self) -> (won: bool)
        requires
            old(self).inv(),
        ensures
            final(self).inv(),
            won == (old(self)@.outcome is Pending),
            final(self)@ == old(self)@.complete(Err(JoinError::Cancelled)),
    {
        self.try_complete(Err(JoinError::Cancelled))
    }

    /// Attempts to complete with an error. Returns true if we won.
    pub fn try_complete_err(&mut self, err: JoinError) -> (won: bool)
        requires
            old(self).inv(),
        ensures
            final(self).inv(),
            won == (old(self)@.outcome is Pending),
            final(self)@ == old(self)@.complete(Err(err)),
    {
        self.try_complete(Err(err))
    }

    /// Takes the result. Without one, the answer is `ResultTaken`.
    pub fn take_result(&mut self) -> (r: Result<T, JoinError>)
        requires
            old(self).inv(),
        ensures
            final(self).inv(),
            r == old(self)@.taken(),
            final(self)@ == old(self)@.take(),
    {
        match self.result.take() {
            None => Err(JoinError::ResultTaken),
            Some(result) => result,
        }
    }

    /// One attempt of a waiting task to get the result. Returns `None`, with the task's waker
    /// registered, if the task to wait for was not completed yet.
    pub fn poll(&mut self, waker: &Waker) -> (r: Option<Result<T, JoinError>>)
        requires
            old(self).inv(),
        ensures
            final(self).inv(),
            match r {
                Some(result) => {
                    &&& !(old(self)@.outcome is Pending)
                    &&& result == old(self)@.taken()
                    &&& final(self)@ == old(self)@.take()
                },
                None => {
                    &&& old(self)@.outcome is Pending
                    &&& final(self)@ == old(self)@.register(*waker)
                },
            },
    {
        if self.is_done() {
            return Some(self.take_result());
        }
        register(&mut self.waker, waker);
        // A completion that came before the registration woke nobody.
        if self.done {
            return Some(self.take_result());
        }
        None
    }
}

/// Only the first of two completions has an effect.
pub proof fn first_completion_wins<T>(
    join: Join<T>,
    first: Result<T, JoinError>,
    second: Result<T, JoinError>,
)
    ensures
        join.complete(first).complete(second) == join.complete(first),
        join.outcome is Pending ==> join.complete(first).complete(second).taken() == first,
{
}

/// What completes a pending task is what the first take hands out; every later take, and every
/// take after a later completion, is answered with `ResultTaken`.
pub proof fn result_is_taken_once<T>(
    join: Join<T>,
    result: Result<T, JoinError>,
    late: Result<T, JoinError>,
)
    requires
        join.outcome is Pending,
    ensures
        join.complete(result).taken() == result,
        join.complete(result).take().taken() == Err::<T, JoinError>(JoinError::ResultTaken),
        join.complete(result).take().complete(late).taken() == Err::<T, JoinError>(
            JoinError::ResultTaken,
        ),
{
}

/// A task whose poll was pending is woken by the completion that wins: its waker is woken, once,
/// and no other waker is. Later completions wake nobody.
pub proof fn winner_wakes_who_waits<T>(
    join: Join<T>,
    waker: Waker,
    result: Result<T, JoinError>,
    late: Result<T, JoinError>,
)
    requires
        join.outcome is Pending,
    ensures
        join.register(waker).complete(result).woken == join.woken.push(waker),
        join.register(waker).complete(result).complete(late).woken == join.woken.push(waker),
{
}

/// The waker that a deferred completion leaves to the caller is the one that the completion would
/// have woken: waking it makes up for the difference.
pub proof fn deferred_completion_is_the_same<T>(join: Join<T>, result: Result<T, JoinError>)
    ensures
        join.complete(result) == (Join {
            woken: if join.outcome is Pending {
                with_waker(join.woken, join.registered)
            } else {
                join.woken
            },
            ..join.settle(result)
        }),
{
}

/// Before a task was completed, taking its result is refused and changes nothing, so that the
/// completion still wins and its result can still be taken.
pub proof fn early_take_is_refused<T>(join: Join<T>, result: Result<T, JoinError>)
    requires
        join.outcome is Pending,
    ensures
        join.taken() == Err::<T, JoinError>(JoinError::ResultTaken),
        join.take() == join,
        join.take().complete(result).taken() == result,
{
}

/// Taking a result and completing a task concern different things: taking leaves the wakers alone,
/// registering leaves the outcome alone, a completion that comes first leaves nobody waiting, and a
/// later one changes nothing.
pub proof fn outcome_and_wakers_are_kept_apart<T>(
    join: Join<T>,
    result: Result<T, JoinError>,
    waker: Waker,
)
    ensures
        join.take().registered == join.registered,
        join.take().woken == join.woken,
        join.register(waker).registered == Some(waker),
        join.register(waker).outcome == join.outcome,
        join.register(waker).woken == join.woken,
        join.outcome is Pending ==> join.complete(result).outcome == Outcome::Ready(result),
        join.outcome is Pending ==> join.complete(result).registered is None,
        join.outcome is Pending && join.registered is None ==> join.complete(result).woken
            == join.woken,
        !(join.outcome is Pending) ==> join.complete(result) == join,
        join.outcome is Pending ==> join.settle(result).outcome == Outcome::Ready(result)
            && join.settle(result).registered is None && join.settle(result).woken == join.woken,
        !(join.outcome is Pending) ==> join.settle(result) == join,
        join.outcome is Ready ==> Outcome::Ready(join.taken()) == join.outcome,
        join.outcome is Ready ==> join.take().outcome is Taken,
        join.outcome is Taken ==> join.taken() == Err::<T, JoinError>(JoinError::ResultTaken)
            && join.take() == join,
{
}

/// The message for a panic that carried a text is that text behind a fixed beginning, whole and
/// unchanged, and different texts give different messages. Whether the text was a `String` or a
/// literal makes no difference.
pub proof fn panic_message_ends_in_the_text(owned: String, literal: &'static str)
    ensures
        panic_message(PanicPayload::Owned(owned)).take(15) == "Task panicked: "@,
        panic_message(PanicPayload::Owned(owned)).skip(15) == owned@,
        panic_message(PanicPayload::Literal(literal)).take(15) == "Task panicked: "@,
        panic_message(PanicPayload::Literal(literal)).skip(15) == literal@,
        panic_message(PanicPayload::Other) == "Task panicked with unknown payload"@,
{
    reveal_strlit("Task panicked: ");
    assert("Task panicked: "@.len() == 15);
    let one = panic_message(PanicPayload::Owned(owned));
    let two = panic_message(PanicPayload::Literal(literal));
    assert(one.take(15) =~= "Task panicked: "@);
    assert(one.skip(15) =~= owned@);
    assert(two.take(15) =~= "Task panicked: "@);
    assert(two.skip(15) =~= literal@);
}

} // verus!
