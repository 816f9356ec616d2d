use clockworker::join::{JoinError, JoinState, PanicError, PanicPayload};
use std::sync::atomic::{AtomicUsize, Ordering};
use std::sync::Arc;
use std::task::{Wake, Waker};

struct CountWakes(AtomicUsize);

impl Wake for CountWakes {
    fn wake(self: Arc<Self>) {
        self.0.fetch_add(1, Ordering::SeqCst);
    }
}

fn counting_waker() -> (Arc<CountWakes>, Waker) {
    let count = Arc::new(CountWakes(AtomicUsize::new(0)));
    (count.clone(), Waker::from(count))
}

fn wakes(count: &Arc<CountWakes>) -> usize {
    count.0.load(Ordering::SeqCst)
}

#[test]
fn test_complete_ok() {
    let mut state = JoinState::<i32>::new();
    assert!(!state.is_done());

    assert!(state.try_complete_ok(42));
    assert!(state.is_done());

    let result = state.take_result();
    assert_eq!(result.unwrap(), 42);
}

#[test]
fn test_complete_cancelled() {
    let mut state = JoinState::<i32>::new();
    assert!(state.try_complete_cancelled());
    assert!(state.is_done());

    let result = state.take_result();
    assert!(matches!(result, Err(JoinError::Cancelled)));
}

#[test]
fn test_complete_panic() {
    let mut state = JoinState::<i32>::new();
    let panic_err = PanicError::new("test panic");
    assert!(state.try_complete_err(JoinError::Panic(panic_err)));
    assert!(state.is_done());

    let result = state.take_result();
    match result {
        Err(JoinError::Panic(e)) => assert_eq!(e.message(), "test panic"),
        other => panic!("Expected Panic error, got {:?}", other),
    }
}

#[test]
fn test_only_one_completer_wins() {
    let mut state = JoinState::<i32>::new();

    // First completer wins
    assert!(state.try_complete_ok(1));
    // All others lose
    assert!(!state.try_complete_ok(2));
    assert!(!state.try_complete_cancelled());
    assert!(!state.try_complete_err(JoinError::Cancelled));

    let result = state.take_result();
    assert_eq!(result.unwrap(), 1);
}

#[test]
fn test_result_taken_on_second_take() {
    let mut state = JoinState::<i32>::new();
    state.try_complete_ok(42);

    // First take succeeds
    let result1 = state.take_result();
    assert_eq!(result1.unwrap(), 42);

    // Second take returns ResultTaken
    let result2 = state.take_result();
    assert!(matches!(result2, Err(JoinError::ResultTaken)));
}

#[test]
fn take_before_completion_is_refused() {
    let mut state = JoinState::<i32>::new();
    assert_eq!(state.take_result(), Err(JoinError::ResultTaken));
    assert!(!state.is_done());
    assert!(state.try_complete_ok(7));
    assert_eq!(state.take_result(), Ok(7));
}

#[test]
fn late_completion_loses_even_after_the_result_was_taken() {
    let mut state = JoinState::<i32>::new();
    assert!(state.try_complete(Ok(1)));
    assert_eq!(state.take_result(), Ok(1));
    assert!(!state.try_complete_ok(2));
    assert!(!state.try_complete(Err(JoinError::Cancelled)));
    assert_eq!(state.take_result(), Err(JoinError::ResultTaken));
    assert!(state.is_done());
}

#[test]
fn poll_registers_and_completion_wakes_once() {
    let (count, waker) = counting_waker();
    let mut state = JoinState::<i32>::new();
    assert_eq!(state.poll(&waker), None);
    assert_eq!(wakes(&count), 0);
    assert!(state.try_complete_ok(5));
    assert_eq!(wakes(&count), 1);
    assert!(!state.try_complete_ok(6));
    assert_eq!(wakes(&count), 1);
    assert_eq!(state.poll(&waker), Some(Ok(5)));
    assert_eq!(state.poll(&waker), Some(Err(JoinError::ResultTaken)));
}

#[test]
fn poll_wakes_the_waker_that_was_registered_last() {
    let (first, first_waker) = counting_waker();
    let (second, second_waker) = counting_waker();
    let mut state = JoinState::<i32>::new();
    assert_eq!(state.poll(&first_waker), None);
    assert_eq!(state.poll(&second_waker), None);
    assert!(state.try_complete_cancelled());
    assert_eq!(wakes(&first), 0);
    assert_eq!(wakes(&second), 1);
    assert_eq!(state.poll(&second_waker), Some(Err(JoinError::Cancelled)));
}

#[test]
fn completion_before_the_first_poll_wakes_nobody() {
    let (count, waker) = counting_waker();
    let mut state = JoinState::<&str>::new();
    assert!(state.try_complete_ok("done"));
    assert_eq!(state.poll(&waker), Some(Ok("done")));
    assert_eq!(wakes(&count), 0);
}

#[test]
fn panic_messages() {
    let owned = PanicError::from_panic_payload(PanicPayload::Owned(format!("{} {}", "no", 7)));
    assert_eq!(owned.message(), "Task panicked: no 7");
    let literal = PanicError::from_panic_payload(PanicPayload::Literal("boom"));
    assert_eq!(literal.message(), "Task panicked: boom");
    let other = PanicError::from_panic_payload(PanicPayload::Other);
    assert_eq!(other.message(), "Task panicked with unknown payload");
    let empty = PanicError::from_panic_payload(PanicPayload::Literal(""));
    assert_eq!(empty.message(), "Task panicked: ");
}

#[test]
fn panic_error_from_string_and_slice() {
    assert_eq!(PanicError::new("text"), PanicError::new(format!("te{}", "xt")));
    assert_ne!(PanicError::new("text"), PanicError::new("other"));
    assert_eq!(PanicError::new("text").clone().message(), "text");
}

#[test]
fn deferred_completion_hands_over_the_waker() {
    let (count, waker) = counting_waker();
    let mut state = JoinState::<i32>::new();
    assert_eq!(state.poll(&waker), None);
    let (won, handed) = state.try_complete_deferred(Ok(3));
    assert!(won);
    assert!(handed.unwrap().will_wake(&waker));
    assert_eq!(wakes(&count), 0);
    let (won, handed) = state.try_complete_deferred(Ok(4));
    assert!(!won);
    assert!(handed.is_none());
    assert_eq!(state.poll(&waker), Some(Ok(3)));
    let mut nobody_waits = JoinState::<i32>::new();
    let (won, handed) = nobody_waits.try_complete_deferred(Err(JoinError::Cancelled));
    assert!(won);
    assert!(handed.is_none());
    assert_eq!(nobody_waits.take_result(), Err(JoinError::Cancelled));
}
