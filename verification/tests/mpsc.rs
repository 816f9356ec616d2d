use clockworker::mpsc::Mpsc;
use std::rc::Rc;
use std::sync::atomic::{AtomicUsize, Ordering};
use std::sync::Arc;
use std::task::{Wake, Waker};

struct CountWakes(AtomicUsize);

impl Wake for CountWakes {
    fn wake(self: Arc<Self>) {
        self.0.fetch_add(1, Ordering::SeqCst);
    }
}

fn counting_waker() -> (Arc<CountWakes>, Waker) {
    let count = Arc::new(CountWakes(AtomicUsize::new(0)));
    (count.clone(), Waker::from(count))
}

fn wakes(count: &Arc<CountWakes>) -> usize {
    count.0.load(Ordering::SeqCst)
}

#[test]
fn test_basic_push_pop() {
    let mut q = Mpsc::new();

    q.enqueue(1).unwrap();
    q.enqueue(2).unwrap();
    q.enqueue(3).unwrap();

    assert_eq!(q.pop_one(), Some(1));
    assert_eq!(q.pop_one(), Some(2));
    assert_eq!(q.pop_one(), Some(3));
    assert_eq!(q.pop_one(), None);
}

#[test]
fn test_fifo_order() {
    let mut q = Mpsc::new();

    for i in 0..100 {
        q.enqueue(i).unwrap();
    }

    for i in 0..100 {
        assert_eq!(q.pop_one(), Some(i));
    }
    assert_eq!(q.pop_one(), None);
}

#[test]
fn test_try_drain() {
    let mut q = Mpsc::new();

    for i in 0..10 {
        q.enqueue(i).unwrap();
    }

    let mut out: [i32; 4] = [0; 4];
    let n = q.try_drain(&mut out);
    assert_eq!(n, 4);

    // Verify values
    for i in 0..4 {
        assert_eq!(out[i], i as i32);
    }

    // Drain rest
    let n = q.try_drain(&mut out);
    assert_eq!(n, 4);

    let n = q.try_drain(&mut out);
    assert_eq!(n, 2);

    let n = q.try_drain(&mut out);
    assert_eq!(n, 0);
}

#[test]
fn test_close() {
    let mut q = Mpsc::new();

    q.enqueue(1).unwrap();
    q.close();

    assert!(q.enqueue(2).is_err());

    // Can still drain existing items
    assert_eq!(q.pop_one(), Some(1));
    assert_eq!(q.pop_one(), None);
}

#[test]
fn test_empty_queue() {
    let mut q: Mpsc<i32> = Mpsc::new();

    assert_eq!(q.pop_one(), None);
    assert_eq!(q.pop_one(), None);
}

#[test]
fn test_drop_with_items() {
    let mut q = Mpsc::new();
    for i in 0..100 {
        q.enqueue(Box::new(i)).unwrap();
    }
    // Drop should free all items without leaks
    drop(q);
}

#[test]
fn dropped_queue_drops_each_item_once() {
    let item = Rc::new(());
    let mut q = Mpsc::new();
    for _ in 0..5 {
        q.enqueue(item.clone()).unwrap();
    }
    assert_eq!(Rc::strong_count(&item), 6);
    drop(q.pop_one());
    assert_eq!(Rc::strong_count(&item), 5);
    drop(q);
    assert_eq!(Rc::strong_count(&item), 1);
}

#[test]
fn drain_leaves_the_rest_of_the_array_alone() {
    let mut q = Mpsc::default();
    q.enqueue(8).unwrap();
    q.enqueue(9).unwrap();
    let mut out: [i32; 4] = [-1; 4];
    assert_eq!(q.try_drain(&mut out), 2);
    assert_eq!(out, [8, 9, -1, -1]);
    let mut none: [i32; 0] = [];
    q.enqueue(10).unwrap();
    assert_eq!(q.try_drain(&mut none), 0);
    assert_eq!(q.pop_one(), Some(10));
}

#[test]
fn closed_and_empty() {
    let mut q: Mpsc<u8> = Mpsc::new();
    assert!(!q.is_closed());
    assert!(q.is_empty());
    q.enqueue(3).unwrap();
    assert!(!q.is_empty());
    q.close();
    assert!(q.is_closed());
    assert_eq!(q.enqueue(4), Err(()));
    assert_eq!(q.pop_one(), Some(3));
    assert!(q.is_empty());
    assert!(q.is_closed());
}

#[test]
fn receive_parks_and_the_next_item_wakes() {
    let (count, waker) = counting_waker();
    let mut q = Mpsc::new();
    assert_eq!(q.poll_recv_one(&waker), None);
    assert_eq!(wakes(&count), 0);
    q.enqueue(1).unwrap();
    assert_eq!(wakes(&count), 1);
    // the consumer has not parked again, so nobody is woken
    q.enqueue(2).unwrap();
    assert_eq!(wakes(&count), 1);
    assert_eq!(q.poll_recv_one(&waker), Some(Ok(1)));
    assert_eq!(q.poll_recv_one(&waker), Some(Ok(2)));
    assert_eq!(q.poll_recv_one(&waker), None);
    q.enqueue(3).unwrap();
    assert_eq!(wakes(&count), 2);
    assert_eq!(q.poll_recv_one(&waker), Some(Ok(3)));
}

#[test]
fn close_wakes_a_parked_consumer() {
    let (count, waker) = counting_waker();
    let mut q: Mpsc<u8> = Mpsc::new();
    assert_eq!(q.poll_recv_one(&waker), None);
    q.close();
    assert_eq!(wakes(&count), 1);
    assert_eq!(q.poll_recv_one(&waker), Some(Err(())));
    assert_eq!(q.poll_recv_one(&waker), Some(Err(())));
}

#[test]
fn closed_queue_hands_out_what_it_holds() {
    let (count, waker) = counting_waker();
    let mut q = Mpsc::new();
    q.enqueue(1).unwrap();
    q.enqueue(2).unwrap();
    q.close();
    assert_eq!(q.poll_recv_one(&waker), Some(Ok(1)));
    assert_eq!(q.poll_recv_one(&waker), Some(Ok(2)));
    assert_eq!(q.poll_recv_one(&waker), Some(Err(())));
    assert_eq!(wakes(&count), 0);
}

#[test]
fn drained_consumer_is_woken_after_it_parks() {
    let (count, waker) = counting_waker();
    let mut q = Mpsc::new();
    q.enqueue(1).unwrap();
    let mut out: [i32; 2] = [0; 2];
    assert_eq!(q.try_drain(&mut out), 1);
    assert_eq!(q.poll_recv_one(&waker), None);
    q.enqueue(2).unwrap();
    assert_eq!(wakes(&count), 1);
}

#[test]
fn receive_wakes_the_waker_that_was_registered_last() {
    let (first, first_waker) = counting_waker();
    let (second, second_waker) = counting_waker();
    let mut q = Mpsc::new();
    assert_eq!(q.poll_recv_one(&first_waker), None);
    assert_eq!(q.poll_recv_one(&second_waker), None);
    q.enqueue('a').unwrap();
    assert_eq!(wakes(&first), 0);
    assert_eq!(wakes(&second), 1);
}

#[test]
fn deferred_operations_hand_over_the_waker_once() {
    let (count, waker) = counting_waker();
    let mut q = Mpsc::new();
    assert!(q.enqueue_deferred(1).unwrap().is_none());
    assert_eq!(q.poll_recv_one(&waker), Some(Ok(1)));
    assert_eq!(q.poll_recv_one(&waker), None);
    let handed = q.enqueue_deferred(2).unwrap().unwrap();
    assert!(handed.will_wake(&waker));
    assert_eq!(wakes(&count), 0);
    handed.wake();
    assert_eq!(wakes(&count), 1);
    assert!(q.enqueue_deferred(3).unwrap().is_none());
    assert_eq!(q.pop_one(), Some(2));
    assert_eq!(q.pop_one(), Some(3));
    assert_eq!(q.poll_recv_one(&waker), None);
    assert!(q.close_deferred().unwrap().will_wake(&waker));
    assert!(q.close_deferred().is_none());
    assert!(q.is_closed());
    assert_eq!(q.enqueue_deferred(4).err(), Some(()));
    assert_eq!(q.pop_one(), None);
    assert_eq!(wakes(&count), 1);
}
