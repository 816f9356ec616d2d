use clockworker::mpsc::Mpsc;
use clockworker::scheduler::{ArrivalFifo, Scheduler};

#[test]
fn test_arrival_fifo() {
    let mut scheduler = ArrivalFifo::new();
    let now0 = 1_000;
    let now1 = now0 + 1;
    let now2 = now1 + 2;
    scheduler.push(0, 0, now0);
    scheduler.push(1, 0, now1);
    scheduler.push(2, 1, now2);
    assert_eq!(scheduler.pop(), Some(0));
    scheduler.push(3, 0, now0 + 5);
    assert_eq!(scheduler.pop(), Some(1));
    assert_eq!(scheduler.pop(), Some(3));
    assert_eq!(scheduler.pop(), Some(2));
    assert_eq!(scheduler.pop(), None);
    scheduler.clear_task_state(2, 1);
    scheduler.push(4, 1, now0 + 10);
    scheduler.push(5, 0, now0 + 15);
    // even though 5 enqueued later, it should run first because it's in group 0
    assert_eq!(scheduler.pop(), Some(5));
    assert_eq!(scheduler.pop(), Some(4));
    assert_eq!(scheduler.pop(), None);
    scheduler.clear_group_state(0);
    // now group 0 should have no advantage but group 1's arrival is now + 10
    scheduler.push(6, 0, now0 + 20);
    scheduler.push(7, 1, now0 + 25);
    assert_eq!(scheduler.pop(), Some(7));
    assert_eq!(scheduler.pop(), Some(6));
    assert_eq!(scheduler.pop(), None);
}

#[test]
fn groups_that_arrive_together_go_by_identifier() {
    let mut scheduler = ArrivalFifo::new();
    assert!(!scheduler.is_runnable());
    scheduler.push(1, 9, 100);
    scheduler.push(2, 3, 100);
    scheduler.push(3, 5, 99);
    assert!(scheduler.is_runnable());
    assert_eq!(scheduler.pop(), Some(3));
    assert_eq!(scheduler.pop(), Some(2));
    assert_eq!(scheduler.pop(), Some(1));
    assert!(!scheduler.is_runnable());
}

#[test]
fn arrival_is_not_changed_by_running() {
    let mut scheduler = ArrivalFifo::new();
    scheduler.push(1, 1, 10);
    scheduler.push(2, 2, 20);
    scheduler.observe(1, 1, 0, 1_000_000_000, false);
    assert_eq!(scheduler.pop(), Some(1));
    assert_eq!(scheduler.pop(), Some(2));
}

#[test]
fn arrival_fifo_hands_the_channel_back() {
    let mut scheduler = ArrivalFifo::new();
    let mut mpsc = Mpsc::new();
    mpsc.enqueue(4).unwrap();
    let mut back = scheduler.init(mpsc).unwrap();
    assert_eq!(back.pop_one(), Some(4));
    assert_eq!(scheduler.pop(), None);
}
