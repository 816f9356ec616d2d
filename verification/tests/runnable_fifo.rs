use clockworker::mpsc::Mpsc;
use clockworker::scheduler::{RunnableFifo, Scheduler};

#[test]
fn test_runnable_fifo() {
    let mut scheduler = RunnableFifo::new();
    let now = 0;
    scheduler.push(0, 0, now);
    scheduler.push(1, 0, now);
    scheduler.push(2, 4, now);
    assert_eq!(scheduler.pop(), Some(0));
    assert_eq!(scheduler.pop(), Some(1));
    scheduler.push(1, 0, now);
    assert_eq!(scheduler.pop(), Some(2));
    assert_eq!(scheduler.pop(), Some(1));
    assert_eq!(scheduler.pop(), None);
}

#[test]
fn channel_comes_before_pushed_tasks() {
    let mut scheduler = RunnableFifo::new();
    assert!(!scheduler.is_runnable());
    assert!(scheduler.channel().is_none());
    scheduler.push(10, 0, 0);
    let mut mpsc = Mpsc::new();
    mpsc.enqueue(20).unwrap();
    assert!(scheduler.init(mpsc).is_none());
    scheduler.channel().unwrap().enqueue(21).unwrap();
    assert!(scheduler.is_runnable());
    assert_eq!(scheduler.pop(), Some(20));
    assert_eq!(scheduler.pop(), Some(21));
    assert_eq!(scheduler.pop(), Some(10));
    assert_eq!(scheduler.pop(), None);
    scheduler.channel().unwrap().enqueue(22).unwrap();
    assert!(scheduler.is_runnable());
    assert_eq!(scheduler.pop(), Some(22));
    assert!(!scheduler.is_runnable());
}

#[test]
fn replaced_channel_is_handed_back_with_its_tasks() {
    let mut scheduler = RunnableFifo::new();
    let mut first = Mpsc::new();
    first.enqueue(1).unwrap();
    assert!(scheduler.init(first).is_none());
    let mut second = Mpsc::new();
    second.enqueue(2).unwrap();
    let mut back = scheduler.init(second).unwrap();
    assert_eq!(back.pop_one(), Some(1));
    assert_eq!(scheduler.pop(), Some(2));
    assert_eq!(scheduler.pop(), None);
}

#[test]
fn runnable_fifo_keeps_no_state() {
    let mut scheduler = RunnableFifo::new();
    scheduler.push(1, 7, 5);
    scheduler.push(2, 3, 4);
    scheduler.observe(1, 7, 0, 1_000_000, false);
    scheduler.clear_task_state(1, 7);
    scheduler.clear_group_state(7);
    assert_eq!(scheduler.pop(), Some(1));
    assert_eq!(scheduler.pop(), Some(2));
}
