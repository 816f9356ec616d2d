use clockworker::scheduler::qlas::FAIR_INTERVAL;
use clockworker::scheduler::{Scheduler, QLAS};

#[test]
fn test_qlas() {
    let mut scheduler = QLAS::new();
    let now = 1_000;
    //initially not runnable but it will be after pushing a task
    assert!(!scheduler.is_runnable());
    scheduler.push(0, 0, now);
    scheduler.push(1, 1, now);
    assert!(scheduler.is_runnable());

    // initially all groups have total service time 0
    // so it returns task 0 from group 0
    assert_eq!(scheduler.pop(), Some(0));

    // now observe that task 0 was run for 2 microseconds
    let start = 10_000;
    let end = start + 2_000;
    scheduler.observe(0, 0, start, end, true);
    assert_eq!(scheduler.service_time(0).unwrap(), 2000);

    // now group 0 has service time 2 and group 1 has no service time
    // enqueue a task to both groups 0 and 1
    scheduler.push(2, 0, now);
    scheduler.push(3, 1, now);

    // first pop should give task 1 from group 1, and then task 3 from group 0
    assert_eq!(scheduler.pop(), Some(1));
    assert_eq!(scheduler.pop(), Some(3));
    assert_eq!(scheduler.pop(), Some(2));
    assert!(!scheduler.is_runnable());

    // now observe that task 3 ran for 6 microseconds
    // and task 2 for 8 microseconds
    let start = 20_000;
    let end = start + 6_000;
    scheduler.observe(3, 1, start, end, true);
    let start = 30_000;
    let end = start + 8_000;
    scheduler.observe(2, 0, start, end, true);
    assert_eq!(scheduler.service_time(0).unwrap(), 10000);
    assert_eq!(scheduler.service_time(1).unwrap(), 6000);

    // 10 and 6 go to different queues
    // add two tasks to group 0 and one to group 1
    scheduler.push(4, 0, now);
    scheduler.push(5, 1, now);

    // now we should get task 5 from group 1
    assert_eq!(scheduler.pop(), Some(5));
    assert!(scheduler.is_runnable());

    // now observe that task 5 ran for 3 microseconds
    let start = 40_000;
    let end = start + 3_000;
    scheduler.observe(5, 1, start, end, true);
    assert_eq!(scheduler.service_time(1).unwrap(), 9000);

    // now add a task to group 0 and one to group 1
    scheduler.push(7, 1, now);
    scheduler.push(6, 0, now);

    // at this point, group 0 has service time of 10, and group 1 has service time of 9
    // both have ilog = 3 so are in same queue, we now get in order of
    // insertion
    assert_eq!(scheduler.pop(), Some(4));
    assert_eq!(scheduler.pop(), Some(7));
    assert_eq!(scheduler.pop(), Some(6));
    assert!(!scheduler.is_runnable());
}

#[test]
fn served_group_does_not_starve() {
    let mut scheduler = QLAS::new();
    // group 1 is in bucket 3, and there is always a task of the fresh group 0
    scheduler.observe(0, 1, 0, 9_000, false);
    scheduler.push(1, 1, 0);
    scheduler.push(0, 0, 0);
    let mut pops: u64 = 0;
    loop {
        pops += 1;
        if scheduler.pop() == Some(1) {
            break;
        }
        scheduler.push(0, 0, 0);
    }
    // the first fair pop serves bucket 0 and the second one goes on behind it
    assert_eq!(pops, 2 * FAIR_INTERVAL);
}

#[test]
fn cleared_group_returns_to_the_first_bucket() {
    let mut scheduler = QLAS::new();
    scheduler.observe(0, 1, 0, 9_000, false);
    assert_eq!(scheduler.service_time(1), Some(9_000));
    scheduler.clear_group_state(1);
    assert_eq!(scheduler.service_time(1), None);
    scheduler.observe(0, 2, 0, 2_000, false);
    scheduler.push(2, 2, 0);
    scheduler.push(1, 1, 0);
    assert_eq!(scheduler.pop(), Some(1));
    assert_eq!(scheduler.pop(), Some(2));
    assert_eq!(scheduler.pop(), None);
}

#[test]
fn task_stays_in_the_bucket_it_was_pushed_to() {
    let mut scheduler = QLAS::new();
    scheduler.push(1, 1, 0);
    scheduler.observe(0, 1, 0, 1_000_000, false);
    scheduler.observe(0, 2, 0, 4_000, false);
    scheduler.push(2, 2, 0);
    scheduler.push(3, 1, 0);
    assert_eq!(scheduler.pop(), Some(1));
    assert_eq!(scheduler.pop(), Some(2));
    assert_eq!(scheduler.pop(), Some(3));
}

#[test]
fn task_with_others_ahead_is_taken_in_time() {
    let mut scheduler = QLAS::new();
    // three tasks wait in bucket 3, and there is always a task of the fresh group 0
    scheduler.observe(0, 1, 0, 9_000, false);
    for id in [11, 12, 13] {
        scheduler.push(id, 1, 0);
    }
    scheduler.push(0, 0, 0);
    let mut taken = Vec::new();
    for pop in 1..=3 * 32 * FAIR_INTERVAL {
        match scheduler.pop() {
            Some(0) => scheduler.push(0, 0, 0),
            Some(id) => taken.push((id, pop)),
            None => unreachable!(),
        }
    }
    // every other fair pop serves bucket 3
    assert_eq!(taken, vec![(11, 32), (12, 64), (13, 96)]);
}
