use clockworker::scheduler::{Scheduler, LAS};

#[test]
fn test_las() {
    let mut scheduler = LAS::new();
    let now = 1_000;
    //initially not runnable but it will be after pushing a task
    assert!(!scheduler.is_runnable());
    scheduler.push(0, 0, now);
    scheduler.push(1, 0, now);
    scheduler.push(2, 1, now);
    assert!(scheduler.is_runnable());

    // initially all groups have total service time 0
    // so it returns task 0 from group 0
    assert_eq!(scheduler.pop(), Some(0));
    // now observe that task 0 was run for 2 nanoseconds
    let start = 2_000;
    let end = start + 2;
    scheduler.observe(0, 0, start, end, true);
    assert_eq!(scheduler.total_service_time(0).unwrap(), 2);

    // now group 0 has service time and group 1 has no service time
    // so it returns task 2 from group 1
    assert_eq!(scheduler.pop(), Some(2));
    assert!(scheduler.is_runnable());

    // meanwhile enqueue another task in group 1
    scheduler.push(3, 1, now);
    assert!(scheduler.is_runnable());

    // now observe that task 2 ran for 1 nanosecond
    let start = 3_000;
    let end = start + 1;
    scheduler.observe(2, 1, start, end, true);
    assert_eq!(scheduler.pop(), Some(3));
    assert!(scheduler.is_runnable());
    // last pop should give us task with id 1 from group 0
    assert_eq!(scheduler.pop(), Some(1));
    assert!(!scheduler.is_runnable());
}

#[test]
fn group_without_tasks_is_not_runnable_after_it_ran() {
    let mut scheduler = LAS::new();
    scheduler.push(0, 0, 0);
    assert_eq!(scheduler.pop(), Some(0));
    scheduler.observe(0, 0, 0, 5, true);
    assert!(!scheduler.is_runnable());
    assert_eq!(scheduler.pop(), None);
    assert_eq!(scheduler.total_service_time(0), Some(5));
}

#[test]
fn cleared_group_starts_over() {
    let mut scheduler = LAS::new();
    scheduler.push(0, 0, 0);
    scheduler.push(1, 1, 0);
    assert_eq!(scheduler.pop(), Some(0));
    scheduler.observe(0, 0, 0, 50, true);
    scheduler.clear_task_state(0, 0);
    scheduler.clear_group_state(0);
    assert_eq!(scheduler.total_service_time(0), None);
    assert_eq!(scheduler.pop(), Some(1));
    scheduler.observe(1, 1, 0, 10, true);
    scheduler.push(2, 1, 0);
    scheduler.push(3, 0, 0);
    assert_eq!(scheduler.pop(), Some(3));
    assert_eq!(scheduler.pop(), Some(2));
}

#[test]
fn unknown_group_is_not_served() {
    let mut scheduler = LAS::new();
    scheduler.observe(0, 7, 0, 100, false);
    assert_eq!(scheduler.total_service_time(7), None);
    assert!(!scheduler.is_runnable());
}

#[test]
fn time_that_runs_backwards_counts_as_none() {
    let mut scheduler = LAS::new();
    scheduler.push(0, 0, 0);
    scheduler.observe(0, 0, 100, 40, false);
    assert_eq!(scheduler.total_service_time(0), Some(0));
}
