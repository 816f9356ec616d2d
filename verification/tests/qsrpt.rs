use clockworker::bucket::NUM_BUCKETS;
use clockworker::scheduler::qsrpt::{REORDER_INTERVAL, SAMPLE_RATE};
use clockworker::scheduler::QSRPT;

/// Tasks 0, 1 and 2 in the buckets 0, 1 and 3.
fn three_buckets() -> QSRPT {
    let mut scheduler = QSRPT::new();
    scheduler.observe(0, 1, 0, 2_000, false);
    scheduler.observe(0, 3, 0, 9_000, false);
    scheduler.push(2, 3, 0);
    scheduler.push(1, 1, 0);
    scheduler.push(0, 0, 0);
    scheduler
}

fn pop_all(scheduler: &mut QSRPT) -> Vec<Option<usize>> {
    vec![scheduler.pop(), scheduler.pop(), scheduler.pop(), scheduler.pop()]
}

#[test]
fn lowest_bucket_first_at_the_start() {
    let mut scheduler = three_buckets();
    assert!(scheduler.is_runnable());
    assert_eq!(pop_all(&mut scheduler), vec![Some(0), Some(1), Some(2), None]);
    assert!(!scheduler.is_runnable());
}

#[test]
fn estimates_reorder_the_queues() {
    let mut scheduler = three_buckets();
    let mut expected: [u64; NUM_BUCKETS] = [100; NUM_BUCKETS];
    expected[3] = 5;
    expected[0] = 7;
    expected[1] = 9;
    scheduler.recompute_priority_order(&expected);
    assert!(scheduler.is_runnable());
    assert_eq!(pop_all(&mut scheduler), vec![Some(2), Some(0), Some(1), None]);
}

#[test]
fn equal_estimates_keep_the_bucket_order() {
    let mut scheduler = three_buckets();
    let mut expected: [u64; NUM_BUCKETS] = [4; NUM_BUCKETS];
    expected[0] = 5;
    scheduler.recompute_priority_order(&expected);
    assert_eq!(pop_all(&mut scheduler), vec![Some(1), Some(2), Some(0), None]);
}

#[test]
fn tasks_pushed_after_a_reorder_follow_it() {
    let mut scheduler = QSRPT::default();
    scheduler.observe(0, 1, 0, 2_000, false);
    let mut expected: [u64; NUM_BUCKETS] = [0; NUM_BUCKETS];
    let mut b = 0;
    while b < NUM_BUCKETS {
        expected[b] = (NUM_BUCKETS - b) as u64;
        b += 1;
    }
    scheduler.recompute_priority_order(&expected);
    scheduler.push(10, 0, 0);
    scheduler.push(11, 1, 0);
    scheduler.push(12, 0, 0);
    assert_eq!(pop_all(&mut scheduler), vec![Some(11), Some(10), Some(12), None]);
}

#[test]
fn order_of_estimates_as_floats() {
    // the bits of non-negative numbers are ordered as the numbers are
    let mut scheduler = three_buckets();
    let mut expected: [u64; NUM_BUCKETS] = [f64::MAX.to_bits(); NUM_BUCKETS];
    expected[0] = 2.5f64.to_bits();
    expected[1] = 0.125f64.to_bits();
    expected[3] = 0.0f64.to_bits();
    scheduler.recompute_priority_order(&expected);
    assert_eq!(pop_all(&mut scheduler), vec![Some(2), Some(1), Some(0), None]);
}

#[test]
fn fair_pop_takes_the_queues_in_turn() {
    let mut scheduler = three_buckets();
    scheduler.push(5, 0, 0);
    assert_eq!(scheduler.fair_pop(), Some(0));
    assert_eq!(scheduler.fair_pop(), Some(1));
    assert_eq!(scheduler.fair_pop(), Some(2));
    assert_eq!(scheduler.fair_pop(), Some(5));
    assert!(!scheduler.is_runnable());
}

#[test]
fn one_completion_in_four_is_sampled() {
    let mut scheduler = QSRPT::new();
    for n in 1..=2 * SAMPLE_RATE {
        scheduler.observe(0, n, 100, 100 + 5_999, true);
        assert_eq!(scheduler.service_time(n), 5_999);
        let completion = scheduler.clear_group_state(n).unwrap();
        assert_eq!(scheduler.service_time(n), 0);
        assert!(!completion.reorder);
        if n % SAMPLE_RATE == 0 {
            // five microseconds: one, two and four were passed
            assert_eq!(completion.sample, Some(vec![4, 3, 1]));
        } else {
            assert_eq!(completion.sample, None);
        }
    }
}

#[test]
fn unobserved_group_does_not_count() {
    let mut scheduler = QSRPT::new();
    for n in 1..REORDER_INTERVAL {
        scheduler.observe(0, n, 0, 1_000, true);
        assert!(!scheduler.clear_group_state(n).unwrap().reorder);
        assert!(scheduler.clear_group_state(n).is_none());
    }
    scheduler.observe(0, 0, 0, 1_000, true);
    let completion = scheduler.clear_group_state(0).unwrap();
    assert!(completion.reorder);
    assert_eq!(completion.sample, Some(vec![0]));
}

#[test]
fn completion_of_a_short_group_passes_no_bucket() {
    let mut scheduler = QSRPT::new();
    for _ in 1..SAMPLE_RATE {
        assert_eq!(scheduler.on_completion(1).sample, None);
    }
    assert_eq!(scheduler.on_completion(999).sample, Some(vec![]));
    scheduler.clear_task_state(0, 0);
    assert_eq!(scheduler.pop(), None);
}
