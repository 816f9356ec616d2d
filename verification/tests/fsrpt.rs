use clockworker::scheduler::fsrpt::{service_samples, SRPTQueues, ADJUST_INTERVAL, SAMPLE_RATE};
use clockworker::scheduler::FairSRPT;

#[test]
fn test_service_to_bucket() {
    assert_eq!(FairSRPT::service_to_bucket(500), 0);
    assert_eq!(FairSRPT::service_to_bucket(1000), 0);
    assert_eq!(FairSRPT::service_to_bucket(1001), 1);
    assert_eq!(FairSRPT::service_to_bucket(1500), 1);
    assert_eq!(FairSRPT::service_to_bucket(2000), 2);
    assert_eq!(FairSRPT::service_to_bucket(10000), 9);
    assert_eq!(FairSRPT::service_to_bucket(10240), 10);
}

#[test]
fn long_services_lie_in_the_upper_buckets() {
    assert_eq!(FairSRPT::service_to_bucket(0), 0);
    assert_eq!(FairSRPT::service_to_bucket(9_999), 9);
    assert_eq!(FairSRPT::service_to_bucket(10_001), 10);
    assert_eq!(FairSRPT::service_to_bucket(1_024_000), 10);
    assert_eq!(FairSRPT::service_to_bucket(2_048_000), 11);
    assert_eq!(FairSRPT::service_to_bucket(4_000_000), 11);
    assert_eq!(FairSRPT::service_to_bucket(u128::MAX), 31);
}

#[test]
fn remaining_times_lie_in_power_of_two_buckets() {
    assert_eq!(FairSRPT::remaining_to_bucket(0), 0);
    assert_eq!(FairSRPT::remaining_to_bucket(1_999), 0);
    assert_eq!(FairSRPT::remaining_to_bucket(2_000), 1);
    assert_eq!(FairSRPT::remaining_to_bucket(3_999), 1);
    assert_eq!(FairSRPT::remaining_to_bucket(4_000), 2);
    assert_eq!(FairSRPT::remaining_to_bucket(1_024_000), 10);
    assert_eq!(FairSRPT::remaining_to_bucket(u128::MAX), 31);
}

#[test]
fn urgent_first_and_then_the_shortest() {
    let mut scheduler = FairSRPT::new();
    assert!(!scheduler.is_runnable());
    scheduler.push(1, 10, 100, 5_000, false);
    scheduler.push(2, 20, 110, 1_000, false);
    scheduler.push(3, 30, 120, 9_000, true);
    scheduler.push(4, 40, 130, 4_000, false);
    assert!(scheduler.is_runnable());
    assert_eq!(scheduler.push_counts(), (1, 3));

    let urgent = scheduler.pop(350).unwrap();
    assert_eq!((urgent.id, urgent.waited), (3, None));
    assert_eq!(scheduler.timing(30), (0, 0));

    let shortest = scheduler.pop(350).unwrap();
    assert_eq!((shortest.id, shortest.waited), (2, Some((0, 240))));
    assert_eq!(scheduler.timing(20), (0, 240));

    // four and five microseconds share a bucket, in the order in which they were pushed
    let older = scheduler.pop(400).unwrap();
    assert_eq!((older.id, older.waited), (1, Some((2, 300))));
    let newer = scheduler.pop(400).unwrap();
    assert_eq!((newer.id, newer.waited), (4, Some((2, 270))));
    assert!(scheduler.pop(400).is_none());
    assert!(!scheduler.is_runnable());
}

#[test]
fn times_add_up_per_group() {
    let mut scheduler = FairSRPT::default();
    scheduler.observe(1, 7, 0, 40, false);
    scheduler.observe(1, 7, 100, 102, false);
    assert_eq!(scheduler.timing(7), (42, 0));
    scheduler.push(1, 7, 200, 0, false);
    assert_eq!(scheduler.pop(203).unwrap().waited, Some((0, 3)));
    scheduler.push(1, 7, 300, 0, false);
    assert_eq!(scheduler.pop(299).unwrap().waited, Some((0, 0)));
    assert_eq!(scheduler.timing(7), (42, 3));
    assert_eq!(scheduler.timing(8), (0, 0));
}

#[test]
fn sampled_completions() {
    let mut scheduler = FairSRPT::new();
    for n in 1..=ADJUST_INTERVAL {
        scheduler.observe(0, n, 0, 2_500, true);
        let completed = scheduler.clear_group_state(n);
        if n % SAMPLE_RATE == 0 {
            assert_eq!(completed.sample, Some((2_500, 0)));
            assert_eq!(completed.remaining, vec![2_499, 1_499, 500]);
        } else {
            assert_eq!(completed.sample, None);
            assert_eq!(completed.remaining, vec![]);
        }
        assert_eq!(completed.adjust, n == ADJUST_INTERVAL);
        assert_eq!(scheduler.timing(n), (0, 0));
    }
}

#[test]
fn unknown_group_counts_but_is_not_sampled() {
    let mut scheduler = FairSRPT::new();
    for _ in 1..SAMPLE_RATE {
        assert_eq!(scheduler.clear_group_state(1).sample, None);
    }
    assert_eq!(scheduler.clear_group_state(1).sample, None);
    for _ in 1..SAMPLE_RATE {
        scheduler.clear_group_state(1);
    }
    scheduler.observe(0, 1, 0, 1, true);
    scheduler.clear_task_state(0, 1);
    let completed = scheduler.clear_group_state(1);
    assert_eq!(completed.sample, Some((1, 0)));
    assert_eq!(completed.remaining, vec![0]);
}

#[test]
fn inner_queues() {
    let mut queues = SRPTQueues::new();
    assert!(queues.is_empty());
    assert_eq!(queues.pop(), None);
    queues.push(1, 10, 100, 31);
    queues.push(2, 20, 200, 4);
    queues.push(3, 30, 300, 4);
    assert_eq!(queues.pop(), Some((2, 20, 200, 4)));
    assert_eq!(queues.pop(), Some((3, 30, 300, 4)));
    assert!(!queues.is_empty());
    assert_eq!(queues.pop(), Some((1, 10, 100, 31)));
    assert!(queues.is_empty());
}

#[test]
fn group_without_service_is_not_sampled() {
    let mut scheduler = FairSRPT::new();
    for _ in 1..SAMPLE_RATE {
        scheduler.clear_group_state(1);
    }
    scheduler.push(1, 1, 0, 0, false);
    scheduler.pop(25);
    assert_eq!(scheduler.timing(1), (0, 25));
    let completed = scheduler.clear_group_state(1);
    assert_eq!(completed.sample, None);
    assert_eq!(completed.remaining, vec![]);
    assert_eq!(scheduler.timing(1), (0, 0));
}

#[test]
fn pop_that_would_overflow_is_seen_beforehand() {
    let mut scheduler = FairSRPT::new();
    scheduler.push(1, 1, 0, 0, false);
    assert!(scheduler.can_pop(u128::MAX));
    assert_eq!(scheduler.pop(u128::MAX).unwrap().waited, Some((0, u128::MAX)));
    assert!(scheduler.can_pop(5));
    scheduler.push(2, 1, 7, 0, false);
    assert!(scheduler.can_pop(7));
    assert!(!scheduler.can_pop(8));
    scheduler.push(3, 1, 7, 0, true);
    assert!(scheduler.can_pop(8));
}

#[test]
fn samples_at_service_bucket_entries() {
    assert_eq!(service_samples(0), vec![]);
    assert_eq!(service_samples(1), vec![0]);
    assert_eq!(service_samples(5), vec![4]);
    assert_eq!(service_samples(1_000), vec![999]);
    assert_eq!(service_samples(1_001), vec![1_000, 0]);
    assert_eq!(service_samples(2_000), vec![1_999, 999, 0]);
    assert_eq!(service_samples(10_000).len(), 10);
    let ten = service_samples(12_000);
    assert_eq!(ten.len(), 11);
    assert_eq!(ten[9], 3_000);
    assert_eq!(ten[10], 1_999);
    assert_eq!(service_samples(2_047_999).len(), 11);
    let eleven = service_samples(2_048_007);
    assert_eq!(eleven.len(), 12);
    assert_eq!(eleven[11], 7);
    let most = service_samples(u128::MAX);
    assert_eq!(most.len(), 32);
    assert_eq!(most[31], u128::MAX - (1 << 31) * 1_000);
}

#[test]
fn one_sample_per_bucket_up_to_the_last() {
    for service in [1, 999, 1_001, 9_999, 10_000, 10_001, 1_024_000, 5_000_000_000] {
        let last = FairSRPT::service_to_bucket(service);
        assert_eq!(service_samples(service).len(), last + 1);
    }
}
