use clockworker::bucket::{entry_samples, micros_to_bucket};
use clockworker::buckets::BucketQueues;
use clockworker::groups::RankedGroups;
use clockworker::queue::Queue;
use clockworker::scheduler::{ArrivalFifo, RunnableFifo, Scheduler, LAS, QLAS};
use clockworker::time::duration_since;

#[test]
fn buckets_are_powers_of_two() {
    assert_eq!(micros_to_bucket(0), 0);
    assert_eq!(micros_to_bucket(1), 0);
    assert_eq!(micros_to_bucket(2), 1);
    assert_eq!(micros_to_bucket(3), 1);
    assert_eq!(micros_to_bucket(4), 2);
    assert_eq!(micros_to_bucket(1023), 9);
    assert_eq!(micros_to_bucket(1024), 10);
    assert_eq!(micros_to_bucket((1 << 31) - 1), 30);
    assert_eq!(micros_to_bucket(1 << 31), 31);
    assert_eq!(micros_to_bucket(1 << 32), 31);
    assert_eq!(micros_to_bucket(u128::MAX), 31);
}

#[test]
fn samples_at_bucket_entries() {
    assert_eq!(entry_samples(0), vec![]);
    assert_eq!(entry_samples(1), vec![0]);
    assert_eq!(entry_samples(10), vec![9, 8, 6, 2]);
    let most = entry_samples(u128::MAX);
    assert_eq!(most.len(), 32);
    assert_eq!(most[0], u128::MAX - 1);
    assert_eq!(most[31], u128::MAX - (1 << 31));
}

#[test]
fn durations_do_not_go_negative() {
    assert_eq!(duration_since(12, 5), 7);
    assert_eq!(duration_since(5, 5), 0);
    assert_eq!(duration_since(5, 12), 0);
}

#[test]
fn row_of_queues() {
    let mut row = BucketQueues::new();
    assert!(row.is_empty());
    assert_eq!(row.lowest(), None);
    row.push(31, 'a');
    row.push(7, 'b');
    row.push(7, 'c');
    assert_eq!(row.lowest(), Some(7));
    assert_eq!(row.pop(7), Some('b'));
    assert_eq!(row.pop(6), None);
    assert_eq!(row.pop(7), Some('c'));
    assert_eq!(row.pop(7), None);
    assert_eq!(row.lowest(), Some(31));
    assert_eq!(row.pop(31), Some('a'));
    assert!(row.is_empty());
}

#[test]
fn groups_by_rank() {
    let mut groups = RankedGroups::new();
    assert!(!groups.is_runnable());
    assert_eq!(groups.pop(), None);
    groups.push(1, 5, 30);
    groups.push(2, 6, 20);
    groups.push(3, 5, 99);
    assert_eq!(groups.rank(5), Some(30));
    assert_eq!(groups.rank(7), None);
    groups.rerank(6, 40);
    groups.rerank(7, 0);
    assert_eq!(groups.rank(7), None);
    assert_eq!(groups.pop(), Some(1));
    assert_eq!(groups.pop(), Some(3));
    assert_eq!(groups.pop(), Some(2));
    assert!(!groups.is_runnable());
    groups.remove(6);
    assert_eq!(groups.rank(6), None);
    assert_eq!(groups.rank(5), Some(30));
}

#[test]
fn queue_hands_out_its_parts() {
    let queue: Queue<u32> = Queue::new(3, 80, Box::new(RunnableFifo::new()));
    assert_eq!(queue.id(), 3);
    assert_eq!(queue.share(), 80);
    let mut scheduler = queue.scheduler();
    scheduler.push(9, 0, 0);
    assert_eq!(scheduler.pop(), Some(9));
}

#[test]
fn every_pushed_task_comes_out_as_often_as_it_was_pushed() {
    let mut schedulers: Vec<Box<dyn Scheduler>> =
        vec![Box::new(RunnableFifo::new()), Box::new(LAS::new())];
    for scheduler in schedulers.iter_mut() {
        for id in [4, 7, 4, 1] {
            scheduler.push(id, (id % 3) as u64, 0);
        }
        let mut out = Vec::new();
        while let Some(id) = scheduler.pop() {
            out.push(id);
        }
        out.sort();
        assert_eq!(out, vec![1, 4, 4, 7]);
        assert!(!scheduler.is_runnable());
    }
}

#[test]
fn preconditions_can_be_tested() {
    let mut las = LAS::new();
    assert!(!las.may_clear(1));
    las.push(5, 1, 0);
    assert!(!las.may_clear(1));
    assert!(las.may_observe(1, 0, u128::MAX));
    las.observe(5, 1, 0, 10, false);
    assert!(las.may_observe(1, 10, u128::MAX));
    assert!(!las.may_observe(1, 9, u128::MAX));
    assert!(las.may_observe(2, 0, u128::MAX));
    assert_eq!(las.pop(), Some(5));
    assert!(las.may_clear(1));

    let mut arrival = ArrivalFifo::new();
    assert!(!arrival.may_clear(1));
    arrival.push(5, 1, 0);
    assert!(!arrival.may_clear(1));
    assert_eq!(arrival.pop(), Some(5));
    assert!(arrival.may_clear(1));
    assert!(arrival.may_observe(1, 0, u128::MAX));

    let mut qlas = QLAS::new();
    assert!(qlas.may_clear(1));
    qlas.observe(5, 1, 0, 1, false);
    assert!(!qlas.may_observe(1, 0, u128::MAX));
    assert!(qlas.may_observe(1, 1, u128::MAX));

    let fifo = RunnableFifo::new();
    assert!(fifo.may_clear(1));
    assert!(fifo.may_observe(1, 0, u128::MAX));
}
