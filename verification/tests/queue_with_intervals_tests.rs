use my_sb_node::queue_with_intervals::{QueueIndexRange, QueueWithIntervals};

fn ranges(q: &QueueWithIntervals) -> Vec<(i64, i64)> {
    q.get_snapshot().iter().map(|r| (r.from_id, r.to_id)).collect()
}

#[test]
fn enqueue_merges_neighbours_into_ranges() {
    let mut q = QueueWithIntervals::new();
    assert!(q.is_empty());
    q.enqueue(5);
    q.enqueue(7);
    assert_eq!(ranges(&q), vec![(5, 5), (7, 7)]);
    q.enqueue(6);
    assert_eq!(ranges(&q), vec![(5, 7)]);
    q.enqueue(6);
    assert_eq!(ranges(&q), vec![(5, 7)]);
    q.enqueue(1);
    assert_eq!(ranges(&q), vec![(1, 1), (5, 7)]);
    assert_eq!(q.queue_size(), 4);
    assert!(q.contains(6));
    assert!(!q.contains(4));
}

#[test]
fn dequeue_gives_smallest_first() {
    let mut q = QueueWithIntervals::new();
    for id in [9, 3, 4, 20, 1] {
        q.enqueue(id);
    }
    assert_eq!(q.peek(), Some(1));
    assert_eq!(q.get_min_id(), Some(1));
    let mut out = Vec::new();
    while let Some(id) = q.dequeue() {
        out.push(id);
    }
    assert_eq!(out, vec![1, 3, 4, 9, 20]);
    assert!(q.is_empty());
    assert_eq!(q.dequeue(), None);
    assert_eq!(q.peek(), None);
}

#[test]
fn remove_splits_a_range() {
    let mut q = QueueWithIntervals::new();
    q.merge_range(10, 20);
    assert!(q.remove(15));
    assert_eq!(ranges(&q), vec![(10, 14), (16, 20)]);
    assert!(!q.remove(15));
    assert!(q.remove(10));
    assert!(q.remove(20));
    assert_eq!(ranges(&q), vec![(11, 14), (16, 19)]);
    assert_eq!(q.queue_size(), 8);
}

#[test]
fn merge_with_is_union_and_remove_all_is_difference() {
    let mut a = QueueWithIntervals::new();
    a.merge_range(1, 5);
    let mut b = QueueWithIntervals::new();
    b.merge_range(4, 8);
    b.enqueue(12);
    a.merge_with(&b);
    assert_eq!(ranges(&a), vec![(1, 8), (12, 12)]);

    let mut c = QueueWithIntervals::new();
    c.merge_range(3, 9);
    a.remove_all(&c);
    assert_eq!(ranges(&a), vec![(1, 2), (12, 12)]);
}

#[test]
fn restore_and_snapshot_round_trip() {
    let q = QueueWithIntervals::restore(vec![
        QueueIndexRange { from_id: 10, to_id: 12 },
        QueueIndexRange { from_id: 1, to_id: 2 },
        QueueIndexRange { from_id: 3, to_id: 4 },
        QueueIndexRange { from_id: 8, to_id: 7 },
    ]);
    assert_eq!(ranges(&q), vec![(1, 4), (10, 12)]);
    let again = QueueWithIntervals::restore(q.get_snapshot());
    assert_eq!(ranges(&again), ranges(&q));
    let copy = q.duplicate();
    assert_eq!(ranges(&copy), ranges(&q));

    let mut r = QueueWithIntervals::new();
    r.enqueue(100);
    r.reset(vec![QueueIndexRange { from_id: 5, to_id: 6 }]);
    assert_eq!(ranges(&r), vec![(5, 6)]);
}

#[test]
fn extreme_ids_are_held() {
    let mut q = QueueWithIntervals::new();
    q.enqueue(i64::MAX);
    q.enqueue(i64::MIN);
    assert!(q.contains(i64::MAX));
    assert!(q.contains(i64::MIN));
    assert_eq!(q.dequeue(), Some(i64::MIN));
    assert_eq!(q.dequeue(), Some(i64::MAX));
}
