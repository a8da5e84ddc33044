use pfds::queue::BatchedQueue;
use pfds::traits::Queue;

#[test]
fn queue_is_fifo() {
    let q = BatchedQueue::empty();
    let q = BatchedQueue::snoc(q, 1);
    let q = BatchedQueue::snoc(q, 2);
    let q = BatchedQueue::snoc(q, 3);

    let (v1, q) = q.split_into().unwrap();
    let (v2, q) = q.split_into().unwrap();
    let (v3, q) = q.split_into().unwrap();
    assert_eq!(v1, 1);
    assert_eq!(v2, 2);
    assert_eq!(v3, 3);
    assert!(q.is_empty());
    assert!(q.split_into().is_none());
}

#[test]
fn snoc_leaves_the_old_queue_unchanged() {
    let q1 = BatchedQueue::snoc(BatchedQueue::snoc(BatchedQueue::empty(), 1), 2);
    let q2 = BatchedQueue::snoc(q1.clone(), 3);

    assert_eq!(q1.head(), Some(1));
    let (v, rest) = q1.split_into().unwrap();
    assert_eq!(v, 1);
    assert_eq!(rest.head(), Some(2));

    let (_, r2) = q2.split_into().unwrap();
    let (v2, r2) = r2.split_into().unwrap();
    assert_eq!(v2, 2);
    assert_eq!(r2.head(), Some(3));
}

#[test]
fn empty_queue_reports_empty() {
    let q = BatchedQueue::empty();
    assert!(q.is_empty());
    assert_eq!(q.head(), None);
    assert!(q.split().is_none());
    assert!(q.tail().is_none());
}

#[test]
fn split_borrows_the_front_value() {
    let q = BatchedQueue::snoc(BatchedQueue::snoc(BatchedQueue::empty(), 7), 8);
    let (h, rest) = q.split().unwrap();
    assert_eq!(*h, 7);
    assert_eq!(rest.head(), Some(8));
}

#[test]
fn pop_front_removes_in_insertion_order() {
    let mut q = BatchedQueue::empty();
    q.push_back(10);
    q.push_back(11);
    q.push_back(12);
    assert_eq!(q.pop_front(), Some(10));
    assert_eq!(q.pop_front(), Some(11));
    assert_eq!(q.pop_front(), Some(12));
    assert_eq!(q.pop_front(), None);
    assert!(q.is_empty());
}

#[test]
fn interleaved_operations_keep_fifo_order() {
    // Exercise the reversal path repeatedly: the queue must behave like a
    // plain FIFO whatever mix of pushes and pops runs it.
    let mut q = BatchedQueue::empty();
    let mut model: std::collections::VecDeque<u64> = std::collections::VecDeque::new();
    let mut next: u64 = 0;
    for step in 0..200u64 {
        if step % 3 == 2 {
            assert_eq!(q.pop_front(), model.pop_front());
        } else {
            q.push_back(next);
            model.push_back(next);
            next += 1;
        }
    }
    while let Some(expected) = model.pop_front() {
        assert_eq!(q.pop_front(), Some(expected));
    }
    assert_eq!(q.pop_front(), None);
}

#[test]
fn queue_trait_calls_reach_the_queue() {
    let q: BatchedQueue = <BatchedQueue as Queue>::empty();
    let q = <BatchedQueue as Queue>::snoc(q, 41);
    let mut q = <BatchedQueue as Queue>::snoc(q, 42);
    assert_eq!(<BatchedQueue as Queue>::head(&q), Some(41));
    let (h, t) = <BatchedQueue as Queue>::split(&q).unwrap();
    assert_eq!(h, 41);
    assert_eq!(t.head(), Some(42));
    <BatchedQueue as Queue>::push_back(&mut q, 43);
    assert_eq!(q.pop_front(), Some(41));
    assert_eq!(q.pop_front(), Some(42));
    assert_eq!(q.pop_front(), Some(43));
}
