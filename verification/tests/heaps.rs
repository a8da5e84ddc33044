use pfds::heap::LeftistHeap;
use pfds::traits::Heap;

fn drain(mut h: LeftistHeap) -> Vec<u64> {
    let mut out = Vec::new();
    while let Some(v) = h.pop() {
        out.push(v);
    }
    out
}

#[test]
fn empty_heap_has_no_minimum() {
    let h = LeftistHeap::empty();
    assert!(h.is_empty());
    assert_eq!(h.min(), None);
    assert!(h.without_min().is_empty());
}

#[test]
fn repeated_extraction_sorts_with_duplicates() {
    let mut h = LeftistHeap::empty();
    for v in [5u64, 1, 4, 1, 3] {
        h = h.insert(v);
    }
    assert_eq!(drain(h), vec![1, 1, 3, 4, 5]);
}

#[test]
fn extraction_interleaved_with_insertion() {
    let mut h = LeftistHeap::empty();
    h.add(8);
    h.add(3);
    assert_eq!(h.pop(), Some(3));
    h.add(1);
    h.add(9);
    assert_eq!(h.pop(), Some(1));
    assert_eq!(h.pop(), Some(8));
    h.add(2);
    assert_eq!(h.pop(), Some(2));
    assert_eq!(h.pop(), Some(9));
    assert_eq!(h.pop(), None);
}

#[test]
fn merge_holds_the_union_of_contents() {
    let mut a = LeftistHeap::empty();
    for v in [1u64, 3] {
        a = a.insert(v);
    }
    let mut b = LeftistHeap::empty();
    for v in [2u64, 2] {
        b = b.insert(v);
    }
    let merged = LeftistHeap::merge(a, b);
    assert_eq!(drain(merged), vec![1, 2, 2, 3]);
}

#[test]
fn merge_with_empty_returns_the_other_heap() {
    let mut a = LeftistHeap::empty();
    for v in [6u64, 2, 9] {
        a = a.insert(v);
    }
    let merged = LeftistHeap::merge(a.clone(), LeftistHeap::empty());
    assert_eq!(drain(merged), vec![2, 6, 9]);
    let merged = LeftistHeap::merge(LeftistHeap::empty(), a);
    assert_eq!(drain(merged), vec![2, 6, 9]);
}

#[test]
fn insert_leaves_the_old_heap_unchanged() {
    let h1 = LeftistHeap::empty().insert(5).insert(7);
    let h2 = h1.insert(0);
    assert_eq!(h2.min(), Some(0));
    assert_eq!(h1.min(), Some(5));
    assert_eq!(drain(h1), vec![5, 7]);
}

#[test]
fn min_does_not_remove() {
    let h = LeftistHeap::empty().insert(4).insert(2);
    assert_eq!(h.min(), Some(2));
    assert_eq!(h.min(), Some(2));
    let rest = h.without_min();
    assert_eq!(rest.min(), Some(4));
    assert_eq!(h.min(), Some(2));
}

#[test]
fn many_values_come_out_sorted() {
    let mut h = LeftistHeap::empty();
    for i in 0..100u64 {
        h = h.insert((i * 41) % 67);
    }
    let out = drain(h);
    assert_eq!(out.len(), 100);
    for w in out.windows(2) {
        assert!(w[0] <= w[1]);
    }
}

#[test]
fn heap_trait_calls_reach_the_heap() {
    let h: LeftistHeap = <LeftistHeap as Heap>::empty();
    let h = <LeftistHeap as Heap>::insert(&h, 30);
    let mut h = <LeftistHeap as Heap>::insert(&h, 20);
    assert_eq!(<LeftistHeap as Heap>::min(&h), Some(20));
    <LeftistHeap as Heap>::add(&mut h, 10);
    assert_eq!(<LeftistHeap as Heap>::pop(&mut h), Some(10));
    let rest = <LeftistHeap as Heap>::without_min(&h);
    assert_eq!(<LeftistHeap as Heap>::min(&rest), Some(30));
    assert!(!<LeftistHeap as Heap>::is_empty(&rest));
}
