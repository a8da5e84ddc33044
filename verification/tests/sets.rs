use pfds::rbtree::RBTree;
use pfds::traits::SetLike;
use pfds::tree::Tree;

#[test]
fn rbtree_iterates_in_ascending_order() {
    let mut s = RBTree::empty();
    for v in [5u64, 3, 8, 1, 4] {
        s = s.plus(v);
    }
    assert_eq!(s.to_vec(), vec![1, 3, 4, 5, 8]);
}

#[test]
fn tree_iterates_in_ascending_order() {
    let mut s = Tree::empty();
    for v in [5u64, 3, 8, 1, 4] {
        s = s.plus(v);
    }
    assert_eq!(s.to_vec(), vec![1, 3, 4, 5, 8]);
}

#[test]
fn rbtree_membership_round_trip() {
    let inserted = [13u64, 2, 99, 2, 41, 7, 0];
    let mut s = RBTree::empty();
    for v in inserted {
        s = s.plus(v);
    }
    for v in inserted {
        assert!(s.contains(&v));
    }
    for v in [1u64, 3, 100, 40, u64::MAX] {
        assert!(!s.contains(&v));
    }
}

#[test]
fn tree_membership_round_trip() {
    let inserted = [13u64, 2, 99, 2, 41, 7, 0];
    let mut s = Tree::empty();
    for v in inserted {
        s = s.plus(v);
    }
    for v in inserted {
        assert!(s.contains(&v));
    }
    for v in [1u64, 3, 100, 40, u64::MAX] {
        assert!(!s.contains(&v));
    }
}

#[test]
fn rbtree_insert_is_idempotent() {
    let base = RBTree::empty().plus(6).plus(2).plus(9);
    let once = base.plus(7);
    let twice = base.plus(7).plus(7);
    assert_eq!(once.to_vec(), twice.to_vec());
    assert_eq!(once.to_vec(), vec![2, 6, 7, 9]);
}

#[test]
fn tree_insert_is_idempotent() {
    let base = Tree::empty().plus(6).plus(2).plus(9);
    let once = base.plus(7);
    let twice = base.plus(7).plus(7);
    assert_eq!(once.to_vec(), twice.to_vec());
}

#[test]
fn plus_leaves_the_old_set_unchanged() {
    let s1 = RBTree::empty().plus(1).plus(2);
    let s2 = s1.plus(9);
    assert!(s2.contains(&9));
    assert!(!s1.contains(&9));
    assert_eq!(s1.to_vec(), vec![1, 2]);
}

#[test]
fn add_inserts_in_place() {
    let mut s = RBTree::empty();
    s.add(3);
    s.add(1);
    s.add(2);
    assert_eq!(s.to_vec(), vec![1, 2, 3]);

    let mut t = Tree::empty();
    t.add(3);
    t.add(1);
    assert!(t.contains(&3) && t.contains(&1) && !t.contains(&2));
}

#[test]
fn rbtree_handles_many_unordered_insertions() {
    let mut s = RBTree::empty();
    // A fixed permutation of 0..100.
    for i in 0..100u64 {
        s = s.plus((i * 37) % 100);
    }
    let out = s.to_vec();
    assert_eq!(out.len(), 100);
    for i in 0..100u64 {
        assert_eq!(out[i as usize], i);
        assert!(s.contains(&i));
    }
    assert!(!s.contains(&100));
}

#[test]
fn set_trait_calls_reach_both_implementations() {
    let s: RBTree = <RBTree as SetLike>::empty();
    let s = <RBTree as SetLike>::plus(&s, 12);
    assert!(<RBTree as SetLike>::contains(&s, &12));
    assert!(!<RBTree as SetLike>::contains(&s, &13));

    let t: Tree = <Tree as SetLike>::empty();
    let mut t = <Tree as SetLike>::plus(&t, 5);
    <Tree as SetLike>::add(&mut t, 6);
    assert!(<Tree as SetLike>::contains(&t, &5));
    assert!(<Tree as SetLike>::contains(&t, &6));
}
