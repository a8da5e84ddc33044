use pfds::list::reverse;
use pfds::list::suffixes;
use pfds::list::List;
use pfds::traits::Stack;

#[test]
fn empty_list_has_no_values() {
    let l = List::empty();
    assert!(l.is_empty());
    assert_eq!(l.head(), None);
    assert_eq!(l.length(), 0);
    assert!(l.split_into().is_none());
}

#[test]
fn cons_puts_values_in_front() {
    let l = List::cons(1, List::cons(2, List::cons(3, List::empty())));
    assert!(!l.is_empty());
    assert_eq!(l.head(), Some(1));
    assert_eq!(l.length(), 3);
    assert_eq!(l.to_vec(), vec![1, 2, 3]);
}

#[test]
fn split_into_returns_head_and_tail() {
    let l = List::from_vec(&vec![10, 20, 30]);
    let (h, t) = l.split_into().unwrap();
    assert_eq!(h, 10);
    assert_eq!(t.to_vec(), vec![20, 30]);
}

#[test]
fn push_and_pop_are_lifo() {
    let mut l = List::empty();
    l.push(1);
    l.push(2);
    l.push(3);
    assert_eq!(l.pop(), Some(3));
    assert_eq!(l.pop(), Some(2));
    assert_eq!(l.pop(), Some(1));
    assert_eq!(l.pop(), None);
}

#[test]
fn from_vec_round_trips_through_to_vec() {
    let items = vec![4, 5, 6, 7];
    let l = List::from_vec(&items);
    assert_eq!(l.to_vec(), items);
}

#[test]
fn reverse_reverses() {
    let l = List::from_vec(&vec![1, 2, 3]);
    assert_eq!(reverse(l).to_vec(), vec![3, 2, 1]);
    assert!(reverse(List::empty()).is_empty());
}

#[test]
fn concat_joins_two_lists() {
    let a = List::from_vec(&vec![1, 2]);
    let b = List::from_vec(&vec![3, 4]);
    assert_eq!(pfds::list::concat(&a, b).to_vec(), vec![1, 2, 3, 4]);
    let c = List::from_vec(&vec![9]);
    assert_eq!(pfds::list::concat(&List::empty(), c).to_vec(), vec![9]);
}

#[test]
fn suffixes_lists_every_suffix() {
    let l = List::from_vec(&vec![1, 2]);
    let sufs = suffixes(&l);
    assert_eq!(sufs.len(), 3);
    assert_eq!(sufs[0].to_vec(), vec![1, 2]);
    assert_eq!(sufs[1].to_vec(), vec![2]);
    assert_eq!(sufs[2].to_vec(), Vec::<u64>::new());
}

#[test]
fn iterator_yields_values_front_first() {
    let l = List::from_vec(&vec![7, 8, 9]);
    let mut it = l.iter();
    assert_eq!(it.next(), Some(7));
    assert_eq!(it.next(), Some(8));
    assert_eq!(it.next(), Some(9));
    assert_eq!(it.next(), None);
    // Iterating does not consume the list itself.
    assert_eq!(l.length(), 3);
}

#[test]
fn cons_leaves_the_old_list_unchanged() {
    let l1 = List::from_vec(&vec![2, 3]);
    let l2 = List::cons(1, l1.clone());
    assert_eq!(l2.to_vec(), vec![1, 2, 3]);
    assert_eq!(l1.to_vec(), vec![2, 3]);
}

#[test]
fn stack_trait_calls_reach_the_list() {
    let l: List = <List as Stack>::empty();
    let l = <List as Stack>::cons(5, l);
    let mut l = <List as Stack>::cons(4, l);
    assert_eq!(<List as Stack>::head(&l), Some(4));
    assert_eq!(<List as Stack>::pop(&mut l), Some(4));
    assert_eq!(<List as Stack>::pop(&mut l), Some(5));
    assert!(<List as Stack>::is_empty(&l));
}
