//! Abstract contracts for the persistent collections.
//!
//! Each trait names a spec-level model (a sequence, a set, a multiset) and
//! an invariant, and states every operation's behavior against that model.
//! The concrete structures implement these traits; an implementation is
//! only accepted when its operations provably meet the stated contracts.
//! All collections hold `u64` values.

use vstd::prelude::*;
use vstd::multiset::Multiset;
use crate::list::List;
use crate::queue::BatchedQueue;
use crate::rbtree::RBTree;
use crate::tree::Tree;
use crate::heap::LeftistHeap;

verus! {

/// A last-in-first-out collection: items are added and removed at the
/// front.
pub trait Stack: Sized {
    /// The stored values, front (most recently added) first.
    spec fn seq_model(&self) -> Seq<u64>;

    /// The structure's internal invariant.
    spec fn inv(&self) -> bool;

    /// An empty stack.
    fn empty() -> (r: Self)
        ensures
            r.inv(),
            r.seq_model() == Seq::<u64>::empty(),
    ;

    /// True exactly when the stack holds no values.
    fn is_empty(&self) -> (r: bool)
        requires
            self.inv(),
        ensures
            r <==> self.seq_model().len() == 0,
    ;

    /// A stack holding `head` in front of every value of `tail`.
    fn cons(head: u64, tail: Self) -> (r: Self)
        requires
            tail.inv(),
        ensures
            r.inv(),
            r.seq_model() == seq![head] + tail.seq_model(),
    ;

    /// The front value and the rest of the stack, or `None` when empty.
    fn split(&self) -> (r: Option<(u64, &Self)>)
        requires
            self.inv(),
        ensures
            match r {
                None => self.seq_model().len() == 0,
                Some((h, t)) => {
                    &&& self.seq_model().len() > 0
                    &&& h == self.seq_model()[0]
                    &&& t.inv()
                    &&& t.seq_model() == self.seq_model().skip(1)
                },
            },
    ;

    /// The front value, or `None` when empty.
    fn head(&self) -> (r: Option<u64>)
        requires
            self.inv(),
        ensures
            match r {
                None => self.seq_model().len() == 0,
                Some(h) => self.seq_model().len() > 0 && h == self.seq_model()[0],
            },
    ;

    /// The stack without its front value, or `None` when empty.
    fn tail(&self) -> (r: Option<&Self>)
        requires
            self.inv(),
        ensures
            match r {
                None => self.seq_model().len() == 0,
                Some(t) => {
                    &&& self.seq_model().len() > 0
                    &&& t.inv()
                    &&& t.seq_model() == self.seq_model().skip(1)
                },
            },
    ;

    /// Put a value in front of this stack in place.
    fn push(&mut self, v: u64)
        requires
            old(self).inv(),
        ensures
            final(self).inv(),
            final(self).seq_model() == seq![v] + old(self).seq_model(),
    ;

    /// Remove and return the front value, or `None` when the stack is
    /// empty (the stack is then left unchanged).
    fn pop(&mut self) -> (r: Option<u64>)
        requires
            old(self).inv(),
        ensures
            final(self).inv(),
            match r {
                None => old(self).seq_model().len() == 0 && final(self).seq_model() == old(
                    self,
                ).seq_model(),
                Some(v) => {
                    &&& old(self).seq_model().len() > 0
                    &&& v == old(self).seq_model()[0]
                    &&& final(self).seq_model() == old(self).seq_model().skip(1)
                },
            },
    ;
}

/// A first-in-first-out collection: items enter at the back and leave at
/// the front.
pub trait Queue: Sized + Clone {
    /// The stored values, front (next to leave) first.
    spec fn seq_model(&self) -> Seq<u64>;

    /// The structure's internal invariant.
    spec fn inv(&self) -> bool;

    /// An empty queue.
    fn empty() -> (r: Self)
        ensures
            r.inv(),
            r.seq_model() == Seq::<u64>::empty(),
    ;

    /// True exactly when the queue holds no values.
    fn is_empty(&self) -> (r: bool)
        requires
            self.inv(),
        ensures
            r <==> self.seq_model().len() == 0,
    ;

    /// A queue holding every value of `queue` followed by `value`.
    fn snoc(queue: Self, value: u64) -> (r: Self)
        requires
            queue.inv(),
        ensures
            r.inv(),
            r.seq_model() == queue.seq_model().push(value),
    ;

    /// The front value, or `None` when empty.
    fn head(&self) -> (r: Option<u64>)
        requires
            self.inv(),
        ensures
            match r {
                None => self.seq_model().len() == 0,
                Some(h) => self.seq_model().len() > 0 && h == self.seq_model()[0],
            },
    ;

    /// The queue without its front value, or `None` when empty.
    fn tail(&self) -> (r: Option<Self>)
        requires
            self.inv(),
        ensures
            match r {
                None => self.seq_model().len() == 0,
                Some(t) => {
                    &&& self.seq_model().len() > 0
                    &&& t.inv()
                    &&& t.seq_model() == self.seq_model().skip(1)
                },
            },
    ;

    /// The front value together with the queue of the remaining values,
    /// or `None` when empty.
    fn split(&self) -> (r: Option<(u64, Self)>)
        requires
            self.inv(),
        ensures
            match r {
                None => self.seq_model().len() == 0,
                Some((h, t)) => {
                    &&& self.seq_model().len() > 0
                    &&& h == self.seq_model()[0]
                    &&& t.inv()
                    &&& t.seq_model() == self.seq_model().skip(1)
                },
            },
    ;

    /// Add a value at the back of this queue in place.
    fn push_back(&mut self, value: u64)
        requires
            old(self).inv(),
        ensures
            final(self).inv(),
            final(self).seq_model() == old(self).seq_model().push(value),
    ;
}

/// A queue that also supports adding at the front and removing at the
/// back.
pub trait Deque: Queue {
    /// A deque holding `value` in front of every value of `queue`.
    fn cons(value: u64, queue: Self) -> (r: Self)
        requires
            queue.inv(),
        ensures
            r.inv(),
            r.seq_model() == seq![value] + queue.seq_model(),
    ;

    /// The back value, or `None` when empty.
    fn last(&self) -> (r: Option<u64>)
        requires
            self.inv(),
        ensures
            match r {
                None => self.seq_model().len() == 0,
                Some(v) => self.seq_model().len() > 0 && v == self.seq_model().last(),
            },
    ;

    /// The deque without its back value, or `None` when empty.
    fn init(&self) -> (r: Option<Self>)
        requires
            self.inv(),
        ensures
            match r {
                None => self.seq_model().len() == 0,
                Some(t) => {
                    &&& self.seq_model().len() > 0
                    &&& t.inv()
                    &&& t.seq_model() == self.seq_model().drop_last()
                },
            },
    ;

    /// The deque of all values but the back one, together with the back
    /// value, or `None` when empty.
    fn split_back(&self) -> (r: Option<(Self, u64)>)
        requires
            self.inv(),
        ensures
            match r {
                None => self.seq_model().len() == 0,
                Some((t, v)) => {
                    &&& self.seq_model().len() > 0
                    &&& v == self.seq_model().last()
                    &&& t.inv()
                    &&& t.seq_model() == self.seq_model().drop_last()
                },
            },
    ;

    /// Put a value in front of this deque in place.
    fn push_front(&mut self, value: u64)
        requires
            old(self).inv(),
        ensures
            final(self).inv(),
            final(self).seq_model() == seq![value] + old(self).seq_model(),
    ;
}

/// A collection with membership testing; duplicates are not kept.
pub trait SetLike: Sized {
    /// The set of stored values.
    spec fn set_model(&self) -> Set<u64>;

    /// The structure's internal invariant.
    spec fn inv(&self) -> bool;

    /// An empty set.
    fn empty() -> (r: Self)
        ensures
            r.inv(),
            r.set_model() == Set::<u64>::empty(),
    ;

    /// The union of this set and the singleton set containing `value`.
    /// Inserting a value twice changes nothing the second time.
    fn plus(&self, value: u64) -> (r: Self)
        requires
            self.inv(),
        ensures
            r.inv(),
            r.set_model() == self.set_model().insert(value),
    ;

    /// True exactly when `value` is in the set.
    fn contains(&self, value: &u64) -> (r: bool)
        requires
            self.inv(),
        ensures
            r <==> self.set_model().contains(*value),
    ;

    /// Add a value to this set in place.
    fn add(&mut self, v: u64)
        requires
            old(self).inv(),
        ensures
            final(self).inv(),
            final(self).set_model() == old(self).set_model().insert(v),
    ;
}

/// A collection that finds and removes its minimum value efficiently;
/// duplicates are kept.
pub trait Heap: Sized {
    /// The multiset of stored values.
    spec fn mset_model(&self) -> Multiset<u64>;

    /// The structure's internal invariant.
    spec fn inv(&self) -> bool;

    /// The minimum value, meaningful when the heap is non-empty.
    spec fn min_model(&self) -> u64;

    /// An empty heap.
    fn empty() -> (r: Self)
        ensures
            r.inv(),
            r.mset_model() == Multiset::<u64>::empty(),
    ;

    /// True exactly when the heap holds no values.
    fn is_empty(&self) -> (r: bool)
        requires
            self.inv(),
        ensures
            r <==> self.mset_model().len() == 0,
    ;

    /// A heap holding every value of this heap and `value` too.
    fn insert(&self, value: u64) -> (r: Self)
        requires
            self.inv(),
            self.mset_model().len() < usize::MAX,
        ensures
            r.inv(),
            r.mset_model() == self.mset_model().insert(value),
    ;

    /// A heap holding every value of both heaps, count for count.
    fn merge(h1: Self, h2: Self) -> (r: Self)
        requires
            h1.inv(),
            h2.inv(),
            h1.mset_model().len() + h2.mset_model().len() <= usize::MAX,
        ensures
            r.inv(),
            r.mset_model() == h1.mset_model().add(h2.mset_model()),
            h1.mset_model().len() == 0 ==> r == h2,
            h2.mset_model().len() == 0 ==> r == h1,
    ;

    /// The minimum value, or `None` when empty.
    fn min(&self) -> (r: Option<u64>)
        requires
            self.inv(),
        ensures
            match r {
                None => self.mset_model().len() == 0,
                Some(m) => {
                    &&& self.mset_model().len() > 0
                    &&& m == self.min_model()
                    &&& self.mset_model().contains(m)
                    &&& forall|x: u64| self.mset_model().contains(x) ==> m <= x
                },
            },
    ;

    /// A heap holding every value of this heap except one occurrence of
    /// the minimum; the empty heap stays empty.
    fn without_min(&self) -> (r: Self)
        requires
            self.inv(),
            self.mset_model().len() <= usize::MAX,
        ensures
            r.inv(),
            self.mset_model().len() == 0 ==> r.mset_model() == self.mset_model(),
            self.mset_model().len() > 0 ==> r.mset_model() == self.mset_model().remove(
                self.min_model(),
            ),
    ;

    /// Add a value to this heap in place.
    fn add(&mut self, value: u64)
        requires
            old(self).inv(),
            old(self).mset_model().len() < usize::MAX,
        ensures
            final(self).inv(),
            final(self).mset_model() == old(self).mset_model().insert(value),
    ;

    /// Remove and return the minimum value of this heap, or `None`,
    /// changing nothing, when the heap is empty.
    fn pop(&mut self) -> (r: Option<u64>)
        requires
            old(self).inv(),
            old(self).mset_model().len() <= usize::MAX,
        ensures
            final(self).inv(),
            match r {
                None => old(self).mset_model().len() == 0 && final(self).mset_model() == old(
                    self,
                ).mset_model(),
                Some(v) => {
                    &&& old(self).mset_model().len() > 0
                    &&& v == old(self).min_model()
                    &&& old(self).mset_model().contains(v)
                    &&& (forall|x: u64| old(self).mset_model().contains(x) ==> v <= x)
                    &&& final(self).mset_model() == old(self).mset_model().remove(v)
                },
            },
    ;
}

impl Stack for List {
    open spec fn seq_model(&self) -> Seq<u64> {
        self@
    }

    open spec fn inv(&self) -> bool {
        true
    }

    fn empty() -> List {
        List::empty()
    }

    fn is_empty(&self) -> bool {
        List::is_empty(self)
    }

    fn cons(head: u64, tail: List) -> List {
        List::cons(head, tail)
    }

    fn split(&self) -> Option<(u64, &List)> {
        match List::split(self) {
            None => None,
            Some((h, t)) => Some((*h, t)),
        }
    }

    fn head(&self) -> Option<u64> {
        List::head(self)
    }

    fn tail(&self) -> Option<&List> {
        List::tail(self)
    }

    fn push(&mut self, v: u64) {
        List::push(self, v)
    }

    fn pop(&mut self) -> Option<u64> {
        List::pop(self)
    }
}

impl Queue for BatchedQueue {
    open spec fn seq_model(&self) -> Seq<u64> {
        self@
    }

    open spec fn inv(&self) -> bool {
        self.well_formed()
    }

    fn empty() -> BatchedQueue {
        BatchedQueue::empty()
    }

    fn is_empty(&self) -> bool {
        BatchedQueue::is_empty(self)
    }

    fn snoc(queue: BatchedQueue, value: u64) -> BatchedQueue {
        BatchedQueue::snoc(queue, value)
    }

    fn head(&self) -> Option<u64> {
        BatchedQueue::head(self)
    }

    fn tail(&self) -> Option<BatchedQueue> {
        BatchedQueue::tail(self)
    }

    fn split(&self) -> Option<(u64, BatchedQueue)> {
        match BatchedQueue::split(self) {
            None => None,
            Some((h, t)) => Some((*h, t)),
        }
    }

    fn push_back(&mut self, value: u64) {
        BatchedQueue::push_back(self, value)
    }
}

impl SetLike for Tree {
    open spec fn set_model(&self) -> Set<u64> {
        self@
    }

    open spec fn inv(&self) -> bool {
        self.well_formed()
    }

    fn empty() -> Tree {
        Tree::empty()
    }

    fn plus(&self, value: u64) -> Tree {
        Tree::plus(self, value)
    }

    fn contains(&self, value: &u64) -> bool {
        Tree::contains(self, value)
    }

    fn add(&mut self, v: u64) {
        Tree::add(self, v)
    }
}

impl SetLike for RBTree {
    open spec fn set_model(&self) -> Set<u64> {
        self@
    }

    open spec fn inv(&self) -> bool {
        self.well_formed()
    }

    fn empty() -> RBTree {
        RBTree::empty()
    }

    fn plus(&self, value: u64) -> RBTree {
        RBTree::plus(self, value)
    }

    fn contains(&self, value: &u64) -> bool {
        RBTree::contains(self, value)
    }

    fn add(&mut self, v: u64) {
        RBTree::add(self, v)
    }
}

impl Heap for LeftistHeap {
    open spec fn mset_model(&self) -> Multiset<u64> {
        self@
    }

    open spec fn inv(&self) -> bool {
        self.well_formed()
    }

    open spec fn min_model(&self) -> u64 {
        self.min_spec()
    }

    fn empty() -> LeftistHeap {
        LeftistHeap::empty()
    }

    fn is_empty(&self) -> bool {
        LeftistHeap::is_empty(self)
    }

    fn insert(&self, value: u64) -> LeftistHeap {
        LeftistHeap::insert(self, value)
    }

    fn merge(h1: LeftistHeap, h2: LeftistHeap) -> LeftistHeap {
        LeftistHeap::merge(h1, h2)
    }

    fn min(&self) -> Option<u64> {
        LeftistHeap::min(self)
    }

    fn without_min(&self) -> LeftistHeap {
        LeftistHeap::without_min(self)
    }

    fn add(&mut self, value: u64) {
        LeftistHeap::add(self, value)
    }

    fn pop(&mut self) -> Option<u64> {
        LeftistHeap::pop(self)
    }
}

} // verus!
