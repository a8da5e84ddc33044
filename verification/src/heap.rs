//! Persistent mergeable heaps with the leftist property.

use vstd::prelude::*;
use vstd::multiset::Multiset;
use std::rc::Rc;

verus! {

broadcast use vstd::multiset::group_multiset_axioms;

struct HeapNode {
    rank: usize,
    value: u64,
    left: LeftistHeap,
    right: LeftistHeap,
}

enum HeapImpl {
    Empty,
    NonEmpty(Rc<HeapNode>),
}

/// A persistent min-heap with logarithmic merge, implemented as a leftist
/// tree: every node's left child has a right spine at least as long as its
/// right child's, which keeps every right spine logarithmically short.
///
/// Unlike the ordered set, a heap keeps duplicates: it holds a multiset.
pub struct LeftistHeap(HeapImpl);

impl HeapImpl {
    /// The multiset of values stored under this node.
    spec fn mset(self) -> Multiset<u64>
        decreases self,
    {
        match self {
            HeapImpl::Empty => Multiset::empty(),
            HeapImpl::NonEmpty(rc) => rc.left.0.mset().add(rc.right.0.mset()).insert(rc.value),
        }
    }

    /// The length of the right spine: 0 for an empty heap, otherwise one
    /// more than the right child's spine.
    spec fn spine(self) -> nat
        decreases self,
    {
        match self {
            HeapImpl::Empty => 0,
            HeapImpl::NonEmpty(rc) => 1 + rc.right.0.spine(),
        }
    }

    /// The well-formedness invariant of a heap node:
    /// - the stored rank is the length of the node's right spine;
    /// - the leftist property: the left child's rank is at least the right
    ///   child's;
    /// - heap order: the node's value is no greater than any value below it.
    spec fn well_formed(self) -> bool
        decreases self,
    {
        match self {
            HeapImpl::Empty => true,
            HeapImpl::NonEmpty(rc) => {
                &&& rc.rank == self.spine()
                &&& rc.left.0.spine() >= rc.right.0.spine()
                &&& (forall|e: u64| rc.left.0.mset().contains(e) ==> rc.value <= e)
                &&& (forall|e: u64| rc.right.0.mset().contains(e) ==> rc.value <= e)
                &&& rc.left.0.well_formed()
                &&& rc.right.0.well_formed()
            },
        }
    }

    spec fn root_value(self) -> u64 {
        self->NonEmpty_0.value
    }

    spec fn left_impl(self) -> HeapImpl {
        self->NonEmpty_0.left.0
    }

    spec fn right_impl(self) -> HeapImpl {
        self->NonEmpty_0.right.0
    }

    /// The stored rank of a node; empty heaps have rank 0.
    fn rank(&self) -> (r: usize)
        requires
            self.well_formed(),
        ensures
            r == self.spine(),
    {
        match self {
            HeapImpl::Empty => 0,
            HeapImpl::NonEmpty(rc) => rc.rank,
        }
    }

    /// The right spine of a heap is never longer than its contents.
    proof fn lemma_spine_le_size(self)
        ensures
            self.spine() <= self.mset().len(),
        decreases self,
    {
        if self is NonEmpty {
            HeapImpl::lemma_spine_le_size(self.right_impl());
        }
    }

    /// In a well-formed non-empty heap the root value is a lower bound for
    /// every stored value.
    proof fn lemma_root_min(self)
        requires
            self.well_formed(),
            self is NonEmpty,
        ensures
            forall|e: u64| self.mset().contains(e) ==> self.root_value() <= e,
    {
        assert forall|e: u64| self.mset().contains(e) implies self.root_value() <= e by {
            if self.left_impl().mset().contains(e) {
            } else if self.right_impl().mset().contains(e) {
            }
        };
    }
}

impl LeftistHeap {
    /// The multiset of values stored in the heap.
    pub closed spec fn mset(self) -> Multiset<u64> {
        self.0.mset()
    }

    /// The heap's structural invariant; see `HeapImpl::well_formed`.
    pub closed spec fn well_formed(self) -> bool {
        self.0.well_formed()
    }

    /// The value at the root: the heap's minimum when it is well-formed
    /// and non-empty.
    pub closed spec fn min_spec(self) -> u64 {
        self.0.root_value()
    }
}

impl View for LeftistHeap {
    type V = Multiset<u64>;

    open spec fn view(&self) -> Multiset<u64> {
        self.mset()
    }
}

impl Clone for LeftistHeap {
    /// Cloning shares the whole heap; the clone is the same value.
    fn clone(&self) -> (r: LeftistHeap)
        ensures
            r == *self,
    {
        match &self.0 {
            HeapImpl::Empty => LeftistHeap(HeapImpl::Empty),
            HeapImpl::NonEmpty(rc) => LeftistHeap(HeapImpl::NonEmpty(rc.clone())),
        }
    }
}

/// Assemble a node holding `x` above the two heaps `a` and `b`, putting the
/// higher-rank child on the left so that the leftist property holds.
///
/// This constructor, not `merge`, is where the invariant is enforced.
fn make_heap(x: u64, a: LeftistHeap, b: LeftistHeap) -> (r: LeftistHeap)
    requires
        a.well_formed(),
        b.well_formed(),
        forall|e: u64| a.mset().contains(e) ==> x <= e,
        forall|e: u64| b.mset().contains(e) ==> x <= e,
        a.mset().len() + b.mset().len() < usize::MAX,
    ensures
        r.well_formed(),
        r.mset() == a.mset().add(b.mset()).insert(x),
        r.min_spec() == x,
        r.mset().len() > 0,
{
    proof {
        a.0.lemma_spine_le_size();
        b.0.lemma_spine_le_size();
    }
    let ra = a.0.rank();
    let rb = b.0.rank();
    if ra >= rb {
        let r = LeftistHeap(HeapImpl::NonEmpty(Rc::new(HeapNode {
            rank: rb + 1,
            value: x,
            left: a,
            right: b,
        })));
        proof {
            assert(r.mset() =~= a.mset().add(b.mset()).insert(x));
        }
        r
    } else {
        let r = LeftistHeap(HeapImpl::NonEmpty(Rc::new(HeapNode {
            rank: ra + 1,
            value: x,
            left: b,
            right: a,
        })));
        proof {
            assert(r.mset() =~= a.mset().add(b.mset()).insert(x));
        }
        r
    }
}

impl LeftistHeap {
    /// The empty heap.
    pub fn empty() -> (r: LeftistHeap)
        ensures
            r.well_formed(),
            r@ == Multiset::<u64>::empty(),
    {
        LeftistHeap(HeapImpl::Empty)
    }

    /// True exactly when the heap holds no values.
    pub fn is_empty(&self) -> (r: bool)
        ensures
            r <==> self@.len() == 0,
    {
        match &self.0 {
            HeapImpl::Empty => true,
            HeapImpl::NonEmpty(_) => false,
        }
    }

    /// Combine two heaps into one holding every value of both (duplicates
    /// kept, count for count).
    ///
    /// Merging with an empty heap returns the other heap unchanged. When
    /// the two roots are equal, the first heap's root becomes the parent.
    /// Runs in time proportional to the two right spines.
    pub fn merge(h1: LeftistHeap, h2: LeftistHeap) -> (r: LeftistHeap)
        requires
            h1.well_formed(),
            h2.well_formed(),
            h1.mset().len() + h2.mset().len() <= usize::MAX,
        ensures
            r.well_formed(),
            r.mset() == h1.mset().add(h2.mset()),
            h1.mset().len() == 0 ==> r == h2,
            h2.mset().len() == 0 ==> r == h1,
        decreases h1.mset().len() + h2.mset().len(),
    {
        let ghost m1 = h1.mset();
        let ghost m2 = h2.mset();
        let ghost i1 = h1.0;
        let ghost i2 = h2.0;
        match (h1, h2) {
            (LeftistHeap(HeapImpl::Empty), h) => {
                proof {
                    assert(h.mset() =~= m1.add(m2));
                }
                h
            },
            (h, LeftistHeap(HeapImpl::Empty)) => {
                proof {
                    assert(h.mset() =~= m1.add(m2));
                }
                h
            },
            (LeftistHeap(HeapImpl::NonEmpty(n1)), LeftistHeap(HeapImpl::NonEmpty(n2))) => {
                if n1.value > n2.value {
                    proof {
                        i1.lemma_root_min();
                    }
                    let rest = LeftistHeap::merge(
                        LeftistHeap(HeapImpl::NonEmpty(n1)),
                        n2.right.clone(),
                    );
                    proof {
                        assert(rest.mset() == m1.add(i2.right_impl().mset()));
                        assert forall|e: u64| rest.mset().contains(e) implies i2.root_value()
                            <= e by {
                            if m1.contains(e) {
                            } else {
                                assert(i2.right_impl().mset().contains(e));
                            }
                        };
                    }
                    let r = make_heap(n2.value, n2.left.clone(), rest);
                    proof {
                        assert(r.mset() =~= m1.add(m2));
                    }
                    r
                } else {
                    proof {
                        i2.lemma_root_min();
                    }
                    let rest = LeftistHeap::merge(
                        n1.right.clone(),
                        LeftistHeap(HeapImpl::NonEmpty(n2)),
                    );
                    proof {
                        assert(rest.mset() == i1.right_impl().mset().add(m2));
                        assert forall|e: u64| rest.mset().contains(e) implies i1.root_value()
                            <= e by {
                            if m2.contains(e) {
                            } else {
                                assert(i1.right_impl().mset().contains(e));
                            }
                        };
                    }
                    let r = make_heap(n1.value, n1.left.clone(), rest);
                    proof {
                        assert(r.mset() =~= m1.add(m2));
                    }
                    r
                }
            },
        }
    }

    /// A heap holding every value of this heap and `value` too.
    pub fn insert(&self, value: u64) -> (r: LeftistHeap)
        requires
            self.well_formed(),
            self@.len() < usize::MAX,
        ensures
            r.well_formed(),
            r@ == self@.insert(value),
    {
        let single = LeftistHeap(HeapImpl::NonEmpty(Rc::new(HeapNode {
            rank: 1,
            value,
            left: LeftistHeap(HeapImpl::Empty),
            right: LeftistHeap(HeapImpl::Empty),
        })));
        proof {
            let ghost e = HeapImpl::Empty;
            assert(e.mset() =~= Multiset::<u64>::empty());
            assert(e.spine() == 0);
            assert(e.well_formed());
            assert(single.0.spine() == 1);
            assert(single.well_formed());
            assert(single.mset() =~= Multiset::<u64>::empty().insert(value));
        }
        let r = LeftistHeap::merge(self.clone(), single);
        proof {
            assert(r.mset() =~= self.mset().insert(value));
        }
        r
    }

    /// The minimum value in the heap, or `None` when empty.
    ///
    /// Runs in constant time: the minimum sits at the root.
    pub fn min(&self) -> (r: Option<u64>)
        requires
            self.well_formed(),
        ensures
            match r {
                None => self@.len() == 0,
                Some(m) => {
                    &&& self@.len() > 0
                    &&& m == self.min_spec()
                    &&& self@.contains(m)
                    &&& forall|x: u64| self@.contains(x) ==> m <= x
                },
            },
    {
        match &self.0 {
            HeapImpl::Empty => None,
            HeapImpl::NonEmpty(rc) => {
                proof {
                    self.0.lemma_root_min();
                }
                Some(rc.value)
            },
        }
    }

    /// A heap holding every value of this heap except one occurrence of
    /// the minimum; the empty heap stays empty.
    pub fn without_min(&self) -> (r: LeftistHeap)
        requires
            self.well_formed(),
            self@.len() <= usize::MAX,
        ensures
            r.well_formed(),
            self@.len() == 0 ==> r@ == self@,
            self@.len() > 0 ==> r@ == self@.remove(self.min_spec()),
    {
        match &self.0 {
            HeapImpl::Empty => LeftistHeap(HeapImpl::Empty),
            HeapImpl::NonEmpty(rc) => {
                let r = LeftistHeap::merge(rc.left.clone(), rc.right.clone());
                proof {
                    assert(r.mset() =~= self.mset().remove(self.min_spec()));
                }
                r
            },
        }
    }

    /* Mutators */

    /// Add a value to this heap in place.
    pub fn add(&mut self, value: u64)
        requires
            old(self).well_formed(),
            old(self)@.len() < usize::MAX,
        ensures
            final(self).well_formed(),
            final(self)@ == old(self)@.insert(value),
    {
        let r = self.insert(value);
        *self = r;
    }

    /// Remove and return the minimum value of this heap, or `None`,
    /// changing nothing, when the heap is empty.
    pub fn pop(&mut self) -> (r: Option<u64>)
        requires
            old(self).well_formed(),
            old(self)@.len() <= usize::MAX,
        ensures
            final(self).well_formed(),
            match r {
                None => old(self)@.len() == 0 && final(self)@ == old(self)@,
                Some(v) => {
                    &&& old(self)@.len() > 0
                    &&& v == old(self).min_spec()
                    &&& old(self)@.contains(v)
                    &&& (forall|x: u64| old(self)@.contains(x) ==> v <= x)
                    &&& final(self)@ == old(self)@.remove(v)
                },
            },
    {
        let mut tmp = LeftistHeap::empty();
        core::mem::swap(self, &mut tmp);
        match tmp.min() {
            None => None,
            Some(m) => {
                *self = tmp.without_min();
                Some(m)
            },
        }
    }
}

/// Repeated extraction sorts: a sequence in which every value is a lower
/// bound for the values from its own position onward is ascending. Since
/// `pop` promises to return a minimum of the heap's remaining contents and
/// to remove exactly that value, the sequence of popped values enumerates
/// the heap's multiset in ascending order, duplicates kept count for count.
pub proof fn lemma_min_extraction_sorted(s: Seq<u64>)
    requires
        forall|i: int|
            #![trigger s.skip(i)]
            0 <= i < s.len() ==> (forall|x: u64|
                #[trigger] s.skip(i).to_multiset().contains(x) ==> s[i] <= x),
    ensures
        forall|i: int, j: int| 0 <= i <= j < s.len() ==> s[i] <= s[j],
{
    broadcast use vstd::seq_lib::group_to_multiset_ensures;

    assert forall|i: int, j: int| 0 <= i <= j < s.len() implies s[i] <= s[j] by {
        assert(s.skip(i)[j - i] == s[j]);
        assert(s.skip(i).contains(s[j]));
        assert(s.skip(i).to_multiset().contains(s[j]));
    };
}

} // verus!
