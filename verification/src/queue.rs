//! Persistent first-in-first-out queues with amortized constant-time
//! operations (a banker's queue).

use vstd::prelude::*;
use crate::list::List;
use crate::list::reverse;

verus! {

/// A persistent queue implemented as a pair of linked lists.
///
/// `front` holds values in dequeue order; `back` holds later values in
/// reverse insertion order. The structural invariant is that `front` is
/// empty only when `back` is also empty, so the front value (when any
/// exists) is always the head of `front`.
pub struct BatchedQueue {
    front: List,
    back: List,
}

impl BatchedQueue {
    /// The structural invariant: if `front` is empty, `back` is empty too.
    pub closed spec fn well_formed(self) -> bool {
        self.front@.len() == 0 ==> self.back@.len() == 0
    }

    /// The mathematical sequence of queued values, front (next out) first.
    pub closed spec fn seq(self) -> Seq<u64> {
        self.front@ + self.back@.reverse()
    }

    /// The banker's potential: the length of the back list. Every value
    /// sitting in `back` has banked one credit toward the reversal that
    /// will eventually move it to `front`.
    pub closed spec fn potential(self) -> nat {
        self.back@.len()
    }

    /// The number of element moves a successful `split` of this queue
    /// performs: one for the front value handed out, plus the whole back
    /// list when removing the front value empties `front` and triggers the
    /// reversal. Together with `potential`, the contracts of `snoc` and
    /// `split` state the amortized bound: each operation's moves plus its
    /// change in potential is at most 2, so any sequence of n operations
    /// starting from `empty` (whose potential is 0) performs at most 2·n
    /// moves in total, even though a single `split` may reverse the whole
    /// back list.
    pub closed spec fn split_cost(self) -> nat {
        if self.front@.len() == 1 {
            self.back@.len() + 1
        } else {
            1
        }
    }
}

impl View for BatchedQueue {
    type V = Seq<u64>;

    open spec fn view(&self) -> Seq<u64> {
        self.seq()
    }
}

impl Clone for BatchedQueue {
    /// Cloning shares both underlying lists; the clone is the same value.
    fn clone(&self) -> (r: BatchedQueue)
        ensures
            r == *self,
    {
        BatchedQueue { front: self.front.clone(), back: self.back.clone() }
    }
}

impl BatchedQueue {
    /// Build a queue from components, moving the values from back to front
    /// if needed to restore the invariant.
    fn build(front: List, back: List) -> (r: BatchedQueue)
        ensures
            r.well_formed(),
            r@ == front@ + back@.reverse(),
            r.potential() == (if front@.len() == 0 { 0nat } else { back@.len() }),
    {
        if front.is_empty() {
            let r = BatchedQueue { front: reverse(back), back: List::Nil };
            proof {
                assert(r@ =~= front@ + back@.reverse());
            }
            r
        } else {
            BatchedQueue { front, back }
        }
    }

    /// The empty queue.
    pub fn empty() -> (r: BatchedQueue)
        ensures
            r.well_formed(),
            r@ == Seq::<u64>::empty(),
            r.potential() == 0,
    {
        let r = BatchedQueue { front: List::Nil, back: List::Nil };
        proof {
            assert(r@ =~= Seq::<u64>::empty());
        }
        r
    }

    /// True exactly when the queue holds no values.
    ///
    /// By the invariant, only `front` needs to be checked.
    pub fn is_empty(&self) -> (r: bool)
        requires
            self.well_formed(),
        ensures
            r <==> self@.len() == 0,
    {
        self.front.is_empty()
    }

    /// Add a value at the back of a queue.
    ///
    /// Returns a new queue holding all the values of `queue` followed by
    /// `value`; `queue`'s lists are shared, not copied, so this runs in
    /// constant time and space. The potential grows by at most 1: the one
    /// credit banked for the amortized argument.
    pub fn snoc(queue: BatchedQueue, value: u64) -> (r: BatchedQueue)
        requires
            queue.well_formed(),
        ensures
            r.well_formed(),
            r@ == queue@.push(value),
            r.potential() <= queue.potential() + 1,
    {
        if queue.is_empty() {
            // Built directly so that the invariant holds without a reversal.
            let r = BatchedQueue { front: List::cons(value, List::Nil), back: List::Nil };
            proof {
                assert(r@ =~= queue@.push(value));
            }
            r
        } else {
            let BatchedQueue { front, back } = queue;
            let r = BatchedQueue { front, back: List::cons(value, back) };
            proof {
                assert((seq![value] + back@).reverse() =~= back@.reverse() + seq![value]);
                assert(r@ =~= queue@.push(value));
            }
            r
        }
    }

    /// The front value of the queue, or `None` when empty.
    pub fn head(&self) -> (r: Option<u64>)
        requires
            self.well_formed(),
        ensures
            match r {
                None => self@.len() == 0,
                Some(h) => self@.len() > 0 && h == self@[0],
            },
    {
        self.front.head()
    }

    /// Split the queue into its front value and a queue of the remaining
    /// values, or `None` when empty.
    ///
    /// Occasionally this reverses the whole back list, but its cost
    /// (`split_cost`) never exceeds 1 plus the potential it releases, which
    /// is what makes the amortized cost constant.
    pub fn split(&self) -> (r: Option<(&u64, BatchedQueue)>)
        requires
            self.well_formed(),
        ensures
            match r {
                None => self@.len() == 0,
                Some((h, t)) => {
                    &&& self@.len() > 0
                    &&& *h == self@[0]
                    &&& t.well_formed()
                    &&& t@ == self@.skip(1)
                    &&& self.split_cost() + t.potential() <= self.potential() + 1
                },
            },
    {
        match self.front.split() {
            None => {
                proof {
                    assert(self.back@.reverse() =~= Seq::<u64>::empty());
                    assert(self@ =~= Seq::<u64>::empty());
                }
                None
            },
            Some((first, rest)) => {
                let t = BatchedQueue::build(rest.clone(), self.back.clone());
                proof {
                    assert(t@ =~= self@.skip(1));
                }
                Some((first, t))
            },
        }
    }

    /// A queue of all the values but the front one, or `None` when empty.
    pub fn tail(&self) -> (r: Option<BatchedQueue>)
        requires
            self.well_formed(),
        ensures
            match r {
                None => self@.len() == 0,
                Some(t) => self@.len() > 0 && t.well_formed() && t@ == self@.skip(1),
            },
    {
        match self.split() {
            None => None,
            Some((_, t)) => Some(t),
        }
    }

    /// Split the queue by value: the front value and a queue of the
    /// remaining values, or `None` when empty.
    pub fn split_into(self) -> (r: Option<(u64, BatchedQueue)>)
        requires
            self.well_formed(),
        ensures
            match r {
                None => self@.len() == 0,
                Some((h, t)) => {
                    &&& self@.len() > 0
                    &&& h == self@[0]
                    &&& t.well_formed()
                    &&& t@ == self@.skip(1)
                    &&& self.split_cost() + t.potential() <= self.potential() + 1
                },
            },
    {
        match self.front.split_into() {
            None => None,
            Some((first, rest)) => {
                let t = BatchedQueue::build(rest, self.back);
                proof {
                    assert(t@ =~= self@.skip(1));
                }
                Some((first, t))
            },
        }
    }

    /* Mutators */

    /// Remove and return the value at the front of this queue.
    ///
    /// Returns `None`, leaving the queue empty, when there is nothing to
    /// remove.
    pub fn pop_front(&mut self) -> (r: Option<u64>)
        requires
            old(self).well_formed(),
        ensures
            final(self).well_formed(),
            match r {
                None => old(self)@.len() == 0 && final(self)@ == old(self)@,
                Some(v) => {
                    &&& old(self)@.len() > 0
                    &&& v == old(self)@[0]
                    &&& final(self)@ == old(self)@.skip(1)
                    &&& old(self).split_cost() + final(self).potential() <= old(self).potential()
                        + 1
                },
            },
    {
        let mut tmp = BatchedQueue::empty();
        core::mem::swap(self, &mut tmp);
        match tmp.split_into() {
            None => None,
            Some((first, rest)) => {
                *self = rest;
                Some(first)
            },
        }
    }

    /// Add a value at the back of this queue in place.
    ///
    /// Runs in constant time and space.
    pub fn push_back(&mut self, value: u64)
        requires
            old(self).well_formed(),
        ensures
            final(self).well_formed(),
            final(self)@ == old(self)@.push(value),
    {
        let mut tmp = BatchedQueue::empty();
        core::mem::swap(self, &mut tmp);
        *self = BatchedQueue::snoc(tmp, value);
    }
}

/// The total of a sequence of per-operation move counts.
pub open spec fn total_moves(costs: Seq<nat>) -> nat
    decreases costs.len(),
{
    if costs.len() == 0 {
        0
    } else {
        costs[0] + total_moves(costs.skip(1))
    }
}

/// The banker's argument, telescoped. Take any run q0, q1, …, qn of
/// queues in which step i performs `costs[i]` element moves and obeys the
/// accounting that the contracts of `snoc` (1 move, potential grows by at
/// most 1) and `split`, `split_into` and `pop_front` (`split_cost` moves,
/// released potential pays for all but one of them) guarantee: the moves
/// of a step plus the potential after it never exceed the potential
/// before it plus 2. Then the run performs at most 2·n moves beyond the
/// starting potential — amortized constant cost per operation, even
/// though one `split` may reverse the whole back list. A run starting
/// from `empty` starts with potential 0.
pub proof fn lemma_amortized_total(qs: Seq<BatchedQueue>, costs: Seq<nat>)
    requires
        qs.len() == costs.len() + 1,
        forall|i: int|
            0 <= i < costs.len() ==> #[trigger] costs[i] + qs[i + 1].potential() <= qs[
                i
            ].potential() + 2,
    ensures
        total_moves(costs) + qs.last().potential() <= 2 * costs.len() + qs[0].potential(),
    decreases costs.len(),
{
    if costs.len() > 0 {
        assert forall|i: int|
            0 <= i < costs.skip(1).len() implies #[trigger] costs.skip(1)[i] + qs.skip(1)[i
            + 1].potential() <= qs.skip(1)[i].potential() + 2 by {
            assert(costs.skip(1)[i] == costs[i + 1]);
            assert(qs.skip(1)[i + 1] == qs[i + 2]);
            assert(qs.skip(1)[i] == qs[i + 1]);
        };
        lemma_amortized_total(qs.skip(1), costs.skip(1));
        assert(qs.skip(1).last() == qs.last());
        assert(qs.skip(1)[0] == qs[1]);
        assert(costs[0] + qs[1].potential() <= qs[0].potential() + 2);
    }
}

} // verus!
