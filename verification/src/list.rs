//! Persistent singly linked lists.
//!
//! A `List` is an immutable value: `cons` and the other operations build new
//! lists that share their tails with the lists they were built from, so old
//! lists remain valid and unchanged.

use vstd::prelude::*;
use std::rc::Rc;
use crate::traits::Stack;

verus! {

/// A persistent singly linked list of `u64` values.
///
/// The list is either empty (`Nil`) or a shared, reference-counted cell
/// holding the first value and the rest of the list. Sharing a tail between
/// many lists is O(1) and safe because cells are never mutated.
pub enum List {
    Nil,
    Cons(Rc<(u64, List)>),
}

impl List {
    /// The mathematical sequence of values stored in the list, front first.
    pub open spec fn seq(self) -> Seq<u64>
        decreases self,
    {
        match self {
            List::Nil => Seq::empty(),
            List::Cons(rc) => seq![rc.0] + rc.1.seq(),
        }
    }
}

impl View for List {
    type V = Seq<u64>;

    open spec fn view(&self) -> Seq<u64> {
        self.seq()
    }
}

impl Clone for List {
    /// Cloning shares the underlying cells; the clone is the same value.
    fn clone(&self) -> (r: List)
        ensures
            r == *self,
    {
        match self {
            List::Nil => List::Nil,
            List::Cons(rc) => List::Cons(rc.clone()),
        }
    }
}

impl List {
    /// The empty list.
    pub fn empty() -> (r: List)
        ensures
            r@ == Seq::<u64>::empty(),
    {
        List::Nil
    }

    /// True exactly when the list holds no values.
    pub fn is_empty(&self) -> (r: bool)
        ensures
            r <==> self@.len() == 0,
    {
        match self {
            List::Nil => true,
            List::Cons(_) => false,
        }
    }

    /// A new list whose first value is `head` and whose rest is `tail`.
    ///
    /// Runs in constant time and space; `tail` is shared, not copied.
    pub fn cons(head: u64, tail: List) -> (r: List)
        ensures
            r@ == seq![head] + tail@,
    {
        List::Cons(Rc::new((head, tail)))
    }

    /// Borrow the first value and the rest of the list, or `None` when empty.
    pub fn split(&self) -> (r: Option<(&u64, &List)>)
        ensures
            match r {
                None => self@.len() == 0,
                Some((h, t)) => self@.len() > 0 && *h == self@[0] && t@ == self@.skip(1),
            },
    {
        match self {
            List::Nil => None,
            List::Cons(rc) => {
                proof {
                    assert(self@.skip(1) =~= rc.1@);
                }
                Some((&rc.0, &rc.1))
            },
        }
    }

    /// The first value of the list, or `None` when empty.
    pub fn head(&self) -> (r: Option<u64>)
        ensures
            match r {
                None => self@.len() == 0,
                Some(h) => self@.len() > 0 && h == self@[0],
            },
    {
        match self.split() {
            None => None,
            Some((h, _)) => Some(*h),
        }
    }

    /// Borrow the list without its first value, or `None` when empty.
    pub fn tail(&self) -> (r: Option<&List>)
        ensures
            match r {
                None => self@.len() == 0,
                Some(t) => self@.len() > 0 && t@ == self@.skip(1),
            },
    {
        match self.split() {
            None => None,
            Some((_, t)) => Some(t),
        }
    }

    /// The first value together with a list of the remaining values, or
    /// `None` when empty. The returned tail shares its cells with `self`.
    pub fn split_into(&self) -> (r: Option<(u64, List)>)
        ensures
            match r {
                None => self@.len() == 0,
                Some((h, t)) => self@.len() > 0 && h == self@[0] && t@ == self@.skip(1),
            },
    {
        match self {
            List::Nil => None,
            List::Cons(rc) => {
                proof {
                    assert(self@.skip(1) =~= rc.1@);
                }
                Some((rc.0, rc.1.clone()))
            },
        }
    }

    /// Replace this list with `v` followed by the old list.
    pub fn push(&mut self, v: u64)
        ensures
            final(self)@ == seq![v] + old(self)@,
    {
        let mut tmp = List::Nil;
        core::mem::swap(self, &mut tmp);
        *self = List::cons(v, tmp);
    }

    /// Remove and return the first value, or `None` when the list is empty
    /// (the list is then left empty).
    pub fn pop(&mut self) -> (r: Option<u64>)
        ensures
            match r {
                None => old(self)@.len() == 0 && final(self)@ == old(self)@,
                Some(v) => old(self)@.len() > 0 && v == old(self)@[0]
                    && final(self)@ == old(self)@.skip(1),
            },
    {
        match self.split_into() {
            None => None,
            Some((h, t)) => {
                *self = t;
                Some(h)
            },
        }
    }

    /// The number of values in the list.
    pub fn length(&self) -> (r: usize)
        requires
            self@.len() <= usize::MAX,
        ensures
            r == self@.len(),
    {
        let mut p: &List = self;
        let mut len: usize = 0;
        loop
            invariant
                self@.len() <= usize::MAX,
                len + p@.len() == self@.len(),
            decreases p@.len(),
        {
            match p {
                List::Nil => {
                    return len;
                },
                List::Cons(rc) => {
                    proof {
                        assert(p@ == seq![rc.0] + rc.1@);
                    }
                    p = &rc.1;
                    len = len + 1;
                },
            }
        }
    }

    /// An iterator over the values of the list, front first.
    pub fn iter(&self) -> (r: ListIterator)
        ensures
            r@ == self@,
    {
        ListIterator(self.clone())
    }

    /// Build a list holding the values of `items` in the same order.
    pub fn from_vec(items: &Vec<u64>) -> (r: List)
        ensures
            r@ == items@,
    {
        let mut result = List::Nil;
        let mut i: usize = items.len();
        while i > 0
            invariant
                i <= items@.len(),
                result@ == items@.skip(i as int),
            decreases i,
        {
            i = i - 1;
            result = List::cons(items[i], result);
            proof {
                assert(seq![items@[i as int]] + items@.skip(i as int + 1)
                    =~= items@.skip(i as int));
            }
        }
        proof {
            assert(items@.skip(0) =~= items@);
        }
        result
    }

    /// Copy the values of the list into a vector, front first.
    pub fn to_vec(&self) -> (r: Vec<u64>)
        requires
            self@.len() <= usize::MAX,
        ensures
            r@ == self@,
    {
        let mut out: Vec<u64> = Vec::new();
        let mut p: &List = self;
        loop
            invariant
                out@ + p@ == self@,
            decreases p@.len(),
        {
            match p {
                List::Nil => {
                    proof {
                        assert(out@ =~= self@);
                    }
                    return out;
                },
                List::Cons(rc) => {
                    out.push(rc.0);
                    proof {
                        assert(out@ + rc.1@ =~= self@);
                    }
                    p = &rc.1;
                },
            }
        }
    }
}

/// An iterator over a `List`; holds the not-yet-yielded remainder.
pub struct ListIterator(List);

impl View for ListIterator {
    type V = Seq<u64>;

    closed spec fn view(&self) -> Seq<u64> {
        self.0@
    }
}

impl ListIterator {
    /// Yield the next value, front first, or `None` once exhausted.
    pub fn next(&mut self) -> (r: Option<u64>)
        ensures
            match r {
                None => old(self)@.len() == 0 && final(self)@ == old(self)@,
                Some(v) => old(self)@.len() > 0 && v == old(self)@[0]
                    && final(self)@ == old(self)@.skip(1),
            },
    {
        self.0.pop()
    }
}

/// Reverse a list.
///
/// This copies the spine of the entire list (the values are shared).
pub fn reverse(s: List) -> (r: List)
    ensures
        r@ == s@.reverse(),
{
    let mut result = List::Nil;
    let mut current: &List = &s;
    loop
        invariant
            result@.reverse() + current@ == s@,
        decreases current@.len(),
    {
        match current.split() {
            None => {
                proof {
                    assert(result@.reverse() =~= s@);
                    assert(result@.reverse().reverse() =~= result@);
                }
                return result;
            },
            Some((first, rest)) => {
                result = List::cons(*first, result);
                proof {
                    assert(result@.reverse() + rest@ =~= s@);
                }
                current = rest;
            },
        }
    }
}

/// Concatenate two stacks: the values of `a` followed by the values of `b`.
///
/// Works for any `Stack` implementation; copies the spine of `a` while `b`
/// is handed over whole.
pub fn concat<S: Stack>(a: &S, b: S) -> (r: S)
    requires
        a.inv(),
        b.inv(),
    ensures
        r.inv(),
        r.seq_model() == a.seq_model() + b.seq_model(),
    decreases a.seq_model().len(),
{
    match a.split() {
        None => {
            proof {
                assert(a.seq_model() + b.seq_model() =~= b.seq_model());
            }
            b
        },
        Some((first, rest)) => {
            let r = S::cons(first, concat(rest, b));
            proof {
                assert(seq![first] + (rest.seq_model() + b.seq_model()) =~= a.seq_model()
                    + b.seq_model());
            }
            r
        },
    }
}

/// All suffixes of `a`, longest first, ending with the empty list.
///
/// The `i`-th entry is `a` without its first `i` values; each entry shares
/// its cells with `a`.
pub fn suffixes(a: &List) -> (r: Vec<List>)
    requires
        a@.len() < usize::MAX,
    ensures
        r@.len() == a@.len() + 1,
        forall|i: int| 0 <= i <= a@.len() ==> (#[trigger] r@[i])@ == a@.skip(i),
{
    let mut out: Vec<List> = Vec::new();
    let mut current: &List = a;
    loop
        invariant
            a@.len() < usize::MAX,
            out@.len() + current@.len() == a@.len(),
            current@ == a@.skip(out@.len() as int),
            forall|i: int| 0 <= i < out@.len() ==> (#[trigger] out@[i])@ == a@.skip(i),
        decreases current@.len(),
    {
        out.push(current.clone());
        match current.split() {
            None => {
                return out;
            },
            Some((_, rest)) => {
                proof {
                    assert(a@.skip(out@.len() - 1).skip(1) =~= a@.skip(out@.len() as int));
                }
                current = rest;
            },
        }
    }
}

} // verus!
