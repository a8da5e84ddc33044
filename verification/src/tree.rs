//! Persistent ordered sets as unbalanced binary search trees.
//!
//! `Tree` keeps no balance invariant: it is the reference baseline for the
//! red-black tree, with the same external contract and a simpler shape.

use vstd::prelude::*;
use std::rc::Rc;
use crate::ascending;

verus! {

struct TreeNode {
    value: u64,
    left: Tree,
    right: Tree,
}

enum TreeImpl {
    Empty,
    NonEmpty(Rc<TreeNode>),
}

/// An unbalanced binary search tree holding a set of `u64` values.
///
/// Updates return new trees; unmodified subtrees are shared.
pub struct Tree(TreeImpl);

impl Tree {
    /// The mathematical set of values stored in the tree.
    pub closed spec fn as_set(self) -> Set<u64>
        decreases self,
    {
        match self.0 {
            TreeImpl::Empty => Set::empty(),
            TreeImpl::NonEmpty(rc) => rc.left.as_set().insert(rc.value).union(rc.right.as_set()),
        }
    }

    /// The in-order sequence of stored values (ascending when well-formed).
    pub closed spec fn as_seq(self) -> Seq<u64>
        decreases self,
    {
        match self.0 {
            TreeImpl::Empty => Seq::empty(),
            TreeImpl::NonEmpty(rc) => rc.left.as_seq() + seq![rc.value] + rc.right.as_seq(),
        }
    }

    /// The search-tree ordering invariant: values in a node's left subtree
    /// are smaller than the node's value, values in its right subtree
    /// larger, recursively.
    pub closed spec fn well_formed(self) -> bool
        decreases self,
    {
        match self.0 {
            TreeImpl::Empty => true,
            TreeImpl::NonEmpty(rc) => {
                &&& (forall|e: u64| rc.left.as_set().contains(e) ==> e < rc.value)
                &&& (forall|e: u64| rc.right.as_set().contains(e) ==> e > rc.value)
                &&& rc.left.well_formed()
                &&& rc.right.well_formed()
            },
        }
    }
}

impl Tree {
    spec fn root_value(self) -> u64 {
        self.0->NonEmpty_0.value
    }

    spec fn left_sub(self) -> Tree {
        self.0->NonEmpty_0.left
    }

    spec fn right_sub(self) -> Tree {
        self.0->NonEmpty_0.right
    }
}

impl View for Tree {
    type V = Set<u64>;

    open spec fn view(&self) -> Set<u64> {
        self.as_set()
    }
}

impl Clone for Tree {
    /// Cloning shares the whole tree; the clone is the same value.
    fn clone(&self) -> (r: Tree)
        ensures
            r == *self,
    {
        match &self.0 {
            TreeImpl::Empty => Tree(TreeImpl::Empty),
            TreeImpl::NonEmpty(rc) => Tree(TreeImpl::NonEmpty(rc.clone())),
        }
    }
}

fn cons_tree(value: u64, left: Tree, right: Tree) -> (r: Tree)
    ensures
        r.as_set() == left.as_set().insert(value).union(right.as_set()),
        r.as_seq() == left.as_seq() + seq![value] + right.as_seq(),
        (left.well_formed() && right.well_formed()
            && (forall|e: u64| left.as_set().contains(e) ==> e < value)
            && (forall|e: u64| right.as_set().contains(e) ==> e > value))
            ==> r.well_formed(),
{
    Tree(TreeImpl::NonEmpty(Rc::new(TreeNode { value, left, right })))
}

impl Tree {
    /// The empty set.
    pub fn empty() -> (r: Tree)
        ensures
            r.well_formed(),
            r@ == Set::<u64>::empty(),
            r.as_seq() == Seq::<u64>::empty(),
    {
        Tree(TreeImpl::Empty)
    }

    /// The set holding every value of this set and `value` too.
    ///
    /// Inserting a value that is already present returns a tree sharing
    /// this tree's nodes unchanged.
    pub fn plus(&self, value: u64) -> (r: Tree)
        requires
            self.well_formed(),
        ensures
            r.well_formed(),
            r@ == self@.insert(value),
        decreases *self,
    {
        match &self.0 {
            TreeImpl::Empty => {
                let r = cons_tree(value, Tree(TreeImpl::Empty), Tree(TreeImpl::Empty));
                proof {
                    assert(r.as_set() =~= self@.insert(value));
                }
                r
            },
            TreeImpl::NonEmpty(rc) => {
                if value < rc.value {
                    let r = cons_tree(rc.value, rc.left.plus(value), rc.right.clone());
                    proof {
                        assert(r.as_set() =~= self@.insert(value));
                    }
                    r
                } else if value > rc.value {
                    let r = cons_tree(rc.value, rc.left.clone(), rc.right.plus(value));
                    proof {
                        assert(r.as_set() =~= self@.insert(value));
                    }
                    r
                } else {
                    let r = self.clone();
                    proof {
                        assert(r.as_set() =~= self@.insert(value));
                    }
                    r
                }
            },
        }
    }

    /// True exactly when `value` is in the set.
    pub fn contains(&self, value: &u64) -> (r: bool)
        requires
            self.well_formed(),
        ensures
            r <==> self@.contains(*value),
        decreases *self,
    {
        match &self.0 {
            TreeImpl::Empty => false,
            TreeImpl::NonEmpty(rc) => {
                if *value < rc.value {
                    proof {
                        assert(!rc.right.as_set().contains(*value));
                    }
                    rc.left.contains(value)
                } else if *value > rc.value {
                    proof {
                        assert(!rc.left.as_set().contains(*value));
                    }
                    rc.right.contains(value)
                } else {
                    true
                }
            },
        }
    }

    /// Add a value to this set in place.
    pub fn add(&mut self, v: u64)
        requires
            old(self).well_formed(),
        ensures
            final(self).well_formed(),
            final(self)@ == old(self)@.insert(v),
    {
        let mut tmp = Tree::empty();
        core::mem::swap(self, &mut tmp);
        *self = tmp.plus(v);
    }

    /// Append the values of the tree, in ascending order, to `out`.
    pub fn copy_to_vec(&self, out: &mut Vec<u64>)
        ensures
            final(out)@ == old(out)@ + self.as_seq(),
        decreases *self,
    {
        match &self.0 {
            TreeImpl::Empty => {
                proof {
                    assert(out@ + self.as_seq() =~= out@);
                }
            },
            TreeImpl::NonEmpty(rc) => {
                rc.left.copy_to_vec(out);
                out.push(rc.value);
                rc.right.copy_to_vec(out);
                proof {
                    assert(out@ =~= old(out)@ + self.as_seq());
                }
            },
        }
    }

    /// The values of the set as a vector in ascending order.
    pub fn to_vec(&self) -> (r: Vec<u64>)
        requires
            self.well_formed(),
        ensures
            r@ == self.as_seq(),
            ascending(r@),
            forall|e: u64| r@.contains(e) <==> self@.contains(e),
    {
        let mut out: Vec<u64> = Vec::new();
        self.copy_to_vec(&mut out);
        proof {
            assert(out@ =~= self.as_seq());
            self.lemma_in_order();
        }
        out
    }

    /// In a well-formed tree the in-order sequence is strictly ascending
    /// and enumerates exactly the stored set.
    pub proof fn lemma_in_order(self)
        requires
            self.well_formed(),
        ensures
            ascending(self.as_seq()),
            forall|e: u64| self.as_seq().contains(e) <==> self.as_set().contains(e),
        decreases self,
    {
        if self.0 is NonEmpty {
            Tree::lemma_in_order(self.left_sub());
            Tree::lemma_in_order(self.right_sub());
            let s = self.as_seq();
            let v = self.root_value();
            let ls = self.left_sub().as_seq();
            let rs = self.right_sub().as_seq();
            let lset = self.left_sub().as_set();
            let rset = self.right_sub().as_set();
            let nl = ls.len() as int;
            assert(s == ls + seq![v] + rs);
            assert forall|e: u64| s.contains(e) implies self.as_set().contains(e) by {
                let i = choose|i: int| 0 <= i < s.len() && s[i] == e;
                if i < nl {
                    assert(ls.contains(e));
                } else if i > nl {
                    assert(rs[i - nl - 1] == e);
                    assert(rs.contains(e));
                }
            };
            assert forall|e: u64| self.as_set().contains(e) implies s.contains(e) by {
                if lset.contains(e) {
                    let i = choose|i: int| 0 <= i < ls.len() && ls[i] == e;
                    assert(s[i] == e);
                } else if e == v {
                    assert(s[nl] == e);
                } else {
                    assert(rset.contains(e));
                    let i = choose|i: int| 0 <= i < rs.len() && rs[i] == e;
                    assert(s[nl + 1 + i] == e);
                }
            };
            assert forall|i: int, j: int| 0 <= i < j < s.len() implies s[i] < s[j] by {
                if i < nl {
                    assert(ls.contains(s[i]));
                    assert(lset.contains(s[i]));
                }
                if j > nl {
                    assert(rs[j - nl - 1] == s[j]);
                    assert(rs.contains(s[j]));
                    assert(rset.contains(s[j]));
                }
            };
        }
    }
}

} // verus!
