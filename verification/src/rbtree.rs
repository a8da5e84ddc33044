//! Persistent ordered sets as red-black balanced binary search trees.

use vstd::prelude::*;
use vstd::arithmetic::power2::{pow2, lemma_pow2_unfold, lemma2_to64};
use std::rc::Rc;
use crate::ascending;

verus! {

/// The color tag of a red-black tree node.
#[derive(Clone, Copy, PartialEq, Eq, Structural)]
enum Color {
    Red,
    Black,
}

struct RBTreeNode {
    color: Color,
    value: u64,
    left: RBTree,
    right: RBTree,
}

enum RBTreeImpl {
    RBEmpty,
    RBNonEmpty(Rc<RBTreeNode>),
}

/// A red-black balanced binary search tree holding a set of `u64` values.
///
/// The balance invariant (no red node has a red child; every path from the
/// root to an empty position crosses the same number of black nodes) bounds
/// the tree height logarithmically in its size. Updates return new trees;
/// unmodified subtrees are shared.
pub struct RBTree(RBTreeImpl);

impl RBTree {
    /// The mathematical set of values stored in the tree.
    pub closed spec fn as_set(self) -> Set<u64>
        decreases self,
    {
        match self.0 {
            RBTreeImpl::RBEmpty => Set::empty(),
            RBTreeImpl::RBNonEmpty(rc) => rc.left.as_set().insert(rc.value).union(
                rc.right.as_set(),
            ),
        }
    }

    /// The in-order sequence of stored values (ascending when well-formed).
    pub closed spec fn as_seq(self) -> Seq<u64>
        decreases self,
    {
        match self.0 {
            RBTreeImpl::RBEmpty => Seq::empty(),
            RBTreeImpl::RBNonEmpty(rc) => rc.left.as_seq() + seq![rc.value] + rc.right.as_seq(),
        }
    }

    /// The search-tree ordering invariant.
    pub closed spec fn bst(self) -> bool
        decreases self,
    {
        match self.0 {
            RBTreeImpl::RBEmpty => true,
            RBTreeImpl::RBNonEmpty(rc) => {
                &&& (forall|e: u64| rc.left.as_set().contains(e) ==> e < rc.value)
                &&& (forall|e: u64| rc.right.as_set().contains(e) ==> e > rc.value)
                &&& rc.left.bst()
                &&& rc.right.bst()
            },
        }
    }

    /// The color of the root node; empty trees count as black.
    spec fn root_color(self) -> Color {
        if self.0 is RBEmpty {
            Color::Black
        } else {
            self.0->RBNonEmpty_0.color
        }
    }

    spec fn root_value(self) -> u64 {
        self.0->RBNonEmpty_0.value
    }

    spec fn left_sub(self) -> RBTree {
        self.0->RBNonEmpty_0.left
    }

    spec fn right_sub(self) -> RBTree {
        self.0->RBNonEmpty_0.right
    }

    /// The first half of the balance invariant: no red node has a red child.
    pub closed spec fn no_red_red(self) -> bool
        decreases self,
    {
        match self.0 {
            RBTreeImpl::RBEmpty => true,
            RBTreeImpl::RBNonEmpty(rc) => {
                &&& (rc.color is Red ==> rc.left.root_color() is Black
                    && rc.right.root_color() is Black)
                &&& rc.left.no_red_red()
                &&& rc.right.no_red_red()
            },
        }
    }

    /// The number of black nodes on every root-to-empty path (well defined
    /// whenever `balanced` holds; measured along the leftmost path).
    pub closed spec fn black_height(self) -> nat
        decreases self,
    {
        match self.0 {
            RBTreeImpl::RBEmpty => 0,
            RBTreeImpl::RBNonEmpty(rc) => rc.left.black_height() + (
            if rc.color is Black {
                1nat
            } else {
                0nat
            }),
        }
    }

    /// The second half of the balance invariant: at every node, the left
    /// and right subtrees cross the same number of black nodes.
    pub closed spec fn balanced(self) -> bool
        decreases self,
    {
        match self.0 {
            RBTreeImpl::RBEmpty => true,
            RBTreeImpl::RBNonEmpty(rc) => {
                &&& rc.left.black_height() == rc.right.black_height()
                &&& rc.left.balanced()
                &&& rc.right.balanced()
            },
        }
    }

    /// The full red-black invariant of a tree handed out by this module:
    /// ordered, no red node with a red child, equal black counts on all
    /// paths, and a black root.
    pub closed spec fn well_formed(self) -> bool {
        self.bst() && self.no_red_red() && self.balanced() && self.root_color() is Black
    }

    /// Both subtrees of the root satisfy `no_red_red`; the root itself may
    /// still clash with a red child. This is the state `ins` leaves a tree
    /// in before its parent rebalances.
    spec fn nearly_no_red_red(self) -> bool {
        match self.0 {
            RBTreeImpl::RBEmpty => true,
            RBTreeImpl::RBNonEmpty(rc) => rc.left.no_red_red() && rc.right.no_red_red(),
        }
    }

    /// The number of nodes on the longest root-to-empty path.
    pub closed spec fn height(self) -> nat
        decreases self,
    {
        match self.0 {
            RBTreeImpl::RBEmpty => 0,
            RBTreeImpl::RBNonEmpty(rc) => 1 + (
            if rc.left.height() >= rc.right.height() {
                rc.left.height()
            } else {
                rc.right.height()
            }),
        }
    }
}

impl View for RBTree {
    type V = Set<u64>;

    open spec fn view(&self) -> Set<u64> {
        self.as_set()
    }
}

impl Clone for RBTree {
    /// Cloning shares the whole tree; the clone is the same value.
    fn clone(&self) -> (r: RBTree)
        ensures
            r == *self,
    {
        match &self.0 {
            RBTreeImpl::RBEmpty => RBTree(RBTreeImpl::RBEmpty),
            RBTreeImpl::RBNonEmpty(rc) => RBTree(RBTreeImpl::RBNonEmpty(rc.clone())),
        }
    }
}

/// Assemble a black node; both subtrees are shared, not copied.
fn black(left: &RBTree, value: u64, right: &RBTree) -> (r: RBTree)
    ensures
        r.0 is RBNonEmpty,
        r.root_color() is Black,
        r.root_value() == value,
        r.left_sub() == *left,
        r.right_sub() == *right,
{
    RBTree(RBTreeImpl::RBNonEmpty(Rc::new(RBTreeNode {
        color: Color::Black,
        value,
        left: left.clone(),
        right: right.clone(),
    })))
}

/// Reassemble the four subtrees and three values involved in a red-red
/// violation, in left-to-right order, into a red node over two black
/// nodes. All four rotation cases of `balance` resolve to this shape.
fn build_rotated_nodes(
    a: &RBTree,
    x: u64,
    b: &RBTree,
    y: u64,
    c: &RBTree,
    z: u64,
    d: &RBTree,
) -> (r: RBTree)
    requires
        a.bst() && b.bst() && c.bst() && d.bst(),
        forall|e: u64| a.as_set().contains(e) ==> e < x,
        forall|e: u64| b.as_set().contains(e) ==> x < e && e < y,
        forall|e: u64| c.as_set().contains(e) ==> y < e && e < z,
        forall|e: u64| d.as_set().contains(e) ==> z < e,
        x < y < z,
        a.no_red_red() && b.no_red_red() && c.no_red_red() && d.no_red_red(),
        a.balanced() && b.balanced() && c.balanced() && d.balanced(),
        a.black_height() == b.black_height(),
        b.black_height() == c.black_height(),
        c.black_height() == d.black_height(),
    ensures
        r.0 is RBNonEmpty,
        r.root_color() is Red,
        r.as_set() == a.as_set().union(b.as_set()).union(c.as_set()).union(d.as_set()).insert(
            x,
        ).insert(y).insert(z),
        r.bst(),
        r.no_red_red(),
        r.balanced(),
        r.black_height() == a.black_height() + 1,
{
    let lb = black(a, x, b);
    let rb = black(c, z, d);
    let r = RBTree(RBTreeImpl::RBNonEmpty(Rc::new(RBTreeNode {
        color: Color::Red,
        value: y,
        left: lb,
        right: rb,
    })));
    proof {
        assert(lb.as_set() =~= a.as_set().insert(x).union(b.as_set()));
        assert(rb.as_set() =~= c.as_set().insert(z).union(d.as_set()));
        assert(lb.bst());
        assert(rb.bst());
        assert(r.as_set() =~= a.as_set().union(b.as_set()).union(c.as_set()).union(
            d.as_set(),
        ).insert(x).insert(y).insert(z));
        assert forall|e: u64| lb.as_set().contains(e) implies e < y by {}
        assert forall|e: u64| rb.as_set().contains(e) implies e > y by {}
        assert(r.bst());
        assert(lb.no_red_red());
        assert(rb.no_red_red());
        assert(r.no_red_red());
        assert(lb.black_height() == a.black_height() + 1);
        assert(rb.black_height() == c.black_height() + 1);
        assert(lb.balanced());
        assert(rb.balanced());
        assert(r.balanced());
    }
    r
}

/// Rebuild a node from a color, a value and two already-rebalanced
/// subtrees, rotating away any red-red violation sitting one level below.
///
/// Rotations fire only when the node is black: a red node is returned
/// unbalanced and its black parent repairs the violation. The four cases
/// (left-left, left-right, right-left, right-right) all reassemble the
/// same four subtrees and three values via `build_rotated_nodes`.
fn balance(color: Color, left_tree: RBTree, value: u64, right_tree: RBTree) -> (res: RBTree)
    requires
        left_tree.bst() && right_tree.bst(),
        forall|e: u64| left_tree.as_set().contains(e) ==> e < value,
        forall|e: u64| right_tree.as_set().contains(e) ==> e > value,
        left_tree.balanced() && right_tree.balanced(),
        left_tree.black_height() == right_tree.black_height(),
        color is Red ==> left_tree.no_red_red() && right_tree.no_red_red(),
        color is Black ==> ((left_tree.nearly_no_red_red() && right_tree.no_red_red()) || (
        left_tree.no_red_red() && right_tree.nearly_no_red_red())),
    ensures
        res.0 is RBNonEmpty,
        res.as_set() == left_tree.as_set().insert(value).union(right_tree.as_set()),
        res.bst(),
        res.balanced(),
        res.black_height() == left_tree.black_height() + (
        if color is Black {
            1nat
        } else {
            0nat
        }),
        color is Black ==> res.no_red_red(),
        res.nearly_no_red_red(),
{
    proof {
        reveal_with_fuel(RBTree::as_set, 4);
        reveal_with_fuel(RBTree::bst, 4);
        reveal_with_fuel(RBTree::balanced, 4);
        reveal_with_fuel(RBTree::no_red_red, 4);
        reveal_with_fuel(RBTree::black_height, 4);
    }
    let ghost lset = left_tree.as_set();
    let ghost rset = right_tree.as_set();
    if color == Color::Black {
        match &left_tree.0 {
            RBTreeImpl::RBEmpty => {},
            RBTreeImpl::RBNonEmpty(l) => {
                if l.color == Color::Red {
                    match &l.left.0 {
                        RBTreeImpl::RBEmpty => {},
                        RBTreeImpl::RBNonEmpty(ll) => {
                            if ll.color == Color::Red {
                                proof {
                                    assert(lset == l.left.as_set().insert(l.value).union(
                                        l.right.as_set(),
                                    ));
                                    assert(l.left.as_set() == ll.left.as_set().insert(
                                        ll.value,
                                    ).union(ll.right.as_set()));
                                    assert forall|e: u64|
                                        l.right.as_set().contains(e) implies l.value < e && e
                                        < value by {
                                        assert(lset.contains(e));
                                    }
                                    assert forall|e: u64|
                                        ll.right.as_set().contains(e) implies ll.value < e && e
                                        < l.value by {
                                        assert(l.left.as_set().contains(e));
                                    }
                                    assert(l.left.as_set().contains(ll.value));
                                    assert(lset.contains(l.value));
                                }
                                let res = build_rotated_nodes(
                                    &ll.left,
                                    ll.value,
                                    &ll.right,
                                    l.value,
                                    &l.right,
                                    value,
                                    &right_tree,
                                );
                                proof {
                                    assert(res.as_set() =~= lset.insert(value).union(rset));
                                }
                                return res;
                            }
                        },
                    }
                    match &l.right.0 {
                        RBTreeImpl::RBEmpty => {},
                        RBTreeImpl::RBNonEmpty(lr) => {
                            if lr.color == Color::Red {
                                proof {
                                    assert(lset == l.left.as_set().insert(l.value).union(
                                        l.right.as_set(),
                                    ));
                                    assert(l.right.as_set() == lr.left.as_set().insert(
                                        lr.value,
                                    ).union(lr.right.as_set()));
                                    assert forall|e: u64|
                                        lr.left.as_set().contains(e) implies l.value < e && e
                                        < lr.value by {
                                        assert(l.right.as_set().contains(e));
                                    }
                                    assert forall|e: u64|
                                        lr.right.as_set().contains(e) implies lr.value < e && e
                                        < value by {
                                        assert(l.right.as_set().contains(e));
                                        assert(lset.contains(e));
                                    }
                                    assert(l.right.as_set().contains(lr.value));
                                    assert(lset.contains(lr.value));
                                }
                                let res = build_rotated_nodes(
                                    &l.left,
                                    l.value,
                                    &lr.left,
                                    lr.value,
                                    &lr.right,
                                    value,
                                    &right_tree,
                                );
                                proof {
                                    assert(res.as_set() =~= lset.insert(value).union(rset));
                                }
                                return res;
                            }
                        },
                    }
                }
            },
        }
        match &right_tree.0 {
            RBTreeImpl::RBEmpty => {},
            RBTreeImpl::RBNonEmpty(r) => {
                if r.color == Color::Red {
                    match &r.left.0 {
                        RBTreeImpl::RBEmpty => {},
                        RBTreeImpl::RBNonEmpty(rl) => {
                            if rl.color == Color::Red {
                                proof {
                                    assert(rset == r.left.as_set().insert(r.value).union(
                                        r.right.as_set(),
                                    ));
                                    assert(r.left.as_set() == rl.left.as_set().insert(
                                        rl.value,
                                    ).union(rl.right.as_set()));
                                    assert forall|e: u64|
                                        rl.left.as_set().contains(e) implies value < e && e
                                        < rl.value by {
                                        assert(r.left.as_set().contains(e));
                                        assert(rset.contains(e));
                                    }
                                    assert forall|e: u64|
                                        rl.right.as_set().contains(e) implies rl.value < e && e
                                        < r.value by {
                                        assert(r.left.as_set().contains(e));
                                    }
                                    assert(r.left.as_set().contains(rl.value));
                                    assert(rset.contains(rl.value));
                                }
                                let res = build_rotated_nodes(
                                    &left_tree,
                                    value,
                                    &rl.left,
                                    rl.value,
                                    &rl.right,
                                    r.value,
                                    &r.right,
                                );
                                proof {
                                    assert(res.as_set() =~= lset.insert(value).union(rset));
                                }
                                return res;
                            }
                        },
                    }
                    match &r.right.0 {
                        RBTreeImpl::RBEmpty => {},
                        RBTreeImpl::RBNonEmpty(rr) => {
                            if rr.color == Color::Red {
                                proof {
                                    assert(rset == r.left.as_set().insert(r.value).union(
                                        r.right.as_set(),
                                    ));
                                    assert(r.right.as_set() == rr.left.as_set().insert(
                                        rr.value,
                                    ).union(rr.right.as_set()));
                                    assert forall|e: u64|
                                        r.left.as_set().contains(e) implies value < e && e
                                        < r.value by {
                                        assert(rset.contains(e));
                                    }
                                    assert forall|e: u64|
                                        rr.left.as_set().contains(e) implies r.value < e && e
                                        < rr.value by {
                                        assert(r.right.as_set().contains(e));
                                    }
                                    assert(r.right.as_set().contains(rr.value));
                                    assert(rset.contains(r.value));
                                }
                                let res = build_rotated_nodes(
                                    &left_tree,
                                    value,
                                    &r.left,
                                    r.value,
                                    &rr.left,
                                    rr.value,
                                    &rr.right,
                                );
                                proof {
                                    assert(res.as_set() =~= lset.insert(value).union(rset));
                                }
                                return res;
                            }
                        },
                    }
                }
            },
        }
    }
    let res = RBTree(RBTreeImpl::RBNonEmpty(Rc::new(RBTreeNode {
        color,
        value,
        left: left_tree,
        right: right_tree,
    })));
    proof {
        assert(res.as_set() =~= lset.insert(value).union(rset));
    }
    res
}

/// Recursive insertion: descend the comparator path, insert a new red leaf
/// at the empty position found, and rebalance on the way back up.
///
/// The result may carry a red root that clashes with a red child; the
/// caller (`plus`) forces the root black. When the tree's own root is
/// black the result is already free of red-red violations.
fn ins(tree: &RBTree, value: u64) -> (r: RBTree)
    requires
        tree.bst(),
        tree.no_red_red(),
        tree.balanced(),
    ensures
        r.0 is RBNonEmpty,
        r.as_set() == tree.as_set().insert(value),
        r.bst(),
        r.balanced(),
        r.black_height() == tree.black_height(),
        tree.root_color() is Black ==> r.no_red_red(),
        r.nearly_no_red_red(),
    decreases *tree,
{
    match &tree.0 {
        RBTreeImpl::RBEmpty => {
            let r = RBTree(RBTreeImpl::RBNonEmpty(Rc::new(RBTreeNode {
                color: Color::Red,
                value,
                left: RBTree(RBTreeImpl::RBEmpty),
                right: RBTree(RBTreeImpl::RBEmpty),
            })));
            proof {
                assert(r.as_set() =~= tree.as_set().insert(value));
            }
            r
        },
        RBTreeImpl::RBNonEmpty(rc) => {
            if value < rc.value {
                let nl = ins(&rc.left, value);
                proof {
                    assert forall|e: u64| nl.as_set().contains(e) implies e < rc.value by {}
                }
                let r = balance(rc.color, nl, rc.value, rc.right.clone());
                proof {
                    assert(r.as_set() =~= tree.as_set().insert(value));
                }
                r
            } else if value > rc.value {
                let nr = ins(&rc.right, value);
                proof {
                    assert forall|e: u64| nr.as_set().contains(e) implies e > rc.value by {}
                }
                let r = balance(rc.color, rc.left.clone(), rc.value, nr);
                proof {
                    assert(r.as_set() =~= tree.as_set().insert(value));
                }
                r
            } else {
                // The value is already present: hand the existing node back
                // unchanged instead of reallocating every ancestor.
                let r = RBTree(RBTreeImpl::RBNonEmpty(rc.clone()));
                proof {
                    assert(r.as_set() =~= tree.as_set().insert(value));
                }
                r
            }
        },
    }
}

impl RBTree {
    /// The empty set.
    pub fn empty() -> (r: RBTree)
        ensures
            r.well_formed(),
            r@ == Set::<u64>::empty(),
            r.as_seq() == Seq::<u64>::empty(),
    {
        RBTree(RBTreeImpl::RBEmpty)
    }

    /// The set holding every value of this set and `value` too.
    ///
    /// Inserting a value that is already present returns a tree sharing
    /// this tree's nodes unchanged. Runs in O(log n) time and allocation.
    pub fn plus(&self, value: u64) -> (r: RBTree)
        requires
            self.well_formed(),
        ensures
            r.well_formed(),
            r@ == self@.insert(value),
    {
        let n = ins(self, value);
        match &n.0 {
            RBTreeImpl::RBEmpty => {
                proof {
                    assert(false);
                }
                RBTree(RBTreeImpl::RBEmpty)
            },
            RBTreeImpl::RBNonEmpty(rc) => {
                if rc.color == Color::Red {
                    // A red root is harmless inside `ins` but must not
                    // become the child of a later operation: force it black.
                    let r = black(&rc.left, rc.value, &rc.right);
                    proof {
                        assert(r.as_set() =~= n.as_set());
                        assert(r.bst());
                        assert(r.no_red_red());
                        assert(r.balanced());
                    }
                    r
                } else {
                    RBTree(RBTreeImpl::RBNonEmpty(rc.clone()))
                }
            },
        }
    }

    /// True exactly when `value` is in the set.
    ///
    /// Standard binary search; runs in O(log n) time.
    pub fn contains(&self, value: &u64) -> (r: bool)
        requires
            self.well_formed(),
        ensures
            r <==> self@.contains(*value),
    {
        self.contains_rec(value)
    }

    fn contains_rec(&self, value: &u64) -> (r: bool)
        requires
            self.bst(),
        ensures
            r <==> self@.contains(*value),
        decreases *self,
    {
        match &self.0 {
            RBTreeImpl::RBEmpty => false,
            RBTreeImpl::RBNonEmpty(rc) => {
                if *value < rc.value {
                    proof {
                        assert(!rc.right.as_set().contains(*value));
                    }
                    rc.left.contains_rec(value)
                } else if *value > rc.value {
                    proof {
                        assert(!rc.left.as_set().contains(*value));
                    }
                    rc.right.contains_rec(value)
                } else {
                    true
                }
            },
        }
    }

    /// Add a value to this set in place.
    pub fn add(&mut self, v: u64)
        requires
            old(self).well_formed(),
        ensures
            final(self).well_formed(),
            final(self)@ == old(self)@.insert(v),
    {
        let mut tmp = RBTree::empty();
        core::mem::swap(self, &mut tmp);
        *self = tmp.plus(v);
    }

    /// Append the values of the tree, in ascending order, to `out`.
    pub fn copy_to_vec(&self, out: &mut Vec<u64>)
        ensures
            final(out)@ == old(out)@ + self.as_seq(),
        decreases *self,
    {
        match &self.0 {
            RBTreeImpl::RBEmpty => {
                proof {
                    assert(out@ + self.as_seq() =~= out@);
                }
            },
            RBTreeImpl::RBNonEmpty(rc) => {
                rc.left.copy_to_vec(out);
                out.push(rc.value);
                rc.right.copy_to_vec(out);
                proof {
                    assert(out@ =~= old(out)@ + self.as_seq());
                }
            },
        }
    }

    /// The values of the set as a vector in ascending order.
    pub fn to_vec(&self) -> (r: Vec<u64>)
        requires
            self.well_formed(),
        ensures
            r@ == self.as_seq(),
            ascending(r@),
            forall|e: u64| r@.contains(e) <==> self@.contains(e),
    {
        let mut out: Vec<u64> = Vec::new();
        self.copy_to_vec(&mut out);
        proof {
            assert(out@ =~= self.as_seq());
            self.lemma_in_order();
        }
        out
    }

    /// In an ordered tree the in-order sequence is strictly ascending and
    /// enumerates exactly the stored set.
    pub proof fn lemma_in_order(self)
        requires
            self.bst(),
        ensures
            ascending(self.as_seq()),
            forall|e: u64| self.as_seq().contains(e) <==> self.as_set().contains(e),
        decreases self,
    {
        if self.0 is RBNonEmpty {
            RBTree::lemma_in_order(self.left_sub());
            RBTree::lemma_in_order(self.right_sub());
            let s = self.as_seq();
            let v = self.root_value();
            let ls = self.left_sub().as_seq();
            let rs = self.right_sub().as_seq();
            let lset = self.left_sub().as_set();
            let rset = self.right_sub().as_set();
            let nl = ls.len() as int;
            assert(s == ls + seq![v] + rs);
            assert forall|e: u64| s.contains(e) implies self.as_set().contains(e) by {
                let i = choose|i: int| 0 <= i < s.len() && s[i] == e;
                if i < nl {
                    assert(ls.contains(e));
                } else if i > nl {
                    assert(rs[i - nl - 1] == e);
                    assert(rs.contains(e));
                }
            };
            assert forall|e: u64| self.as_set().contains(e) implies s.contains(e) by {
                if lset.contains(e) {
                    let i = choose|i: int| 0 <= i < ls.len() && ls[i] == e;
                    assert(s[i] == e);
                } else if e == v {
                    assert(s[nl] == e);
                } else {
                    assert(rset.contains(e));
                    let i = choose|i: int| 0 <= i < rs.len() && rs[i] == e;
                    assert(s[nl + 1 + i] == e);
                }
            };
            assert forall|i: int, j: int| 0 <= i < j < s.len() implies s[i] < s[j] by {
                if i < nl {
                    assert(ls.contains(s[i]));
                    assert(lset.contains(s[i]));
                }
                if j > nl {
                    assert(rs[j - nl - 1] == s[j]);
                    assert(rs.contains(s[j]));
                    assert(rset.contains(s[j]));
                }
            };
        }
    }

    /// With no red-red violation, at most every other node on a path is
    /// red, so the height is at most twice the black height, plus one for
    /// a red root.
    proof fn lemma_height_le_twice_black_height(self)
        requires
            self.no_red_red(),
            self.balanced(),
        ensures
            self.height() <= 2 * self.black_height() + (
            if self.root_color() is Red {
                1int
            } else {
                0int
            }),
        decreases self,
    {
        if self.0 is RBNonEmpty {
            RBTree::lemma_height_le_twice_black_height(self.left_sub());
            RBTree::lemma_height_le_twice_black_height(self.right_sub());
        }
    }

    /// A tree with equal black counts on all paths holds at least
    /// 2^(black height) - 1 values.
    proof fn lemma_size_ge_pow2_black_height(self)
        requires
            self.balanced(),
        ensures
            self.as_seq().len() + 1 >= pow2(self.black_height()),
        decreases self,
    {
        if self.0 is RBEmpty {
            lemma2_to64();
        } else {
            RBTree::lemma_size_ge_pow2_black_height(self.left_sub());
            RBTree::lemma_size_ge_pow2_black_height(self.right_sub());
            let k = self.left_sub().black_height();
            lemma_pow2_unfold((k + 1) as nat);
            assert(self.as_seq().len() == self.left_sub().as_seq().len() + 1
                + self.right_sub().as_seq().len());
        }
    }

    /// The red-black invariant bounds the depth of the tree: the height is
    /// at most 2·black_height, and the size n satisfies n + 1 ≥
    /// 2^black_height, so the height is at most 2·log2(n + 1).
    pub proof fn lemma_height_bound(self)
        requires
            self.well_formed(),
        ensures
            self.height() <= 2 * self.black_height(),
            pow2(self.black_height()) <= self.as_seq().len() + 1,
    {
        self.lemma_height_le_twice_black_height();
        self.lemma_size_ge_pow2_black_height();
    }
}

} // verus!
