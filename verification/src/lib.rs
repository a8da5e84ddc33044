//! Persistent (immutable) in-memory collections with structural sharing.
//!
//! Every update operation returns a new collection value and leaves the old
//! value intact; unmodified subtrees are shared between old and new values
//! through reference counting.

use vstd::prelude::*;

pub mod traits;
pub mod list;
pub mod queue;
pub mod tree;
pub mod rbtree;
pub mod heap;

verus! {

/// A strictly increasing sequence: the iteration order of a set.
pub open spec fn ascending(s: Seq<u64>) -> bool {
    forall|i: int, j: int| 0 <= i < j < s.len() ==> s[i] < s[j]
}

/// The set reached from `s0` by inserting the values of `vs`, one by one.
///
/// This is the set model of any sequence of `plus` calls: both ordered-set
/// implementations promise `r@ == self@.insert(value)` for each step.
pub open spec fn set_after_inserts(s0: Set<u64>, vs: Seq<u64>) -> Set<u64>
    decreases vs.len(),
{
    if vs.len() == 0 {
        s0
    } else {
        set_after_inserts(s0.insert(vs[0]), vs.skip(1))
    }
}

/// Membership round-trip: after inserting every value of `vs` into a set,
/// exactly the inserted values and the original members are present — each
/// `vs[i]` is found, and nothing else appears.
pub proof fn lemma_insert_round_trip(s0: Set<u64>, vs: Seq<u64>)
    ensures
        forall|x: u64|
            set_after_inserts(s0, vs).contains(x) <==> s0.contains(x) || vs.contains(x),
    decreases vs.len(),
{
    if vs.len() > 0 {
        lemma_insert_round_trip(s0.insert(vs[0]), vs.skip(1));
        assert forall|x: u64| vs.contains(x) implies x == vs[0] || vs.skip(1).contains(x) by {
            let i = choose|i: int| 0 <= i < vs.len() && vs[i] == x;
            if i > 0 {
                assert(vs.skip(1)[i - 1] == x);
            }
        };
        assert forall|x: u64| vs.skip(1).contains(x) implies vs.contains(x) by {
            let i = choose|i: int| 0 <= i < vs.skip(1).len() && vs.skip(1)[i] == x;
            assert(vs[i + 1] == x);
        };
        assert(vs.contains(vs[0]));
        assert forall|x: u64|
            set_after_inserts(s0, vs).contains(x) <==> s0.contains(x) || vs.contains(x) by {
            assert(set_after_inserts(s0.insert(vs[0]), vs.skip(1)).contains(x) <==> s0.insert(
                vs[0],
            ).contains(x) || vs.skip(1).contains(x));
        };
    }
}

/// Two strictly ascending sequences that enumerate the same values are
/// identical: a set's contents determine its iteration sequence, so
/// inserting a value twice yields the same iteration as inserting it once.
pub proof fn lemma_ascending_unique(s1: Seq<u64>, s2: Seq<u64>)
    requires
        ascending(s1),
        ascending(s2),
        forall|e: u64| s1.contains(e) <==> s2.contains(e),
    ensures
        s1 == s2,
    decreases s1.len(),
{
    if s1.len() == 0 {
        if s2.len() > 0 {
            assert(s2.contains(s2[0]));
            assert(s1.contains(s2[0]));
        }
        assert(s1 =~= s2);
    } else {
        assert(s1.contains(s1[0]));
        assert(s2.contains(s1[0]));
        let j = choose|j: int| 0 <= j < s2.len() && s2[j] == s1[0];
        assert(s2.contains(s2[0]));
        assert(s1.contains(s2[0]));
        let k = choose|k: int| 0 <= k < s1.len() && s1[k] == s2[0];
        assert(s1[0] == s2[0]);
        let t1 = s1.skip(1);
        let t2 = s2.skip(1);
        assert forall|i: int, j2: int| 0 <= i < j2 < t1.len() implies t1[i] < t1[j2] by {
            assert(s1[i + 1] < s1[j2 + 1]);
        };
        assert forall|i: int, j2: int| 0 <= i < j2 < t2.len() implies t2[i] < t2[j2] by {
            assert(s2[i + 1] < s2[j2 + 1]);
        };
        assert forall|e: u64| t1.contains(e) implies t2.contains(e) by {
            let i = choose|i: int| 0 <= i < t1.len() && t1[i] == e;
            assert(s1[i + 1] == e);
            assert(s1.contains(e));
            assert(s2.contains(e));
            let m = choose|m: int| 0 <= m < s2.len() && s2[m] == e;
            assert(s1[0] < s1[i + 1]);
            assert(m > 0);
            assert(t2[m - 1] == e);
        };
        assert forall|e: u64| t2.contains(e) implies t1.contains(e) by {
            let i = choose|i: int| 0 <= i < t2.len() && t2[i] == e;
            assert(s2[i + 1] == e);
            assert(s2.contains(e));
            assert(s1.contains(e));
            let m = choose|m: int| 0 <= m < s1.len() && s1[m] == e;
            assert(s2[0] < s2[i + 1]);
            assert(m > 0);
            assert(t1[m - 1] == e);
        };
        lemma_ascending_unique(t1, t2);
        assert(s1.len() == s2.len());
        assert forall|i: int| 0 <= i < s1.len() implies s1[i] == s2[i] by {
            if i > 0 {
                assert(t1[i - 1] == s1[i]);
                assert(t2[i - 1] == s2[i]);
            }
        };
        assert(s1 =~= s2);
    }
}

} // verus!
