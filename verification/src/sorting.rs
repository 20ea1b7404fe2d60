//! Sorting of indexes.

use vstd::prelude::*;
use vstd::relations::{sorted_by, total_ordering};

verus! {

/// The elements of `s` in ascending order.
pub open spec fn ascending(s: Seq<usize>) -> Seq<usize> {
    s.sort_by(|a: usize, b: usize| a <= b)
}

/// Calls `sort_unstable` of the standard library: afterwards the same elements,
/// each as often as before, stand in ascending order.
#[verifier::external_body]
fn sort_unstable(v: &mut Vec<usize>)
    ensures
        final(v)@.to_multiset() == old(v)@.to_multiset(),
        forall|i: int, j: int| 0 <= i < j < final(v)@.len() ==> final(v)@[i] <= final(v)@[j],
{
    v.sort_unstable();
}

/// Puts the elements into ascending order.
pub fn sort_indexes(v: &mut Vec<usize>)
    ensures
        final(v)@ == ascending(old(v)@),
        final(v)@.len() == old(v)@.len(),
        final(v)@.to_multiset() == old(v)@.to_multiset(),
        forall|i: int, j: int| 0 <= i < j < final(v)@.len() ==> final(v)@[i] <= final(v)@[j],
{
    let ghost before = v@;
    sort_unstable(v);
    proof {
        sorted_is_ascending(before, v@);
        before.to_multiset_ensures();
        v@.to_multiset_ensures();
    }
}

/// A sequence in ascending order with the elements of `s` is `ascending(s)`.
pub proof fn sorted_is_ascending(s: Seq<usize>, t: Seq<usize>)
    requires
        t.to_multiset() == s.to_multiset(),
        forall|i: int, j: int| 0 <= i < j < t.len() ==> t[i] <= t[j],
    ensures
        t == ascending(s),
{
    let leq = |a: usize, b: usize| a <= b;
    assert(total_ordering(leq));
    s.lemma_sort_by_ensures(leq);
    assert(sorted_by(t, leq));
    vstd::seq_lib::lemma_sorted_unique(t, s.sort_by(leq), leq);
}

/// Sorting keeps the elements and their number.
pub proof fn ascending_keeps_elements(s: Seq<usize>)
    ensures
        ascending(s).len() == s.len(),
        ascending(s).to_multiset() == s.to_multiset(),
        forall|x: usize| ascending(s).contains(x) <==> s.contains(x),
        forall|i: int, j: int|
            0 <= i < j < ascending(s).len() ==> ascending(s)[i] <= ascending(s)[j],
{
    let leq = |a: usize, b: usize| a <= b;
    assert(total_ordering(leq));
    s.lemma_sort_by_ensures(leq);
    s.to_multiset_ensures();
    ascending(s).to_multiset_ensures();
    assert forall|x: usize| ascending(s).contains(x) <==> s.contains(x) by {
        assert(ascending(s).to_multiset().count(x) == s.to_multiset().count(x));
    }
    assert forall|i: int, j: int| 0 <= i < j < ascending(s).len() implies ascending(s)[i]
        <= ascending(s)[j] by {
        assert(leq(ascending(s)[i], ascending(s)[j]));
    }
}

} // verus!
