//! Unions of ordered sets of numbers.

use std::collections::BTreeSet;
use vstd::prelude::*;

verus! {

broadcast use vstd::std_specs::btree::group_btree_axioms;

/// The set that holds `id` alone.
pub fn singleton(id: u64) -> (r: BTreeSet<u64>)
    ensures
        r@ == set![id],
{
    let mut s = BTreeSet::new();
    s.insert(id);
    assert(s@ =~= set![id]);
    s
}

/// The union of two sets.
pub fn union(a: &BTreeSet<u64>, b: &BTreeSet<u64>) -> (r: BTreeSet<u64>)
    ensures
        r@ == a@.union(b@),
{
    let mut r = a.clone();
    for x in iter: b.iter()
        invariant
            r@ == a@.union(iter.seq().take(iter.index()).unref().to_set()),
            iter.seq().unref().to_set() == b@,
            iter.seq().take(iter.seq().len() as int) == iter.seq(),
            iter.index() == iter.seq().len() ==> r@ == a@.union(b@),
    {
        let ghost before = iter.seq().take(iter.index()).unref();
        let ghost after = iter.seq().take(iter.index() + 1).unref();
        assert(after =~= before.push(*x));
        assert(after.to_set() =~= before.to_set().insert(*x)) by {
            assert forall|v: u64| after.to_set().contains(v) <==> before.to_set().insert(
                *x,
            ).contains(v) by {
                if before.to_set().contains(v) {
                    let k = choose|k: int| 0 <= k < before.len() && before[k] == v;
                    assert(after[k] == v);
                }
                assert(after[before.len() as int] == *x);
            }
        }
        r.insert(*x);
        assert(r@ =~= a@.union(after.to_set()));
    }
    assert(r@ =~= a@.union(b@));
    r
}

/// The number of elements of the union of two sets.
pub fn union_len(a: &BTreeSet<u64>, b: &BTreeSet<u64>) -> (r: usize)
    ensures
        r == a@.union(b@).len(),
{
    union(a, b).len()
}

} // verus!
