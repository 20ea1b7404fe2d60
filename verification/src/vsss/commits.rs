//! Commitments to polynomials and shares, and their checks.

use crate::sorting::sort_indexes;
use crate::vsss::field::{order, scalar_bounds, Scalar};
use crate::vsss::interpolation::{
    are_shares, is_evaluation, scalar_values, stand_for, Linear, Polynomial,
};
use crate::vsss::points::{are_commitments, generator_multiple, Point, Secp256k1};
use crate::vsss::polynomials::{fits, is_value_at, poly_at, same};
use crate::vsss::products::first_nodes;
use vstd::arithmetic::div_mod::lemma_small_mod;
use vstd::prelude::*;
use vstd::string::StringExecFns;

verus! {

/// Commitments to the values by which a polynomial is given.
pub struct PolynomialCommits(pub Polynomial<Point>);

/// Commitments to the shares of a polynomial.
pub struct ShareCommits(pub Vec<Point>);

/// The scalars of shares.
pub open spec fn share_scalars(shares: Seq<(usize, Scalar)>) -> Seq<Scalar> {
    Seq::new(shares.len(), |i: int| shares[i].1)
}

/// Whether points are commitments to the first shares of a polynomial.
pub open spec fn are_share_commits(known: Seq<Scalar>, commits: Seq<Point>) -> bool {
    exists|shares: Seq<(usize, Scalar)>| #[trigger]
        are_shares(known, shares) && are_commitments(share_scalars(shares), commits)
}

impl Polynomial<Scalar> {
    /// Commitments to the values by which the polynomial is given.
    pub fn coefficient_commits(&self, secp: &Secp256k1) -> (r: PolynomialCommits)
        ensures
            are_commitments(self.0@, r.0.0@),
    {
        PolynomialCommits(Polynomial(secp.generator_batch_mul(self.0.as_slice())))
    }

    /// Commitments to the shares of the polynomial.
    pub fn share_commits(&self, secp: &Secp256k1, num_shares: usize) -> (r: ShareCommits)
        requires
            self.0@.len() <= num_shares,
            0 < num_shares,
        ensures
            r.0@.len() == num_shares,
            are_share_commits(self.0@, r.0@),
    {
        let shares = self.shares(num_shares);
        let mut values: Vec<Scalar> = Vec::new();
        let mut i: usize = 0;
        while i < shares.len()
            invariant
                i <= shares@.len(),
                values@.len() == i,
                forall|k: int| 0 <= k < i ==> #[trigger] values@[k] == shares@[k].1,
            decreases shares@.len() - i,
        {
            values.push(shares[i].1);
            i = i + 1;
        }
        assert(values@ =~= share_scalars(shares@));
        ShareCommits(secp.generator_batch_mul(values.as_slice()))
    }
}

/// Whether commitments to shares follow from those to the polynomial, which stand for
/// the numbers `ys`: the first are the same, and the others stand for the values of
/// the polynomial.
pub open spec fn commits_follow(ys: Seq<int>, known: Seq<Point>, commits: Seq<Point>) -> bool {
    &&& forall|i: int| 0 <= i < known.len() ==> (#[trigger] commits[i])@ == known[i]@
    &&& forall|i: int|
        known.len() <= i < commits.len() ==> is_evaluation(ys, i, #[trigger] commits[i])
}

/// The text of a string literal as a value of its own.
fn message(text: &str) -> (r: String)
    ensures
        r@ == text@,
{
    let mut out = String::new();
    out.append(text);
    assert(out@ =~= text@);
    out
}

fn same_words(a: &[u64; 4], b: &[u64; 4]) -> (r: bool)
    ensures
        r == (a@ == b@),
{
    let r = a[0] == b[0] && a[1] == b[1] && a[2] == b[2] && a[3] == b[3];
    assert(r ==> a@ =~= b@);
    r
}

/// Whether two points are the same.
pub fn same_point(a: &Point, b: &Point) -> (r: bool)
    ensures
        r == (a@ == b@),
{
    same_words(&a.x, &b.x) && same_words(&a.y, &b.y) && a.infinity == b.infinity
}

/// A polynomial has one value at a point.
pub proof fn value_is_unique(nodes: Seq<int>, ys: Seq<int>, x: int, a: int, b: int)
    requires
        is_value_at(nodes, ys, x, a),
        is_value_at(nodes, ys, x, b),
    ensures
        same(a, b),
{
    let c = choose|c: Seq<int>| c.len() == nodes.len() && #[trigger] fits(c, nodes, ys);
    assert(same(poly_at(c, x), a) && same(poly_at(c, x), b));
}

proof fn same_evaluation(ys: Seq<int>, x: int, a: Point, b: Point)
    requires
        is_evaluation(ys, x, a),
    ensures
        is_evaluation(ys, x, b) <==> a@ == b@,
{
    let nodes = first_nodes(ys.len());
    let y = choose|y: int| #[trigger] is_value_at(nodes, ys, x, y) && a.represents(y);
    if is_evaluation(ys, x, b) {
        let z = choose|z: int| #[trigger] is_value_at(nodes, ys, x, z) && b.represents(z);
        value_is_unique(nodes, ys, x, y, z);
    }
    if a@ == b@ {
        assert(b.represents(y));
    }
}

/// Why the first share from the `i`th on that does not agree with its commitment is
/// refused, if there is one.
pub open spec fn share_fault(
    commits: Seq<Point>,
    shares: Seq<(usize, Scalar)>,
    i: int,
) -> Option<Seq<char>>
    decreases shares.len() - i,
{
    if i >= shares.len() {
        None
    } else if shares[i].0 >= commits.len() {
        Some("Share index out of bounds"@)
    } else if commits[shares[i].0 as int]@ != generator_multiple(shares[i].1@) {
        Some("Share verification failed"@)
    } else {
        share_fault(commits, shares, i + 1)
    }
}

/// The indexes of shares.
pub open spec fn share_indexes(shares: Seq<(usize, Scalar)>) -> Seq<usize> {
    Seq::new(shares.len(), |i: int| shares[i].0)
}

/// Whether an index occurs twice.
fn has_duplicates(shares: &[(usize, Scalar)]) -> (r: bool)
    ensures
        r == !share_indexes(shares@).no_duplicates(),
{
    let mut indices: Vec<usize> = Vec::new();
    let mut i: usize = 0;
    while i < shares.len()
        invariant
            i <= shares@.len(),
            indices@.len() == i,
            forall|k: int| 0 <= k < i ==> #[trigger] indices@[k] == shares@[k].0,
        decreases shares@.len() - i,
    {
        indices.push(shares[i].0);
        i = i + 1;
    }
    let ghost before = share_indexes(shares@);
    assert(indices@ =~= before);
    sort_indexes(&mut indices);
    let ghost sorted = indices@;
    let mut k: usize = 1;
    while k < indices.len()
        invariant
            1 <= k,
            indices@ == sorted,
            before == share_indexes(shares@),
            sorted.to_multiset() == before.to_multiset(),
            forall|i: int, j: int| 0 <= i < j < sorted.len() ==> sorted[i] <= sorted[j],
            forall|i: int| 0 <= i < k - 1 && i + 1 < sorted.len() ==> #[trigger] sorted[i] < sorted[i
                + 1],
        decreases indices@.len() - k,
    {
        if indices[k - 1] == indices[k] {
            proof {
                if before.no_duplicates() {
                    before.lemma_multiset_has_no_duplicates();
                    sorted.lemma_multiset_has_no_duplicates_conv();
                    assert(sorted[k - 1] != sorted[k as int]);
                }
            }
            return true;
        }
        assert(sorted[k - 1] <= sorted[k as int]);
        k = k + 1;
    }
    proof {
        assert forall|i: int, j: int| 0 <= i < sorted.len() && 0 <= j < sorted.len() && i != j implies sorted[i]
            != sorted[j] by {
            let (a, b) = if i < j {
                (i, j)
            } else {
                (j, i)
            };
            assert(sorted[a] < sorted[a + 1]);
            assert(a + 1 == b || sorted[a + 1] <= sorted[b]);
        }
        assert(sorted.no_duplicates());
        sorted.lemma_multiset_has_no_duplicates();
        before.lemma_multiset_has_no_duplicates_conv();
    }
    false
}

impl ShareCommits {
    /// Checks that the commitments follow from those to the polynomial.
    pub fn verify(&self, polynomial_commits: &PolynomialCommits) -> (r: Result<(), String>)
        requires
            polynomial_commits.0.0@.len() <= self.0@.len(),
            0 < self.0@.len(),
        ensures
            forall|ys: Seq<int>| #[trigger]
                stand_for(polynomial_commits.0.0@, ys) ==> (r is Ok <==> commits_follow(
                    ys,
                    polynomial_commits.0.0@,
                    self.0@,
                )),
            r matches Err(e) ==> e@ == "Share commit verification failed"@,
    {
        let known = &polynomial_commits.0.0;
        let n_known: usize = known.len();
        let n_unknown: usize = self.0.len() - n_known;
        let unknown_points = polynomial_commits.0.eval_at_suffix_points::<true>(n_unknown);
        let mut i: usize = 0;
        while i < self.0.len()
            invariant
                i <= self.0@.len(),
                n_known == known@.len(),
                n_known <= self.0@.len(),
                n_unknown == self.0@.len() - n_known,
                *known == polynomial_commits.0.0,
                unknown_points@.len() == n_unknown,
                forall|ys: Seq<int>, j: int|
                    #[trigger] stand_for(known@, ys) && 0 <= j < n_unknown ==> is_evaluation(
                        ys,
                        n_known + j,
                        #[trigger] unknown_points@[j],
                    ),
                forall|k: int| 0 <= k < i && k < n_known ==> (#[trigger] self.0@[k])@ == known@[k]@,
                forall|k: int|
                    n_known <= k < i ==> (#[trigger] self.0@[k])@ == unknown_points@[k - n_known]@,
            decreases self.0@.len() - i,
        {
            let recomputed = if i < n_known {
                known[i]
            } else {
                unknown_points[i - n_known]
            };
            if !same_point(&self.0[i], &recomputed) {
                proof {
                    assert forall|ys: Seq<int>| #[trigger] stand_for(known@, ys) implies !commits_follow(
                        ys,
                        known@,
                        self.0@,
                    ) by {
                        if i >= n_known {
                            same_evaluation(
                                ys,
                                i as int,
                                unknown_points@[i - n_known],
                                self.0@[i as int],
                            );
                        }
                    }
                }
                return Err(message("Share commit verification failed"));
            }
            i = i + 1;
        }
        proof {
            assert forall|ys: Seq<int>| #[trigger] stand_for(known@, ys) implies commits_follow(
                ys,
                known@,
                self.0@,
            ) by {
                assert forall|k: int| n_known <= k < self.0@.len() implies is_evaluation(
                    ys,
                    k,
                    #[trigger] self.0@[k],
                ) by {
                    let j = k - n_known;
                    assert(is_evaluation(ys, n_known + j, unknown_points@[j]));
                    same_evaluation(ys, k, unknown_points@[j], self.0@[k]);
                }
            }
        }
        Ok(())
    }

    /// Checks that shares agree with their commitments. An accepted share is the only
    /// one that its commitment can be to.
    pub fn verify_shares(&self, secp: &Secp256k1, shares: &[(usize, Scalar)]) -> (r: Result<
        (),
        String,
    >)
        ensures
            match r {
                Ok(_) => share_indexes(shares@).no_duplicates() && share_fault(
                    self.0@,
                    shares@,
                    0,
                ) is None,
                Err(e) => if share_indexes(shares@).no_duplicates() {
                    share_fault(self.0@, shares@, 0) == Some(e@)
                } else {
                    e@ == "Duplicate share index found"@
                },
            },
            r is Ok ==> forall|i: int, m: int|
                0 <= i < shares@.len() && 0 <= m < order() && self.0@[(
                #[trigger] shares@[i]).0 as int]@ == #[trigger] generator_multiple(m) ==> m
                    == shares@[i].1@,
    {
        if has_duplicates(shares) {
            return Err(message("Duplicate share index found"));
        }
        let mut values: Vec<Scalar> = Vec::new();
        let mut v: usize = 0;
        while v < shares.len()
            invariant
                v <= shares@.len(),
                values@.len() == v,
                forall|k: int| 0 <= k < v ==> #[trigger] values@[k] == shares@[k].1,
            decreases shares@.len() - v,
        {
            values.push(shares[v].1);
            v = v + 1;
        }
        let recomputed_commits = secp.generator_batch_mul(values.as_slice());
        let mut i: usize = 0;
        while i < shares.len()
            invariant
                i <= shares@.len(),
                share_indexes(shares@).no_duplicates(),
                values@.len() == shares@.len(),
                forall|k: int| 0 <= k < shares@.len() ==> #[trigger] values@[k] == shares@[k].1,
                are_commitments(values@, recomputed_commits@),
                share_fault(self.0@, shares@, 0) == share_fault(self.0@, shares@, i as int),
                forall|k: int, m: int|
                    0 <= k < i && 0 <= m < order() && self.0@[(#[trigger] shares@[k]).0 as int]@
                        == #[trigger] generator_multiple(m) ==> m == shares@[k].1@,
            decreases shares@.len() - i,
        {
            let index: usize = shares[i].0;
            if index >= self.0.len() {
                return Err(message("Share index out of bounds"));
            }
            let recomputed = recomputed_commits[i];
            proof {
                assert(values@[i as int] == shares@[i as int].1);
                assert(recomputed_commits@[i as int]@ == generator_multiple(values@[i as int]@));
            }
            if !same_point(&self.0[index], &recomputed) {
                return Err(message("Share verification failed"));
            }
            i = i + 1;
        }
        Ok(())
    }
}

/// The commitments of an honest dealer follow from those to its polynomial.
pub proof fn honest_commits_follow(known: Seq<Scalar>, coefficients: Seq<Point>, commits: Seq<Point>)
    requires
        are_commitments(known, coefficients),
        are_share_commits(known, commits),
        known.len() <= commits.len(),
    ensures
        stand_for(coefficients, scalar_values(known)),
        commits_follow(scalar_values(known), coefficients, commits),
{
    let ys = scalar_values(known);
    let shares = choose|shares: Seq<(usize, Scalar)>| #[trigger]
        are_shares(known, shares) && are_commitments(share_scalars(shares), commits);
    let scalars = share_scalars(shares);
    assert forall|i: int| 0 <= i < known.len() implies (#[trigger] coefficients[i]).represents(
        ys[i],
    ) by {
        scalar_bounds(known[i]);
        lemma_small_mod(known[i]@ as nat, order() as nat);
    }
    assert forall|i: int| 0 <= i < known.len() implies (#[trigger] commits[i])@
        == coefficients[i]@ by {
        assert(shares[i].1 == known[i]);
        assert(scalars[i] == known[i]);
        assert(coefficients[i]@ == generator_multiple(known[i]@));
    }
    assert forall|i: int| known.len() <= i < commits.len() implies is_evaluation(
        ys,
        i,
        #[trigger] commits[i],
    ) by {
        assert(shares[i].1@ == scalars[i]@);
        assert(is_value_at(first_nodes(ys.len()), ys, i, shares[i].1@));
        assert(commits[i]@ == generator_multiple(scalars[i]@));
        assert(scalars[i] == shares[i].1);
        scalar_bounds(shares[i].1);
        lemma_small_mod(shares[i].1@ as nat, order() as nat);
        assert(commits[i].represents(shares[i].1@));
    }
}

} // verus!
