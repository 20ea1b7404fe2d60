//! Evaluation of polynomials that are given by their values.

use crate::vsss::digits::{digits_value, is_sparse, neg_pos_sum_of_powers_of_two};
use crate::vsss::field::{order, order_bounds, scalar_bounds, word, Scalar};
use crate::vsss::polynomials::{
    fits, is_value_at, lagrange, lagrange_interpolates, others, poly_at, same, same_arithmetic,
};
use crate::vsss::products::{
    fact, fact_splits, falling, falling_skips, first_nodes, gaps, gaps_at_node, gaps_from_front,
    gaps_of_arrangement, gaps_of_first, gaps_of_sum, gaps_off_nodes, is_arrangement,
    others_of_first,
};
use vstd::arithmetic::div_mod::{
    lemma_mod_add_multiples_vanish, lemma_mod_twice, lemma_small_mod,
};
use vstd::arithmetic::power2::{lemma2_to64, lemma_pow2_unfold, pow2};
use vstd::prelude::*;

verus! {

/// A remainder is equal to its number.
pub proof fn same_remainder(a: int)
    ensures
        same(a % order(), a),
{
    order_bounds();
    lemma_mod_twice(a, order());
}

/// What holds of the factorials below `n`, their inverses and the inverses of the
/// numbers below `n`.
pub open spec fn are_tables(n: nat, f: Seq<Scalar>, invf: Seq<Scalar>, inv: Seq<Scalar>) -> bool {
    &&& f.len() == n
    &&& invf.len() == n
    &&& inv.len() == n
    &&& forall|i: int| 0 <= i < n ==> same((#[trigger] f[i])@, fact(i as nat))
    &&& forall|i: int| 0 <= i < n ==> same((#[trigger] invf[i])@ * fact(i as nat), 1)
    &&& inv[0]@ == 0
    &&& forall|i: int| 1 <= i < n ==> same((#[trigger] inv[i])@ * i, 1)
}

/// The factorials below `n`, their inverses, and the inverses of the numbers below
/// `n`, with zero in the place of that of zero.
pub fn precalculated_factorials_and_inverses(n: usize) -> (r: (
    Vec<Scalar>,
    Vec<Scalar>,
    Vec<Scalar>,
))
    requires
        n > 0,
    ensures
        are_tables(n as nat, r.0@, r.1@, r.2@),
{
    let one = Scalar::from_u64(1);
    let zero = Scalar::from_u64(0);
    let mut factorial: Vec<Scalar> = Vec::new();
    factorial.push(one);
    let mut i: usize = 1;
    while i < n
        invariant
            1 <= i <= n,
            factorial@.len() == i,
            forall|k: int| 0 <= k < i ==> same((#[trigger] factorial@[k])@, fact(k as nat)),
            forall|k: int| 0 <= k < i ==> (#[trigger] factorial@[k])@ != 0,
        decreases n - i,
    {
        let factor = Scalar::from_u64(i as u64);
        let last = factorial[i - 1];
        let next = last.times(&factor);
        proof {
            same_remainder(last@ * factor@);
            same_arithmetic(last@, fact((i - 1) as nat), i as int, i as int);
            assert(fact((i - 1) as nat) * i == i * fact((i - 1) as nat)) by (nonlinear_arith);
        }
        factorial.push(next);
        i = i + 1;
    }
    let mut inv_factorial: Vec<Scalar> = Vec::new();
    let mut inv: Vec<Scalar> = Vec::new();
    let mut k: usize = 0;
    while k < n
        invariant
            k <= n,
            inv_factorial@.len() == k,
            inv@.len() == k,
            zero@ == 0,
            forall|i: int| 0 <= i < k ==> (#[trigger] inv@[i])@ == 0,
        decreases n - k,
    {
        inv_factorial.push(zero);
        inv.push(zero);
        k = k + 1;
    }
    let mut state = match factorial[n - 1].inverse() {
        Some(x) => x,
        None => zero,
    };
    proof {
        let top = factorial@[n - 1]@;
        same_remainder(top * state@);
        assert(top * state@ == state@ * top) by (nonlinear_arith);
        assert(same(state@ * top, 1)) by {
            order_bounds();
            lemma_small_mod(1, order() as nat);
        }
        same_arithmetic(state@, state@, top, fact((n - 1) as nat));
    }
    let mut j: usize = n;
    while j > 0
        invariant
            0 <= j <= n,
            n > 0,
            inv_factorial@.len() == n,
            j > 0 ==> same(state@ * fact((j - 1) as nat), 1),
            forall|k: int|
                j <= k < n ==> same((#[trigger] inv_factorial@[k])@ * fact(k as nat), 1),
        decreases j,
    {
        let at: usize = j - 1;
        inv_factorial[at] = state;
        let factor = Scalar::from_u64(at as u64);
        let next = state.times(&factor);
        proof {
            if at > 0 {
                let g = fact((at - 1) as nat);
                same_remainder(state@ * factor@);
                same_arithmetic(next@, state@ * at, g, g);
                assert((state@ * at) * g == state@ * (at * g)) by (nonlinear_arith);
            }
        }
        state = next;
        j = at;
    }
    let mut m: usize = 1;
    while m < n
        invariant
            1 <= m <= n,
            factorial@.len() == n,
            inv_factorial@.len() == n,
            inv@.len() == n,
            inv@[0]@ == 0,
            forall|k: int| 0 <= k < n ==> same((#[trigger] factorial@[k])@, fact(k as nat)),
            forall|k: int|
                0 <= k < n ==> same((#[trigger] inv_factorial@[k])@ * fact(k as nat), 1),
            forall|k: int| 1 <= k < m ==> same((#[trigger] inv@[k])@ * k, 1),
        decreases n - m,
    {
        let a = inv_factorial[m];
        let b = factorial[m - 1];
        let c = a.times(&b);
        proof {
            let g = fact((m - 1) as nat);
            same_remainder(a@ * b@);
            same_arithmetic(a@, a@, b@, g);
            same_arithmetic(c@, a@ * g, m as int, m as int);
            assert((a@ * g) * m == a@ * (m * g)) by (nonlinear_arith);
            assert(same(a@ * fact(m as nat), 1));
        }
        inv[m] = c;
        m = m + 1;
    }
    (factorial, inv_factorial, inv)
}

/// The points of shares as numbers.
pub open spec fn nodes_of(points: Seq<(usize, Scalar)>) -> Seq<int> {
    Seq::new(points.len(), |i: int| points[i].0 as int)
}

/// The values of shares as numbers.
pub open spec fn values_of(points: Seq<(usize, Scalar)>) -> Seq<int> {
    Seq::new(points.len(), |i: int| points[i].1@)
}

/// Indexes as numbers.
pub open spec fn numbers(v: Seq<usize>) -> Seq<int> {
    Seq::new(v.len(), |i: int| v[i] as int)
}

/// The factor with which the value of a known point enters: the inverse of the
/// product of the differences to the other known points.
fn weight(x: usize, missing: &[usize], n: usize, invf: &Vec<Scalar>, Ghost(nodes): Ghost<Seq<int>>)
    -> (r: Scalar)
    requires
        x < n,
        invf@.len() == n,
        forall|i: int| 0 <= i < n ==> same((#[trigger] invf@[i])@ * fact(i as nat), 1),
        is_arrangement(nodes + numbers(missing@)),
        nodes.len() + missing@.len() == n,
    ensures
        same(r@ * gaps(nodes, x as int), 1),
{
    let ghost all = gaps(first_nodes(n as nat), x as int);
    let ghost m = numbers(missing@);
    let mut result = invf[x].times(&invf[n - 1 - x]);
    let ghost (p, q) = (invf@[x as int]@, invf@[n - 1 - x]@);
    let ghost (f, g) = (fact(x as nat), fact((n - 1 - x) as nat));
    proof {
        same_remainder(p * q);
        gaps_of_first(x as nat, n as nat);
        same_arithmetic(p * f, 1, q * g, 1);
        assert((p * f) * (q * g) == (p * q) * (f * g)) by (nonlinear_arith);
        same_arithmetic(result@, p * q, f * g, f * g);
    }
    if (n - x) % 2 == 0 {
        let minus = Scalar::from_u64(1).negated();
        let ghost before = result@;
        result = result.times(&minus);
        proof {
            same_remainder(before * minus@);
            same_remainder(-1);
            same_arithmetic(before, before, minus@, -1);
            same_arithmetic(result@, before * (-1), all, all);
            assert(all == (-1) * f * g);
            assert((before * (-1)) * ((-1) * f * g) == before * (f * g)) by (nonlinear_arith);
        }
    } else {
        proof {
            assert(all == 1 * f * g);
            assert(1 * f * g == f * g) by (nonlinear_arith);
        }
    }
    let ghost u = result@;
    assert(same(u * all, 1));
    let mut i: usize = 0;
    proof {
        assert(m.take(0) =~= Seq::<int>::empty());
        assert(u * gaps(m.take(0), x as int) == u);
    }
    while i < missing.len()
        invariant
            i <= missing@.len(),
            m == numbers(missing@),
            same(result@, u * gaps(m.take(i as int), x as int)),
        decreases missing@.len() - i,
    {
        let at: usize = missing[i];
        let ghost part = gaps(m.take(i as int), x as int);
        proof {
            assert(m.take(i + 1).drop_last() =~= m.take(i as int));
            assert(m.take(i + 1).last() == at);
        }
        if at != x {
            let difference = Scalar::from_u64(x as u64).minus(&Scalar::from_u64(at as u64));
            let ghost before = result@;
            result = result.times(&difference);
            proof {
                same_remainder(x - at);
                same_remainder(before * difference@);
                same_arithmetic(before, u * part, difference@, x - at);
                assert((u * part) * (x - at) == u * (part * (x - at))) by (nonlinear_arith);
            }
        } else {
            assert(part * 1 == part);
        }
        i = i + 1;
    }
    proof {
        assert(m.take(m.len() as int) =~= m);
        gaps_of_sum(nodes, m, x as int);
        gaps_of_arrangement(nodes + m, x as int);
        let (a, b) = (gaps(nodes, x as int), gaps(m, x as int));
        same_arithmetic(result@, u * b, a, a);
        assert((u * b) * a == u * (a * b)) by (nonlinear_arith);
    }
    result
}

/// The product of the differences from a missing point to the known points.
fn differences(
    x: usize,
    missing: &[usize],
    n: usize,
    f: &Vec<Scalar>,
    inv: &Vec<Scalar>,
    Ghost(nodes): Ghost<Seq<int>>,
) -> (r: Scalar)
    requires
        x < n,
        f@.len() == n,
        inv@.len() == n,
        forall|i: int| 0 <= i < n ==> same((#[trigger] f@[i])@, fact(i as nat)),
        forall|i: int| 1 <= i < n ==> same((#[trigger] inv@[i])@ * i, 1),
        is_arrangement(nodes + numbers(missing@)),
        nodes.len() + missing@.len() == n,
    ensures
        same(r@, gaps(nodes, x as int)),
{
    let ghost all = gaps(first_nodes(n as nat), x as int);
    let ghost m = numbers(missing@);
    let mut result = f[x].times(&f[n - 1 - x]);
    let ghost (p, q) = (f@[x as int]@, f@[n - 1 - x]@);
    let ghost (a, b) = (fact(x as nat), fact((n - 1 - x) as nat));
    proof {
        same_remainder(p * q);
        gaps_of_first(x as nat, n as nat);
        same_arithmetic(p, a, q, b);
    }
    if (n - x) % 2 == 0 {
        let minus = Scalar::from_u64(1).negated();
        let ghost before = result@;
        result = result.times(&minus);
        proof {
            same_remainder(before * minus@);
            same_remainder(-1);
            same_arithmetic(before, a * b, minus@, -1);
            assert(all == (-1) * a * b);
            assert((a * b) * (-1) == (-1) * a * b) by (nonlinear_arith);
        }
    } else {
        proof {
            assert(all == 1 * a * b);
            assert(1 * a * b == a * b) by (nonlinear_arith);
        }
    }
    assert(same(result@, all));
    let ghost k = gaps(nodes, x as int);
    proof {
        assert(m.skip(0) =~= m);
        gaps_of_sum(nodes, m, x as int);
        gaps_of_arrangement(nodes + m, x as int);
    }
    let mut i: usize = 0;
    while i < missing.len()
        invariant
            i <= missing@.len(),
            m == numbers(missing@),
            is_arrangement(nodes + m),
            nodes.len() + m.len() == n,
            x < n,
            inv@.len() == n,
            forall|i: int| 1 <= i < n ==> same((#[trigger] inv@[i])@ * i, 1),
            same(result@, k * gaps(m.skip(i as int), x as int)),
        decreases missing@.len() - i,
    {
        let at: usize = missing[i];
        let ghost rest = gaps(m.skip(i + 1), x as int);
        proof {
            gaps_from_front(m.skip(i as int), x as int);
            assert(m.skip(i as int).skip(1) =~= m.skip(i + 1));
            assert(m.skip(i as int)[0] == at);
            let all_points = nodes + m;
            assert(all_points[nodes.len() + i] == at);
        }
        if at != x {
            let (factor, d) = if at < x {
                (inv[x - at], Ghost(x - at))
            } else {
                (inv[at - x].negated(), Ghost(at - x))
            };
            let ghost before = result@;
            let ghost g = x - at;
            result = result.times(&factor);
            proof {
                assert(same(factor@ * g, 1)) by {
                    assert(same(inv@[d@]@ * d@, 1));
                    if at > x {
                        let w = inv@[d@]@;
                        same_remainder(-w);
                        same_arithmetic(factor@, -w, g, g);
                        assert((-w) * g == w * d@) by (nonlinear_arith)
                            requires
                                g == -d@,
                        ;
                    }
                }
                same_remainder(before * factor@);
                same_arithmetic(before, k * (rest * g), factor@, factor@);
                same_arithmetic(k * rest, k * rest, factor@ * g, 1);
                assert((k * (rest * g)) * factor@ == (k * rest) * (factor@ * g))
                    by (nonlinear_arith);
                assert((k * rest) * 1 == k * rest);
            }
        } else {
            assert(rest * 1 == rest);
        }
        i = i + 1;
    }
    proof {
        assert(m.skip(m.len() as int) =~= Seq::<int>::empty());
        assert(k * 1 == k);
    }
    result
}

/// The values at the missing points of the polynomial that the known points define,
/// with as many coefficients as there are known points. Each number below the number
/// of all points is the place of one of them.
pub fn lagrange_interpolate_whole_polynomial(
    known_points: &[(usize, Scalar)],
    missing_points: &[usize],
) -> (r: Vec<Scalar>)
    requires
        0 < known_points@.len() + missing_points@.len() <= usize::MAX,
        is_arrangement(nodes_of(known_points@) + numbers(missing_points@)),
    ensures
        r@.len() == missing_points@.len(),
        forall|j: int|
            0 <= j < r@.len() ==> is_value_at(
                nodes_of(known_points@),
                values_of(known_points@),
                missing_points@[j] as int,
                (#[trigger] r@[j])@,
            ),
{
    let n: usize = known_points.len() + missing_points.len();
    let (factorial, inv_factorial, inv) = precalculated_factorials_and_inverses(n);
    let ghost nodes = nodes_of(known_points@);
    let ghost ys = values_of(known_points@);
    let ghost m = numbers(missing_points@);
    let ghost all = nodes + m;
    proof {
        assert forall|i: int| 0 <= i < nodes.len() implies 0 <= #[trigger] nodes[i] < n by {
            assert(all[i] == nodes[i]);
        }
        assert forall|i: int, j: int| 0 <= i < nodes.len() && 0 <= j < nodes.len() && i != j implies nodes[i]
            != nodes[j] by {
            assert(all[i] == nodes[i] && all[j] == nodes[j]);
        }
        assert(nodes.no_duplicates());
    }
    let mut ws: Ghost<Seq<int>> = Ghost(Seq::empty());
    let mut coeffs: Vec<(usize, Scalar)> = Vec::new();
    let mut i: usize = 0;
    while i < known_points.len()
        invariant
            i <= known_points@.len(),
            n == known_points@.len() + missing_points@.len(),
            nodes == nodes_of(known_points@),
            ys == values_of(known_points@),
            m == numbers(missing_points@),
            is_arrangement(nodes + m),
            nodes.no_duplicates(),
            are_tables(n as nat, factorial@, inv_factorial@, inv@),
            forall|k: int| 0 <= k < nodes.len() ==> 0 <= #[trigger] nodes[k] < n,
            coeffs@.len() == i,
            ws@.len() == i,
            forall|k: int|
                0 <= k < i ==> same(
                    #[trigger] ws@[k] * others(nodes, k, nodes[k], nodes.len()),
                    1,
                ),
            forall|k: int|
                0 <= k < i ==> (#[trigger] coeffs@[k]).0 == known_points@[k].0 && same(
                    coeffs@[k].1@,
                    ys[k] * ws@[k],
                ),
        decreases known_points@.len() - i,
    {
        let (x, y) = known_points[i];
        assert(nodes[i as int] == x);
        let w = weight(x, missing_points, n, &inv_factorial, Ghost(nodes));
        let c = w.times(&y);
        proof {
            assert(nodes.take(nodes.len() as int) =~= nodes);
            gaps_at_node(nodes, i as int, nodes.len());
            same_remainder(w@ * y@);
            assert(w@ * y@ == ys[i as int] * w@) by (nonlinear_arith)
                requires
                    ys[i as int] == y@,
            ;
            let grown = ws@.push(w@);
            assert forall|k: int| 0 <= k < i + 1 implies same(
                #[trigger] grown[k] * others(nodes, k, nodes[k], nodes.len()),
                1,
            ) by {
                if k < i {
                    assert(grown[k] == ws@[k]);
                }
            }
        }
        coeffs.push((x, c));
        ws = Ghost(ws@.push(w@));
        i = i + 1;
    }
    let mut r: Vec<Scalar> = Vec::new();
    let mut j: usize = 0;
    while j < missing_points.len()
        invariant
            j <= missing_points@.len(),
            n == known_points@.len() + missing_points@.len(),
            nodes == nodes_of(known_points@),
            ys == values_of(known_points@),
            m == numbers(missing_points@),
            is_arrangement(nodes + m),
            nodes.no_duplicates(),
            are_tables(n as nat, factorial@, inv_factorial@, inv@),
            forall|k: int| 0 <= k < nodes.len() ==> 0 <= #[trigger] nodes[k] < n,
            coeffs@.len() == nodes.len(),
            ws@.len() == nodes.len(),
            forall|k: int|
                0 <= k < nodes.len() ==> same(
                    #[trigger] ws@[k] * others(nodes, k, nodes[k], nodes.len()),
                    1,
                ),
            forall|k: int|
                0 <= k < nodes.len() ==> (#[trigger] coeffs@[k]).0 == known_points@[k].0 && same(
                    coeffs@[k].1@,
                    ys[k] * ws@[k],
                ),
            r@.len() == j,
            forall|k: int|
                0 <= k < j ==> is_value_at(
                    nodes,
                    ys,
                    missing_points@[k] as int,
                    (#[trigger] r@[k])@,
                ),
        decreases missing_points@.len() - j,
    {
        let x: usize = missing_points[j];
        proof {
            let all = nodes + m;
            assert(all[nodes.len() + j] == x);
            assert(!nodes.contains(x as int)) by {
                if nodes.contains(x as int) {
                    let k = choose|k: int| 0 <= k < nodes.len() && nodes[k] == x;
                    assert(all[k] == all[nodes.len() + j]);
                }
            }
        }
        let all_differences = differences(
            x,
            missing_points,
            n,
            &factorial,
            &inv,
            Ghost(nodes),
        );
        let mut sum = Scalar::from_u64(0);
        let mut k: usize = 0;
        while k < coeffs.len()
            invariant
                k <= coeffs@.len(),
                n == known_points@.len() + missing_points@.len(),
                nodes == nodes_of(known_points@),
                x < n,
                !nodes.contains(x as int),
                inv@.len() == n,
                forall|i: int| 1 <= i < n ==> same((#[trigger] inv@[i])@ * i, 1),
                forall|k: int| 0 <= k < nodes.len() ==> 0 <= #[trigger] nodes[k] < n,
                coeffs@.len() == nodes.len(),
                same(all_differences@, gaps(nodes, x as int)),
                forall|k: int|
                    0 <= k < nodes.len() ==> (#[trigger] coeffs@[k]).0 == known_points@[k].0
                        && same(coeffs@[k].1@, ys[k] * ws@[k]),
                same(sum@, lagrange(nodes, ys, ws@, x as int, k as nat)),
            decreases coeffs@.len() - k,
        {
            let (at, coeff) = coeffs[k];
            proof {
                assert(nodes[k as int] == at);
                assert(nodes.contains(nodes[k as int]));
            }
            let (inverse, d) = if at < x {
                (inv[x - at], Ghost(x - at))
            } else {
                (inv[at - x].negated(), Ghost(at - x))
            };
            let partial = inverse.times(&all_differences);
            let term = partial.times(&coeff);
            let ghost before = sum@;
            sum = sum.plus(&term);
            proof {
                let g = x - at;
                assert(same(inverse@ * g, 1)) by {
                    assert(same(inv@[d@]@ * d@, 1));
                    if at > x {
                        let w = inv@[d@]@;
                        same_remainder(-w);
                        same_arithmetic(inverse@, -w, g, g);
                        assert((-w) * g == w * d@) by (nonlinear_arith)
                            requires
                                g == -d@,
                        ;
                    }
                }
                let o = others(nodes, k as int, x as int, nodes.len());
                let yw = ys[k as int] * ws@[k as int];
                assert(nodes.take(nodes.len() as int) =~= nodes);
                gaps_off_nodes(nodes, k as int, x as int, nodes.len());
                same_remainder(inverse@ * all_differences@);
                same_arithmetic(inverse@, inverse@, all_differences@, o * g);
                same_arithmetic(inverse@ * g, 1, o, o);
                assert(inverse@ * (o * g) == (inverse@ * g) * o) by (nonlinear_arith);
                assert(same(partial@, o));
                same_remainder(partial@ * coeff@);
                same_arithmetic(partial@, o, coeff@, yw);
                assert(o * yw == yw * o) by (nonlinear_arith);
                same_remainder(before + term@);
                same_arithmetic(
                    before,
                    lagrange(nodes, ys, ws@, x as int, k as nat),
                    term@,
                    yw * o,
                );
            }
            k = k + 1;
        }
        proof {
            lagrange_interpolates(nodes, ys, ws@, x as int);
            value_is_same(
                nodes,
                ys,
                x as int,
                lagrange(nodes, ys, ws@, x as int, nodes.len()),
                sum@,
            );
        }
        r.push(sum);
        j = j + 1;
    }
    r
}

/// A value may be replaced by one equal to it.
pub proof fn value_is_same(nodes: Seq<int>, ys: Seq<int>, x: int, a: int, b: int)
    requires
        is_value_at(nodes, ys, x, a),
        same(b, a),
    ensures
        is_value_at(nodes, ys, x, b),
{
}

/// Values that can be added and multiplied by scalars: each stands for the numbers
/// that are equal modulo the order.
pub trait Linear: Sized + Copy {
    /// Whether the value stands for the number `k`.
    spec fn represents(&self, k: int) -> bool;

    /// A value stands for equal numbers.
    proof fn represents_equal(&self, a: int, b: int)
        requires
            self.represents(a),
            same(a, b),
        ensures
            self.represents(b),
    ;

    fn zero() -> (r: Self)
        ensures
            r.represents(0),
    ;

    fn sum(&self, other: &Self) -> (r: Self)
        ensures
            forall|i: int, j: int|
                #[trigger] self.represents(i) && #[trigger] other.represents(j) ==> r.represents(
                    i + j,
                ),
    ;

    fn difference(&self, other: &Self) -> (r: Self)
        ensures
            forall|i: int, j: int|
                #[trigger] self.represents(i) && #[trigger] other.represents(j) ==> r.represents(
                    i - j,
                ),
    ;

    fn multiple(&self, k: &Scalar) -> (r: Self)
        ensures
            forall|i: int| #[trigger] self.represents(i) ==> r.represents(i * k@),
    ;
}

impl Linear for Scalar {
    open spec fn represents(&self, k: int) -> bool {
        same(self@, k)
    }

    proof fn represents_equal(&self, a: int, b: int) {
    }

    fn zero() -> (r: Self) {
        Scalar::from_u64(0)
    }

    fn sum(&self, other: &Self) -> (r: Self) {
        let r = self.plus(other);
        proof {
            same_remainder(self@ + other@);
            assert forall|i: int, j: int|
                #[trigger] self.represents(i) && #[trigger] other.represents(j) implies r.represents(
                i + j,
            ) by {
                same_arithmetic(self@, i, other@, j);
            }
        }
        r
    }

    fn difference(&self, other: &Self) -> (r: Self) {
        let r = self.minus(other);
        proof {
            same_remainder(self@ - other@);
            assert forall|i: int, j: int|
                #[trigger] self.represents(i) && #[trigger] other.represents(j) implies r.represents(
                i - j,
            ) by {
                same_arithmetic(self@, i, other@, j);
            }
        }
        r
    }

    fn multiple(&self, k: &Scalar) -> (r: Self) {
        let r = self.times(k);
        proof {
            same_remainder(self@ * k@);
            assert forall|i: int| #[trigger] self.represents(i) implies r.represents(i * k@) by {
                same_arithmetic(self@, i, k@, k@);
            }
        }
        r
    }
}

/// A polynomial that is given by its values at the numbers from zero on, as many as
/// it has coefficients.
pub struct Polynomial<T>(pub Vec<T>);

/// Whether values stand for numbers, each for its own.
pub open spec fn stand_for<T: Linear>(v: Seq<T>, ys: Seq<int>) -> bool {
    v.len() == ys.len() && forall|i: int| 0 <= i < v.len() ==> (#[trigger] v[i]).represents(ys[i])
}

/// Whether a value is that at `x` of the polynomial with values `ys` at the numbers
/// from zero on.
pub open spec fn is_evaluation<T: Linear>(ys: Seq<int>, x: int, r: T) -> bool {
    exists|y: int| #[trigger] is_value_at(first_nodes(ys.len()), ys, x, y) && r.represents(y)
}

/// The sum of the first `n` numbers, each times its factor.
pub open spec fn weighted(ys: Seq<int>, fs: Seq<int>, n: nat) -> int
    decreases n,
{
    if n == 0 {
        0
    } else {
        weighted(ys, fs, (n - 1) as nat) + ys[n - 1] * fs[n - 1]
    }
}

/// If each factor is a weight times the differences to the other nodes, the weighted
/// sum is that of Lagrange's formula.
proof fn weighted_is_lagrange(
    nodes: Seq<int>,
    ys: Seq<int>,
    ws: Seq<int>,
    fs: Seq<int>,
    x: int,
    n: nat,
)
    requires
        n <= nodes.len(),
        forall|k: int|
            0 <= k < n ==> same(#[trigger] fs[k], ws[k] * others(nodes, k, x, nodes.len())),
    ensures
        same(weighted(ys, fs, n), lagrange(nodes, ys, ws, x, n)),
    decreases n,
{
    if n > 0 {
        let k = n - 1;
        weighted_is_lagrange(nodes, ys, ws, fs, x, k as nat);
        let o = others(nodes, k, x, nodes.len());
        assert(same(fs[k], ws[k] * o));
        same_arithmetic(ys[k], ys[k], fs[k], ws[k] * o);
        assert(ys[k] * (ws[k] * o) == ys[k] * ws[k] * o) by (nonlinear_arith);
        same_arithmetic(
            weighted(ys, fs, k as nat),
            lagrange(nodes, ys, ws, x, k as nat),
            ys[k] * fs[k],
            ys[k] * ws[k] * o,
        );
    }
}

proof fn weighted_prefix(ys: Seq<int>, fs: Seq<int>, more: Seq<int>, n: nat)
    requires
        n <= fs.len() <= more.len(),
        forall|k: int| 0 <= k < fs.len() ==> #[trigger] fs[k] == more[k],
    ensures
        weighted(ys, fs, n) == weighted(ys, more, n),
    decreases n,
{
    if n > 0 {
        weighted_prefix(ys, fs, more, (n - 1) as nat);
        assert(fs[n - 1] == more[n - 1]);
    }
}

/// A weighted sum whose factors are those of Lagrange's formula is the value of the
/// polynomial.
proof fn weighted_evaluates<T: Linear>(
    ys: Seq<int>,
    ws: Seq<int>,
    fs: Seq<int>,
    x: int,
    r: T,
)
    requires
        ws.len() == ys.len(),
        fs.len() == ys.len(),
        forall|k: int|
            0 <= k < ys.len() ==> same(
                #[trigger] ws[k] * others(first_nodes(ys.len()), k, k, ys.len()),
                1,
            ),
        forall|k: int|
            0 <= k < ys.len() ==> same(
                #[trigger] fs[k],
                ws[k] * others(first_nodes(ys.len()), k, x, ys.len()),
            ),
        r.represents(weighted(ys, fs, ys.len())),
    ensures
        is_evaluation(ys, x, r),
{
    let nodes = first_nodes(ys.len());
    assert forall|k: int| 0 <= k < nodes.len() implies same(
        ws[k] * others(nodes, k, #[trigger] nodes[k], nodes.len()),
        1,
    ) by {
        assert(nodes[k] == k);
        assert(same(ws[k] * others(nodes, k, k, nodes.len()), 1));
    }
    lagrange_interpolates(nodes, ys, ws, x);
    weighted_is_lagrange(nodes, ys, ws, fs, x, ys.len());
    value_is_same(
        nodes,
        ys,
        x,
        lagrange(nodes, ys, ws, x, ys.len()),
        weighted(ys, fs, ys.len()),
    );
}

impl<T: Linear> Polynomial<T> {
    /// The value at `x`.
    pub fn eval_at(&self, x: usize) -> (r: T)
        ensures
            forall|ys: Seq<int>| #[trigger]
                stand_for(self.0@, ys) ==> if x < self.0@.len() {
                    r.represents(ys[x as int])
                } else {
                    is_evaluation(ys, x as int, r)
                },
    {
        let n: usize = self.0.len();
        if x < n {
            return self.0[x];
        }
        let ghost nodes = first_nodes(n as nat);
        let at: u64 = x as u64;
        let x_scalar = Scalar::from_u64(at);
        let mut result = T::zero();
        let mut ws: Ghost<Seq<int>> = Ghost(Seq::empty());
        let mut fs: Ghost<Seq<int>> = Ghost(Seq::empty());
        let mut i: usize = 0;
        while i < n
            invariant
                i <= n,
                n == self.0@.len(),
                nodes == first_nodes(n as nat),
                at == x,
                x_scalar@ == at,
                ws@.len() == i,
                fs@.len() == i,
                forall|k: int|
                    0 <= k < i ==> same(#[trigger] ws@[k] * others(nodes, k, k, n as nat), 1),
                forall|k: int|
                    0 <= k < i ==> same(
                        #[trigger] fs@[k],
                        ws@[k] * others(nodes, k, at as int, n as nat),
                    ),
                forall|ys: Seq<int>| #[trigger]
                    stand_for(self.0@, ys) ==> result.represents(weighted(ys, fs@, i as nat)),
            decreases n - i,
        {
            let x_i = Scalar::from_u64(i as u64);
            let mut num = Scalar::from_u64(1);
            let mut denum = Scalar::from_u64(1);
            let mut j: usize = 0;
            while j < n
                invariant
                    j <= n,
                    i < n,
                    nodes == first_nodes(n as nat),
                    x_i@ == i,
                    x_scalar@ == at,
                    same(num@, others(nodes, i as int, at as int, j as nat)),
                    same(denum@, others(nodes, i as int, i as int, j as nat)),
                    denum@ != 0,
                decreases n - j,
            {
                if j != i {
                    let x_j = Scalar::from_u64(j as u64);
                    let a = x_scalar.minus(&x_j);
                    let b = x_i.minus(&x_j);
                    let ghost (p, q) = (num@, denum@);
                    num = num.times(&a);
                    denum = denum.times(&b);
                    proof {
                        assert(nodes[j as int] == j);
                        same_remainder(at - j);
                        same_remainder(i - j);
                        same_remainder(p * a@);
                        same_remainder(q * b@);
                        same_arithmetic(
                            p,
                            others(nodes, i as int, at as int, j as nat),
                            a@,
                            at - j,
                        );
                        same_arithmetic(
                            q,
                            others(nodes, i as int, i as int, j as nat),
                            b@,
                            i - j,
                        );
                        small_is_nonzero(i - j);
                    }
                } else {
                    proof {
                        let o = others(nodes, i as int, at as int, j as nat);
                        let p = others(nodes, i as int, i as int, j as nat);
                        assert(o * 1 == o);
                        assert(p * 1 == p);
                    }
                }
                j = j + 1;
            }
            let denum_inv = match denum.inverse() {
                Some(d) => d,
                None => Scalar::from_u64(0),
            };
            let li = num.times(&denum_inv);
            let y_i = self.0[i];
            let term = y_i.multiple(&li);
            let ghost before = result;
            result = result.sum(&term);
            proof {
                let w = denum_inv@;
                let (o, p) = (
                    others(nodes, i as int, at as int, n as nat),
                    others(nodes, i as int, i as int, n as nat),
                );
                order_bounds();
                lemma_small_mod(1, order() as nat);
                assert(same(denum@ * w, 1));
                same_arithmetic(denum@, p, w, w);
                assert(p * w == w * p) by (nonlinear_arith);
                same_remainder(num@ * w);
                same_arithmetic(num@, o, w, w);
                assert(o * w == w * o) by (nonlinear_arith);
                let (ws2, fs2) = (ws@.push(w), fs@.push(li@));
                assert forall|k: int| 0 <= k < i + 1 implies same(
                    #[trigger] ws2[k] * others(nodes, k, k, n as nat),
                    1,
                ) by {
                    if k < i {
                        assert(ws2[k] == ws@[k]);
                    }
                }
                assert forall|k: int| 0 <= k < i + 1 implies same(
                    #[trigger] fs2[k],
                    ws2[k] * others(nodes, k, at as int, n as nat),
                ) by {
                    if k < i {
                        assert(fs2[k] == fs@[k]);
                    }
                }
                assert forall|ys: Seq<int>| #[trigger]
                    stand_for(self.0@, ys) implies result.represents(
                    weighted(ys, fs2, (i + 1) as nat),
                ) by {
                    weighted_prefix(ys, fs@, fs2, i as nat);
                    assert(before.represents(weighted(ys, fs@, i as nat)));
                    assert(y_i.represents(ys[i as int]));
                    assert(term.represents(ys[i as int] * li@));
                }
            }
            ws = Ghost(ws@.push(denum_inv@));
            fs = Ghost(fs@.push(li@));
            i = i + 1;
        }
        proof {
            assert forall|ys: Seq<int>| #[trigger] stand_for(self.0@, ys) implies is_evaluation(
                ys,
                at as int,
                result,
            ) by {
                weighted_evaluates(ys, ws@, fs@, at as int, result);
            }
        }
        result
    }
}

/// A difference of machine numbers is zero modulo the order only if it is zero.
proof fn small_is_nonzero(d: int)
    requires
        d != 0,
        -word() < d < word(),
    ensures
        d % order() != 0,
{
    order_bounds();
    if d > 0 {
        lemma_small_mod(d as nat, order() as nat);
    } else {
        lemma_small_mod((d + order()) as nat, order() as nat);
        lemma_mod_add_multiples_vanish(d, order());
    }
}

/// Whether a table holds the multiples of a value by powers of two.
pub open spec fn are_doublings<T: Linear>(base: T, table: Seq<T>) -> bool {
    forall|y: int, b: int|
        #[trigger] base.represents(y) && 0 <= b < table.len() ==> (
        #[trigger] table[b]).represents(y * pow2(b as nat))
}

/// A value and its multiples by the next 256 powers of two.
fn doublings<T: Linear>(base: &T) -> (r: Vec<T>)
    ensures
        r@.len() == 257,
        are_doublings(*base, r@),
{
    let mut table: Vec<T> = Vec::new();
    table.push(*base);
    let mut j: usize = 1;
    proof {
        lemma2_to64();
        assert forall|y: int, b: int|
            #[trigger] base.represents(y) && 0 <= b < table@.len() implies (
        #[trigger] table@[b]).represents(y * pow2(b as nat)) by {
            assert(y * pow2(0) == y);
        }
    }
    while j < 257
        invariant
            1 <= j <= 257,
            table@.len() == j,
            are_doublings(*base, table@),
        decreases 257 - j,
    {
        let last = table[j - 1];
        let double = last.sum(&last);
        let ghost before = table@;
        table.push(double);
        proof {
            assert forall|y: int, b: int|
                #[trigger] base.represents(y) && 0 <= b < table@.len() implies (
            #[trigger] table@[b]).represents(y * pow2(b as nat)) by {
                if b < j {
                    assert(before[b] == table@[b]);
                } else {
                    lemma_pow2_unfold(j as nat);
                    let p = pow2((j - 1) as nat);
                    assert(before[j - 1].represents(y * p));
                    assert(y * p + y * p == y * (2 * p)) by (nonlinear_arith);
                }
            }
        }
        j = j + 1;
    }
    table
}

/// The multiple of a value by a scalar, put together from its doublings.
fn multiple_by_table<T: Linear>(table: &Vec<T>, scalar: &Scalar, Ghost(base): Ghost<T>) -> (r: T)
    requires
        table@.len() == 257,
        are_doublings(base, table@),
    ensures
        forall|y: int| #[trigger] base.represents(y) ==> r.represents(y * scalar@),
{
    let digits = neg_pos_sum_of_powers_of_two(&scalar.to_bits_le());
    let mut sum = T::zero();
    let mut b: usize = 0;
    proof {
        assert(digits@.take(0) =~= Seq::<i8>::empty());
        assert forall|y: int| #[trigger] base.represents(y) implies sum.represents(
            y * digits_value(digits@.take(0)),
        ) by {
            assert(y * 0 == 0);
        }
    }
    while b < digits.len()
        invariant
            b <= digits@.len(),
            digits@.len() == 257,
            table@.len() == 257,
            is_sparse(digits@),
            are_doublings(base, table@),
            forall|y: int| #[trigger]
                base.represents(y) ==> sum.represents(y * digits_value(digits@.take(b as int))),
        decreases digits@.len() - b,
    {
        let digit: i8 = digits[b];
        let ghost before = sum;
        let ghost part = digits_value(digits@.take(b as int));
        let ghost p = pow2(b as nat);
        let power = table[b];
        proof {
            assert(digits@.take(b + 1).drop_last() =~= digits@.take(b as int));
            assert(digits@.take(b + 1).last() == digit);
            assert(-1 <= digits@[b as int] <= 1);
        }
        if digit == 1 {
            sum = sum.sum(&power);
        } else if digit == -1 {
            sum = sum.difference(&power);
        }
        proof {
            assert forall|y: int| #[trigger] base.represents(y) implies sum.represents(
                y * digits_value(digits@.take(b + 1)),
            ) by {
                assert(table@[b as int].represents(y * p));
                assert(before.represents(y * part));
                if digit == 1 {
                    assert(y * part + y * p == y * (part + 1 * p)) by (nonlinear_arith);
                } else if digit == -1 {
                    assert(y * part - y * p == y * (part + (-1) * p)) by (nonlinear_arith);
                } else {
                    assert(0 * p == 0);
                }
            }
        }
        b = b + 1;
    }
    assert(digits@.take(digits@.len() as int) =~= digits@);
    sum
}

/// What enters a value beyond the known ones of a known one: for the `j`th, the
/// products of three table entries.
pub open spec fn factors(coeffs: Seq<Scalar>, inv: Seq<Scalar>, known: nat, j: int) -> Seq<int> {
    Seq::new(known, |k: int| (coeffs[known + j]@ * coeffs[k]@) * inv[known + j - k]@)
}

/// Coefficients of Lagrange's formula: for a known point the inverse of the product of
/// the differences to the other known points, for another the product of the
/// differences to the known points.
pub open spec fn are_coefficients(coeffs: Seq<Scalar>, known: nat) -> bool {
    forall|x: int|
        0 <= x < coeffs.len() ==> if x < known {
            same((#[trigger] coeffs[x])@ * others(first_nodes(known), x, x, known), 1)
        } else {
            same(coeffs[x]@, falling(x, known))
        }
}

fn coefficient(x: usize, known: usize, n: usize, f: &Vec<Scalar>, invf: &Vec<Scalar>) -> (r: Scalar)
    requires
        x < n,
        known <= n,
        f@.len() == n,
        invf@.len() == n,
        forall|i: int| 0 <= i < n ==> same((#[trigger] f@[i])@, fact(i as nat)),
        forall|i: int| 0 <= i < n ==> same((#[trigger] invf@[i])@ * fact(i as nat), 1),
    ensures
        if x < known {
            same(r@ * others(first_nodes(known as nat), x as int, x as int, known as nat), 1)
        } else {
            same(r@, falling(x as int, known as nat))
        },
{
    if x < known {
        let mut result = invf[x].times(&invf[known - 1 - x]);
        let ghost (p, q) = (invf@[x as int]@, invf@[known - 1 - x]@);
        let ghost (a, b) = (fact(x as nat), fact((known - 1 - x) as nat));
        let ghost all = others(first_nodes(known as nat), x as int, x as int, known as nat);
        proof {
            same_remainder(p * q);
            others_of_first(x as nat, known as nat, known as nat);
            same_arithmetic(p * a, 1, q * b, 1);
            assert((p * a) * (q * b) == (p * q) * (a * b)) by (nonlinear_arith);
            same_arithmetic(result@, p * q, a * b, a * b);
        }
        if (known - x) % 2 == 0 {
            let minus = Scalar::from_u64(1).negated();
            let ghost before = result@;
            result = result.times(&minus);
            proof {
                same_remainder(before * minus@);
                same_remainder(-1);
                same_arithmetic(before, before, minus@, -1);
                same_arithmetic(result@, before * (-1), all, all);
                assert(all == (-1) * a * b);
                assert((before * (-1)) * ((-1) * a * b) == before * (a * b)) by (nonlinear_arith);
            }
        } else {
            proof {
                assert(all == 1 * a * b);
                assert(1 * a * b == a * b) by (nonlinear_arith);
            }
        }
        result
    } else {
        let rest: usize = x - known;
        let result = f[x].times(&invf[rest]);
        proof {
            let (p, q) = (f@[x as int]@, invf@[rest as int]@);
            let (a, b, g) = (fact(x as nat), fact(rest as nat), falling(x as int, known as nat));
            fact_splits(x as nat, known as nat);
            same_remainder(p * q);
            same_arithmetic(p, a, q, q);
            same_arithmetic(g, g, q * b, 1);
            assert((g * b) * q == g * (q * b)) by (nonlinear_arith);
            assert(g * 1 == g);
        }
        result
    }
}

/// The factors of a value beyond the known ones are those of Lagrange's formula.
proof fn factors_are_lagrange(coeffs: Seq<Scalar>, inv: Seq<Scalar>, known: nat, j: int, k: int)
    requires
        are_coefficients(coeffs, known),
        0 <= j,
        known + j < coeffs.len(),
        inv.len() == coeffs.len(),
        forall|i: int| 1 <= i < inv.len() ==> same((#[trigger] inv[i])@ * i, 1),
        0 <= k < known,
    ensures
        same(
            factors(coeffs, inv, known, j)[k],
            coeffs[k]@ * others(first_nodes(known), k, known + j, known),
        ),
{
    let x = known + j;
    let (c, w, v) = (coeffs[x]@, coeffs[k]@, inv[x - k]@);
    let o = others(first_nodes(known), k, x, known);
    falling_skips(k, x, known, known);
    assert(same(coeffs[x]@, falling(x, known)));
    assert(same(inv[x - k]@ * (x - k), 1));
    same_arithmetic(c, o * (x - k), w * v, w * v);
    same_arithmetic(w * o, w * o, v * (x - k), 1);
    assert((c * w) * v == c * (w * v)) by (nonlinear_arith);
    assert((o * (x - k)) * (w * v) == (w * o) * (v * (x - k))) by (nonlinear_arith);
    assert((w * o) * 1 == w * o);
}

/// Whether each of the first `to` values has grown by one known value more than the
/// others, of which they hold `i`.
spec fn have_grown<T: Linear>(
    known: Seq<T>,
    coeffs: Seq<Scalar>,
    inv: Seq<Scalar>,
    result: Seq<T>,
    i: int,
    to: int,
) -> bool {
    forall|ys: Seq<int>, j: int|
        #[trigger] stand_for(known, ys) && 0 <= j < result.len() ==> (
        #[trigger] result[j]).represents(
            weighted(
                ys,
                factors(coeffs, inv, known.len(), j),
                (if j < to {
                    i + 1
                } else {
                    i
                }) as nat,
            ),
        )
}

impl<T: Linear> Polynomial<T> {
    /// The values at the numbers that follow those at which the polynomial is known.
    /// With `USE_TABLES`, multiples are put together from doublings.
    pub fn eval_at_suffix_points<const USE_TABLES: bool>(&self, n_points: usize) -> (r: Vec<T>)
        requires
            0 < self.0@.len() + n_points <= usize::MAX,
        ensures
            r@.len() == n_points,
            forall|ys: Seq<int>, j: int|
                #[trigger] stand_for(self.0@, ys) && 0 <= j < n_points ==> is_evaluation(
                    ys,
                    self.0@.len() + j,
                    #[trigger] r@[j],
                ),
    {
        let n_known: usize = self.0.len();
        let n: usize = n_known + n_points;
        let (factorial, inv_factorial, inv) = precalculated_factorials_and_inverses(n);
        let mut coeffs: Vec<Scalar> = Vec::new();
        let mut x: usize = 0;
        while x < n
            invariant
                x <= n,
                n_known <= n,
                coeffs@.len() == x,
                are_tables(n as nat, factorial@, inv_factorial@, inv@),
                are_coefficients(coeffs@, n_known as nat),
            decreases n - x,
        {
            let c = coefficient(x, n_known, n, &factorial, &inv_factorial);
            coeffs.push(c);
            x = x + 1;
        }
        let mut result: Vec<T> = Vec::new();
        let mut p: usize = 0;
        while p < n_points
            invariant
                p <= n_points,
                result@.len() == p,
                forall|j: int| 0 <= j < p ==> (#[trigger] result@[j]).represents(0),
            decreases n_points - p,
        {
            result.push(T::zero());
            p = p + 1;
        }
        let mut i: usize = 0;
        assert(have_grown(self.0@, coeffs@, inv@, result@, 0, 0));
        while i < n_known
            invariant
                i <= n_known,
                n_known == self.0@.len(),
                n == n_known + n_points,
                coeffs@.len() == n,
                inv@.len() == n,
                result@.len() == n_points,
                have_grown(self.0@, coeffs@, inv@, result@, i as int, 0),
            decreases n_known - i,
        {
            let base = self.0[i];
            let table: Vec<T> = if USE_TABLES {
                doublings(&base)
            } else {
                Vec::new()
            };
            let mut j: usize = 0;
            while j < n_points
                invariant
                    j <= n_points,
                    i < n_known,
                    n_known == self.0@.len(),
                    n == n_known + n_points,
                    coeffs@.len() == n,
                    inv@.len() == n,
                    result@.len() == n_points,
                    base == self.0@[i as int],
                    USE_TABLES ==> table@.len() == 257 && are_doublings(base, table@),
                    have_grown(self.0@, coeffs@, inv@, result@, i as int, j as int),
                decreases n_points - j,
            {
                let partial = coeffs[n_known + j].times(&coeffs[i]);
                let scalar = partial.times(&inv[j + n_known - i]);
                let term = if !USE_TABLES {
                    base.multiple(&scalar)
                } else {
                    multiple_by_table(&table, &scalar, Ghost(base))
                };
                let ghost before = result@;
                let held = result[j];
                let next = held.sum(&term);
                result[j] = next;
                proof {
                    let fs = factors(coeffs@, inv@, n_known as nat, j as int);
                    let (a, b, c) = (
                        coeffs@[n_known + j]@,
                        coeffs@[i as int]@,
                        inv@[n_known + j - i]@,
                    );
                    assert(fs[i as int] == (a * b) * c);
                    same_remainder(a * b);
                    same_arithmetic(partial@, a * b, c, c);
                    same_remainder(partial@ * c);
                    assert forall|ys: Seq<int>, k: int|
                        #[trigger] stand_for(self.0@, ys) && 0 <= k < result@.len() implies (
                    #[trigger] result@[k]).represents(
                        weighted(
                            ys,
                            factors(coeffs@, inv@, self.0@.len(), k),
                            (if k < j + 1 {
                                i + 1
                            } else {
                                i as int
                            }) as nat,
                        ),
                    ) by {
                        assert(before[k].represents(
                            weighted(
                                ys,
                                factors(coeffs@, inv@, self.0@.len(), k),
                                (if k < j {
                                    i + 1
                                } else {
                                    i as int
                                }) as nat,
                            ),
                        ));
                        if k == j {
                            let y = ys[i as int];
                            assert(base.represents(y));
                            assert(term.represents(y * scalar@));
                            same_arithmetic(y, y, scalar@, fs[i as int]);
                            term.represents_equal(y * scalar@, y * fs[i as int]);
                            assert(held.represents(weighted(ys, fs, i as nat)));
                        }
                    }
                }
                j = j + 1;
            }
            assert(have_grown(self.0@, coeffs@, inv@, result@, i + 1, 0)) by {
                assert forall|ys: Seq<int>, k: int|
                    #[trigger] stand_for(self.0@, ys) && 0 <= k < result@.len() implies (
                #[trigger] result@[k]).represents(
                    weighted(
                        ys,
                        factors(coeffs@, inv@, self.0@.len(), k),
                        (if k < 0 {
                            i + 2
                        } else {
                            i + 1
                        }) as nat,
                    ),
                ) by {}
            }
            i = i + 1;
        }
        proof {
            let known = n_known as nat;
            let ws = Seq::new(known, |k: int| coeffs@[k]@);
            assert forall|ys: Seq<int>, j: int|
                #[trigger] stand_for(self.0@, ys) && 0 <= j < n_points implies is_evaluation(
                ys,
                self.0@.len() + j,
                #[trigger] result@[j],
            ) by {
                let fs = factors(coeffs@, inv@, known, j);
                assert forall|k: int| 0 <= k < ys.len() implies same(
                    #[trigger] ws[k] * others(first_nodes(ys.len()), k, k, ys.len()),
                    1,
                ) by {
                    assert(ws[k] == coeffs@[k]@);
                }
                assert forall|k: int| 0 <= k < ys.len() implies same(
                    #[trigger] fs[k],
                    ws[k] * others(first_nodes(ys.len()), k, known + j, ys.len()),
                ) by {
                    factors_are_lagrange(coeffs@, inv@, known, j, k);
                }
                weighted_evaluates(ys, ws, fs, known + j, result@[j]);
            }
        }
        result
    }
}

/// The values of scalars.
pub open spec fn scalar_values(v: Seq<Scalar>) -> Seq<int> {
    Seq::new(v.len(), |i: int| v[i]@)
}

/// Whether these are the shares of the polynomial with these values: its values at
/// the numbers from zero on, each with its number.
pub open spec fn are_shares(known: Seq<Scalar>, shares: Seq<(usize, Scalar)>) -> bool {
    &&& forall|i: int| 0 <= i < shares.len() ==> (#[trigger] shares[i]).0 == i
    &&& forall|i: int|
        0 <= i < shares.len() && i < known.len() ==> (#[trigger] shares[i]).1 == known[i]
    &&& forall|i: int|
        known.len() <= i < shares.len() ==> is_value_at(
            first_nodes(known.len()),
            scalar_values(known),
            i,
            (#[trigger] shares[i]).1@,
        )
}

impl Polynomial<Scalar> {
    /// The shares of the polynomial: its values at the numbers below `num_shares`.
    pub fn shares(&self, num_shares: usize) -> (r: Vec<(usize, Scalar)>)
        requires
            self.0@.len() <= num_shares,
            0 < num_shares,
        ensures
            r@.len() == num_shares,
            are_shares(self.0@, r@),
    {
        let n_known: usize = self.0.len();
        let suffix_points = self.eval_at_suffix_points::<false>(num_shares - n_known);
        let ghost ys = scalar_values(self.0@);
        let mut r: Vec<(usize, Scalar)> = Vec::new();
        let mut i: usize = 0;
        assert(stand_for(self.0@, ys));
        while i < num_shares
            invariant
                i <= num_shares,
                n_known == self.0@.len(),
                n_known <= num_shares,
                ys == scalar_values(self.0@),
                stand_for(self.0@, ys),
                suffix_points@.len() == num_shares - n_known,
                forall|ys: Seq<int>, j: int|
                    #[trigger] stand_for(self.0@, ys) && 0 <= j < suffix_points@.len()
                        ==> is_evaluation(ys, n_known + j, #[trigger] suffix_points@[j]),
                r@.len() == i,
                are_shares(self.0@, r@),
            decreases num_shares - i,
        {
            if i < n_known {
                r.push((i, self.0[i]));
            } else {
                let share = suffix_points[i - n_known];
                proof {
                    assert(is_evaluation(ys, n_known + (i - n_known), suffix_points@[i - n_known]));
                    let y = choose|y: int| #[trigger]
                        is_value_at(first_nodes(ys.len()), ys, i as int, y) && share.represents(y);
                    value_is_same(first_nodes(ys.len()), ys, i as int, y, share@);
                }
                r.push((i, share));
            }
            i = i + 1;
        }
        r
    }
}

/// Any shares, as many as the polynomial has coefficients or more, determine every
/// other share: the value that they define at its place is the share.
pub proof fn shares_determine_share(
    known: Seq<Scalar>,
    shares: Seq<(usize, Scalar)>,
    chosen: Seq<(usize, Scalar)>,
    missing: int,
    value: int,
)
    requires
        are_shares(known, shares),
        known.len() <= chosen.len(),
        known.len() < shares.len() <= usize::MAX,
        forall|k: int| 0 <= k < chosen.len() ==> shares.contains(#[trigger] chosen[k]),
        0 <= missing < shares.len(),
        is_value_at(nodes_of(chosen), values_of(chosen), missing, value),
        0 <= value < order(),
    ensures
        value == shares[missing].1@,
{
    let nodes = first_nodes(known.len());
    let ys = scalar_values(known);
    assert(is_value_at(nodes, ys, known.len() as int, shares[known.len() as int].1@));
    let c = choose|c: Seq<int>| c.len() == nodes.len() && #[trigger] fits(c, nodes, ys);
    assert forall|i: int| 0 <= i < shares.len() implies same(
        poly_at(c, i),
        (#[trigger] shares[i]).1@,
    ) by {
        if i < known.len() {
            assert(nodes[i] == i);
        } else {
            assert(is_value_at(nodes, ys, i, shares[i].1@));
        }
    }
    let (ns, vs) = (nodes_of(chosen), values_of(chosen));
    assert forall|k: int| 0 <= k < ns.len() implies same(poly_at(c, #[trigger] ns[k]), vs[k]) by {
        let i = choose|i: int| 0 <= i < shares.len() && shares[i] == chosen[k];
        assert(same(poly_at(c, i), shares[i].1@));
    }
    assert(fits(c, ns, vs));
    assert(same(poly_at(c, missing), value));
    assert(same(poly_at(c, missing), shares[missing].1@));
    scalar_bounds(shares[missing].1);
    lemma_small_mod(value as nat, order() as nat);
    lemma_small_mod(shares[missing].1@ as nat, order() as nat);
}

} // verus!
