//! Polynomials with integer coefficients, read modulo the order of the scalars, and
//! the values that finitely many points determine.

use crate::vsss::field::{order, order_bounds};
use vstd::arithmetic::div_mod::{lemma_add_mod_noop, lemma_mul_mod_noop, lemma_sub_mod_noop};
use vstd::arithmetic::power::pow;
use vstd::prelude::*;

verus! {

/// Whether two numbers are equal modulo the order.
pub open spec fn same(a: int, b: int) -> bool {
    a % order() == b % order()
}

/// Sums, differences and products of equal numbers are equal.
pub proof fn same_arithmetic(a: int, b: int, c: int, d: int)
    requires
        same(a, b),
        same(c, d),
    ensures
        same(a + c, b + d),
        same(a - c, b - d),
        same(a * c, b * d),
{
    order_bounds();
    let m = order();
    lemma_add_mod_noop(a, c, m);
    lemma_add_mod_noop(b, d, m);
    lemma_sub_mod_noop(a, c, m);
    lemma_sub_mod_noop(b, d, m);
    lemma_mul_mod_noop(a, c, m);
    lemma_mul_mod_noop(b, d, m);
}

/// The value at `x` of the polynomial with these coefficients, the constant first.
pub open spec fn poly_at(c: Seq<int>, x: int) -> int
    decreases c.len(),
{
    if c.len() == 0 {
        0
    } else {
        c[0] + x * poly_at(c.skip(1), x)
    }
}

/// Whether a function is a polynomial with `n` coefficients.
pub open spec fn is_poly(f: spec_fn(int) -> int, n: nat) -> bool {
    exists|c: Seq<int>| #[trigger] has_coefficients(f, c) && c.len() == n
}

pub open spec fn has_coefficients(f: spec_fn(int) -> int, c: Seq<int>) -> bool {
    forall|x: int| #[trigger] poly_at(c, x) == f(x)
}

proof fn sum_at(a: Seq<int>, b: Seq<int>, x: int)
    requires
        a.len() == b.len(),
    ensures
        poly_at(Seq::new(a.len(), |i: int| a[i] + b[i]), x) == poly_at(a, x) + poly_at(b, x),
    decreases a.len(),
{
    if a.len() > 0 {
        let s = Seq::new(a.len(), |i: int| a[i] + b[i]);
        let (p, q) = (a.skip(1), b.skip(1));
        sum_at(p, q, x);
        assert(s.skip(1) =~= Seq::new(p.len(), |i: int| p[i] + q[i]));
        assert(x * (poly_at(p, x) + poly_at(q, x)) == x * poly_at(p, x) + x * poly_at(q, x))
            by (nonlinear_arith);
    }
}

proof fn multiple_at(a: Seq<int>, t: int, x: int)
    ensures
        poly_at(Seq::new(a.len(), |i: int| t * a[i]), x) == t * poly_at(a, x),
    decreases a.len(),
{
    if a.len() > 0 {
        let s = Seq::new(a.len(), |i: int| t * a[i]);
        let p = a.skip(1);
        multiple_at(p, t, x);
        assert(s.skip(1) =~= Seq::new(p.len(), |i: int| t * p[i]));
        assert(t * a[0] + x * (t * poly_at(p, x)) == t * (a[0] + x * poly_at(p, x)))
            by (nonlinear_arith);
    }
}

proof fn padded_at(a: Seq<int>, x: int)
    ensures
        poly_at(a.push(0), x) == poly_at(a, x),
    decreases a.len(),
{
    if a.len() > 0 {
        padded_at(a.skip(1), x);
        assert(a.push(0).skip(1) =~= a.skip(1).push(0));
    } else {
        assert(poly_at(a.push(0).skip(1), x) == 0);
        assert(x * 0 == 0);
    }
}

proof fn shifted_at(a: Seq<int>, x: int)
    ensures
        poly_at(seq![0int] + a, x) == x * poly_at(a, x),
{
    assert((seq![0int] + a).skip(1) =~= a);
}

proof fn poly_sum(f: spec_fn(int) -> int, g: spec_fn(int) -> int, h: spec_fn(int) -> int, n: nat)
    requires
        is_poly(f, n),
        is_poly(g, n),
        forall|x: int| #[trigger] h(x) == f(x) + g(x),
    ensures
        is_poly(h, n),
{
    let a = choose|c: Seq<int>| #[trigger] has_coefficients(f, c) && c.len() == n;
    let b = choose|c: Seq<int>| #[trigger] has_coefficients(g, c) && c.len() == n;
    let s = Seq::new(n, |i: int| a[i] + b[i]);
    assert forall|x: int| #[trigger] poly_at(s, x) == h(x) by {
        sum_at(a, b, x);
        assert(poly_at(a, x) == f(x) && poly_at(b, x) == g(x));
    }
    assert(has_coefficients(h, s));
}

proof fn poly_multiple(f: spec_fn(int) -> int, t: int, h: spec_fn(int) -> int, n: nat)
    requires
        is_poly(f, n),
        forall|x: int| #[trigger] h(x) == t * f(x),
    ensures
        is_poly(h, n),
{
    let a = choose|c: Seq<int>| #[trigger] has_coefficients(f, c) && c.len() == n;
    let s = Seq::new(n, |i: int| t * a[i]);
    assert forall|x: int| #[trigger] poly_at(s, x) == h(x) by {
        multiple_at(a, t, x);
        assert(poly_at(a, x) == f(x));
    }
    assert(has_coefficients(h, s));
}

proof fn poly_times_linear(f: spec_fn(int) -> int, r: int, h: spec_fn(int) -> int, n: nat)
    requires
        is_poly(f, n),
        forall|x: int| #[trigger] h(x) == f(x) * (x - r),
    ensures
        is_poly(h, n + 1),
{
    let a = choose|c: Seq<int>| #[trigger] has_coefficients(f, c) && c.len() == n;
    let up = seq![0int] + a;
    let down = Seq::new(n, |i: int| (-r) * a[i]);
    let s = Seq::new(n + 1, |i: int| up[i] + down.push(0)[i]);
    assert forall|x: int| #[trigger] poly_at(s, x) == h(x) by {
        shifted_at(a, x);
        multiple_at(a, -r, x);
        padded_at(down, x);
        sum_at(up, down.push(0), x);
        assert(poly_at(a, x) == f(x));
        assert(x * f(x) + (-r) * f(x) == f(x) * (x - r)) by (nonlinear_arith);
    }
    assert(has_coefficients(h, s));
}

/// Division by a linear factor: what is left is the value at its root.
proof fn quotient(c: Seq<int>, a: int) -> (q: Seq<int>)
    requires
        c.len() > 0,
    ensures
        q.len() == c.len() - 1,
        forall|x: int| #[trigger] poly_at(c, x) == (x - a) * poly_at(q, x) + poly_at(c, a),
    decreases c.len(),
{
    let rest = c.skip(1);
    if rest.len() == 0 {
        let q = Seq::<int>::empty();
        assert forall|x: int| #[trigger] poly_at(c, x) == (x - a) * poly_at(q, x) + poly_at(
            c,
            a,
        ) by {
            assert(poly_at(rest, x) == 0 && poly_at(rest, a) == 0);
            assert(x * 0 == 0 && a * 0 == 0 && (x - a) * 0 == 0);
        }
        q
    } else {
        let p = quotient(rest, a);
        let q = seq![poly_at(rest, a)] + p;
        assert(q.skip(1) =~= p);
        assert forall|x: int| #[trigger] poly_at(c, x) == (x - a) * poly_at(q, x) + poly_at(
            c,
            a,
        ) by {
            let (u, v) = (poly_at(p, x), poly_at(rest, a));
            assert(poly_at(rest, x) == (x - a) * u + v);
            assert(poly_at(q, x) == v + x * u);
            assert(x * ((x - a) * u + v) == (x - a) * (v + x * u) + a * v) by (nonlinear_arith);
        }
        q
    }
}

/// Whether differences of different nodes can be divided by.
pub open spec fn are_apart(nodes: Seq<int>) -> bool {
    forall|i: int, j: int|
        0 <= i < nodes.len() && 0 <= j < nodes.len() && i != j ==> is_unit(
            #[trigger] nodes[i] - #[trigger] nodes[j],
        )
}

/// Whether a number has an inverse modulo the order.
pub open spec fn is_unit(a: int) -> bool {
    exists|u: int| same(#[trigger] (u * a), 1)
}

/// A polynomial that is zero at as many nodes as it has coefficients is zero
/// everywhere.
proof fn many_roots(c: Seq<int>, nodes: Seq<int>, x: int)
    requires
        c.len() <= nodes.len(),
        are_apart(nodes),
        forall|k: int| 0 <= k < nodes.len() ==> same(poly_at(c, #[trigger] nodes[k]), 0),
    ensures
        same(poly_at(c, x), 0),
    decreases c.len(),
{
    if c.len() > 0 {
        let a = nodes.last();
        let q = quotient(c, a);
        let fewer = nodes.drop_last();
        assert(same(poly_at(c, nodes[nodes.len() - 1]), 0));
        assert(are_apart(fewer)) by {
            assert forall|i: int, j: int|
                0 <= i < fewer.len() && 0 <= j < fewer.len() && i != j implies is_unit(
                #[trigger] fewer[i] - #[trigger] fewer[j],
            ) by {
                assert(is_unit(nodes[i] - nodes[j]));
            }
        }
        assert forall|k: int| 0 <= k < fewer.len() implies same(
            poly_at(q, #[trigger] fewer[k]),
            0,
        ) by {
            let y = nodes[k];
            let d = y - a;
            assert(same(poly_at(c, nodes[k]), 0));
            assert(is_unit(nodes[k] - nodes[nodes.len() - 1]));
            let u = choose|u: int| same(#[trigger] (u * d), 1);
            let v = poly_at(q, y);
            assert(poly_at(c, y) == d * v + poly_at(c, a));
            same_arithmetic(poly_at(c, y), 0, poly_at(c, a), 0);
            assert(same(d * v, 0));
            same_arithmetic(u, u, d * v, 0);
            same_arithmetic(u * d, 1, v, v);
            assert(u * (d * v) == (u * d) * v) by (nonlinear_arith);
            assert(u * 0 == 0);
        }
        many_roots(q, fewer, x);
        let v = poly_at(q, x);
        assert(poly_at(c, x) == (x - a) * v + poly_at(c, a));
        same_arithmetic(x - a, x - a, v, 0);
        assert((x - a) * 0 == 0);
        same_arithmetic((x - a) * v, 0, poly_at(c, a), 0);
    }
}

/// The product of the differences from `x` to the first `n` nodes but the `k`th.
pub open spec fn others(nodes: Seq<int>, k: int, x: int, n: nat) -> int
    decreases n,
{
    if n == 0 {
        1
    } else {
        others(nodes, k, x, (n - 1) as nat) * if n - 1 == k {
            1
        } else {
            x - nodes[n - 1]
        }
    }
}

/// The sum of the first `n` values, each with its weight and the differences from `x`
/// to the other nodes.
pub open spec fn lagrange(nodes: Seq<int>, ys: Seq<int>, ws: Seq<int>, x: int, n: nat) -> int
    decreases n,
{
    if n == 0 {
        0
    } else {
        lagrange(nodes, ys, ws, x, (n - 1) as nat) + ys[n - 1] * ws[n - 1] * others(
            nodes,
            n - 1,
            x,
            nodes.len(),
        )
    }
}

/// Whether a polynomial has these values at these nodes.
pub open spec fn fits(c: Seq<int>, nodes: Seq<int>, ys: Seq<int>) -> bool {
    forall|k: int| 0 <= k < nodes.len() ==> same(poly_at(c, #[trigger] nodes[k]), ys[k])
}

/// Whether `y` is the value at `x` of the polynomial with one coefficient for each of
/// these nodes and these values there: there is such a polynomial, and all of them
/// have that value.
pub open spec fn is_value_at(nodes: Seq<int>, ys: Seq<int>, x: int, y: int) -> bool {
    &&& exists|c: Seq<int>| c.len() == nodes.len() && #[trigger] fits(c, nodes, ys)
    &&& forall|c: Seq<int>|
        c.len() <= nodes.len() && #[trigger] fits(c, nodes, ys) ==> same(poly_at(c, x), y)
}

proof fn others_is_poly(nodes: Seq<int>, k: int, n: nat)
    ensures
        is_poly(
            |x: int| others(nodes, k, x, n),
            if 0 <= k < n {
                n
            } else {
                n + 1
            },
        ),
    decreases n,
{
    let f = |x: int| others(nodes, k, x, n);
    if n == 0 {
        let c = seq![1int];
        assert forall|x: int| #[trigger] poly_at(c, x) == f(x) by {
            assert(poly_at(c.skip(1), x) == 0);
            assert(x * 0 == 0);
        }
        assert(has_coefficients(f, c));
    } else {
        let m = (n - 1) as nat;
        others_is_poly(nodes, k, m);
        let g = |x: int| others(nodes, k, x, m);
        if m == k {
            let c = choose|c: Seq<int>| #[trigger] has_coefficients(g, c) && c.len() == n;
            assert forall|x: int| #[trigger] poly_at(c, x) == f(x) by {
                assert(poly_at(c, x) == g(x));
            }
            assert(has_coefficients(f, c));
        } else {
            let len = if 0 <= k < m {
                m
            } else {
                m + 1
            };
            poly_times_linear(g, nodes[m as int], f, len);
        }
    }
}

proof fn lagrange_is_poly(nodes: Seq<int>, ys: Seq<int>, ws: Seq<int>, n: nat)
    requires
        n <= nodes.len(),
    ensures
        is_poly(|x: int| lagrange(nodes, ys, ws, x, n), nodes.len()),
    decreases n,
{
    let len = nodes.len();
    let f = |x: int| lagrange(nodes, ys, ws, x, n);
    if n == 0 {
        let c = Seq::new(len, |i: int| 0int);
        assert forall|x: int| #[trigger] poly_at(c, x) == f(x) by {
            zeros_at(len, x);
        }
        assert(has_coefficients(f, c));
    } else {
        let m = (n - 1) as nat;
        lagrange_is_poly(nodes, ys, ws, m);
        others_is_poly(nodes, m as int, len);
        let g = |x: int| lagrange(nodes, ys, ws, x, m);
        let o = |x: int| others(nodes, m as int, x, len);
        let t = ys[m as int] * ws[m as int];
        let h = |x: int| t * others(nodes, m as int, x, len);
        poly_multiple(o, t, h, len);
        poly_sum(g, h, f, len);
    }
}

proof fn zeros_at(n: nat, x: int)
    ensures
        poly_at(Seq::new(n, |i: int| 0int), x) == 0,
    decreases n,
{
    if n > 0 {
        let c = Seq::new(n, |i: int| 0int);
        zeros_at((n - 1) as nat, x);
        assert(c.skip(1) =~= Seq::new((n - 1) as nat, |i: int| 0int));
        assert(x * 0 == 0);
    }
}

/// The product of the other differences is zero at another node, and a multiple of
/// each difference.
proof fn others_at_node(nodes: Seq<int>, k: int, j: int, x: int, n: nat) -> (rest: int)
    requires
        0 <= j < n <= nodes.len(),
        j != k,
    ensures
        others(nodes, k, x, n) == rest * (x - nodes[j]),
    decreases n,
{
    let m = (n - 1) as nat;
    if j == m {
        others(nodes, k, x, m)
    } else {
        let r = others_at_node(nodes, k, j, x, m);
        let f = if m == k {
            1
        } else {
            x - nodes[m as int]
        };
        assert((r * (x - nodes[j])) * f == (r * f) * (x - nodes[j])) by (nonlinear_arith);
        r * f
    }
}

proof fn lagrange_at_node(nodes: Seq<int>, ys: Seq<int>, ws: Seq<int>, m: int, n: nat)
    requires
        0 <= m < nodes.len(),
        n <= nodes.len(),
    ensures
        lagrange(nodes, ys, ws, nodes[m], n) == if m < n {
            ys[m] * ws[m] * others(nodes, m, nodes[m], nodes.len())
        } else {
            0
        },
    decreases n,
{
    if n > 0 {
        let k = n - 1;
        lagrange_at_node(nodes, ys, ws, m, k as nat);
        if k != m {
            let rest = others_at_node(nodes, k, m, nodes[m], nodes.len());
            assert(rest * (nodes[m] - nodes[m]) == 0);
            assert(ys[k] * ws[k] * 0 == 0);
        }
    }
}

/// Lagrange's formula gives the value of the polynomial through the points, if each
/// weight is the inverse of the product of the differences between its node and the
/// others.
pub proof fn lagrange_interpolates(nodes: Seq<int>, ys: Seq<int>, ws: Seq<int>, x: int)
    requires
        ys.len() == nodes.len(),
        ws.len() == nodes.len(),
        forall|k: int|
            0 <= k < nodes.len() ==> same(
                ws[k] * others(nodes, k, #[trigger] nodes[k], nodes.len()),
                1,
            ),
    ensures
        is_value_at(nodes, ys, x, lagrange(nodes, ys, ws, x, nodes.len())),
{
    let n = nodes.len();
    let f = |x: int| lagrange(nodes, ys, ws, x, n);
    lagrange_is_poly(nodes, ys, ws, n);
    let c0 = choose|c: Seq<int>| #[trigger] has_coefficients(f, c) && c.len() == n;
    assert forall|k: int| 0 <= k < n implies same(poly_at(c0, #[trigger] nodes[k]), ys[k]) by {
        lagrange_at_node(nodes, ys, ws, k, n);
        assert(poly_at(c0, nodes[k]) == f(nodes[k]));
        let o = others(nodes, k, nodes[k], n);
        assert(same(ws[k] * o, 1));
        same_arithmetic(ys[k], ys[k], ws[k] * o, 1);
        assert(ys[k] * (ws[k] * o) == ys[k] * ws[k] * o) by (nonlinear_arith);
        assert(ys[k] * 1 == ys[k]);
    }
    assert(fits(c0, nodes, ys));
    assert(are_apart(nodes)) by {
        assert forall|i: int, j: int|
            0 <= i < n && 0 <= j < n && i != j implies is_unit(
            #[trigger] nodes[i] - #[trigger] nodes[j],
        ) by {
            let rest = others_at_node(nodes, i, j, nodes[i], n);
            let d = nodes[i] - nodes[j];
            assert(same(ws[i] * others(nodes, i, nodes[i], n), 1));
            assert(ws[i] * (rest * d) == (ws[i] * rest) * d) by (nonlinear_arith);
            assert(same((ws[i] * rest) * d, 1));
        }
    }
    assert forall|c: Seq<int>| c.len() <= n && #[trigger] fits(c, nodes, ys) implies same(
        poly_at(c, x),
        f(x),
    ) by {
        let full = padded(c, n);
        let minus = Seq::new(n, |i: int| (-1) * c0[i]);
        let d = Seq::new(n, |i: int| full[i] + minus[i]);
        assert forall|z: int| #[trigger] poly_at(d, z) == poly_at(c, z) - poly_at(c0, z) by {
            padded_keeps(c, n, z);
            multiple_at(c0, -1, z);
            sum_at(full, minus, z);
        }
        assert forall|k: int| 0 <= k < n implies same(poly_at(d, #[trigger] nodes[k]), 0) by {
            same_arithmetic(poly_at(c, nodes[k]), ys[k], poly_at(c0, nodes[k]), ys[k]);
        }
        many_roots(d, nodes, x);
        assert(poly_at(d, x) == poly_at(c, x) - poly_at(c0, x));
        same_arithmetic(poly_at(d, x), 0, poly_at(c0, x), poly_at(c0, x));
        assert(poly_at(c0, x) == f(x));
    }
}

spec fn padded(c: Seq<int>, n: nat) -> Seq<int>
    decreases n - c.len(),
{
    if c.len() >= n {
        c
    } else {
        padded(c.push(0), n)
    }
}

proof fn padded_keeps(c: Seq<int>, n: nat, x: int)
    requires
        c.len() <= n,
    ensures
        padded(c, n).len() == n,
        poly_at(padded(c, n), x) == poly_at(c, x),
    decreases n - c.len(),
{
    if c.len() < n {
        padded_at(c, x);
        padded_keeps(c.push(0), n, x);
    }
}

/// A polynomial's value is the sum of its coefficients times the powers of the point.
pub proof fn higher_coefficient_adds_power(c: Seq<int>, a: int, x: int)
    ensures
        poly_at(c.push(a), x) == poly_at(c, x) + a * pow(x, c.len()),
        poly_at(Seq::<int>::empty(), x) == 0,
    decreases c.len(),
{
    reveal(pow);
    let longer = c.push(a);
    if c.len() == 0 {
        assert(longer.skip(1) =~= Seq::<int>::empty());
        assert(poly_at(longer.skip(1), x) == 0);
        assert(longer[0] == a);
        assert(x * 0 == 0 && a * 1 == a);
    } else {
        let n = c.len();
        higher_coefficient_adds_power(c.skip(1), a, x);
        assert(longer.skip(1) =~= c.skip(1).push(a));
        assert(longer[0] == c[0]);
        let rest = poly_at(c.skip(1), x);
        let power = pow(x, (n - 1) as nat);
        assert(x * (rest + a * power) == x * rest + a * (x * power)) by (nonlinear_arith);
    }
}

/// The value that is determined by nodes and values there is that of every polynomial of
/// no greater length with these values, and there is one.
pub proof fn determined_value_is_of_fitting_polynomials(
    nodes: Seq<int>,
    ys: Seq<int>,
    x: int,
    y: int,
    c: Seq<int>,
)
    requires
        is_value_at(nodes, ys, x, y),
        c.len() <= nodes.len(),
        forall|k: int|
            0 <= k < nodes.len() ==> poly_at(c, #[trigger] nodes[k]) % order() == ys[k] % order(),
    ensures
        poly_at(c, x) % order() == y % order(),
        exists|d: Seq<int>| d.len() == nodes.len() && #[trigger] fits(d, nodes, ys),
{
    assert forall|k: int| 0 <= k < nodes.len() implies same(poly_at(c, #[trigger] nodes[k]), ys[k]) by {
        assert(poly_at(c, nodes[k]) % order() == ys[k] % order());
    }
    assert(fits(c, nodes, ys));
}

} // verus!
