//! Factorials and products of differences.

use crate::vsss::polynomials::others;
use vstd::prelude::*;
use vstd::set_lib::{lemma_int_range, lemma_len_subset, set_int_range};

verus! {

/// The product of the numbers from one to `n`.
pub open spec fn fact(n: nat) -> int
    decreases n,
{
    if n == 0 {
        1
    } else {
        n * fact((n - 1) as nat)
    }
}

/// The product of the first `n` numbers from `x` downwards.
pub open spec fn falling(x: int, n: nat) -> int
    decreases n,
{
    if n == 0 {
        1
    } else {
        falling(x, (n - 1) as nat) * (x - (n - 1))
    }
}

/// The sign of a product of `n` negative numbers.
pub open spec fn sign(n: nat) -> int {
    if n % 2 == 0 {
        1
    } else {
        -1
    }
}

/// The numbers below `n` in order.
pub open spec fn first_nodes(n: nat) -> Seq<int> {
    Seq::new(n, |i: int| i)
}

pub proof fn fact_splits(x: nat, n: nat)
    requires
        n <= x,
    ensures
        fact(x) == falling(x as int, n) * fact((x - n) as nat),
    decreases n,
{
    if n > 0 {
        let m = (n - 1) as nat;
        fact_splits(x, m);
        let (f, d, g) = (falling(x as int, m), x - m, fact((x - n) as nat));
        assert(fact((x - m) as nat) == d * g);
        assert(f * (d * g) == (f * d) * g) by (nonlinear_arith);
    }
}

pub proof fn falling_skips(k: int, x: int, n: nat, total: nat)
    requires
        0 <= k,
        n <= total,
    ensures
        falling(x, n) == if k < n {
            others(first_nodes(total), k, x, n) * (x - k)
        } else {
            others(first_nodes(total), k, x, n)
        },
    decreases n,
{
    if n > 0 {
        let m = (n - 1) as nat;
        falling_skips(k, x, m, total);
        let o = others(first_nodes(total), k, x, m);
        assert(first_nodes(total)[m as int] == m);
        if k < m {
            assert((o * (x - k)) * (x - m) == (o * (x - m)) * (x - k)) by (nonlinear_arith);
        } else if k == m {
            assert(o * 1 == o);
        }
    }
}

/// The product of the differences from `k` to the other numbers below `n`.
pub proof fn others_of_first(k: nat, n: nat, total: nat)
    requires
        k < n <= total,
    ensures
        others(first_nodes(total), k as int, k as int, n) == sign((n - 1 - k) as nat) * fact(k)
            * fact((n - 1 - k) as nat),
    decreases n,
{
    let m = (n - 1) as nat;
    if m == k {
        falling_skips(k as int, k as int, k, total);
        fact_splits(k, k);
        let o = others(first_nodes(total), k as int, k as int, k);
        assert(o * 1 == o);
        assert(sign(0) * fact(k) * fact(0) == fact(k)) by (nonlinear_arith)
            requires
                sign(0) == 1,
                fact(0) == 1,
        ;
        assert(falling(k as int, k) * fact(0) == falling(k as int, k)) by (nonlinear_arith)
            requires
                fact(0) == 1,
        ;
    } else {
        others_of_first(k, m, total);
        let d = (m - k) as nat;
        let (s, f, g) = (sign((d - 1) as nat), fact(k), fact((d - 1) as nat));
        assert(first_nodes(total)[m as int] == m);
        assert(fact(d) == d * g);
        assert(sign(d) == -s);
        assert((s * f * g) * (k - m) == (-s) * f * (d * g)) by (nonlinear_arith)
            requires
                d == m - k,
        ;
    }
}

/// The difference from `x` to `t`; one if they are equal.
pub open spec fn gap(x: int, t: int) -> int {
    if t == x {
        1
    } else {
        x - t
    }
}

/// The product of the differences from `x` to numbers other than it.
pub open spec fn gaps(s: Seq<int>, x: int) -> int
    decreases s.len(),
{
    if s.len() == 0 {
        1
    } else {
        gaps(s.drop_last(), x) * gap(x, s.last())
    }
}

pub proof fn gaps_of_sum(a: Seq<int>, b: Seq<int>, x: int)
    ensures
        gaps(a + b, x) == gaps(a, x) * gaps(b, x),
    decreases b.len(),
{
    if b.len() == 0 {
        assert(a + b =~= a);
        assert(gaps(a, x) * 1 == gaps(a, x));
    } else {
        gaps_of_sum(a, b.drop_last(), x);
        assert((a + b).drop_last() =~= a + b.drop_last());
        let (p, q, g) = (gaps(a, x), gaps(b.drop_last(), x), gap(x, b.last()));
        assert((p * q) * g == p * (q * g)) by (nonlinear_arith);
    }
}

pub proof fn gaps_without(s: Seq<int>, x: int, p: int)
    requires
        0 <= p < s.len(),
    ensures
        gaps(s, x) == gaps(s.remove(p), x) * gap(x, s[p]),
{
    let (a, b) = (s.take(p), s.skip(p + 1));
    let one = seq![s[p]];
    assert(s =~= a + one + b);
    assert(s.remove(p) =~= a + b);
    gaps_of_sum(a + one, b, x);
    gaps_of_sum(a, one, x);
    gaps_of_sum(a, b, x);
    assert(one.drop_last() =~= Seq::<int>::empty());
    assert(gaps(one.drop_last(), x) == 1);
    let (u, v, g) = (gaps(a, x), gaps(b, x), gap(x, s[p]));
    assert(gaps(one, x) == g);
    assert((u * g) * v == (u * v) * g) by (nonlinear_arith);
}

/// The first difference taken out of a product.
pub proof fn gaps_from_front(s: Seq<int>, x: int)
    requires
        s.len() > 0,
    ensures
        gaps(s, x) == gaps(s.skip(1), x) * gap(x, s[0]),
{
    gaps_without(s, x, 0);
    assert(s.remove(0) =~= s.skip(1));
}

/// Whether a sequence has every number below its length once.
pub open spec fn is_arrangement(s: Seq<int>) -> bool {
    s.no_duplicates() && forall|i: int| 0 <= i < s.len() ==> 0 <= #[trigger] s[i] < s.len()
}

proof fn arrangement_has_last(s: Seq<int>) -> (p: int)
    requires
        is_arrangement(s),
        s.len() > 0,
    ensures
        0 <= p < s.len(),
        s[p] == s.len() - 1,
{
    let n = s.len() as int;
    if !s.contains(n - 1) {
        s.unique_seq_to_set();
        let below = set_int_range(0, n - 1);
        lemma_int_range(0, n - 1);
        assert forall|v: int| s.to_set().contains(v) implies below.contains(v) by {
            let i = choose|i: int| 0 <= i < s.len() && s[i] == v;
            assert(0 <= s[i] < s.len());
        }
        lemma_len_subset(s.to_set(), below);
    }
    choose|p: int| 0 <= p < s.len() && s[p] == n - 1
}

/// The order of the numbers does not matter.
pub proof fn gaps_of_arrangement(s: Seq<int>, x: int)
    requires
        is_arrangement(s),
    ensures
        gaps(s, x) == gaps(first_nodes(s.len()), x),
    decreases s.len(),
{
    let n = s.len();
    if n > 0 {
        let p = arrangement_has_last(s);
        let rest = s.remove(p);
        assert(is_arrangement(rest)) by {
            assert forall|i: int| 0 <= i < rest.len() implies 0 <= #[trigger] rest[i]
                < rest.len() by {
                let j = if i < p {
                    i
                } else {
                    i + 1
                };
                assert(rest[i] == s[j]);
                assert(0 <= s[j] < s.len());
                assert(s[j] != s[p]);
            }
            assert forall|i: int, j: int| 0 <= i < rest.len() && 0 <= j < rest.len() && i != j implies rest[i]
                != rest[j] by {
                let a = if i < p {
                    i
                } else {
                    i + 1
                };
                let b = if j < p {
                    j
                } else {
                    j + 1
                };
                assert(rest[i] == s[a] && rest[j] == s[b]);
            }
        }
        gaps_of_arrangement(rest, x);
        gaps_without(s, x, p);
        assert(first_nodes(n).drop_last() =~= first_nodes((n - 1) as nat));
        assert(first_nodes(n).last() == n - 1);
    }
}

/// At a node, the product of the differences is that to the other nodes.
pub proof fn gaps_at_node(nodes: Seq<int>, k: int, n: nat)
    requires
        nodes.no_duplicates(),
        0 <= k < nodes.len(),
        n <= nodes.len(),
    ensures
        gaps(nodes.take(n as int), nodes[k]) == others(nodes, k, nodes[k], n),
    decreases n,
{
    if n > 0 {
        gaps_at_node(nodes, k, (n - 1) as nat);
        assert(nodes.take(n as int).drop_last() =~= nodes.take(n - 1));
        assert(nodes.take(n as int).last() == nodes[n - 1]);
    }
}

/// Away from the nodes, the product of the differences is that to the other nodes
/// and one more.
pub proof fn gaps_off_nodes(nodes: Seq<int>, k: int, x: int, n: nat)
    requires
        !nodes.contains(x),
        0 <= k,
        n <= nodes.len(),
    ensures
        gaps(nodes.take(n as int), x) == if k < n {
            others(nodes, k, x, n) * (x - nodes[k])
        } else {
            others(nodes, k, x, n)
        },
    decreases n,
{
    if n > 0 {
        let m = n - 1;
        gaps_off_nodes(nodes, k, x, m as nat);
        assert(nodes.take(n as int).drop_last() =~= nodes.take(m));
        assert(nodes.take(n as int).last() == nodes[m]);
        assert(nodes.contains(nodes[m]));
        let o = others(nodes, k, x, m as nat);
        if k < m {
            assert((o * (x - nodes[k])) * (x - nodes[m]) == (o * (x - nodes[m])) * (x - nodes[k]))
                by (nonlinear_arith);
        } else if k == m {
            assert(o * 1 == o);
        }
    }
}

/// The product of the differences from `k` to all other numbers below `n`.
pub proof fn gaps_of_first(k: nat, n: nat)
    requires
        k < n,
    ensures
        gaps(first_nodes(n), k as int) == sign((n - 1 - k) as nat) * fact(k) * fact(
            (n - 1 - k) as nat,
        ),
{
    let nodes = first_nodes(n);
    assert(nodes.take(n as int) =~= nodes);
    assert(nodes[k as int] == k);
    gaps_at_node(nodes, k as int, n);
    others_of_first(k, n, n);
}

} // verus!
