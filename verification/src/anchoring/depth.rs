//! How long the chains of free gates before each anchor are.

use crate::anchoring::circuit::{available, in_range, well_formed, PCircuit};
use crate::anchoring::garble::{anchor_gate, covers, is_anchor_gate};
use crate::anchoring::plan::AnchorPlan;
use crate::sorting::{ascending, sort_indexes};
use vstd::prelude::*;

verus! {

/// The longest chain of free gates before each wire after the first `g` gates, and
/// before each anchored gate among them. A chain starts anew at an anchor.
pub open spec fn chain_depths(c: PCircuit, anchored: Seq<bool>, g: nat) -> (Seq<usize>, Seq<usize>)
    decreases g,
{
    if g == 0 {
        (Seq::new(c.n_wires as nat, |w: int| 0), seq![])
    } else {
        let j = g - 1;
        let (d, leaves) = chain_depths(c, anchored, j as nat);
        let gate = c.gates@[j];
        let din = if d[gate.a as int] < d[gate.b as int] {
            d[gate.b as int]
        } else {
            d[gate.a as int]
        };
        if anchor_gate(c, anchored, j) {
            (d.update(gate.c as int, 0), leaves.push(din))
        } else {
            (d.update(gate.c as int, (din + 1) as usize), leaves)
        }
    }
}

/// The sum of a sequence.
pub open spec fn total(s: Seq<usize>) -> nat
    decreases s.len(),
{
    if s.len() == 0 {
        0
    } else {
        total(s.drop_last()) + s.last() as nat
    }
}

/// Figures on the chains of free gates before the anchors.
#[derive(Clone, Copy, Debug, PartialEq, Eq, Structural)]
pub struct DepthStats {
    /// The longest chain.
    pub max: usize,
    /// The sum of all chains.
    pub sum: u128,
    /// The number of anchors.
    pub count: usize,
    /// The chain that at most one in twenty exceeds.
    pub p95: usize,
}

/// The position of the 95th percentile among `n` sorted values.
pub open spec fn p95_index(n: nat) -> int {
    if n * 95 / 100 == 0 {
        0
    } else {
        n * 95 / 100 - 1
    }
}

/// The longest chain, the sum and number of chains, and the 95th percentile.
pub fn xor_depth_stats(c: &PCircuit, plan: &AnchorPlan) -> (r: DepthStats)
    requires
        in_range(*c),
        covers(*c, plan.anchored@),
        c.gates@.len() * 95 <= usize::MAX,
        chain_depths(*c, plan.anchored@, c.gates@.len()).1.len() > 0,
    ensures
        ({
            let leaves = chain_depths(*c, plan.anchored@, c.gates@.len()).1;
            &&& r.max == ascending(leaves).last()
            &&& r.sum == total(leaves)
            &&& r.count == leaves.len()
            &&& r.p95 == ascending(leaves)[p95_index(leaves.len())]
        }),
{
    let mut d: Vec<usize> = Vec::new();
    let mut w: usize = 0;
    while w < c.n_wires
        invariant
            w <= c.n_wires,
            d@.len() == w,
            forall|v: int| 0 <= v < w ==> #[trigger] d@[v] == 0,
        decreases c.n_wires - w,
    {
        d.push(0);
        w = w + 1;
    }
    let mut per_leaf: Vec<usize> = Vec::new();
    let mut sum: u128 = 0;
    proof {
        assert(d@ =~= chain_depths(*c, plan.anchored@, 0).0);
        assert(per_leaf@ =~= chain_depths(*c, plan.anchored@, 0).1);
    }
    let mut g: usize = 0;
    while g < c.gates.len()
        invariant
            g <= c.gates@.len(),
            in_range(*c),
            covers(*c, plan.anchored@),
            d@.len() == c.n_wires,
            d@ == chain_depths(*c, plan.anchored@, g as nat).0,
            per_leaf@ == chain_depths(*c, plan.anchored@, g as nat).1,
            forall|v: int| 0 <= v < c.n_wires ==> #[trigger] d@[v] <= g,
            per_leaf@.len() <= g,
            sum == total(per_leaf@),
            sum <= g * g,
        decreases c.gates@.len() - g,
    {
        let gate = c.gates[g];
        let din: usize = if d[gate.a] < d[gate.b] {
            d[gate.b]
        } else {
            d[gate.a]
        };
        assert(g * g + g <= (g + 1) * (g + 1)) by (nonlinear_arith);
        assert(g * g + g <= u128::MAX) by (nonlinear_arith)
            requires
                g <= u64::MAX,
        ;
        if is_anchor_gate(c, plan, g) {
            let ghost leaves0 = per_leaf@;
            per_leaf.push(din);
            assert(per_leaf@.drop_last() =~= leaves0);
            sum = sum + din as u128;
            d[gate.c] = 0;
        } else {
            d[gate.c] = 1 + din;
        }
        g = g + 1;
    }
    let count: usize = per_leaf.len();
    sort_indexes(&mut per_leaf);
    let cut: usize = count * 95 / 100;
    let at: usize = if cut == 0 {
        0
    } else {
        cut - 1
    };
    DepthStats { max: per_leaf[count - 1], sum, count, p95: per_leaf[at] }
}

/// How long the chains are: in a well-formed circuit an input begins one, the output of
/// an anchored gate begins one, and the output of any other gate makes the longer of its
/// inputs' chains longer by one. Every anchored gate counts the longer of its inputs'.
pub proof fn chains_grow_by_free_gates(c: PCircuit, anchored: Seq<bool>, g: nat, w: usize, j: int)
    requires
        well_formed(c),
        g <= c.gates@.len() < usize::MAX,
        w < c.n_in,
        0 <= j < g,
    ensures
        ({
            let (d, leaves) = chain_depths(c, anchored, g);
            let gate = c.gates@[j];
            let longer = if d[gate.a as int] < d[gate.b as int] {
                d[gate.b as int]
            } else {
                d[gate.a as int]
            };
            &&& d[w as int] == 0
            &&& d[gate.c as int] == if anchor_gate(c, anchored, j) {
                0
            } else {
                longer + 1
            }
            &&& anchor_gate(c, anchored, j) ==> leaves.contains(longer)
        }),
{
    assert(c.gates.len() == c.gates@.len());
    chains_have_shape(c, anchored, g);
    chains_have_shape(c, anchored, j as nat);
    let (d, leaves) = chain_depths(c, anchored, g);
    let gate = c.gates@[j];
    let (e, before) = chain_depths(c, anchored, j as nat);
    let (f, after) = chain_depths(c, anchored, (j + 1) as nat);
    assert(available(c, j, gate.a) && available(c, j, gate.b));
    assert(available(c, 0, w));
    chains_stay(c, anchored, 0, g, w);
    chains_stay(c, anchored, j as nat, g, gate.a);
    chains_stay(c, anchored, j as nat, g, gate.b);
    assert(available(c, j + 1, gate.c));
    chains_stay(c, anchored, (j + 1) as nat, g, gate.c);
    chains_have_shape(c, anchored, (j + 1) as nat);
    if anchor_gate(c, anchored, j) {
        assert(after == before.push(after.last()));
        assert(leaves[before.len() as int] == after[before.len() as int]);
    }
}

proof fn chains_have_shape(c: PCircuit, anchored: Seq<bool>, g: nat)
    requires
        well_formed(c),
        g <= c.gates@.len() < usize::MAX,
    ensures
        chain_depths(c, anchored, g).0.len() == c.n_wires,
        chain_depths(c, anchored, g).1.len() <= g,
        forall|w: int| 0 <= w < c.n_wires ==> #[trigger] chain_depths(c, anchored, g).0[w] <= g,
    decreases g,
{
    if g > 0 {
        chains_have_shape(c, anchored, (g - 1) as nat);
        let gate = c.gates@[g - 1];
        assert(gate.a < c.n_wires && gate.b < c.n_wires);
        let d = chain_depths(c, anchored, (g - 1) as nat).0;
        assert(d[gate.a as int] <= g - 1 && d[gate.b as int] <= g - 1);
    }
}

proof fn chains_stay(c: PCircuit, anchored: Seq<bool>, g: nat, h: nat, w: usize)
    requires
        well_formed(c),
        g <= h <= c.gates@.len() < usize::MAX,
        w < c.n_wires,
        available(c, g as int, w),
    ensures
        chain_depths(c, anchored, h).0[w as int] == chain_depths(c, anchored, g).0[w as int],
        chain_depths(c, anchored, g).1.len() <= chain_depths(c, anchored, h).1.len(),
        forall|i: int|
            0 <= i < chain_depths(c, anchored, g).1.len() ==> #[trigger] chain_depths(
                c,
                anchored,
                h,
            ).1[i] == chain_depths(c, anchored, g).1[i],
    decreases h,
{
    if g < h {
        chains_stay(c, anchored, g, (h - 1) as nat, w);
        chains_have_shape(c, anchored, (h - 1) as nat);
        let gate = c.gates@[h - 1];
        assert(gate.c != w) by {
            if w >= c.n_in {
                let j = choose|j: int| 0 <= j < g && (#[trigger] c.gates@[j]).c == w;
                assert(c.gates@[j].c != c.gates@[h - 1].c);
            }
        }
    }
}

/// The 95th percentile of `n` sorted values is the last of the first 95 in a hundred of
/// them, rounded down, or the first of all.
pub proof fn percentile_is_last_of_share(n: nat)
    ensures
        n * 95 >= 100 ==> 100 * (p95_index(n) + 1) <= 95 * n < 100 * (p95_index(n) + 2),
        n * 95 < 100 ==> p95_index(n) == 0,
        n > 0 ==> 0 <= p95_index(n) < n,
{
}

/// A total is the sum of the totals of its parts.
pub proof fn totals_add_up(first: Seq<usize>, second: Seq<usize>, x: usize)
    ensures
        total(first + second) == total(first) + total(second),
        total(seq![x]) == x,
    decreases second.len(),
{
    assert(seq![x].drop_last() =~= Seq::<usize>::empty());
    assert(total(Seq::<usize>::empty()) == 0);
    if second.len() > 0 {
        totals_add_up(first, second.drop_last(), x);
        assert((first + second).drop_last() =~= first + second.drop_last());
    } else {
        assert(first + second =~= first);
    }
}

} // verus!
