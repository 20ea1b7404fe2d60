//! Which free gates carry an anchor. The plan depends only on the public
//! topology, so everyone computes the same one without the seed.

use crate::anchoring::circuit::{in_range, PCircuit, PGate};
use crate::gate::free;
use crate::sets::{singleton, union};
use std::collections::BTreeSet;
use vstd::prelude::*;

verus! {

broadcast use vstd::std_specs::btree::group_btree_axioms;

/// The free gates that carry an anchor, and how many they are.
pub struct AnchorPlan {
    pub anchored: Vec<bool>,
    pub n_xor_anchors: usize,
}

/// Whether some gate writes wire `w`.
pub open spec fn produced(c: PCircuit, w: int) -> bool {
    exists|j: int| 0 <= j < c.gates@.len() && (#[trigger] c.gates@[j]).c == w
}

/// Whether wire `w` has a value before gate `g`: no gate writes it, or an earlier
/// one does.
pub open spec fn has_value(c: PCircuit, g: int, w: int) -> bool {
    !produced(c, w) || exists|j: int| 0 <= j < g && (#[trigger] c.gates@[j]).c == w
}

/// Whether no gate reads a wire before it has a value.
pub open spec fn readable(c: PCircuit) -> bool {
    forall|g: int|
        0 <= g < c.gates@.len() ==> has_value(c, g, (#[trigger] c.gates@[g]).a as int)
            && has_value(c, g, c.gates@[g].b as int)
}

/// The anchor support of every wire after the first `g` gates, where no support
/// holds more than `k` anchors: a wire that no gate writes is its own anchor, and
/// so is the output of a non-free or promoted gate; the output of another gate
/// inherits the supports of its inputs.
pub open spec fn supports(c: PCircuit, k: nat, g: nat) -> Seq<Set<u64>>
    decreases g,
{
    if g == 0 {
        Seq::new(
            c.n_wires as nat,
            |w: int|
                if produced(c, w) {
                    Set::empty()
                } else {
                    set![w as u64]
                },
        )
    } else {
        let j = (g - 1) as nat;
        let s = supports(c, k, j);
        let gate = c.gates@[j as int];
        s.update(
            gate.c as int,
            if free(gate.t) && joined(s, gate).len() <= k {
                joined(s, gate)
            } else {
                set![(c.n_in + j) as u64]
            },
        )
    }
}

/// The union of the supports of a gate's inputs.
pub open spec fn joined(s: Seq<Set<u64>>, gate: PGate) -> Set<u64> {
    s[gate.a as int].union(s[gate.b as int])
}

/// The anchors that the inputs of gate `g` rest on.
pub open spec fn merged(c: PCircuit, k: nat, g: nat) -> Set<u64> {
    joined(supports(c, k, g), c.gates@[g as int])
}

/// Whether gate `g` is a free gate whose support would hold more than `k`
/// anchors.
pub open spec fn promoted(c: PCircuit, k: nat, g: nat) -> bool {
    free(c.gates@[g as int].t) && merged(c, k, g).len() > k
}

/// The number of promoted gates among the first `g`.
pub open spec fn promoted_count(c: PCircuit, k: nat, g: nat) -> nat
    decreases g,
{
    if g == 0 {
        0
    } else {
        promoted_count(c, k, (g - 1) as nat) + if promoted(c, k, (g - 1) as nat) {
            1nat
        } else {
            0
        }
    }
}

/// Whether `gate` reads wire `w`.
spec fn reads(gate: PGate, w: int) -> bool {
    gate.a == w || gate.b == w
}

/// The number of gates among the first `g` that read wire `w`.
spec fn reads_before(c: PCircuit, g: int, w: int) -> int
    decreases g,
{
    if g <= 0 {
        0
    } else {
        reads_before(c, g - 1, w) + if reads(c.gates@[g - 1], w) {
            1int
        } else {
            0
        }
    }
}

proof fn reads_before_grows(c: PCircuit, g: int, h: int, w: int)
    requires
        0 <= g <= h,
    ensures
        0 <= reads_before(c, g, w) <= reads_before(c, h, w) <= h,
    decreases h,
{
    if h > 0 {
        if g < h {
            reads_before_grows(c, g, h - 1, w);
        } else {
            reads_before_grows(c, g - 1, h - 1, w);
        }
    }
}

/// Bounds the anchor support of every wire at `k`: promotes a free gate whenever
/// its support would exceed the bound.
pub fn plan_anchors(c: &PCircuit, k: usize) -> (r: AnchorPlan)
    requires
        in_range(*c),
        readable(*c),
        c.gates@.len() <= u32::MAX,
        c.n_in + c.gates@.len() <= usize::MAX,
    ensures
        r.anchored@.len() == c.gates@.len(),
        forall|g: int|
            0 <= g < c.gates@.len() ==> #[trigger] r.anchored@[g] == promoted(
                *c,
                k as nat,
                g as nat,
            ),
        r.n_xor_anchors == promoted_count(*c, k as nat, c.gates@.len()),
{
    let n_gates: usize = c.gates.len();
    let mut left: Vec<u32> = Vec::new();
    let mut writes: Vec<bool> = Vec::new();
    let mut w: usize = 0;
    while w < c.n_wires
        invariant
            w <= c.n_wires,
            left@.len() == w,
            writes@.len() == w,
            forall|v: int| 0 <= v < w ==> #[trigger] left@[v] == 0,
            forall|v: int| 0 <= v < w ==> !#[trigger] writes@[v],
        decreases c.n_wires - w,
    {
        left.push(0);
        writes.push(false);
        w = w + 1;
    }
    let mut g: usize = 0;
    while g < n_gates
        invariant
            g <= n_gates,
            n_gates == c.gates@.len(),
            n_gates <= u32::MAX,
            in_range(*c),
            left@.len() == c.n_wires,
            writes@.len() == c.n_wires,
            forall|v: int| 0 <= v < c.n_wires ==> #[trigger] left@[v] == reads_before(*c, g as int, v),
            forall|v: int|
                0 <= v < c.n_wires ==> (#[trigger] writes@[v] <==> exists|j: int|
                    0 <= j < g && (#[trigger] c.gates@[j]).c == v),
        decreases n_gates - g,
    {
        let gate = c.gates[g];
        proof {
            reads_before_grows(*c, g as int, g as int, gate.a as int);
            reads_before_grows(*c, g as int, g as int, gate.b as int);
        }
        left[gate.a] = left[gate.a] + 1;
        if gate.b != gate.a {
            left[gate.b] = left[gate.b] + 1;
        }
        let ghost writes0 = writes@;
        writes[gate.c] = true;
        proof {
            assert forall|v: int| 0 <= v < c.n_wires implies (#[trigger] writes@[v] <==> exists|
                j: int,
            |
                0 <= j < g + 1 && (#[trigger] c.gates@[j]).c == v) by {
                if writes@[v] {
                    if v == gate.c {
                        assert(c.gates@[g as int].c == v);
                    } else {
                        assert(writes0[v]);
                    }
                }
                if exists|j: int| 0 <= j < g + 1 && (#[trigger] c.gates@[j]).c == v {
                    let j = choose|j: int| 0 <= j < g + 1 && (#[trigger] c.gates@[j]).c == v;
                    if j < g {
                        assert(writes0[v]);
                    }
                }
            }
        }
        g = g + 1;
    }
    let mut supp: Vec<Option<BTreeSet<u64>>> = Vec::new();
    w = 0;
    while w < c.n_wires
        invariant
            w <= c.n_wires,
            supp@.len() == w,
            writes@.len() == c.n_wires,
            forall|v: int| 0 <= v < c.n_wires ==> (#[trigger] writes@[v] <==> produced(*c, v)),
            forall|v: int|
                0 <= v < w && !produced(*c, v) ==> (#[trigger] supp@[v]) is Some && supp@[v]->0@
                    == set![v as u64],
        decreases c.n_wires - w,
    {
        if writes[w] {
            supp.push(None);
        } else {
            supp.push(Some(singleton(w as u64)));
        }
        w = w + 1;
    }
    let mut anchored: Vec<bool> = Vec::new();
    let mut n: usize = 0;
    g = 0;
    while g < n_gates
        invariant
            g <= n_gates,
            n_gates == c.gates@.len(),
            in_range(*c),
            readable(*c),
            c.n_in + n_gates <= usize::MAX,
            left@.len() == c.n_wires,
            supp@.len() == c.n_wires,
            supports(*c, k as nat, g as nat).len() == c.n_wires,
            forall|v: int|
                0 <= v < c.n_wires ==> #[trigger] left@[v] == reads_before(*c, n_gates as int, v)
                    - reads_before(*c, g as int, v),
            forall|v: int|
                0 <= v < c.n_wires && has_value(*c, g as int, v) && reads_before(
                    *c,
                    n_gates as int,
                    v,
                ) > reads_before(*c, g as int, v) ==> (#[trigger] supp@[v]) is Some && supp@[v]->0@
                    == supports(*c, k as nat, g as nat)[v],
            anchored@.len() == g,
            forall|j: int|
                0 <= j < g ==> #[trigger] anchored@[j] == promoted(*c, k as nat, j as nat),
            n <= g,
            n == promoted_count(*c, k as nat, g as nat),
        decreases n_gates - g,
    {
        let gate = c.gates[g];
        let ghost s = supports(*c, k as nat, g as nat);
        proof {
            reads_before_grows(*c, g + 1, n_gates as int, gate.a as int);
            reads_before_grows(*c, g + 1, n_gates as int, gate.b as int);
        }
        let sa = match &supp[gate.a] {
            Some(s) => s.clone(),
            None => BTreeSet::new(),
        };
        let sb = match &supp[gate.b] {
            Some(s) => s.clone(),
            None => BTreeSet::new(),
        };
        assert(sa@ == s[gate.a as int] && sb@ == s[gate.b as int]);
        let ghost supp0 = supp@;
        let ghost left0 = left@;
        if !gate.t.is_free() {
            supp[gate.c] = Some(singleton((c.n_in + g) as u64));
            anchored.push(false);
        } else {
            let u = union(&sa, &sb);
            if u.len() > k {
                supp[gate.c] = Some(singleton((c.n_in + g) as u64));
                anchored.push(true);
                n = n + 1;
            } else {
                supp[gate.c] = Some(u);
                anchored.push(false);
            }
        }
        let ghost next = supports(*c, k as nat, (g + 1) as nat);
        assert(supp@[gate.c as int] is Some && supp@[gate.c as int]->0@ == next[gate.c as int]);
        left[gate.a] = left[gate.a] - 1;
        if left[gate.a] == 0 && gate.a != gate.c {
            supp[gate.a] = None;
        }
        if gate.b != gate.a {
            left[gate.b] = left[gate.b] - 1;
            if left[gate.b] == 0 && gate.b != gate.c {
                supp[gate.b] = None;
            }
        }
        proof {
            assert forall|v: int|
                0 <= v < c.n_wires && has_value(*c, g + 1, v) && reads_before(
                    *c,
                    n_gates as int,
                    v,
                ) > reads_before(*c, g + 1, v) implies (#[trigger] supp@[v]) is Some
                && supp@[v]->0@ == next[v] by {
                if v != gate.c {
                    assert(has_value(*c, g as int, v)) by {
                        if produced(*c, v) {
                            let j = choose|j: int| 0 <= j < g + 1 && (#[trigger] c.gates@[j]).c == v;
                            assert(j < g);
                        }
                    }
                    reads_before_grows(*c, g as int, g + 1, v);
                    assert(supp0[v] is Some);
                    assert(left@[v] > 0);
                }
            }
        }
        g = g + 1;
    }
    AnchorPlan { anchored, n_xor_anchors: n }
}

/// The promoted gates are counted one by one.
pub proof fn promoted_gates_are_counted(c: PCircuit, k: nat, g: nat)
    ensures
        promoted_count(c, k, g) == Seq::new(g, |i: int| i as nat).filter(
            |i: nat| promoted(c, k, i),
        ).len(),
    decreases g,
{
    reveal(Seq::filter);
    let all = Seq::new(g, |i: int| i as nat);
    let over = |i: nat| promoted(c, k, i);
    if g > 0 {
        promoted_gates_are_counted(c, k, (g - 1) as nat);
        assert(all.drop_last() =~= Seq::new((g - 1) as nat, |i: int| i as nat));
        assert(all.last() == (g - 1) as nat);
    }
}

/// What a wire rests on: before any gate, itself unless a gate writes it; after a free gate
/// that is not promoted, its output rests on what its inputs rest on; after any other, the
/// output rests on that gate alone. No other wire changes.
pub proof fn supports_follow_gates(c: PCircuit, k: nat, g: nat, w: int)
    requires
        g < c.gates@.len(),
        0 <= w < c.n_wires,
        c.gates@[g as int].c < c.n_wires,
        supports(c, k, g).len() == c.n_wires,
    ensures
        ({
            let before = supports(c, k, g);
            let after = supports(c, k, g + 1);
            let gate = c.gates@[g as int];
            let both = before[gate.a as int].union(before[gate.b as int]);
            &&& produced(c, w) ==> supports(c, k, 0)[w] == Set::<u64>::empty()
            &&& !produced(c, w) ==> supports(c, k, 0)[w] == set![w as u64]
            &&& w != gate.c ==> after[w] == before[w]
            &&& free(gate.t) && both.len() <= k ==> after[gate.c as int] == both
            &&& !free(gate.t) || both.len() > k ==> after[gate.c as int] == set![(c.n_in + g) as u64]
        }),
{
}

} // verus!
