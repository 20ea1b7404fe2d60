//! Garbling with anchored outputs.

use crate::anchoring::circuit::{in_range, PCircuit};
use crate::anchoring::plan::AnchorPlan;
use crate::anchoring::prf::{
    anchor_label, delta_of, hasher_of, input_label, label0, seed_delta, seed_hasher, AnchorPrf,
};
use crate::gate::free;
use crate::halfgates::{garble_gate, garbled};
use crate::s::{xor, S};
use vstd::prelude::*;

verus! {

/// What anchored garbling publishes and keeps.
pub struct Garbled {
    /// The false label of every wire.
    pub labels0: Vec<S>,
    /// The ciphertext and the offset of every anchored gate. An anchored free gate
    /// has no ciphertext: zero stands in its place.
    pub leaves: Vec<(S, S)>,
    /// For every leaf its gate.
    pub leaf_gate: Vec<usize>,
    /// For each wire what gate writes it.
    pub gate_of_wire: Vec<Option<usize>>,
}

/// The contents of a `Garbled`.
pub struct GarbledView {
    pub labels0: Seq<S>,
    pub leaves: Seq<(S, S)>,
    pub leaf_gate: Seq<usize>,
    pub gate_of_wire: Seq<Option<usize>>,
}

impl View for Garbled {
    type V = GarbledView;

    open spec fn view(&self) -> GarbledView {
        GarbledView {
            labels0: self.labels0@,
            leaves: self.leaves@,
            leaf_gate: self.leaf_gate@,
            gate_of_wire: self.gate_of_wire@,
        }
    }
}

/// Whether the plan says of every free gate if it is anchored.
pub open spec fn covers(c: PCircuit, anchored: Seq<bool>) -> bool {
    forall|g: int|
        0 <= g < c.gates@.len() && free((#[trigger] c.gates@[g]).t) ==> g < anchored.len()
}

/// Whether gate `g` is an anchor: it is not free, or the plan anchors it.
pub open spec fn anchor_gate(c: PCircuit, anchored: Seq<bool>, g: int) -> bool {
    !free(c.gates@[g].t) || anchored[g]
}

/// The output label for false and the ciphertext of gate `g` on input wires with
/// the false labels `a0` and `b0`.
pub open spec fn gate_garbled(c: PCircuit, seed: Seq<u8>, g: int, a0: S, b0: S) -> (S, Option<S>) {
    garbled(seed_hasher(seed), c.gates@[g].t, a0, b0, seed_delta(seed), g as usize)
}

/// The ciphertext of gate `g`, zero where it has none, and the offset between its
/// natural output label and its anchor, on input wires with the false labels `a0`
/// and `b0`.
pub open spec fn gate_leaf(c: PCircuit, seed: Seq<u8>, g: int, a0: S, b0: S) -> (S, S) {
    let (base, ct) = gate_garbled(c, seed, g, a0, b0);
    (
        match ct {
            Some(t) => t,
            None => S(0),
        },
        xor(base, anchor_label(seed, free(c.gates@[g].t), g)),
    )
}

/// The output label for false and the ciphertext of gate `g`, from the labels of
/// the wires.
pub open spec fn natural(c: PCircuit, seed: Seq<u8>, labels0: Seq<S>, g: int) -> (S, Option<S>) {
    gate_garbled(c, seed, g, labels0[c.gates@[g].a as int], labels0[c.gates@[g].b as int])
}

/// The leaf of gate `g`, from the labels of the wires.
pub open spec fn leaf_of(c: PCircuit, seed: Seq<u8>, labels0: Seq<S>, g: int) -> (S, S) {
    gate_leaf(c, seed, g, labels0[c.gates@[g].a as int], labels0[c.gates@[g].b as int])
}

/// The state of anchored garbling after the first `g` gates: an anchored gate's
/// output carries its anchor label and adds a leaf, another gate's output carries
/// its natural label.
pub open spec fn garbling(c: PCircuit, seed: Seq<u8>, anchored: Seq<bool>, g: nat) -> GarbledView
    decreases g,
{
    if g == 0 {
        GarbledView {
            labels0: Seq::new(
                c.n_wires as nat,
                |w: int|
                    if w < c.n_in {
                        input_label(seed, w)
                    } else {
                        S(0)
                    },
            ),
            leaves: seq![],
            leaf_gate: seq![],
            gate_of_wire: Seq::new(c.n_wires as nat, |w: int| None),
        }
    } else {
        let j = g - 1;
        let v = garbling(c, seed, anchored, j as nat);
        let out = c.gates@[j].c as int;
        if anchor_gate(c, anchored, j) {
            GarbledView {
                labels0: v.labels0.update(out, anchor_label(seed, free(c.gates@[j].t), j)),
                leaves: v.leaves.push(leaf_of(c, seed, v.labels0, j)),
                leaf_gate: v.leaf_gate.push(j as usize),
                gate_of_wire: v.gate_of_wire.update(out, Some(j as usize)),
            }
        } else {
            GarbledView {
                labels0: v.labels0.update(out, natural(c, seed, v.labels0, j).0),
                leaves: v.leaves,
                leaf_gate: v.leaf_gate,
                gate_of_wire: v.gate_of_wire.update(out, Some(j as usize)),
            }
        }
    }
}

/// The result of anchored garbling.
pub open spec fn anchored_garbling(c: PCircuit, seed: Seq<u8>, anchored: Seq<bool>) -> GarbledView {
    garbling(c, seed, anchored, c.gates@.len())
}

/// Whether gate `g` is an anchor.
pub fn is_anchor_gate(c: &PCircuit, plan: &AnchorPlan, g: usize) -> (r: bool)
    requires
        g < c.gates@.len(),
        covers(*c, plan.anchored@),
    ensures
        r == anchor_gate(*c, plan.anchored@, g as int),
{
    !c.gates[g].t.is_free() || plan.anchored[g]
}

/// Garbles a circuit from a seed, anchoring the outputs that the plan names.
pub fn garble_anchored(c: &PCircuit, seed: &[u8; 32], plan: &AnchorPlan) -> (r: Garbled)
    requires
        in_range(*c),
        covers(*c, plan.anchored@),
    ensures
        r@ == anchored_garbling(*c, seed@, plan.anchored@),
{
    let delta = delta_of(seed);
    let gh = hasher_of(seed);
    let ap = AnchorPrf::new(seed);
    let mut labels0: Vec<S> = Vec::new();
    let mut gate_of_wire: Vec<Option<usize>> = Vec::new();
    let ghost start = garbling(*c, seed@, plan.anchored@, 0);
    let mut w: usize = 0;
    while w < c.n_wires
        invariant
            w <= c.n_wires,
            labels0@.len() == w,
            gate_of_wire@.len() == w,
            start == garbling(*c, seed@, plan.anchored@, 0),
            forall|v: int| 0 <= v < w ==> #[trigger] labels0@[v] == start.labels0[v],
            forall|v: int| 0 <= v < w ==> (#[trigger] gate_of_wire@[v]) is None,
        decreases c.n_wires - w,
    {
        if w < c.n_in {
            labels0.push(label0(seed, w));
        } else {
            labels0.push(S::zero());
        }
        gate_of_wire.push(None);
        w = w + 1;
    }
    let mut leaves: Vec<(S, S)> = Vec::new();
    let mut leaf_gate: Vec<usize> = Vec::new();
    proof {
        assert(labels0@ =~= start.labels0);
        assert(gate_of_wire@ =~= start.gate_of_wire);
        assert(leaves@ =~= start.leaves);
        assert(leaf_gate@ =~= start.leaf_gate);
    }
    let mut g: usize = 0;
    while g < c.gates.len()
        invariant
            g <= c.gates@.len(),
            in_range(*c),
            covers(*c, plan.anchored@),
            delta == seed_delta(seed@),
            gh == seed_hasher(seed@),
            ap == crate::anchoring::prf::seed_anchors(seed@),
            labels0@.len() == c.n_wires,
            gate_of_wire@.len() == c.n_wires,
            labels0@ == garbling(*c, seed@, plan.anchored@, g as nat).labels0,
            leaves@ == garbling(*c, seed@, plan.anchored@, g as nat).leaves,
            leaf_gate@ == garbling(*c, seed@, plan.anchored@, g as nat).leaf_gate,
            gate_of_wire@ == garbling(*c, seed@, plan.anchored@, g as nat).gate_of_wire,
        decreases c.gates@.len() - g,
    {
        let gate = c.gates[g];
        let (c_base, ct) = garble_gate(&gh, gate.t, labels0[gate.a], labels0[gate.b], &delta, g);
        gate_of_wire[gate.c] = Some(g);
        match ct {
            Some(t) => {
                let a_g = ap.and(g);
                leaves.push((t, S::xor(c_base, a_g)));
                leaf_gate.push(g);
                labels0[gate.c] = a_g;
            },
            None => {
                if plan.anchored[g] {
                    let a_g = ap.xor(g);
                    leaves.push((S::zero(), S::xor(c_base, a_g)));
                    leaf_gate.push(g);
                    labels0[gate.c] = a_g;
                } else {
                    labels0[gate.c] = c_base;
                }
            },
        }
        g = g + 1;
    }
    Garbled { labels0, leaves, leaf_gate, gate_of_wire }
}

} // verus!
