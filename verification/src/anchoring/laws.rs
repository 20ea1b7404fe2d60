//! What holds of anchored garbling as a whole.

use crate::anchoring::circuit::{available, in_range, well_formed, PCircuit};
use crate::anchoring::derive::{free_output, ordered, rank, resolvable, wire_label};
use crate::anchoring::garble::{
    anchor_gate, anchored_garbling, covers, garbling, gate_leaf, leaf_of, natural,
};
use crate::anchoring::prf::{anchor_label, seed_delta, seed_hasher};
use crate::gate::{active, free, gate_fn};
use crate::halfgates::{
    degarbled, evaluation_follows_garbling, free_gates_cost_nothing, garbled,
};
use crate::s::{xor, S};
use vstd::prelude::*;

verus! {

/// Garbling keeps one label and one table entry for each wire, and as many leaves
/// as leaf gates; the table names the gates that were garbled by their outputs.
pub proof fn garbling_shape(c: PCircuit, seed: Seq<u8>, anchored: Seq<bool>, g: nat)
    requires
        in_range(c),
        g <= c.gates@.len(),
    ensures
        ({
            let v = garbling(c, seed, anchored, g);
            &&& v.labels0.len() == c.n_wires
            &&& v.gate_of_wire.len() == c.n_wires
            &&& v.leaves.len() == v.leaf_gate.len()
            &&& v.leaves.len() <= g
            &&& forall|w: int|
                0 <= w < c.n_wires && (#[trigger] v.gate_of_wire[w]) is Some
                    ==> v.gate_of_wire[w]->0 < g && c.gates@[v.gate_of_wire[w]->0 as int].c == w
            &&& forall|i: int|
                0 <= i < v.leaf_gate.len() ==> (#[trigger] v.leaf_gate[i]) < g && anchor_gate(
                    c,
                    anchored,
                    v.leaf_gate[i] as int,
                )
        }),
    decreases g,
{
    assert(c.gates.len() == c.gates@.len());
    if g > 0 {
        garbling_shape(c, seed, anchored, (g - 1) as nat);
    }
}

/// In a well-formed circuit the table of garbling names, for the output of every
/// gate that was garbled, that gate.
pub proof fn garbling_names_writers(
    c: PCircuit,
    seed: Seq<u8>,
    anchored: Seq<bool>,
    g: nat,
    j: int,
)
    requires
        well_formed(c),
        0 <= j < g <= c.gates@.len(),
    ensures
        garbling(c, seed, anchored, g).gate_of_wire[c.gates@[j].c as int] == Some(j as usize),
    decreases g,
{
    garbling_shape(c, seed, anchored, (g - 1) as nat);
    assert(c.gates@[j].c < c.n_wires);
    if j < g - 1 {
        garbling_names_writers(c, seed, anchored, (g - 1) as nat, j);
        assert(c.gates@[j].c != c.gates@[g - 1].c);
    }
}

/// In a well-formed circuit every wire that a gate reads can be resolved through
/// the table of garbling and ranks below its output, for which the table
/// names it.
pub proof fn garbling_orders_gate(c: PCircuit, seed: Seq<u8>, anchored: Seq<bool>, g: int)
    requires
        well_formed(c),
        0 <= g < c.gates@.len(),
    ensures
        ({
            let table = anchored_garbling(c, seed, anchored).gate_of_wire;
            let gate = c.gates@[g];
            &&& resolvable(c, table, gate.a as int)
            &&& resolvable(c, table, gate.b as int)
            &&& resolvable(c, table, gate.c as int)
            &&& rank(c, table, gate.a as int) < rank(c, table, gate.c as int)
            &&& rank(c, table, gate.b as int) < rank(c, table, gate.c as int)
            &&& table[gate.c as int] == Some(g as usize)
        }),
{
    let n = c.gates@.len();
    assert(c.gates.len() == n);
    garbling_shape(c, seed, anchored, n);
    garbling_names_writers(c, seed, anchored, n, g);
    available_resolves(c, seed, anchored, g, c.gates@[g].a);
    available_resolves(c, seed, anchored, g, c.gates@[g].b);
}

/// The table of garbling of a well-formed circuit orders the wires, so that every
/// wire can be derived through it.
pub proof fn garbling_orders_wires(c: PCircuit, seed: Seq<u8>, anchored: Seq<bool>)
    requires
        well_formed(c),
    ensures
        ordered(c, anchored, anchored_garbling(c, seed, anchored).gate_of_wire),
{
    let table = anchored_garbling(c, seed, anchored).gate_of_wire;
    garbling_shape(c, seed, anchored, c.gates@.len());
    assert forall|w: int|
        c.n_in <= w && #[trigger] resolvable(c, table, w) && !anchor_gate(
            c,
            anchored,
            table[w]->0 as int,
        ) implies ({
        let gate = c.gates@[table[w]->0 as int];
        &&& resolvable(c, table, gate.a as int)
        &&& resolvable(c, table, gate.b as int)
        &&& rank(c, table, gate.a as int) < rank(c, table, w)
        &&& rank(c, table, gate.b as int) < rank(c, table, w)
    }) by {
        garbling_orders_gate(c, seed, anchored, table[w]->0 as int);
    }
}

/// A wire that is available before gate `g` can be resolved and has rank at most
/// `g`.
proof fn available_resolves(c: PCircuit, seed: Seq<u8>, anchored: Seq<bool>, g: int, w: usize)
    requires
        well_formed(c),
        0 <= g < c.gates@.len(),
        available(c, g, w),
    ensures
        ({
            let table = anchored_garbling(c, seed, anchored).gate_of_wire;
            resolvable(c, table, w as int) && rank(c, table, w as int) <= g
        }),
{
    let n = c.gates@.len();
    assert(c.gates.len() == n);
    garbling_shape(c, seed, anchored, n);
    if w >= c.n_in {
        let j = choose|j: int| 0 <= j < g && (#[trigger] c.gates@[j]).c == w;
        garbling_names_writers(c, seed, anchored, n, j);
    }
}

/// After the first `g` gates of a well-formed circuit, every wire that is
/// available carries the label that can be derived for it.
pub proof fn garbling_labels_prefix(c: PCircuit, seed: Seq<u8>, anchored: Seq<bool>, g: nat)
    requires
        well_formed(c),
        g <= c.gates@.len(),
    ensures
        forall|w: usize|
            w < c.n_wires && #[trigger] available(c, g as int, w) ==> garbling(
                c,
                seed,
                anchored,
                g,
            ).labels0[w as int] == wire_label(
                c,
                seed,
                anchored,
                anchored_garbling(c, seed, anchored).gate_of_wire,
                w as int,
            ),
    decreases g,
{
    let table = anchored_garbling(c, seed, anchored).gate_of_wire;
    assert(c.gates.len() == c.gates@.len());
    if g > 0 {
        let j = g - 1;
        let before = garbling(c, seed, anchored, j as nat).labels0;
        let after = garbling(c, seed, anchored, g).labels0;
        let gate = c.gates@[j];
        garbling_labels_prefix(c, seed, anchored, j as nat);
        garbling_shape(c, seed, anchored, j as nat);
        garbling_orders_gate(c, seed, anchored, j);
        assert forall|w: usize| w < c.n_wires && #[trigger] available(c, g as int, w) implies after[
            w as int] == wire_label(c, seed, anchored, table, w as int) by {
            if w == gate.c {
                assert(available(c, j, gate.a) && available(c, j, gate.b));
                assert(table[w as int] == Some(j as usize));
                if !anchor_gate(c, anchored, j) {
                    assert(natural(c, seed, before, j).0 == free_output(
                        gate.t,
                        before[gate.a as int],
                        before[gate.b as int],
                        seed_delta(seed),
                    ));
                }
            } else {
                assert(available(c, j, w)) by {
                    if w >= c.n_in {
                        let i = choose|i: int| 0 <= i < g && (#[trigger] c.gates@[i]).c == w;
                        assert(i < j);
                    }
                }
            }
        }
    }
}

/// The label that is derived for a wire of a well-formed circuit from the seed and
/// the wiring is the label that the garbler gave it.
pub proof fn derive_matches_garbler(c: PCircuit, seed: Seq<u8>, anchored: Seq<bool>, w: usize)
    requires
        well_formed(c),
        w < c.n_wires,
        available(c, c.gates@.len() as int, w),
    ensures
        wire_label(
            c,
            seed,
            anchored,
            anchored_garbling(c, seed, anchored).gate_of_wire,
            w as int,
        ) == anchored_garbling(c, seed, anchored).labels0[w as int],
{
    garbling_labels_prefix(c, seed, anchored, c.gates@.len());
}

/// The output of every anchored gate of a well-formed circuit carries its
/// anchor label, whatever its inputs are.
pub proof fn anchored_outputs_carry_anchors(
    c: PCircuit,
    seed: Seq<u8>,
    anchored: Seq<bool>,
    g: int,
)
    requires
        well_formed(c),
        0 <= g < c.gates@.len(),
        anchor_gate(c, anchored, g),
    ensures
        anchored_garbling(c, seed, anchored).labels0[c.gates@[g].c as int] == anchor_label(
            seed,
            free(c.gates@[g].t),
            g,
        ),
{
    let n = c.gates@.len();
    let table = anchored_garbling(c, seed, anchored).gate_of_wire;
    assert(c.gates.len() == n);
    assert(available(c, n as int, c.gates@[g].c));
    derive_matches_garbler(c, seed, anchored, c.gates@[g].c);
    garbling_orders_gate(c, seed, anchored, g);
}

/// Leaves are only added: those of the first `g` gates stay.
proof fn leaves_grow(c: PCircuit, seed: Seq<u8>, anchored: Seq<bool>, g: nat, h: nat)
    requires
        in_range(c),
        g <= h <= c.gates@.len(),
    ensures
        ({
            let small = garbling(c, seed, anchored, g);
            let big = garbling(c, seed, anchored, h);
            &&& small.leaves.len() <= big.leaves.len()
            &&& small.leaf_gate.len() <= big.leaf_gate.len()
            &&& forall|i: int|
                0 <= i < small.leaves.len() ==> #[trigger] big.leaves[i] == small.leaves[i]
            &&& forall|i: int|
                0 <= i < small.leaf_gate.len() ==> #[trigger] big.leaf_gate[i]
                    == small.leaf_gate[i]
        }),
    decreases h,
{
    if g < h {
        leaves_grow(c, seed, anchored, g, (h - 1) as nat);
        garbling_shape(c, seed, anchored, (h - 1) as nat);
        garbling_shape(c, seed, anchored, g);
    }
}

/// What an evaluator holds: an active label and a value for each wire, and the
/// number of leaves it has used.
pub struct Evaluation {
    pub active: Seq<S>,
    pub values: Seq<bool>,
    pub used: nat,
}

/// The evaluator's state after the first `g` gates: it evaluates each gate from
/// active labels and moves the output of an anchored gate by the offset in
/// its leaf.
pub open spec fn evaluation(
    c: PCircuit,
    seed: Seq<u8>,
    anchored: Seq<bool>,
    leaves: Seq<(S, S)>,
    inputs: Seq<S>,
    bits: Seq<bool>,
    g: nat,
) -> Evaluation
    decreases g,
{
    if g == 0 {
        Evaluation {
            active: Seq::new(
                c.n_wires as nat,
                |w: int|
                    if w < c.n_in {
                        inputs[w]
                    } else {
                        S(0)
                    },
            ),
            values: Seq::new(c.n_wires as nat, |w: int| w < c.n_in && bits[w]),
            used: 0,
        }
    } else {
        let j = g - 1;
        let e = evaluation(c, seed, anchored, leaves, inputs, bits, j as nat);
        let gate = c.gates@[j];
        let out = degarbled(
            seed_hasher(seed),
            gate.t,
            leaves[e.used as int].0,
            e.active[gate.a as int],
            e.values[gate.a as int],
            e.active[gate.b as int],
            j as usize,
        );
        Evaluation {
            active: e.active.update(
                gate.c as int,
                if anchor_gate(c, anchored, j) {
                    xor(out, leaves[e.used as int].1)
                } else {
                    out
                },
            ),
            values: e.values.update(
                gate.c as int,
                gate_fn(gate.t, e.values[gate.a as int], e.values[gate.b as int]),
            ),
            used: if anchor_gate(c, anchored, j) {
                e.used + 1
            } else {
                e.used
            },
        }
    }
}

/// An evaluator that starts from the active labels of some input bits and uses the
/// published leaves holds, after every gate and on every wire, the active label of
/// the wire's value.
pub proof fn evaluation_is_correct(
    c: PCircuit,
    seed: Seq<u8>,
    anchored: Seq<bool>,
    inputs: Seq<S>,
    bits: Seq<bool>,
    g: nat,
)
    requires
        in_range(c),
        covers(c, anchored),
        inputs.len() == c.n_in,
        bits.len() == c.n_in,
        forall|w: int|
            0 <= w < c.n_in ==> #[trigger] inputs[w] == active(
                garbling(c, seed, anchored, 0).labels0[w],
                seed_delta(seed),
                bits[w],
            ),
        g <= c.gates@.len(),
    ensures
        ({
            let e = evaluation(
                c,
                seed,
                anchored,
                anchored_garbling(c, seed, anchored).leaves,
                inputs,
                bits,
                g,
            );
            let v = garbling(c, seed, anchored, g);
            &&& e.used == v.leaves.len()
            &&& e.active.len() == c.n_wires
            &&& e.values.len() == c.n_wires
            &&& forall|w: int|
                0 <= w < c.n_wires ==> #[trigger] e.active[w] == active(
                    v.labels0[w],
                    seed_delta(seed),
                    e.values[w],
                )
        }),
    decreases g,
{
    let leaves = anchored_garbling(c, seed, anchored).leaves;
    garbling_shape(c, seed, anchored, g);
    if g > 0 {
        let j = g - 1;
        let gate = c.gates@[j];
        let delta = seed_delta(seed);
        let e = evaluation(c, seed, anchored, leaves, inputs, bits, j as nat);
        let v = garbling(c, seed, anchored, j as nat);
        evaluation_is_correct(c, seed, anchored, inputs, bits, j as nat);
        garbling_shape(c, seed, anchored, j as nat);
        let (a0, b0) = (v.labels0[gate.a as int], v.labels0[gate.b as int]);
        let (av, bv) = (e.values[gate.a as int], e.values[gate.b as int]);
        if anchor_gate(c, anchored, j) {
            leaves_grow(c, seed, anchored, g, c.gates@.len());
            let next = garbling(c, seed, anchored, g);
            assert(next.leaves[v.leaves.len() as int] == leaf_of(c, seed, v.labels0, j));
            assert(leaves[e.used as int] == leaf_of(c, seed, v.labels0, j));
        }
        let base = natural(c, seed, v.labels0, j).0;
        evaluation_follows_garbling(
            seed_hasher(seed),
            gate.t,
            a0,
            b0,
            delta,
            j as usize,
            av,
            bv,
            leaves[e.used as int].0,
        );
        let out_value = gate_fn(gate.t, av, bv);
        let anchor = anchor_label(seed, free(gate.t), j);
        let (x, y, d) = (base.0, anchor.0, delta.0.0);
        assert(x ^ (x ^ y) == y && (x ^ d) ^ (x ^ y) == y ^ d) by (bit_vector);
        assert(xor(active(base, delta, out_value), xor(base, anchor)) == active(
            anchor,
            delta,
            out_value,
        ));
    }
}

/// The leaf of a gate: its ciphertext, zero for a free gate, and the exclusive or of the
/// output label that garbling gives and its anchor.
pub proof fn leaf_holds_ciphertext_and_offset(c: PCircuit, seed: Seq<u8>, g: int, a0: S, b0: S)
    ensures
        ({
            let made = garbled(
                seed_hasher(seed),
                c.gates@[g].t,
                a0,
                b0,
                seed_delta(seed),
                g as usize,
            );
            let leaf = gate_leaf(c, seed, g, a0, b0);
            &&& free(c.gates@[g].t) ==> leaf.0 == S(0)
            &&& !free(c.gates@[g].t) ==> made.1 == Some(leaf.0)
            &&& leaf.1.0 == made.0.0 ^ anchor_label(seed, free(c.gates@[g].t), g).0
        }),
{
    free_gates_cost_nothing(
        seed_hasher(seed),
        c.gates@[g].t,
        a0,
        b0,
        seed_delta(seed),
        g as usize,
    );
}

/// The leaves are those of the anchored gates, each once, in the order of the gates.
pub proof fn leaves_are_of_anchored_gates(
    c: PCircuit,
    seed: Seq<u8>,
    anchored: Seq<bool>,
    n: nat,
    g: int,
    i: int,
    j: int,
)
    requires
        n <= usize::MAX,
        0 <= g < n,
    ensures
        ({
            let gates = garbling(c, seed, anchored, n).leaf_gate;
            &&& gates.contains(g as usize) <==> anchor_gate(c, anchored, g)
            &&& 0 <= i < j < gates.len() ==> gates[i] < gates[j]
            &&& 0 <= i < gates.len() ==> gates[i] < n
            &&& garbling(c, seed, anchored, n).leaves.len() == gates.len()
        }),
    decreases n,
{
    let m = (n - 1) as nat;
    let before = garbling(c, seed, anchored, m).leaf_gate;
    let gates = garbling(c, seed, anchored, n).leaf_gate;
    if m > 0 {
        leaves_are_of_anchored_gates(c, seed, anchored, m, if g < m {
            g
        } else {
            0
        }, i, j);
        assert forall|k: int| 0 <= k < before.len() implies #[trigger] before[k] < m by {
            leaves_are_of_anchored_gates(c, seed, anchored, m, 0, k, k);
        }
    } else {
        assert(before.len() == 0);
    }
    if anchor_gate(c, anchored, m as int) {
        assert(gates == before.push(m as usize));
        assert(gates[before.len() as int] == m);
        if before.contains(g as usize) {
            let k = choose|k: int| 0 <= k < before.len() && before[k] == g;
            assert(gates[k] == g);
        }
        if gates.contains(g as usize) && g < m {
            let k = choose|k: int| 0 <= k < gates.len() && gates[k] == g;
            assert(before[k] == g);
        }
        if 0 <= i < before.len() {
            assert(gates[i] == before[i]);
        }
    } else {
        assert(gates == before);
    }
}

} // verus!
