//! The plan bounds what contesting a gate costs, and the verdicts on what the
//! garbler published.

use crate::anchoring::circuit::{
    available, round_len, round_output, synthetic_gate, well_formed, PCircuit,
};
use crate::anchoring::cost::{cone, cone_shape, drawn, drawn_of, expanded_of, known, visited_cost};
use crate::anchoring::derive::{ordered, resolvable, visited, wire_label, Walk};
use crate::anchoring::garble::{
    anchor_gate, anchored_garbling, garbling, leaf_of, GarbledView,
};
use crate::anchoring::laws::{
    anchored_outputs_carry_anchors, derive_matches_garbler, garbling_labels_prefix, garbling_orders_gate, garbling_orders_wires,
    garbling_shape,
};
use crate::anchoring::merkle::{byte_seqs, gate_leaf_hash, path_leads_to_root, path_of, root_of};
use crate::anchoring::plan::{joined, merged, produced, promoted, readable, supports};
use crate::anchoring::settle::{
    contestable, derived_leaf, fault, first_difference_found, gate_walk, no_labels, output_digest,
};
use crate::anchoring::prf::{anchor_label, input_label, seed_delta};
use crate::gate::{free, Delta};
use crate::s::S;
use vstd::prelude::*;
use vstd::relations::injective_on;
use vstd::set_lib::{lemma_int_range, lemma_len_subset, lemma_len_union, lemma_map_size};

verus! {

/// The number under which a drawn wire stands in a support: an input has its own
/// number, the output of a gate comes after the inputs.
pub open spec fn anchor_id(c: PCircuit, table: Seq<Option<usize>>, w: int) -> u64 {
    if w < c.n_in {
        w as u64
    } else {
        (c.n_in + table[w]->0) as u64
    }
}

/// The drawn wires of `wires` by their numbers.
pub open spec fn anchor_ids(
    c: PCircuit,
    anchored: Seq<bool>,
    table: Seq<Option<usize>>,
    wires: Set<int>,
) -> Set<u64> {
    drawn_of(c, anchored, table, wires).map(|w: int| anchor_id(c, table, w))
}

/// Whether `anchored` is the plan for bound `k`.
pub open spec fn planned(c: PCircuit, k: nat, anchored: Seq<bool>) -> bool {
    &&& anchored.len() == c.gates@.len()
    &&& forall|g: int|
        0 <= g < c.gates@.len() ==> #[trigger] anchored[g] == promoted(c, k, g as nat)
}

/// A well-formed circuit reads no wire before it has a value.
pub proof fn well_formed_is_readable(c: PCircuit)
    requires
        well_formed(c),
    ensures
        readable(c),
{
    assert forall|g: int| 0 <= g < c.gates@.len() implies crate::anchoring::plan::has_value(
        c,
        g,
        (#[trigger] c.gates@[g]).a as int,
    ) && crate::anchoring::plan::has_value(c, g, c.gates@[g].b as int) by {
        assert(available(c, g, c.gates@[g].a) && available(c, g, c.gates@[g].b));
    }
}

/// No support holds more anchors than the bound, or than one where the bound is
/// zero.
pub proof fn supports_are_bounded(c: PCircuit, k: nat, g: nat, w: int)
    requires
        crate::anchoring::circuit::in_range(c),
        g <= c.gates@.len(),
        0 <= w < c.n_wires,
    ensures
        supports(c, k, g).len() == c.n_wires,
        supports(c, k, g)[w].finite(),
        supports(c, k, g)[w].len() <= if k == 0 {
            1
        } else {
            k
        },
    decreases g,
{
    if g > 0 {
        let j = (g - 1) as nat;
        let gate = c.gates@[j as int];
        supports_are_bounded(c, k, j, w);
        supports_are_bounded(c, k, j, gate.a as int);
        supports_are_bounded(c, k, j, gate.b as int);
    }
}

/// Before every gate, the support of each wire that has a value is the set of
/// drawn wires that the wire is derived from.
pub proof fn supports_are_drawn_wires(
    c: PCircuit,
    seed: Seq<u8>,
    k: nat,
    anchored: Seq<bool>,
    g: nat,
    w: usize,
)
    requires
        well_formed(c),
        planned(c, k, anchored),
        g <= c.gates@.len(),
        available(c, g as int, w),
        w < c.n_wires,
    ensures
        ({
            let table = anchored_garbling(c, seed, anchored).gate_of_wire;
            supports(c, k, g)[w as int] == anchor_ids(
                c,
                anchored,
                table,
                cone(c, anchored, table, w as int),
            )
        }),
    decreases g,
{
    let table = anchored_garbling(c, seed, anchored).gate_of_wire;
    let ids = anchor_ids(c, anchored, table, cone(c, anchored, table, w as int));
    assert(c.gates.len() == c.gates@.len());
    supports_are_bounded(c, k, g, w as int);
    if g == 0 {
        assert(!produced(c, w as int));
        assert(drawn(c, anchored, table, w as int));
        assert(cone(c, anchored, table, w as int) == set![w as int]);
        assert(drawn_of(c, anchored, table, set![w as int]) =~= set![w as int]);
        one_id(c, table, w as int);
        assert(supports(c, k, g)[w as int] =~= ids);
    } else {
        let j = (g - 1) as nat;
        let gate = c.gates@[j as int];
        supports_are_bounded(c, k, j, w as int);
        garbling_orders_gate(c, seed, anchored, j as int);
        if w == gate.c {
            assert(table[w as int] == Some(j as usize));
            assert(available(c, j as int, gate.a) && available(c, j as int, gate.b));
            if drawn(c, anchored, table, w as int) {
                assert(drawn_of(c, anchored, table, set![w as int]) =~= set![w as int]);
                one_id(c, table, w as int);
                assert(supports(c, k, g)[w as int] =~= ids);
            } else {
                supports_are_drawn_wires(c, seed, k, anchored, j, gate.a);
                supports_are_drawn_wires(c, seed, k, anchored, j, gate.b);
                let ca = cone(c, anchored, table, gate.a as int);
                let cb = cone(c, anchored, table, gate.b as int);
                assert(cone(c, anchored, table, w as int) == ca.union(cb).insert(w as int));
                ids_of_union(c, anchored, table, ca, cb);
                assert(drawn_of(c, anchored, table, ca.union(cb).insert(w as int)) =~= drawn_of(
                    c,
                    anchored,
                    table,
                    ca.union(cb),
                ));
                assert(!anchored[j as int]);
                assert(!promoted(c, k, j));
                assert(supports(c, k, g)[w as int] == joined(supports(c, k, j), gate));
            }
        } else {
            assert(available(c, j as int, w)) by {
                if w >= c.n_in {
                    let i = choose|i: int| 0 <= i < g && (#[trigger] c.gates@[i]).c == w;
                    assert(i < j);
                }
            }
            supports_are_drawn_wires(c, seed, k, anchored, j, w);
        }
    }
}

/// The numbers of one drawn wire.
proof fn one_id(c: PCircuit, table: Seq<Option<usize>>, w: int)
    ensures
        set![w].map(|v: int| anchor_id(c, table, v)) == set![anchor_id(c, table, w)],
{
    let f = |v: int| anchor_id(c, table, v);
    assert(set![w].contains(w));
    assert(set![w].map(f) =~= set![anchor_id(c, table, w)]) by {
        assert(f(w) == anchor_id(c, table, w));
    }
}

/// The numbers of the drawn wires of two cones.
proof fn ids_of_union(
    c: PCircuit,
    anchored: Seq<bool>,
    table: Seq<Option<usize>>,
    ca: Set<int>,
    cb: Set<int>,
)
    ensures
        anchor_ids(c, anchored, table, ca.union(cb)) == anchor_ids(c, anchored, table, ca).union(
            anchor_ids(c, anchored, table, cb),
        ),
{
    let (da, db) = (drawn_of(c, anchored, table, ca), drawn_of(c, anchored, table, cb));
    assert(drawn_of(c, anchored, table, ca.union(cb)) =~= da.union(db));
    da.lemma_map_union_commute(db, |v: int| anchor_id(c, table, v));
}

/// Deriving the inputs of a gate from nothing draws each drawn wire of their cones
/// once and expands each other wire of their cones once.
pub proof fn gate_walk_cost(
    c: PCircuit,
    seed: Seq<u8>,
    anchored: Seq<bool>,
    table: Seq<Option<usize>>,
    g: int,
)
    requires
        0 <= g < c.gates@.len(),
        ordered(c, anchored, table),
        resolvable(c, table, c.gates@[g].a as int),
        resolvable(c, table, c.gates@[g].b as int),
    ensures
        ({
            let cones = cone(c, anchored, table, c.gates@[g].a as int).union(
                cone(c, anchored, table, c.gates@[g].b as int),
            );
            let walk = gate_walk(c, seed, anchored, table, g);
            &&& walk.anchors == drawn_of(c, anchored, table, cones).len()
            &&& walk.xors == expanded_of(c, anchored, table, cones).len()
        }),
{
    let (a, b) = (c.gates@[g].a as int, c.gates@[g].b as int);
    let start = Walk { memo: no_labels(c.n_wires as nat), anchors: 0, xors: 0, depth: 0 };
    let first = visited(c, seed, anchored, table, a, 0, start);
    lemma_int_range(0, c.n_wires as int);
    assert(known(c, start.memo) =~= Set::empty());
    assert(drawn_of(c, anchored, table, known(c, start.memo)) =~= Set::empty());
    assert(expanded_of(c, anchored, table, known(c, start.memo)) =~= Set::empty());
    visited_cost(c, seed, anchored, table, a, 0, start);
    visited_cost(c, seed, anchored, table, b, 0, first);
    assert(known(c, start.memo).union(cone(c, anchored, table, a)) =~= cone(c, anchored, table, a));
}

/// The drawn wires of a gate's inputs are as many as the anchors that the plan says
/// they rest on.
pub proof fn merged_counts_drawn(
    c: PCircuit,
    seed: Seq<u8>,
    k: nat,
    anchored: Seq<bool>,
    g: int,
)
    requires
        well_formed(c),
        planned(c, k, anchored),
        0 <= g < c.gates@.len(),
        c.n_in + c.gates@.len() <= u64::MAX,
    ensures
        ({
            let table = anchored_garbling(c, seed, anchored).gate_of_wire;
            let cones = cone(c, anchored, table, c.gates@[g].a as int).union(
                cone(c, anchored, table, c.gates@[g].b as int),
            );
            merged(c, k, g as nat).len() == drawn_of(c, anchored, table, cones).len()
        }),
{
    let table = anchored_garbling(c, seed, anchored).gate_of_wire;
    let gate = c.gates@[g];
    let (ca, cb) = (
        cone(c, anchored, table, gate.a as int),
        cone(c, anchored, table, gate.b as int),
    );
    let cones = ca.union(cb);
    assert(c.gates.len() == c.gates@.len());
    garbling_orders_gate(c, seed, anchored, g);
    garbling_orders_wires(c, seed, anchored);
    garbling_shape(c, seed, anchored, c.gates@.len());
    assert(available(c, g, gate.a) && available(c, g, gate.b));
    supports_are_drawn_wires(c, seed, k, anchored, g as nat, gate.a);
    supports_are_drawn_wires(c, seed, k, anchored, g as nat, gate.b);
    cone_shape(c, anchored, table, gate.a as int);
    cone_shape(c, anchored, table, gate.b as int);
    let f = |w: int| anchor_id(c, table, w);
    let wires = drawn_of(c, anchored, table, cones);
    lemma_len_subset(wires, cones);
    assert(injective_on(f, wires)) by {
        assert forall|x: int, y: int|
            wires.contains(x) && wires.contains(y) && #[trigger] f(x) == #[trigger] f(
                y,
            ) implies x == y by {
            assert(ca.contains(x) || cb.contains(x));
            assert(ca.contains(y) || cb.contains(y));
            assert(resolvable(c, table, x) && resolvable(c, table, y));
            if x >= c.n_in && y >= c.n_in {
                assert(c.gates@[table[x]->0 as int].c == x);
                assert(c.gates@[table[y]->0 as int].c == y);
            }
        }
    }
    lemma_map_size(wires, wires.map(f), f);
    ids_of_union(c, anchored, table, ca, cb);
    assert(wires.map(f) == merged(c, k, g as nat));
}

/// Under the plan for bound `k`, the anchors that are drawn to contest a gate are
/// those that its inputs rest on, and they are at most `2 * k`.
pub proof fn plan_bounds_cost(
    c: PCircuit,
    seed: Seq<u8>,
    k: nat,
    anchored: Seq<bool>,
    g: int,
)
    requires
        well_formed(c),
        planned(c, k, anchored),
        k >= 1,
        0 <= g < c.gates@.len(),
        c.n_in + c.gates@.len() <= u64::MAX,
    ensures
        ({
            let table = anchored_garbling(c, seed, anchored).gate_of_wire;
            let walk = gate_walk(c, seed, anchored, table, g);
            &&& walk.anchors == merged(c, k, g as nat).len()
            &&& walk.anchors <= 2 * k
        }),
{
    let table = anchored_garbling(c, seed, anchored).gate_of_wire;
    let gate = c.gates@[g];
    assert(c.gates.len() == c.gates@.len());
    garbling_orders_gate(c, seed, anchored, g);
    garbling_orders_wires(c, seed, anchored);
    gate_walk_cost(c, seed, anchored, table, g);
    merged_counts_drawn(c, seed, k, anchored, g);
    supports_are_bounded(c, k, g as nat, gate.a as int);
    supports_are_bounded(c, k, g as nat, gate.b as int);
    lemma_len_union(
        supports(c, k, g as nat)[gate.a as int],
        supports(c, k, g as nat)[gate.b as int],
    );
}

/// Every leaf that the garbler publishes after the first `g` gates is the leaf that
/// follows from the seed and the wiring.
proof fn leaves_follow(c: PCircuit, seed: Seq<u8>, anchored: Seq<bool>, g: nat, i: int)
    requires
        well_formed(c),
        g <= c.gates@.len(),
        0 <= i < garbling(c, seed, anchored, g).leaves.len(),
    ensures
        ({
            let table = anchored_garbling(c, seed, anchored).gate_of_wire;
            let v = garbling(c, seed, anchored, g);
            v.leaves[i] == derived_leaf(c, seed, anchored, table, v.leaf_gate[i] as int)
        }),
    decreases g,
{
    garbling_shape(c, seed, anchored, g);
    assert(c.gates.len() == c.gates@.len());
    if g > 0 {
        let j = g - 1;
        let v = garbling(c, seed, anchored, j as nat);
        garbling_shape(c, seed, anchored, j as nat);
        if i < v.leaves.len() {
            leaves_follow(c, seed, anchored, j as nat, i);
        } else {
            let gate = c.gates@[j];
            assert(available(c, j, gate.a) && available(c, j, gate.b));
            garbling_labels_prefix(c, seed, anchored, j as nat);
            assert(garbling(c, seed, anchored, g).leaves[i] == leaf_of(c, seed, v.labels0, j));
        }
    }
}

/// The hashes of the published leaves, in order.
pub open spec fn leaf_hashes(c: PCircuit, v: GarbledView) -> Seq<Seq<u8>> {
    Seq::new(
        v.leaves.len(),
        |i: int| gate_leaf_hash(c, v.leaf_gate[i], v.leaves[i].0, v.leaves[i].1),
    )
}

/// A leaf that the garbler published, with its path to the root over the published
/// leaves, can be contested and is the leaf that follows from the seed, so the
/// verdict on it is zero. Any other leaf of the same gate that can be contested
/// under some root differs from it, so the verdict on it is one.
pub proof fn honest_leaf_acquits(
    c: PCircuit,
    seed: Seq<u8>,
    anchored: Seq<bool>,
    i: int,
    path: Seq<[u8; 32]>,
    other: (S, S),
)
    requires
        well_formed(c),
        0 <= i < anchored_garbling(c, seed, anchored).leaves.len(),
        byte_seqs(path) == path_of(leaf_hashes(c, anchored_garbling(c, seed, anchored)), i),
        other != anchored_garbling(c, seed, anchored).leaves[i],
    ensures
        ({
            let v = anchored_garbling(c, seed, anchored);
            let table = v.gate_of_wire;
            let g = v.leaf_gate[i];
            let root = root_of(leaf_hashes(c, v));
            &&& contestable(c, anchored, root, i, g, v.leaves[i], path)
            &&& derived_leaf(c, seed, anchored, table, g as int) == v.leaves[i]
            &&& derived_leaf(c, seed, anchored, table, g as int) != other
            &&& ordered(c, anchored, table)
            &&& resolvable(c, table, c.gates@[g as int].a as int)
            &&& resolvable(c, table, c.gates@[g as int].b as int)
        }),
{
    let v = anchored_garbling(c, seed, anchored);
    garbling_shape(c, seed, anchored, c.gates@.len());
    leaves_follow(c, seed, anchored, c.gates@.len(), i);
    path_leads_to_root(leaf_hashes(c, v), i);
    garbling_orders_wires(c, seed, anchored);
    garbling_orders_gate(c, seed, anchored, v.leaf_gate[i] as int);
}

/// The commitment that the garbler makes to an output is the one that follows from
/// the derived label, so the verdict on it is zero.
pub proof fn honest_output_acquits(
    c: PCircuit,
    seed: Seq<u8>,
    anchored: Seq<bool>,
    w: usize,
    delta: Delta,
)
    requires
        well_formed(c),
        w < c.n_wires,
        available(c, c.gates@.len() as int, w),
    ensures
        ({
            let v = anchored_garbling(c, seed, anchored);
            output_digest(v.labels0[w as int], delta) == output_digest(
                wire_label(c, seed, anchored, v.gate_of_wire, w as int),
                delta,
            )
        }),
{
    derive_matches_garbler(c, seed, anchored, w);
}

/// Published data is without fault exactly if the leaves are those of the garbling
/// and the output commitments are those of the output wires.
pub proof fn no_fault_means_honest(
    g: GarbledView,
    delta: Delta,
    recv_leaves: Seq<(S, S)>,
    outs: Seq<usize>,
    recv_outs: Seq<[u8; 32]>,
)
    ensures
        fault(g, delta, recv_leaves, outs, recv_outs) is None <==> recv_leaves == g.leaves
            && byte_seqs(recv_outs) == Seq::new(
            outs.len(),
            |i: int| output_digest(g.labels0[outs[i] as int], delta),
        ),
{
    let want = Seq::new(outs.len(), |i: int| output_digest(g.labels0[outs[i] as int], delta));
    if recv_leaves.len() == g.leaves.len() {
        first_difference_found(recv_leaves, g.leaves, 0);
    }
    assert(byte_seqs(recv_outs).len() == recv_outs.len());
    if recv_outs.len() == outs.len() {
        first_difference_found(byte_seqs(recv_outs), want, 0);
    }
}

/// Every synthetic circuit is well formed.
pub proof fn synthetic_is_well_formed(c: PCircuit, n_and: int, xor_depth: int)
    requires
        n_and >= 0,
        xor_depth >= 0,
        n_and > 0 ==> c.n_in > 0,
        c.n_wires == c.n_in + n_and * round_len(xor_depth),
        c.gates@.len() == n_and * round_len(xor_depth),
        forall|i: int, d: int|
            0 <= i < n_and && 0 <= d <= xor_depth ==> #[trigger] c.gates@[i * round_len(xor_depth)
                + d] == #[trigger] synthetic_gate(c.n_in as int, xor_depth, i, d),
    ensures
        well_formed(c),
        forall|g: int| 0 <= g < c.gates@.len() ==> (#[trigger] c.gates@[g]).c == c.n_in + g,
{
    let len = round_len(xor_depth);
    let n_in = c.n_in as int;
    assert(n_and * len >= 0) by (nonlinear_arith)
        requires
            n_and >= 0,
            len >= 1,
    ;
    assert forall|g: int| 0 <= g < c.gates@.len() implies (#[trigger] c.gates@[g]).c == c.n_in + g
        && c.gates@[g].a < n_in + g && c.gates@[g].b < n_in + g by {
        let i = g / len;
        let d = g % len;
        vstd::arithmetic::div_mod::lemma_fundamental_div_mod(g, len);
        assert(0 <= d < len && 0 <= i);
        assert(g == i * len + d) by (nonlinear_arith)
            requires
                g == len * i + d,
        ;
        assert(i < n_and) by (nonlinear_arith)
            requires
                g == i * len + d,
                d >= 0,
                g < n_and * len,
                len >= 1,
        ;
        assert(c.gates@[i * len + d] == synthetic_gate(n_in, xor_depth, i, d));
        if i > 0 {
            earlier_round(n_in, xor_depth, i, 0);
            earlier_round(n_in, xor_depth, i, (i + d) % i);
            earlier_round(n_in, xor_depth, i, (i + 1) % i);
        }
    }
    assert forall|g: int| 0 <= g < c.gates@.len() implies (#[trigger] c.gates@[g]).c >= c.n_in
        && available(c, g, c.gates@[g].a) && available(c, g, c.gates@[g].b) by {
        let (a, b) = (c.gates@[g].a, c.gates@[g].b);
        if a >= c.n_in {
            assert(c.gates@[a - c.n_in].c == a);
        }
        if b >= c.n_in {
            assert(c.gates@[b - c.n_in].c == b);
        }
    }
}

/// The output of an earlier round comes before the wires of round `i`.
proof fn earlier_round(n_in: int, xor_depth: int, i: int, j: int)
    requires
        0 <= j < i,
        xor_depth >= 0,
        n_in >= 0,
    ensures
        0 <= round_output(n_in, xor_depth, j) < n_in + i * round_len(xor_depth),
{
    let len = round_len(xor_depth);
    assert(j * len + len <= i * len && j * len >= 0) by (nonlinear_arith)
        requires
            0 <= j < i,
            len >= 1,
    ;
}

/// The plan anchors just the free gates that would be dear: a free gate is anchored
/// exactly if more than `k` anchors are drawn to contest it.
pub proof fn plan_anchors_dear_gates(
    c: PCircuit,
    seed: Seq<u8>,
    k: nat,
    anchored: Seq<bool>,
    g: int,
)
    requires
        well_formed(c),
        planned(c, k, anchored),
        k >= 1,
        0 <= g < c.gates@.len(),
        c.n_in + c.gates@.len() <= u64::MAX,
    ensures
        anchored[g] <==> free(c.gates@[g].t) && gate_walk(
            c,
            seed,
            anchored,
            anchored_garbling(c, seed, anchored).gate_of_wire,
            g,
        ).anchors > k,
{
    plan_bounds_cost(c, seed, k, anchored, g);
}

/// The wires of a garbled circuit carry, for false, the labels that the seed draws: an
/// input the label for its number, the output of an anchored gate its anchor, and the
/// output of any other gate what its boolean function makes of its inputs' labels.
pub proof fn garbled_wires_carry_drawn_labels(
    c: PCircuit,
    seed: Seq<u8>,
    anchored: Seq<bool>,
    w: usize,
    g: int,
)
    requires
        well_formed(c),
        w < c.n_in,
        0 <= g < c.gates@.len(),
    ensures
        ({
            let labels = anchored_garbling(c, seed, anchored).labels0;
            let gate = c.gates@[g];
            let (a, b, out) = (
                labels[gate.a as int].0,
                labels[gate.b as int].0,
                labels[gate.c as int].0,
            );
            &&& labels[w as int] == input_label(seed, w as int)
            &&& if !free(gate.t) || anchored[g] {
                out == anchor_label(seed, free(gate.t), g).0
            } else if gate.t is Xor {
                out == a ^ b
            } else if gate.t is Xnor {
                out == a ^ b ^ seed_delta(seed).0.0
            } else {
                out == a ^ seed_delta(seed).0.0
            }
        }),
{
    let n = c.gates@.len();
    let gate = c.gates@[g];
    let table = anchored_garbling(c, seed, anchored).gate_of_wire;
    assert(c.gates.len() == n);
    assert(available(c, n as int, w));
    derive_matches_garbler(c, seed, anchored, w);
    assert(available(c, n as int, gate.c));
    derive_matches_garbler(c, seed, anchored, gate.c);
    garbling_orders_gate(c, seed, anchored, g);
    assert(available(c, g, gate.a) && available(c, g, gate.b));
    assert(available(c, n as int, gate.a)) by {
        if gate.a >= c.n_in {
            let j = choose|j: int| 0 <= j < g && (#[trigger] c.gates@[j]).c == gate.a;
            assert(0 <= j < n);
        }
    }
    assert(available(c, n as int, gate.b)) by {
        if gate.b >= c.n_in {
            let j = choose|j: int| 0 <= j < g && (#[trigger] c.gates@[j]).c == gate.b;
            assert(0 <= j < n);
        }
    }
    derive_matches_garbler(c, seed, anchored, gate.a);
    derive_matches_garbler(c, seed, anchored, gate.b);
    if anchor_gate(c, anchored, g) {
        anchored_outputs_carry_anchors(c, seed, anchored, g);
    }
}

} // verus!
