//! Checking published leaves and output commitments against the seed.

use crate::anchoring::circuit::{in_range, PCircuit};
use crate::anchoring::derive::{
    ordered, resolvable, visited, visited_finds_label, wire_label, DeriveStats, Walk,
};
use crate::anchoring::garble::{
    anchor_gate, anchored_garbling, covers, garble_anchored, gate_leaf, is_anchor_gate, Garbled,
    GarbledView,
};
use crate::anchoring::merkle::{
    byte_seqs, climb, gate_leaf_hash, leaf_hash_of, merkle_ok,
};
use crate::anchoring::plan::AnchorPlan;
use crate::anchoring::prf::{anchor_of, delta_of, hasher_of, seed_delta};
use crate::bytes::same_bytes;
use crate::gate::{free, Delta};
use crate::halfgates::garble_gate;
use crate::primitives::{blake3_digest, blake3_hash};
use crate::s::{be_bytes, bytes_round_trip, push_bytes, xor, S};
use vstd::prelude::*;

verus! {

/// The commitment to both labels of an output wire.
pub open spec fn output_digest(l0: S, delta: Delta) -> Seq<u8> {
    blake3_digest(be_bytes(l0.0) + be_bytes(xor(l0, delta.0).0))
}

/// Commits to both labels of an output wire.
pub fn output_commit(l0: S, delta: &Delta) -> (r: [u8; 32])
    ensures
        r@ == output_digest(l0, *delta),
{
    let mut input: Vec<u8> = Vec::new();
    push_bytes(&mut input, l0.to_bytes().as_slice());
    push_bytes(&mut input, S::xor(l0, delta.0).to_bytes().as_slice());
    assert(input@ =~= be_bytes(l0.0) + be_bytes(xor(l0, delta.0).0));
    blake3_hash(input.as_slice())
}

/// The commitments to the output wires `outs`.
pub fn output_commits(gb: &Garbled, seed: &[u8; 32], outs: &[usize]) -> (r: Vec<[u8; 32]>)
    requires
        forall|i: int| 0 <= i < outs@.len() ==> (#[trigger] outs@[i]) < gb.labels0@.len(),
    ensures
        r@.len() == outs@.len(),
        forall|i: int|
            0 <= i < outs@.len() ==> (#[trigger] r@[i])@ == output_digest(
                gb.labels0@[outs@[i] as int],
                seed_delta(seed@),
            ),
{
    let delta = delta_of(seed);
    let mut r: Vec<[u8; 32]> = Vec::new();
    let mut i: usize = 0;
    while i < outs.len()
        invariant
            i <= outs@.len(),
            delta == seed_delta(seed@),
            forall|k: int| 0 <= k < outs@.len() ==> (#[trigger] outs@[k]) < gb.labels0@.len(),
            r@.len() == i,
            forall|k: int|
                0 <= k < i ==> (#[trigger] r@[k])@ == output_digest(
                    gb.labels0@[outs@[k] as int],
                    seed_delta(seed@),
                ),
        decreases outs@.len() - i,
    {
        r.push(output_commit(gb.labels0[outs[i]], &delta));
        i = i + 1;
    }
    r
}

/// A memo that knows no label.
fn empty_memo(n: usize) -> (r: Vec<Option<S>>)
    ensures
        r@ == no_labels(n as nat),
{
    let mut r: Vec<Option<S>> = Vec::new();
    let mut i: usize = 0;
    while i < n
        invariant
            i <= n,
            r@ == no_labels(i as nat),
        decreases n - i,
    {
        r.push(None);
        i = i + 1;
        assert(r@ =~= no_labels(i as nat));
    }
    assert(r@ =~= no_labels(n as nat));
    r
}

/// `n` unknown labels.
pub open spec fn no_labels(n: nat) -> Seq<Option<S>> {
    Seq::new(n, |i: int| None)
}

/// Judges the published commitment to output number `i`: one if it is not that of
/// the derived label, zero if it is or there is nothing to judge.
pub fn phi_settle_output(
    c: &PCircuit,
    seed: &[u8; 32],
    gate_of_wire: &[Option<usize>],
    plan: &AnchorPlan,
    outs: &[usize],
    i: usize,
    published: &[[u8; 32]],
) -> (r: u8)
    requires
        i < outs@.len() && i < published@.len() ==> {
            &&& resolvable(*c, gate_of_wire@, outs@[i as int] as int)
            &&& covers(*c, plan.anchored@)
            &&& ordered(*c, plan.anchored@, gate_of_wire@)
        },
    ensures
        r == if i < outs@.len() && i < published@.len() && output_digest(
            wire_label(*c, seed@, plan.anchored@, gate_of_wire@, outs@[i as int] as int),
            seed_delta(seed@),
        ) != published@[i as int]@ {
            1
        } else {
            0u8
        },
{
    if i >= outs.len() || i >= published.len() {
        return 0;
    }
    let delta = delta_of(seed);
    let mut memo = empty_memo(c.n_wires);
    let mut st = DeriveStats::default();
    let l0 = crate::anchoring::derive::derive(c, seed, gate_of_wire, plan, outs[i], &mut memo, &mut st);
    if same_bytes(&output_commit(l0, &delta), &published[i]) {
        0
    } else {
        1
    }
}

/// The walk that derives both inputs of gate `g` from nothing.
pub open spec fn gate_walk(
    c: PCircuit,
    seed: Seq<u8>,
    anchored: Seq<bool>,
    table: Seq<Option<usize>>,
    g: int,
) -> Walk {
    let start = Walk { memo: no_labels(c.n_wires as nat), anchors: 0, xors: 0, depth: 0 };
    let first = visited(c, seed, anchored, table, c.gates@[g].a as int, 0, start);
    visited(c, seed, anchored, table, c.gates@[g].b as int, 0, first)
}

/// The leaf of gate `g` that follows from the seed and the wiring.
pub open spec fn derived_leaf(
    c: PCircuit,
    seed: Seq<u8>,
    anchored: Seq<bool>,
    table: Seq<Option<usize>>,
    g: int,
) -> (S, S) {
    gate_leaf(
        c,
        seed,
        g,
        wire_label(c, seed, anchored, table, c.gates@[g].a as int),
        wire_label(c, seed, anchored, table, c.gates@[g].b as int),
    )
}

/// Whether a leaf can be contested: it belongs to an anchored gate of the circuit
/// and its path leads to the root.
pub open spec fn contestable(
    c: PCircuit,
    anchored: Seq<bool>,
    root: Seq<u8>,
    leaf_idx: int,
    g: usize,
    leaf: (S, S),
    path: Seq<[u8; 32]>,
) -> bool {
    &&& g < c.gates@.len()
    &&& climb(gate_leaf_hash(c, g, leaf.0, leaf.1), leaf_idx, byte_seqs(path)) == root
    &&& anchor_gate(c, anchored, g as int)
}

/// Judges a published leaf of gate `g`: one if it can be contested and is not the
/// leaf that follows from the seed, else zero. Also tells what deriving the inputs
/// cost.
pub fn phi_settle_v2(
    c: &PCircuit,
    seed: &[u8; 32],
    plan: &AnchorPlan,
    root: [u8; 32],
    leaf_idx: usize,
    g: usize,
    leaf: (S, S),
    path: &[[u8; 32]],
    gate_of_wire: &[Option<usize>],
) -> (r: (u8, DeriveStats))
    requires
        covers(*c, plan.anchored@),
        contestable(*c, plan.anchored@, root@, leaf_idx as int, g, leaf, path@) ==> {
            &&& ordered(*c, plan.anchored@, gate_of_wire@)
            &&& resolvable(*c, gate_of_wire@, c.gates@[g as int].a as int)
            &&& resolvable(*c, gate_of_wire@, c.gates@[g as int].b as int)
        },
        2 * c.n_wires <= usize::MAX,
    ensures
        r.0 == if contestable(*c, plan.anchored@, root@, leaf_idx as int, g, leaf, path@) && leaf
            != derived_leaf(*c, seed@, plan.anchored@, gate_of_wire@, g as int) {
            1
        } else {
            0u8
        },
        ({
            let walk = gate_walk(*c, seed@, plan.anchored@, gate_of_wire@, g as int);
            if contestable(*c, plan.anchored@, root@, leaf_idx as int, g, leaf, path@) {
                &&& r.1.anchors_touched == walk.anchors
                &&& r.1.xor_nodes_visited == walk.xors
                &&& r.1.max_depth == walk.depth
            } else {
                &&& r.1.anchors_touched == 0
                &&& r.1.xor_nodes_visited == 0
                &&& r.1.max_depth == 0
            }
        }),
{
    let mut st = DeriveStats::default();
    if g >= c.gates.len() {
        return (0, st);
    }
    let hash = leaf_hash_of(c, g, leaf.0, leaf.1);
    if !merkle_ok(hash, leaf_idx, path, root) {
        return (0, st);
    }
    if !is_anchor_gate(c, plan, g) {
        return (0, st);
    }
    let gate = c.gates[g];
    let mut memo = empty_memo(c.n_wires);
    let a0 = crate::anchoring::derive::derive(c, seed, gate_of_wire, plan, gate.a, &mut memo, &mut st);
    proof {
        let start = Walk { memo: no_labels(c.n_wires as nat), anchors: 0, xors: 0, depth: 0 };
        visited_finds_label(*c, seed@, plan.anchored@, gate_of_wire@, gate.a as int, 0, start);
        crate::anchoring::cost::visited_cost_bounded(
            *c,
            seed@,
            plan.anchored@,
            gate_of_wire@,
            gate.a as int,
            0,
            start,
        );
    }
    let b0 = crate::anchoring::derive::derive(c, seed, gate_of_wire, plan, gate.b, &mut memo, &mut st);
    let delta = delta_of(seed);
    let gh = hasher_of(seed);
    let (c_base, ct) = garble_gate(&gh, gate.t, a0, b0, &delta, g);
    let r_exp = S::xor(c_base, anchor_of(seed, c, g));
    let t_exp = match ct {
        Some(t) => t,
        None => S::zero(),
    };
    if t_exp != leaf.0 || r_exp != leaf.1 {
        return (1, st);
    }
    (0, st)
}

/// What is wrong with published data.
#[derive(Clone, Copy, Debug, PartialEq, Eq, Structural)]
pub enum VeFault {
    /// The leaf of this gate; gate zero if the number of leaves is wrong.
    Leaf { gate: usize },
    /// The output commitment with this index; index zero if their number is wrong.
    Output { index: usize },
}

/// The first index from `from` on at which two sequences differ; the length of the
/// first if there is none.
pub open spec fn first_difference<T>(a: Seq<T>, b: Seq<T>, from: int) -> int
    decreases a.len() - from,
{
    if from >= a.len() || a[from] != b[from] {
        from
    } else {
        first_difference(a, b, from + 1)
    }
}

/// The fault in published leaves and output commitments, if there is one: leaves
/// before outputs, a wrong number before a wrong entry, the first wrong entry
/// before the others.
pub open spec fn fault(
    g: GarbledView,
    delta: Delta,
    recv_leaves: Seq<(S, S)>,
    outs: Seq<usize>,
    recv_outs: Seq<[u8; 32]>,
) -> Option<VeFault> {
    let want = Seq::new(outs.len(), |i: int| output_digest(g.labels0[outs[i] as int], delta));
    let i = first_difference(recv_leaves, g.leaves, 0);
    let o = first_difference(byte_seqs(recv_outs), want, 0);
    if recv_leaves.len() != g.leaves.len() {
        Some(VeFault::Leaf { gate: 0 })
    } else if i < recv_leaves.len() {
        Some(VeFault::Leaf { gate: g.leaf_gate[i] })
    } else if recv_outs.len() != outs.len() {
        Some(VeFault::Output { index: 0 })
    } else if o < recv_outs.len() {
        Some(VeFault::Output { index: o as usize })
    } else {
        None
    }
}

/// The first difference of two sequences of equal length is their length exactly
/// if they are equal.
pub proof fn first_difference_found<T>(a: Seq<T>, b: Seq<T>, from: int)
    requires
        a.len() == b.len(),
        0 <= from <= a.len(),
        forall|k: int| 0 <= k < from ==> a[k] == b[k],
    ensures
        from <= first_difference(a, b, from) <= a.len(),
        first_difference(a, b, from) == a.len() <==> a == b,
        first_difference(a, b, from) < a.len() ==> a[first_difference(a, b, from)]
            != b[first_difference(a, b, from)],
    decreases a.len() - from,
{
    if from < a.len() && a[from] == b[from] {
        first_difference_found(a, b, from + 1);
    } else if from == a.len() {
        assert(a =~= b);
    }
}

/// Garbles again from the seed and compares with what was published.
pub fn ve(
    c: &PCircuit,
    seed: &[u8; 32],
    plan: &AnchorPlan,
    recv_leaves: &[(S, S)],
    outs: &[usize],
    recv_outs: &[[u8; 32]],
) -> (r: Option<VeFault>)
    requires
        in_range(*c),
        covers(*c, plan.anchored@),
        recv_leaves@ == anchored_garbling(*c, seed@, plan.anchored@).leaves ==> forall|i: int|
            0 <= i < outs@.len() ==> (#[trigger] outs@[i]) < c.n_wires,
    ensures
        r == fault(
            anchored_garbling(*c, seed@, plan.anchored@),
            seed_delta(seed@),
            recv_leaves@,
            outs@,
            recv_outs@,
        ),
{
    let gb = garble_anchored(c, seed, plan);
    let ghost v = anchored_garbling(*c, seed@, plan.anchored@);
    proof {
        crate::anchoring::laws::garbling_shape(*c, seed@, plan.anchored@, c.gates@.len());
    }
    if recv_leaves.len() != gb.leaves.len() {
        return Some(VeFault::Leaf { gate: 0 });
    }
    let mut i: usize = 0;
    while i < recv_leaves.len()
        invariant
            i <= recv_leaves@.len(),
            recv_leaves@.len() == v.leaves.len(),
            v.leaves.len() == v.leaf_gate.len(),
            gb@ == v,
            first_difference(recv_leaves@, v.leaves, 0) == first_difference(
                recv_leaves@,
                v.leaves,
                i as int,
            ),
            forall|k: int| 0 <= k < i ==> recv_leaves@[k] == v.leaves[k],
            v == anchored_garbling(*c, seed@, plan.anchored@),
        decreases recv_leaves@.len() - i,
    {
        let (got_t, got_r) = recv_leaves[i];
        let (want_t, want_r) = gb.leaves[i];
        if got_t != want_t || got_r != want_r {
            return Some(VeFault::Leaf { gate: gb.leaf_gate[i] });
        }
        i = i + 1;
    }
    assert(recv_leaves@ =~= v.leaves);
    let want = output_commits(&gb, seed, outs);
    if recv_outs.len() != want.len() {
        return Some(VeFault::Output { index: 0 });
    }
    let ghost digests = Seq::new(
        outs@.len(),
        |i: int| output_digest(v.labels0[outs@[i] as int], seed_delta(seed@)),
    );
    let mut o: usize = 0;
    while o < recv_outs.len()
        invariant
            o <= recv_outs@.len(),
            recv_outs@.len() == want@.len(),
            want@.len() == digests.len(),
            forall|k: int| 0 <= k < digests.len() ==> (#[trigger] want@[k])@ == digests[k],
            first_difference(byte_seqs(recv_outs@), digests, 0) == first_difference(
                byte_seqs(recv_outs@),
                digests,
                o as int,
            ),
            recv_leaves@ == v.leaves,
            first_difference(recv_leaves@, v.leaves, 0) >= recv_leaves@.len(),
            digests == Seq::new(
                outs@.len(),
                |i: int| output_digest(v.labels0[outs@[i] as int], seed_delta(seed@)),
            ),
            v == anchored_garbling(*c, seed@, plan.anchored@),
        decreases recv_outs@.len() - o,
    {
        assert(byte_seqs(recv_outs@)[o as int] == recv_outs@[o as int]@);
        assert(want@[o as int]@ == digests[o as int]);
        if !same_bytes(&recv_outs[o], &want[o]) {
            return Some(VeFault::Output { index: o });
        }
        o = o + 1;
    }
    None
}

/// Sizes in bytes of what is published and of a witness.
#[derive(Clone, Copy, Debug, PartialEq, Eq, Structural)]
pub struct Sizes {
    pub n_leaf: usize,
    pub f_bytes: usize,
    pub witness: usize,
}

/// The bytes of the leaves of `leaf_gate`: 32 for a non-free gate, 16 for a free
/// one.
pub open spec fn leaf_bytes(c: PCircuit, leaf_gate: Seq<usize>) -> nat
    decreases leaf_gate.len(),
{
    if leaf_gate.len() == 0 {
        0
    } else {
        leaf_bytes(c, leaf_gate.drop_last()) + if free(c.gates@[leaf_gate.last() as int].t) {
            16nat
        } else {
            32
        }
    }
}

/// The sizes of a garbling whose paths have `path_len` hashes.
pub fn sizes(c: &PCircuit, gb: &Garbled, path_len: usize) -> (r: Sizes)
    requires
        forall|i: int| 0 <= i < gb.leaf_gate@.len() ==> (#[trigger] gb.leaf_gate@[i])
            < c.gates@.len(),
        32 * gb.leaf_gate@.len() <= usize::MAX,
        72 + 32 * path_len <= usize::MAX,
    ensures
        r.n_leaf == gb.leaves@.len(),
        r.f_bytes == leaf_bytes(*c, gb.leaf_gate@),
        r.witness == 72 + 32 * path_len,
{
    let mut f_bytes: usize = 0;
    let mut i: usize = 0;
    while i < gb.leaf_gate.len()
        invariant
            i <= gb.leaf_gate@.len(),
            forall|k: int| 0 <= k < gb.leaf_gate@.len() ==> (#[trigger] gb.leaf_gate@[k])
                < c.gates@.len(),
            32 * gb.leaf_gate@.len() <= usize::MAX,
            f_bytes <= 32 * i,
            f_bytes == leaf_bytes(*c, gb.leaf_gate@.take(i as int)),
        decreases gb.leaf_gate@.len() - i,
    {
        assert(gb.leaf_gate@.take(i + 1).drop_last() =~= gb.leaf_gate@.take(i as int));
        let add: usize = if c.gates[gb.leaf_gate[i]].t.is_free() {
            16
        } else {
            32
        };
        f_bytes = f_bytes + add;
        i = i + 1;
    }
    assert(gb.leaf_gate@.take(gb.leaf_gate@.len() as int) =~= gb.leaf_gate@);
    Sizes { n_leaf: gb.leaves.len(), f_bytes, witness: 32 + 8 + 32 + 32 * path_len }
}

/// The commitment to an output is the digest of its two labels, the one for false before
/// the one for true, and no other labels have that message.
pub proof fn output_message_is_unique(l0: S, delta: Delta, other: S, offset: Delta, m: Seq<u8>)
    requires
        m.len() == 32,
        m.take(16) == be_bytes(l0.0),
        m.skip(16) == be_bytes(l0.0 ^ delta.0.0),
    ensures
        output_digest(l0, delta) == blake3_digest(m),
        m == be_bytes(other.0) + be_bytes(other.0 ^ offset.0.0) ==> l0 == other && delta == offset,
{
    assert(m =~= be_bytes(l0.0) + be_bytes(l0.0 ^ delta.0.0));
    let n = be_bytes(other.0) + be_bytes(other.0 ^ offset.0.0);
    assert(n.take(16) =~= be_bytes(other.0));
    assert(n.skip(16) =~= be_bytes(other.0 ^ offset.0.0));
    bytes_round_trip(l0, be_bytes(l0.0));
    bytes_round_trip(other, be_bytes(l0.0));
    bytes_round_trip(S(l0.0 ^ delta.0.0), be_bytes(l0.0));
    bytes_round_trip(S(other.0 ^ offset.0.0), be_bytes(l0.0));
    let (l, d, e) = (l0.0, delta.0.0, offset.0.0);
    assert(l ^ d == l ^ e ==> d == e) by (bit_vector);
}

/// A leaf can be contested exactly if its gate is one of the circuit's, is not free or is
/// anchored by the plan, and the leaf's hash climbs to the root.
pub proof fn contest_needs_anchor_and_path(
    c: PCircuit,
    anchored: Seq<bool>,
    root: Seq<u8>,
    leaf_idx: int,
    g: usize,
    leaf: (S, S),
    path: Seq<[u8; 32]>,
)
    ensures
        contestable(c, anchored, root, leaf_idx, g, leaf, path) <==> {
            &&& g < c.gates@.len()
            &&& free(c.gates@[g as int].t) ==> anchored[g as int]
            &&& climb(gate_leaf_hash(c, g, leaf.0, leaf.1), leaf_idx, byte_seqs(path)) == root
        },
{
}

/// The fault that is found is the first: published leaves are blamed before outputs, by
/// their gate at the first that differs, and outputs by their place; where numbers differ
/// gate or place zero is blamed.
pub proof fn first_fault_is_blamed(
    g: GarbledView,
    delta: Delta,
    recv_leaves: Seq<(S, S)>,
    outs: Seq<usize>,
    recv_outs: Seq<[u8; 32]>,
    i: int,
)
    ensures
        recv_leaves.len() != g.leaves.len() ==> fault(g, delta, recv_leaves, outs, recv_outs)
            == Some(VeFault::Leaf { gate: 0 }),
        recv_leaves.len() == g.leaves.len() && 0 <= i < recv_leaves.len() && recv_leaves[i]
            != g.leaves[i] && recv_leaves.take(i) == g.leaves.take(i) ==> fault(
            g,
            delta,
            recv_leaves,
            outs,
            recv_outs,
        ) == Some(VeFault::Leaf { gate: g.leaf_gate[i] }),
        recv_leaves == g.leaves && recv_outs.len() != outs.len() ==> fault(
            g,
            delta,
            recv_leaves,
            outs,
            recv_outs,
        ) == Some(VeFault::Output { index: 0 }),
        recv_leaves == g.leaves && recv_outs.len() == outs.len() && 0 <= i < outs.len()
            <= usize::MAX && recv_outs[i]@ != output_digest(g.labels0[outs[i] as int], delta) && (
        forall|k: int|
            0 <= k < i ==> (#[trigger] recv_outs[k])@ == output_digest(
                g.labels0[outs[k] as int],
                delta,
            )) ==> fault(g, delta, recv_leaves, outs, recv_outs) == Some(
            VeFault::Output { index: i as usize },
        ),
{
    let want = Seq::new(outs.len(), |i: int| output_digest(g.labels0[outs[i] as int], delta));
    if recv_leaves.len() == g.leaves.len() {
        first_difference_found(recv_leaves, g.leaves, 0);
        difference_is_first(recv_leaves, g.leaves, 0, i);
    }
    let got = byte_seqs(recv_outs);
    assert(got.len() == recv_outs.len());
    if recv_outs.len() == outs.len() {
        first_difference_found(got, want, 0);
        difference_is_first(got, want, 0, i);
        if 0 <= i < outs.len() {
            assert(got[i] == recv_outs[i]@);
        }
        if forall|k: int|
            0 <= k < i ==> (#[trigger] recv_outs[k])@ == output_digest(
                g.labels0[outs[k] as int],
                delta,
            ) {
            if 0 <= i < outs.len() {
                assert(got.take(i) =~= want.take(i)) by {
                    assert forall|k: int| 0 <= k < i implies got[k] == want[k] by {
                        assert(recv_outs[k]@ == output_digest(g.labels0[outs[k] as int], delta));
                    }
                }
            }
        }
    }
}

/// The first difference of two sequences is where they differ after they agreed.
pub proof fn difference_is_first<T>(a: Seq<T>, b: Seq<T>, from: int, i: int)
    requires
        0 <= from,
        a.len() == b.len(),
    ensures
        from <= i < a.len() && a[i] != b[i] && a.take(i) == b.take(i) ==> first_difference(
            a,
            b,
            from,
        ) == i,
    decreases a.len() - from,
{
    if from <= i < a.len() && a[i] != b[i] && a.take(i) == b.take(i) && from < i {
        assert(a.take(i)[from] == b.take(i)[from]);
        difference_is_first(a, b, from + 1, i);
    }
}

/// The published leaves take 16 bytes for every anchored gate and 16 more for every one
/// that is not free.
pub proof fn leaf_bytes_are_counted(c: PCircuit, leaf_gate: Seq<usize>)
    ensures
        leaf_bytes(c, leaf_gate) == 16 * leaf_gate.len() + 16 * leaf_gate.filter(
            |g: usize| !free(c.gates@[g as int].t),
        ).len(),
    decreases leaf_gate.len(),
{
    reveal(Seq::filter);
    let nonfree = |g: usize| !free(c.gates@[g as int].t);
    if leaf_gate.len() > 0 {
        leaf_bytes_are_counted(c, leaf_gate.drop_last());
    }
}

} // verus!
