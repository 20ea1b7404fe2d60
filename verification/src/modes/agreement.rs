//! Evaluating a circuit follows garbling it, gate by gate.

use crate::ciphertext_hasher::MultiCiphertextHandler;
use crate::gate::{
    active, constant_wire, free, Delta, GarbledWire, Gate, WireId, UNREACHABLE_ID,
};
use crate::halfgates::{evaluation_follows_garbling, garbled};
use crate::hashers::{AesNiHasher, GateHasher};
use crate::modes::backend::{
    creditable, place_of, store_after_allocate, store_after_credits, store_after_lookup,
    CircuitMode,
};
use crate::modes::ciphertexts::CiphertextSource;
use crate::modes::evaluate::{EvaluateMode, EvaluatedWire};
use crate::modes::multigarble::{
    array_of, array_of_has_elements, lane_ciphertexts, lane_outputs, MultigarblingMode,
};
use crate::s::S;
use crate::storage::{Credits, StoreView};
use vstd::prelude::*;

verus! {

/// Whether an evaluated wire carries the active label of its value in lane `k`.
pub open spec fn wires_agree<const N: usize>(
    label0s: [S; N],
    wire: EvaluatedWire,
    delta: Delta,
    k: int,
) -> bool {
    wire.active_label == active(label0s@[k], delta, wire.value)
}

/// Whether two storages are in use alike and the evaluator's wires carry the active
/// labels of the garbler's lane `k`.
pub open spec fn stores_agree<const N: usize>(
    gs: StoreView<Option<[S; N]>>,
    es: StoreView<Option<EvaluatedWire>>,
    delta: Delta,
    k: int,
) -> bool {
    &&& gs.vacant == es.vacant
    &&& gs.entries.dom() == es.entries.dom()
    &&& forall|i: int| #[trigger]
        gs.holds(i) ==> gs.credits(i) == es.credits(i) && match (gs.value(i), es.value(i)) {
            (Some(label0s), Some(wire)) => wires_agree(label0s, wire, delta, k),
            (None, None) => true,
            _ => false,
        }
}

/// Whether an evaluator stands where lane `k` of a garbler stands.
pub open spec fn modes_agree<H: GateHasher, MCTH: MultiCiphertextHandler<N>, SRC: CiphertextSource, const N: usize>(
    g: MultigarblingMode<H, MCTH, N>,
    e: EvaluateMode<AesNiHasher, SRC>,
    k: int,
) -> bool {
    let delta = g.deltas_arr@[k];
    &&& g.gate_index == e.gate_index
    &&& e.false_wire == active(g.false_label0s@[k], delta, false)
    &&& e.true_wire == active(g.true_label0s@[k], delta, true)
    &&& stores_agree(g.storage@, e.storage@, delta, k)
}

proof fn lookups_agree<const N: usize>(
    gs: StoreView<Option<[S; N]>>,
    es: StoreView<Option<EvaluatedWire>>,
    delta: Delta,
    k: int,
    w: WireId,
)
    requires
        stores_agree(gs, es, delta, k),
    ensures
        stores_agree(store_after_lookup(gs, w), store_after_lookup(es, w), delta, k),
{
    let i = place_of(w);
    let (g1, e1) = (store_after_lookup(gs, w), store_after_lookup(es, w));
    assert(gs.holds(i) <==> es.holds(i));
    assert(g1.entries.dom() =~= e1.entries.dom());
    assert forall|j: int| #[trigger] g1.holds(j) implies g1.credits(j) == e1.credits(j) && match (
        g1.value(j),
        e1.value(j),
    ) {
        (Some(label0s), Some(wire)) => wires_agree(label0s, wire, delta, k),
        (None, None) => true,
        _ => false,
    } by {
        assert(gs.holds(j));
    }
}

proof fn writes_agree<const N: usize>(
    gs: StoreView<Option<[S; N]>>,
    es: StoreView<Option<EvaluatedWire>>,
    delta: Delta,
    k: int,
    i: int,
    label0s: [S; N],
    wire: EvaluatedWire,
)
    requires
        stores_agree(gs, es, delta, k),
        gs.holds(i),
        wires_agree(label0s, wire, delta, k),
    ensures
        stores_agree(gs.after_set(i, Some(label0s)), es.after_set(i, Some(wire)), delta, k),
{
    let (g1, e1) = (gs.after_set(i, Some(label0s)), es.after_set(i, Some(wire)));
    assert(g1.entries.dom() =~= e1.entries.dom());
    assert forall|j: int| #[trigger] g1.holds(j) implies g1.credits(j) == e1.credits(j) && match (
        g1.value(j),
        e1.value(j),
    ) {
        (Some(l), Some(v)) => wires_agree(l, v, delta, k),
        (None, None) => true,
        _ => false,
    } by {
        assert(gs.holds(j));
    }
}

/// If an evaluator stands where lane `k` of a garbler stands, both run the same
/// gate, and the evaluator gets the ciphertext that the garbler made for the lane,
/// the evaluator again stands where the lane stands.
pub proof fn gate_keeps_agreement<H: GateHasher, MCTH: MultiCiphertextHandler<N>, SRC: CiphertextSource, const N: usize>(
    g0: MultigarblingMode<H, MCTH, N>,
    g1: MultigarblingMode<H, MCTH, N>,
    e0: EvaluateMode<AesNiHasher, SRC>,
    e1: EvaluateMode<AesNiHasher, SRC>,
    gate: Gate,
    k: int,
)
    requires
        0 <= k < N,
        modes_agree(g0, e0, k),
        g0.may_evaluate(gate),
        e0.may_evaluate(gate),
        MultigarblingMode::<H, MCTH, N>::evaluated(g0, gate, g1),
        EvaluateMode::<AesNiHasher, SRC>::evaluated(e0, gate, e1),
        gate.wire_c.0 != UNREACHABLE_ID && !free(gate.gate_type) ==> e0.source.upcoming()[0]
            == g1.output_handler.taken().last()@[k],
    ensures
        modes_agree(g1, e1, k),
{
    let delta = g0.deltas_arr@[k];
    let (gs0, es0) = (g0.storage@, e0.storage@);
    let (gs1, es1) = (
        store_after_lookup(gs0, gate.wire_a),
        store_after_lookup(es0, gate.wire_a),
    );
    let (gs2, es2) = (
        store_after_lookup(gs1, gate.wire_b),
        store_after_lookup(es1, gate.wire_b),
    );
    lookups_agree(gs0, es0, delta, k, gate.wire_a);
    lookups_agree(gs1, es1, delta, k, gate.wire_b);
    if gate.wire_c.0 != UNREACHABLE_ID {
        let ga = g0.labels_in(gs0, gate.wire_a)->0;
        let gb = g0.labels_in(gs1, gate.wire_b)->0;
        let ea = e0.value_in(es0, gate.wire_a)->0;
        let eb = e0.value_in(es1, gate.wire_b)->0;
        assert(wires_agree(ga, ea, delta, k)) by {
            assert(!constant_wire(gate.wire_a) ==> gs0.holds(place_of(gate.wire_a)));
        }
        assert(wires_agree(gb, eb, delta, k)) by {
            assert(!constant_wire(gate.wire_b) ==> gs1.holds(place_of(gate.wire_b)));
        }
        let t = gate.gate_type;
        let id = g0.gate_index;
        let outs = lane_outputs::<N>(gate, ga, gb, g0.deltas_arr, id);
        lane_outputs_elements::<N>(gate, ga, gb, g0.deltas_arr, id);
        let ct = if free(t) {
            S(0)
        } else {
            e0.source.upcoming()[0]
        };
        if !free(t) {
            assert(g1.output_handler.taken().last() == lane_ciphertexts::<N>(
                gate,
                ga,
                gb,
                g0.deltas_arr,
                id,
            ));
        }
        evaluation_follows_garbling(
            AesNiHasher,
            t,
            ga@[k],
            gb@[k],
            delta,
            id,
            ea.value,
            eb.value,
            ct,
        );
        let wire = crate::modes::evaluate::evaluated_output(AesNiHasher, gate, ea, eb, ct, id);
        assert(wires_agree(outs, wire, delta, k));
        writes_agree(gs2, es2, delta, k, place_of(gate.wire_c), outs, wire);
    }
}

/// The lanes of a garbled gate, element by element.
pub proof fn lane_outputs_elements<const N: usize>(
    gate: Gate,
    a: [S; N],
    b: [S; N],
    deltas: [Delta; N],
    gate_id: usize,
)
    ensures
        lane_outputs::<N>(gate, a, b, deltas, gate_id)@ == Seq::new(
            N as nat,
            |k: int| garbled(AesNiHasher, gate.gate_type, a@[k], b@[k], deltas@[k], gate_id).0,
        ),
        lane_ciphertexts::<N>(gate, a, b, deltas, gate_id)@ == Seq::new(
            N as nat,
            |k: int| garbled(AesNiHasher, gate.gate_type, a@[k], b@[k], deltas@[k], gate_id).1->0,
        ),
{
    array_of_has_elements::<S, N>(
        Seq::new(
            N as nat,
            |k: int| garbled(AesNiHasher, gate.gate_type, a@[k], b@[k], deltas@[k], gate_id).0,
        ),
        a,
    );
    array_of_has_elements::<S, N>(
        Seq::new(
            N as nat,
            |k: int| garbled(AesNiHasher, gate.gate_type, a@[k], b@[k], deltas@[k], gate_id).1->0,
        ),
        a,
    );
}

proof fn allocations_agree<const N: usize>(
    gs: StoreView<Option<[S; N]>>,
    es: StoreView<Option<EvaluatedWire>>,
    delta: Delta,
    k: int,
    credits: Credits,
)
    requires
        stores_agree(gs, es, delta, k),
    ensures
        stores_agree(
            store_after_allocate(gs, credits),
            store_after_allocate(es, credits),
            delta,
            k,
        ),
{
    let (g1, e1) = (store_after_allocate(gs, credits), store_after_allocate(es, credits));
    assert(gs.next_place() == es.next_place());
    assert(g1.entries.dom() =~= e1.entries.dom());
    assert forall|j: int| #[trigger] g1.holds(j) implies g1.credits(j) == e1.credits(j) && match (
        g1.value(j),
        e1.value(j),
    ) {
        (Some(l), Some(v)) => wires_agree(l, v, delta, k),
        (None, None) => true,
        _ => false,
    } by {
        if credits == 0 || j != gs.next_place() {
            assert(gs.holds(j));
        }
    }
}

proof fn credits_agree<const N: usize>(
    gs: StoreView<Option<[S; N]>>,
    es: StoreView<Option<EvaluatedWire>>,
    delta: Delta,
    k: int,
    wires: Seq<WireId>,
    credits: Credits,
)
    requires
        stores_agree(gs, es, delta, k),
        creditable(gs, wires, credits),
    ensures
        stores_agree(
            store_after_credits(gs, wires, credits),
            store_after_credits(es, wires, credits),
            delta,
            k,
        ),
    decreases wires.len(),
{
    if wires.len() > 0 {
        let rest = wires.drop_last();
        credits_agree(gs, es, delta, k, rest, credits);
        let (g0, e0) = (
            store_after_credits(gs, rest, credits),
            store_after_credits(es, rest, credits),
        );
        let i = place_of(wires.last());
        let (g1, e1) = (g0.after_add(i, credits), e0.after_add(i, credits));
        assert(g0.holds(i));
        assert(g1.entries.dom() =~= e1.entries.dom());
        assert forall|j: int| #[trigger] g1.holds(j) implies g1.credits(j) == e1.credits(j)
            && match (g1.value(j), e1.value(j)) {
            (Some(l), Some(v)) => wires_agree(l, v, delta, k),
            (None, None) => true,
            _ => false,
        } by {
            assert(g0.holds(j));
        }
    }
}

/// What a backend is asked to do while a circuit runs.
pub enum Operation {
    Evaluate { gate: Gate },
    Allocate { credits: Credits },
    Credit { wires: Seq<WireId>, credits: Credits },
    Feed { wire: WireId },
}

/// Whether a backend did what it was asked to, with this value for an input that is fed.
pub open spec fn performed<M: CircuitMode>(pre: M, op: Operation, value: M::WireValue, post: M) -> bool {
    match op {
        Operation::Evaluate { gate } => pre.may_evaluate(gate) && M::evaluated(pre, gate, post),
        Operation::Allocate { credits } => exists|w: WireId| #[trigger]
            M::allocated(pre, credits, w, post),
        Operation::Credit { wires, credits } => pre.may_add_credits(wires, credits) && M::credited(
            pre,
            wires,
            credits,
            post,
        ),
        Operation::Feed { wire } => pre.may_feed(wire) && M::fed(pre, wire, value, post),
    }
}

/// Whether a fed value carries the label that stands for it.
pub open spec fn feeds_agree(labels: GarbledWire, wire: EvaluatedWire, delta: Delta) -> bool {
    wire.active_label == active(labels.label0, delta, wire.value)
}

/// How many ciphertexts an operation makes.
pub open spec fn ciphertexts_of(op: Operation) -> nat {
    match op {
        Operation::Evaluate { gate } => if gate.wire_c.0 != UNREACHABLE_ID && !free(
            gate.gate_type,
        ) {
            1
        } else {
            0
        },
        _ => 0,
    }
}

/// One operation keeps the agreement, the offset and what the garbler has made, adds the
/// ciphertexts of the operation, and takes as many from the evaluator's source.
proof fn operation_keeps_agreement<
    H: GateHasher,
    MCTH: MultiCiphertextHandler<N>,
    SRC: CiphertextSource,
    const N: usize,
>(
    g0: MultigarblingMode<H, MCTH, N>,
    g1: MultigarblingMode<H, MCTH, N>,
    e0: EvaluateMode<AesNiHasher, SRC>,
    e1: EvaluateMode<AesNiHasher, SRC>,
    op: Operation,
    labels: [GarbledWire; N],
    wire: EvaluatedWire,
    k: int,
)
    requires
        0 <= k < N,
        modes_agree(g0, e0, k),
        performed(g0, op, labels, g1),
        performed(e0, op, wire, e1),
        op is Feed ==> feeds_agree(labels@[k], wire, g0.deltas_arr@[k]),
        ciphertexts_of(op) == 1 ==> e0.source.upcoming()[0] == g1.output_handler.taken().last()@[k],
    ensures
        modes_agree(g1, e1, k),
        g1.deltas_arr == g0.deltas_arr,
        g0.output_handler.taken() == g1.output_handler.taken().take(
            g0.output_handler.taken().len() as int,
        ),
        g1.output_handler.taken().len() == g0.output_handler.taken().len() + ciphertexts_of(op),
        e1.source.upcoming() == e0.source.upcoming().skip(ciphertexts_of(op) as int),
{
    let (t0, t1) = (g0.output_handler.taken(), g1.output_handler.taken());
    let delta = g0.deltas_arr@[k];
    match op {
        Operation::Evaluate { gate } => {
            gate_keeps_agreement(g0, g1, e0, e1, gate, k);
        },
        Operation::Allocate { credits } => {
            allocations_agree(g0.storage@, e0.storage@, delta, k, credits);
        },
        Operation::Credit { wires, credits } => {
            credits_agree(g0.storage@, e0.storage@, delta, k, wires, credits);
        },
        Operation::Feed { wire: at } => {
            let label0s = array_of::<S, N>(Seq::new(N as nat, |j: int| labels@[j].label0));
            array_of_has_elements::<S, N>(
                Seq::new(N as nat, |j: int| labels@[j].label0),
                g0.false_label0s,
            );
            if crate::gate::stored_wire(at) {
                writes_agree(g0.storage@, e0.storage@, delta, k, place_of(at), label0s, wire);
            }
        },
    }
    assert(t0 =~= t1.take(t0.len() as int));
    if ciphertexts_of(op) == 0 {
        assert(e0.source.upcoming().skip(0) =~= e0.source.upcoming());
    } else {
        assert(e0.source.upcoming().skip(1) =~= e0.source.upcoming().drop_first());
    }
}

/// What is made in a run is not changed later in it.
proof fn ciphertexts_are_kept<H: GateHasher, MCTH: MultiCiphertextHandler<N>, const N: usize>(
    ops: Seq<Operation>,
    gs: Seq<MultigarblingMode<H, MCTH, N>>,
    labels: Seq<[GarbledWire; N]>,
    i: int,
)
    requires
        gs.len() == ops.len() + 1,
        forall|j: int|
            0 <= j < ops.len() ==> performed(gs[j], #[trigger] ops[j], labels[j], gs[j + 1]),
        0 <= i <= ops.len(),
    ensures
        gs[i].output_handler.taken().len() <= gs.last().output_handler.taken().len(),
        gs[i].output_handler.taken() == gs.last().output_handler.taken().take(
            gs[i].output_handler.taken().len() as int,
        ),
    decreases ops.len() - i,
{
    let t = gs[i].output_handler.taken();
    if i < ops.len() {
        ciphertexts_are_kept(ops, gs, labels, i + 1);
        assert(performed(gs[i], ops[i], labels[i], gs[i + 1]));
        let u = gs[i + 1].output_handler.taken();
        assert(t.len() <= u.len());
        assert(t =~= u.take(t.len() as int));
        let last = gs.last().output_handler.taken();
        assert(last.take(u.len() as int).take(t.len() as int) =~= last.take(t.len() as int));
    } else {
        assert(t =~= t.take(t.len() as int));
    }
}

/// Evaluating a circuit follows garbling it: if an evaluator starts where lane `k` of a
/// garbler starts, both are asked for the same operations, the inputs carry the labels
/// of their values, and the evaluator's source holds the ciphertexts that the garbler
/// makes for the lane, the evaluator ends where the lane ends.
pub proof fn circuit_keeps_agreement<
    H: GateHasher,
    MCTH: MultiCiphertextHandler<N>,
    SRC: CiphertextSource,
    const N: usize,
>(
    ops: Seq<Operation>,
    gs: Seq<MultigarblingMode<H, MCTH, N>>,
    es: Seq<EvaluateMode<AesNiHasher, SRC>>,
    labels: Seq<[GarbledWire; N]>,
    wires: Seq<EvaluatedWire>,
    k: int,
    i: int,
)
    requires
        0 <= k < N,
        gs.len() == ops.len() + 1,
        es.len() == ops.len() + 1,
        modes_agree(gs[0], es[0], k),
        forall|j: int|
            0 <= j < ops.len() ==> performed(gs[j], #[trigger] ops[j], labels[j], gs[j + 1]),
        forall|j: int|
            0 <= j < ops.len() ==> performed(es[j], #[trigger] ops[j], wires[j], es[j + 1]),
        forall|j: int|
            0 <= j < ops.len() && (#[trigger] ops[j]) is Feed ==> feeds_agree(
                labels[j]@[k],
                wires[j],
                gs[0].deltas_arr@[k],
            ),
        gs.last().output_handler.taken().len() <= gs[0].output_handler.taken().len()
            + es[0].source.upcoming().len(),
        forall|c: int|
            gs[0].output_handler.taken().len() <= c < gs.last().output_handler.taken().len()
                ==> es[0].source.upcoming()[c - gs[0].output_handler.taken().len()]
                == #[trigger] gs.last().output_handler.taken()[c]@[k],
        0 <= i <= ops.len(),
    ensures
        modes_agree(gs[i], es[i], k),
        gs[i].deltas_arr == gs[0].deltas_arr,
        gs[0].output_handler.taken().len() <= gs[i].output_handler.taken().len(),
        es[i].source.upcoming() == es[0].source.upcoming().skip(
            gs[i].output_handler.taken().len() - gs[0].output_handler.taken().len(),
        ),
    decreases i,
{
    let t0 = gs[0].output_handler.taken();
    let u0 = es[0].source.upcoming();
    if i == 0 {
        assert(u0.skip(0) =~= u0);
    } else {
        let j = i - 1;
        circuit_keeps_agreement(ops, gs, es, labels, wires, k, j);
        assert(performed(gs[j], ops[j], labels[j], gs[j + 1]));
        assert(performed(es[j], ops[j], wires[j], es[j + 1]));
        ciphertexts_are_kept(ops, gs, labels, i);
        ciphertexts_are_kept(ops, gs, labels, j);
        let (t, u) = (gs[j].output_handler.taken(), gs[i].output_handler.taken());
        let last = gs.last().output_handler.taken();
        let done = t.len() - t0.len();
        if ciphertexts_of(ops[j]) == 1 {
            assert(u.len() == t.len() + 1);
            assert(u.last() == last[t.len() as int]);
            assert(es[j].source.upcoming().len() > 0);
            assert(es[j].source.upcoming()[0] == u0[done]);
            assert(u0[t.len() - t0.len()] == last[t.len() as int]@[k]);
        }
        operation_keeps_agreement(
            gs[j],
            gs[i],
            es[j],
            es[i],
            ops[j],
            labels[j],
            wires[j],
            k,
        );
        let n = ciphertexts_of(ops[j]) as int;
        if n == 1 {
            assert(u0.skip(done).skip(n) =~= u0.skip(done + n));
        } else {
            assert(u0.skip(done).skip(0) =~= u0.skip(done));
        }
    }
}

} // verus!
