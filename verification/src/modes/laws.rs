//! What each backend does at a gate, at the entry of an instance and at its end.

use crate::ciphertext_hasher::MultiCiphertextHandler;
use crate::gate::{
    constant_wire, free, gate_code, gate_fn, stored_wire, Delta, GarbledWire, Gate, GateType, WireId,
    UNREACHABLE_ID,
};
use crate::halfgates::{degarbled, garbled};
use crate::hashers::{AesNiHasher, GateHasher};
use crate::modes::agreement::lane_outputs_elements;
use crate::modes::anchor_stats::{
    ancestry_of, bool_lookup, bools_after_lookup, zero_stats, AnchorStatsMode,
};
use crate::modes::backend::{
    allocated_wire, lookup_value, place_of, store_after_allocate, store_after_feed,
    store_after_credits, store_after_lookup, CircuitMode, ComponentKey,
};
use crate::modes::ciphertexts::CiphertextSource;
use crate::modes::component_stats::{key_number, zero_counts, ComponentStatsMode};
use crate::modes::evaluate::{EvaluateMode, EvaluatedWire};
use crate::modes::multigarble::{
    array_of_has_elements, lane_draw, lane_start, wires_of, MultigarblingMode,
};
use crate::modes::topo_export::{
    gate_record, le_bytes_4, source_in, sources_after, zero_topo, TopoExportMode,
};
use crate::primitives::chacha_stream;
use crate::s::{xor, S};
use crate::storage::{Credits, StoreView};
use vstd::prelude::*;

verus! {

/// Garbling a gate in lanes: every lane's output label is that of garbling it from
/// this lane's input labels and offset under the number of gates before it, a non-free
/// gate hands on one ciphertext in each lane, a free one none, and the number of gates
/// grows by one. A gate whose output nothing reads does none of this.
pub proof fn lanes_garble_gates<H: GateHasher, MCTH: MultiCiphertextHandler<N>, const N: usize>(
    pre: MultigarblingMode<H, MCTH, N>,
    gate: Gate,
    post: MultigarblingMode<H, MCTH, N>,
    k: int,
)
    requires
        pre.may_evaluate(gate),
        MultigarblingMode::<H, MCTH, N>::evaluated(pre, gate, post),
        0 <= k < N,
    ensures
        ({
            let st1 = store_after_lookup(pre.storage@, gate.wire_a);
            let a = pre.labels_in(pre.storage@, gate.wire_a)->0;
            let b = pre.labels_in(st1, gate.wire_b)->0;
            let made = garbled(
                AesNiHasher,
                gate.gate_type,
                a@[k],
                b@[k],
                pre.deltas_arr@[k],
                pre.gate_index,
            );
            &&& post.deltas_arr == pre.deltas_arr
            &&& gate.wire_c.0 == UNREACHABLE_ID ==> post.gate_index == pre.gate_index
                && post.output_handler == pre.output_handler
            &&& gate.wire_c.0 != UNREACHABLE_ID ==> {
                &&& post.gate_index == pre.gate_index + 1
                &&& post.storage@.holds(place_of(gate.wire_c))
                &&& post.storage@.value(place_of(gate.wire_c)) is Some
                &&& post.storage@.value(place_of(gate.wire_c))->0@[k] == made.0
                &&& free(gate.gate_type) ==> post.output_handler.taken()
                    == pre.output_handler.taken()
                &&& !free(gate.gate_type) ==> {
                    &&& post.output_handler.taken().len() == pre.output_handler.taken().len() + 1
                    &&& post.output_handler.taken().drop_last() == pre.output_handler.taken()
                    &&& made.1 == Some(post.output_handler.taken().last()@[k])
                }
            }
        }),
{
    let st1 = store_after_lookup(pre.storage@, gate.wire_a);
    let a = pre.labels_in(pre.storage@, gate.wire_a)->0;
    let b = pre.labels_in(st1, gate.wire_b)->0;
    lane_outputs_elements::<N>(gate, a, b, pre.deltas_arr, pre.gate_index);
    if gate.wire_c.0 != UNREACHABLE_ID && !free(gate.gate_type) {
        assert(post.output_handler.taken().drop_last() =~= pre.output_handler.taken());
    }
}

/// What a lane draws from its generator: the offset, the false label of the false wire
/// and that of the true wire, each of four words of the stream, one after the other.
pub proof fn lane_draws_in_order(seed: u64, k: nat)
    ensures
        lane_start(seed).delta.0.0 == chacha_stream(seed, 0),
        lane_start(seed).false_wire_label0.0 == chacha_stream(seed, 4),
        lane_start(seed).true_wire_label0.0 == chacha_stream(seed, 8),
        lane_start(seed).seed == seed,
        lane_start(seed).drawn == 3,
        lane_draw(seed, k).0 == chacha_stream(seed, (4 * k) as u128),
{
}

/// Evaluating a gate: the output has the value of its boolean function and the
/// label that it gives for the number of gates before it, the number of gates grows
/// by one, and just a non-free gate takes a ciphertext from the source. A gate whose
/// output nothing reads does none of this.
pub proof fn gates_are_evaluated<H: GateHasher, SRC: CiphertextSource>(
    pre: EvaluateMode<H, SRC>,
    gate: Gate,
    post: EvaluateMode<H, SRC>,
)
    requires
        pre.may_evaluate(gate),
        EvaluateMode::<H, SRC>::evaluated(pre, gate, post),
    ensures
        ({
            let st1 = store_after_lookup(pre.storage@, gate.wire_a);
            let a = pre.value_in(pre.storage@, gate.wire_a)->0;
            let b = pre.value_in(st1, gate.wire_b)->0;
            let out = post.storage@.value(place_of(gate.wire_c));
            &&& gate.wire_c.0 == UNREACHABLE_ID ==> post.gate_index == pre.gate_index && post.source
                == pre.source
            &&& gate.wire_c.0 != UNREACHABLE_ID ==> {
                &&& post.gate_index == pre.gate_index + 1
                &&& free(gate.gate_type) ==> post.source == pre.source
                &&& !free(gate.gate_type) ==> post.source.upcoming()
                    == pre.source.upcoming().drop_first()
                &&& stored_wire(gate.wire_c) && !free(gate.gate_type) ==> out == Some(
                    EvaluatedWire {
                        active_label: degarbled(
                            pre.gate_hasher,
                            gate.gate_type,
                            pre.source.upcoming()[0],
                            a.active_label,
                            a.value,
                            b.active_label,
                            pre.gate_index,
                        ),
                        value: gate_fn(gate.gate_type, a.value, b.value),
                    },
                )
                &&& stored_wire(gate.wire_c) && free(gate.gate_type) ==> out is Some
                    && out->0.value == gate_fn(gate.gate_type, a.value, b.value)
                    && out->0.active_label.0 == (if gate.gate_type is Not {
                    a.active_label.0
                } else {
                    a.active_label.0 ^ b.active_label.0
                })
            }
        }),
{
}

/// How a gate is counted by what it rests on. The anchors that contesting it draws are
/// those of its inputs together; it is free or not; a free gate is promoted if they are
/// more than the bound. The output of a free gate that is not promoted rests on the same
/// anchors and, besides the free gates before it, on itself; any other output is
/// an anchor of its own.
pub proof fn gate_is_counted_by_its_anchors(
    pre: AnchorStatsMode,
    gate: Gate,
    post: AnchorStatsMode,
)
    requires
        pre.wf(),
        pre.may_evaluate(gate),
        AnchorStatsMode::evaluated(pre, gate, post),
        gate.wire_c.0 != UNREACHABLE_ID,
    ensures
        ({
            let a = ancestry_of(pre.ancestries(), gate.wire_a);
            let b = ancestry_of(pre.ancestries(), gate.wire_b);
            let anchors = a.anchors.union(b.anchors);
            let xors = a.xors.union(b.xors);
            let (p, q) = (pre.stats, post.stats);
            let is_free = free(gate.gate_type);
            let over = anchors.len() > pre.k;
            &&& q.gates == p.gates + 1
            &&& q.free_gates == p.free_gates + if is_free {
                1int
            } else {
                0
            }
            &&& q.nonfree_gates == p.nonfree_gates + if is_free {
                0int
            } else {
                1
            }
            &&& q.promoted == p.promoted + if is_free && over {
                1int
            } else {
                0
            }
            &&& q.sum_anchors == p.sum_anchors + anchors.len()
            &&& q.sum_reads == p.sum_reads + anchors.len() + xors.len()
            &&& q.max_anchors >= p.max_anchors && q.max_anchors >= anchors.len()
            &&& q.max_anchors == p.max_anchors || q.max_anchors == anchors.len()
            &&& q.max_reads >= p.max_reads && q.max_reads >= anchors.len() + xors.len()
            &&& q.max_reads == p.max_reads || q.max_reads == anchors.len() + xors.len()
            &&& q.max_xor_nodes >= p.max_xor_nodes && q.max_xor_nodes >= xors.len()
            &&& q.max_xor_nodes == p.max_xor_nodes || q.max_xor_nodes == xors.len()
            &&& post.gate_index == pre.gate_index + 1
            &&& stored_wire(gate.wire_c) ==> ({
                let out = post.ancestries()[gate.wire_c.0];
                &&& post.ancestries().dom().contains(gate.wire_c.0)
                &&& is_free && !over ==> out.anchors == anchors && out.xors == xors.insert(
                    pre.gate_index,
                )
                &&& !is_free || over ==> out.anchors == set![pre.gate_index] && out.xors
                    == Set::<u64>::empty()
                &&& q.max_support >= out.anchors.len()
                &&& q.max_support == p.max_support || q.max_support == out.anchors.len()
            })
        }),
{
}

/// The record of a gate: twelve bytes, four each for the number of its type and for the
/// sources of its inputs, the lowest byte first.
pub proof fn record_has_three_numbers(t: GateType, a: u32, b: u32)
    ensures
        gate_record(t, a, b).len() == 12,
        gate_record(t, a, b).subrange(0, 4) == le_bytes_4(gate_code(t)),
        gate_record(t, a, b).subrange(4, 8) == le_bytes_4(a),
        gate_record(t, a, b).subrange(8, 12) == le_bytes_4(b),
{
    let r = gate_record(t, a, b);
    assert(r.subrange(0, 4) =~= le_bytes_4(gate_code(t)));
    assert(r.subrange(4, 8) =~= le_bytes_4(a));
    assert(r.subrange(8, 12) =~= le_bytes_4(b));
}

/// The four bytes of a number are its digits to the base 256, the lowest first.
pub proof fn four_bytes_are_digits(x: u32)
    ensures
        le_bytes_4(x).len() == 4,
        x == le_bytes_4(x)[0] + 0x100 * le_bytes_4(x)[1] + 0x1_0000 * le_bytes_4(x)[2] + 0x100_0000
            * le_bytes_4(x)[3],
{
    assert(x == (x as u8) + 0x100 * ((x >> 8) as u8) + 0x1_0000 * ((x >> 16) as u8) + 0x100_0000 * ((
    x >> 24) as u8)) by (bit_vector);
}

/// Exporting a gate. The inputs are named by what produced them: a wire that an earlier
/// gate wrote by that gate's number, any other by the highest bit and the number of inputs
/// found before it. Its record follows those before it unless it is among the gates
/// to skip, and its output is from then on named by its number.
pub proof fn gate_is_exported(pre: TopoExportMode, gate: Gate, post: TopoExportMode)
    requires
        pre.wf(),
        pre.may_evaluate(gate),
        TopoExportMode::evaluated(pre, gate, post),
        gate.wire_c.0 != UNREACHABLE_ID,
        pre.gate_index <= u32::MAX,
    ensures
        ({
            let (wa, wb, wc) = (gate.wire_a.0, gate.wire_b.0, gate.wire_c.0);
            let (p, q) = (pre.stats, post.stats);
            let new_a = !pre.src@.dom().contains(wa);
            let new_b = !pre.src@.dom().contains(wb) && wb != wa;
            let a = if new_a {
                0x8000_0000u32 | pre.next_input
            } else {
                pre.src@[wa]
            };
            let b = if wb == wa {
                a
            } else if new_b {
                0x8000_0000u32 | (pre.next_input + (if new_a {
                    1int
                } else {
                    0
                })) as u32
            } else {
                pre.src@[wb]
            };
            let found = (if new_a {
                1int
            } else {
                0
            }) + (if new_b {
                1int
            } else {
                0
            });
            let written = pre.gate_index >= pre.skip;
            &&& post.src@.dom().contains(wc) && post.src@[wc] == pre.gate_index
            &&& post.next_input == pre.next_input + found
            &&& q.inputs == p.inputs + found
            &&& post.gate_index == pre.gate_index + 1
            &&& post.out@ == if written {
                pre.out@ + le_bytes_4(gate_code(gate.gate_type)) + le_bytes_4(a) + le_bytes_4(b)
            } else {
                pre.out@
            }
            &&& q.gates == p.gates + if written {
                1int
            } else {
                0
            }
            &&& q.and_gates == p.and_gates + if gate.gate_type is And {
                1int
            } else {
                0
            }
            &&& q.free_gates == p.free_gates + if free(gate.gate_type) {
                1int
            } else {
                0
            }
            &&& q.and_gates + q.free_gates + q.nonfree_other == p.and_gates + p.free_gates
                + p.nonfree_other + 1
        }),
{
    assert(gate_record(gate.gate_type, 0, 0).len() == 12);
    let s1 = sources_after(pre.sources(), gate.wire_a);
    let a = source_in(pre.sources(), gate.wire_a);
    let b = source_in(s1, gate.wire_b);
    assert(pre.out@ + gate_record(gate.gate_type, a, b) =~= pre.out@ + le_bytes_4(
        gate_code(gate.gate_type),
    ) + le_bytes_4(a) + le_bytes_4(b));
    assert(post.sources().src == post.src@);
}

/// Counting a gate: it crosses the boundary of the innermost open instance if it reads a
/// wire that was not produced in it, and it reuses a number if its output's is no higher
/// than the one before.
pub proof fn gate_is_counted_in_its_instance(
    pre: ComponentStatsMode,
    gate: Gate,
    post: ComponentStatsMode,
)
    requires
        pre.wf(),
        pre.may_evaluate(gate),
        ComponentStatsMode::evaluated(pre, gate, post),
        gate.wire_c.0 != UNREACHABLE_ID,
    ensures
        ({
            let (p, q) = (pre.stats.counts, post.stats.counts);
            let n = pre.open@.len();
            let crosses = n > 0 && !(pre.produced_in(n - 1).contains(gate.wire_a.0)
                && pre.produced_in(n - 1).contains(gate.wire_b.0));
            let reuses = p.gates > 0 && gate.wire_c.0 <= p.last_wire_c;
            &&& q.gates == p.gates + 1
            &&& q.cross_boundary_inputs == p.cross_boundary_inputs + if crosses {
                1int
            } else {
                0
            }
            &&& q.wire_c_reused == p.wire_c_reused + if reuses {
                1int
            } else {
                0
            }
            &&& p.gates > 0 ==> (q.wire_c_monotonic <==> p.wire_c_monotonic && !reuses)
            &&& p.gates == 0 ==> q.wire_c_monotonic
            &&& q.last_wire_c == gate.wire_c.0
            &&& q.max_wire_id >= p.max_wire_id && q.max_wire_id >= gate.wire_c.0
            &&& q.max_wire_id == p.max_wire_id || q.max_wire_id == gate.wire_c.0
            &&& q.instances == p.instances && q.sum_span == p.sum_span && q.n_span == p.n_span
            &&& post.gate_index == pre.gate_index + 1
        }),
{
}

/// An instance spans the gates between its entry and its end: entering and leaving it with
/// `gates` gates in between counts one instance of its component, and adds the gates to
/// the spans, or one to the empty instances if there were none.
pub proof fn instance_spans_its_gates(
    pre: ComponentStatsMode,
    key: ComponentKey,
    inside: ComponentStatsMode,
    last: ComponentStatsMode,
    post: ComponentStatsMode,
)
    requires
        pre.wf(),
        pre.may_enter(key),
        ComponentStatsMode::entered(pre, key, inside),
        last.open@ == inside.open@,
        last.gate_index >= inside.gate_index,
        last.may_exit(key),
        ComponentStatsMode::exited(last, key, post),
    ensures
        ({
            let gates = last.gate_index - pre.gate_index;
            let (p, i) = (pre.stats.counts, inside.stats.counts);
            let (l, q) = (last.stats.counts, post.stats.counts);
            let number = key_number(key);
            let (before, after) = (pre.stats.per_template@, inside.stats.per_template@);
            &&& post.open@ == pre.open@
            &&& i.instances == p.instances + 1
            &&& after.dom().contains(number)
            &&& after[number] == if before.dom().contains(number) {
                before[number] + 1
            } else {
                1
            }
            &&& after.remove(number) == before.remove(number)
            &&& pre.open@.len() < usize::MAX ==> i.max_depth >= p.max_depth && i.max_depth
                >= inside.open@.len() && (i.max_depth == p.max_depth || i.max_depth
                == inside.open@.len())
            &&& i.overlapping_top == p.overlapping_top + if pre.open@.len() == 0 && pre.gate_index
                < pre.last_top_end {
                1int
            } else {
                0
            }
            &&& q.sum_span == l.sum_span + gates
            &&& q.n_span == l.n_span + if gates > 0 {
                1int
            } else {
                0
            }
            &&& q.empty_instances == l.empty_instances + if gates == 0 {
                1int
            } else {
                0
            }
            &&& gates > 0 ==> q.max_span >= l.max_span && q.max_span >= gates && (q.max_span
                == l.max_span || q.max_span == gates)
            &&& gates > 0 ==> q.min_span <= gates && (l.n_span > 0 ==> q.min_span <= l.min_span)
                && (q.min_span == gates || l.n_span > 0 && q.min_span == l.min_span)
            &&& gates == 0 ==> q.max_span == l.max_span && q.min_span == l.min_span
            &&& pre.open@.len() == 0 ==> post.last_top_end == last.gate_index
            &&& pre.open@.len() > 0 ==> post.last_top_end == last.last_top_end
        }),
{
    assert(inside.stats.per_template@.remove(key_number(key))
        =~= pre.stats.per_template@.remove(key_number(key)));
    assert(inside.open@.drop_last() =~= pre.open@);
    assert(inside.open@.last() == (key, pre.gate_index));
}

/// A wire that was allocated and then fed holds what it was fed, whatever else is stored;
/// the constant wires always hold theirs, the true wire the one for true. A wire that
/// nobody will read is not stored.
pub proof fn fed_wire_is_looked_up<V>(
    st: StoreView<Option<V>>,
    credits: Credits,
    v: V,
    on: V,
    off: V,
)
    requires
        credits > 0,
        0 <= st.next_place() < usize::MAX - 2,
    ensures
        ({
            let wire = allocated_wire(st, credits);
            let fed = store_after_feed(store_after_allocate(st, credits), wire, v);
            &&& stored_wire(wire)
            &&& lookup_value(fed, on, off, wire) == Some(v)
            &&& fed.credits(place_of(wire)) == credits
            &&& lookup_value(store_after_allocate(st, credits), on, off, wire) == None::<V>
        }),
        lookup_value(st, on, off, WireId(1)) == Some(on),
        lookup_value(st, on, off, WireId(0)) == Some(off),
        !stored_wire(allocated_wire(st, 0)),
        store_after_allocate(st, 0) == st,
{
}

/// Looking a stored wire up uses one of its credits, and looking a constant wire up uses
/// none.
pub proof fn lookup_uses_one_credit<V>(st: StoreView<V>, wire: WireId)
    requires
        !constant_wire(wire) ==> st.holds(place_of(wire)) && st.credits(place_of(wire)) > 0,
    ensures
        constant_wire(wire) ==> store_after_lookup(st, wire) == st,
        !constant_wire(wire) && st.credits(place_of(wire)) > 1 ==> store_after_lookup(
            st,
            wire,
        ).credits(place_of(wire)) == st.credits(place_of(wire)) - 1 && store_after_lookup(
            st,
            wire,
        ).value(place_of(wire)) == st.value(place_of(wire)),
        !constant_wire(wire) && st.credits(place_of(wire)) == 1 ==> !store_after_lookup(
            st,
            wire,
        ).holds(place_of(wire)),
        constant_wire(wire) <==> wire.0 <= 1,
{
}

/// The backends that only track wires look them up alike: constants have their values, a
/// stored wire its own, and a wire that is not stored none.
pub proof fn tracked_wires_have_values(st: StoreView<Option<bool>>, wire: WireId)
    ensures
        bool_lookup(st, WireId(1)) == Some(true),
        bool_lookup(st, WireId(0)) == Some(false),
        wire.0 > 1 && wire.0 < usize::MAX && st.holds(wire.0 - 2) ==> bool_lookup(st, wire)
            == st.value(wire.0 - 2),
        wire.0 > 1 && !st.holds(wire.0 - 2) ==> bool_lookup(st, wire) == None::<bool>,
        wire.0 <= 1 ==> bools_after_lookup(st, wire) == st,
        wire.0 > 1 && wire.0 < usize::MAX ==> bools_after_lookup(st, wire) == st.after_get(
            wire.0 - 2,
        ),
{
}

/// The labels that lanes hand out for a wire: the false label and, moved by the lane's
/// offset, the true one.
pub proof fn lanes_hand_out_both_labels<const N: usize>(
    label0s: Seq<S>,
    deltas: Seq<Delta>,
    any: [GarbledWire; N],
    k: int,
)
    requires
        0 <= k < N,
    ensures
        wires_of::<N>(label0s, deltas)@[k].label0 == label0s[k],
        wires_of::<N>(label0s, deltas)@[k].label1.0 == label0s[k].0 ^ deltas[k].0.0,
{
    array_of_has_elements::<GarbledWire, N>(
        Seq::new(
            N as nat,
            |k: int| GarbledWire { label0: label0s[k], label1: xor(label0s[k], deltas[k].0) },
        ),
        any,
    );
}

/// Crediting wires credits each in turn: one wire gets its credits, and more wires get
/// theirs after those before them.
pub proof fn wires_are_credited_in_turn<T>(
    st: StoreView<T>,
    wires: Seq<WireId>,
    wire: WireId,
    credits: Credits,
)
    ensures
        store_after_credits(st, seq![wire], credits) == st.after_add(place_of(wire), credits),
        store_after_credits(st, wires.push(wire), credits) == store_after_credits(
            st,
            wires,
            credits,
        ).after_add(place_of(wire), credits),
{
    assert(seq![wire].drop_last() =~= Seq::<WireId>::empty());
    assert(store_after_credits(st, Seq::<WireId>::empty(), credits) == st);
    assert(wires.push(wire).drop_last() =~= wires);
}

/// Counting starts at nothing.
pub proof fn counting_starts_at_nothing()
    ensures
        ({
            let a = zero_stats();
            let t = zero_topo();
            let c = zero_counts();
            &&& a.gates == 0 && a.free_gates == 0 && a.nonfree_gates == 0 && a.promoted == 0
            &&& a.max_anchors == 0 && a.max_reads == 0 && a.max_xor_nodes == 0
            &&& a.sum_anchors == 0 && a.sum_reads == 0 && a.max_support == 0
            &&& t.gates == 0 && t.inputs == 0 && t.and_gates == 0 && t.free_gates == 0
            &&& t.nonfree_other == 0 && t.input_srcs == 0
            &&& c.gates == 0 && c.instances == 0 && c.distinct_templates == 0 && c.max_depth == 0
            &&& c.empty_instances == 0 && c.sum_span == 0 && c.n_span == 0
            &&& c.overlapping_top == 0 && c.wire_c_reused == 0 && c.cross_boundary_inputs == 0
        }),
{
}

/// The constant wires of an evaluation carry the labels that it was given, each with its
/// value, and those of a garbling in lanes the false labels that were drawn for them.
pub proof fn constants_carry_their_labels<
    H: GateHasher,
    SRC: CiphertextSource,
    MCTH: MultiCiphertextHandler<N>,
    const N: usize,
>(
    e: EvaluateMode<H, SRC>,
    es: StoreView<Option<EvaluatedWire>>,
    g: MultigarblingMode<H, MCTH, N>,
    gs: StoreView<Option<[S; N]>>,
    k: int,
)
    requires
        g.wf(),
        0 <= k < N,
    ensures
        e.value_in(es, WireId(1)) == Some(EvaluatedWire { active_label: e.true_wire, value: true }),
        e.value_in(es, WireId(0)) == Some(EvaluatedWire { active_label: e.false_wire, value: false }),
        g.labels_in(gs, WireId(1)) is Some,
        g.labels_in(gs, WireId(0)) is Some,
        g.labels_in(gs, WireId(1))->0@[k] == g.lanes@[k].true_wire_label0,
        g.labels_in(gs, WireId(0))->0@[k] == g.lanes@[k].false_wire_label0,
        g.deltas_arr@[k] == g.lanes@[k].delta,
{
    assert(g.deltas_arr@[k] == g.lanes@[k].delta);
}

/// A wire that is allocated while anchors are counted is an input: it rests on itself alone
/// under the next number for inputs, and the next input gets the number after it.
pub proof fn allocated_wire_is_anchor(
    pre: AnchorStatsMode,
    credits: Credits,
    wire: WireId,
    post: AnchorStatsMode,
)
    requires
        pre.may_allocate(credits),
        AnchorStatsMode::allocated(pre, credits, wire, post),
        credits > 0,
    ensures
        post.ancestries().dom().contains(wire.0),
        post.ancestries()[wire.0].anchors == set![pre.next_input_id],
        post.ancestries()[wire.0].xors == Set::<u64>::empty(),
        post.next_input_id == pre.next_input_id + 1,
        post.gate_index == pre.gate_index,
{
}

/// A wire that is allocated while instances are counted is not one that a gate produced
/// before, and entering an instance opens it at the gates so far.
pub proof fn allocated_wire_is_not_produced(
    pre: ComponentStatsMode,
    credits: Credits,
    wire: WireId,
    post: ComponentStatsMode,
    other: usize,
)
    requires
        ComponentStatsMode::allocated(pre, credits, wire, post),
        other != wire.0,
    ensures
        !post.produced@.dom().contains(wire.0),
        post.produced@.dom().contains(other) == pre.produced@.dom().contains(other),
        pre.produced@.dom().contains(other) ==> post.produced@[other] == pre.produced@[other],
        post.stats == pre.stats,
{
}

} // verus!
