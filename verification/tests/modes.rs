use garbled_snark_verifier::ciphertext_hasher::{
    AccumulatingHash, Blake3AccumulatingHash, Blake3AccumulatingHashBatch, BATCH_SIZE,
};
use garbled_snark_verifier::component::ComponentMetaBuilder;
use garbled_snark_verifier::gate::{
    Delta, GarbledWire, Gate, GateType, WireId, FALSE_WIRE_ID, TRUE_WIRE_ID, UNREACHABLE_ID,
};
use garbled_snark_verifier::gate_component::run_gate_component;
use garbled_snark_verifier::halfgates::garble_gate;
use garbled_snark_verifier::hashers::{AesNiHasher, Blake3Hasher};
use garbled_snark_verifier::modes::anchor_stats::AnchorStatsMode;
use garbled_snark_verifier::modes::backend::CircuitMode;
use garbled_snark_verifier::modes::ciphertexts::{
    BufferedSource, CiphertextSource, DummySource, RecordReader, RecordStep,
};
use garbled_snark_verifier::modes::component_stats::ComponentStatsMode;
use garbled_snark_verifier::modes::evaluate::{EvaluateMode, EvaluatedWire};
use garbled_snark_verifier::modes::multigarble::MultigarblingMode;
use garbled_snark_verifier::modes::topo_export::{TopoExportMode, INPUT_FLAG};
use garbled_snark_verifier::s::S;
use garbled_snark_verifier::streaming::StreamingMode;
use rand::{Rng, SeedableRng};
use rand_chacha::ChaChaRng;

const TRUE_WIRE: WireId = WireId(TRUE_WIRE_ID);
const FALSE_WIRE: WireId = WireId(FALSE_WIRE_ID);

fn gate(gate_type: GateType, wire_a: WireId, wire_b: WireId, wire_c: WireId) -> Gate {
    Gate { wire_a, wire_b, wire_c, gate_type }
}

fn run<M: CircuitMode>(
    mode: M,
    inputs: Vec<M::WireValue>,
    circuit: impl Fn(&mut StreamingMode<M>, &[WireId]) -> Vec<WireId>,
) -> (StreamingMode<M>, Vec<WireId>, Vec<WireId>) {
    let mut meta = ComponentMetaBuilder::new(inputs.len());
    let mock: Vec<WireId> = (0..inputs.len()).map(|_| meta.issue_wire()).collect();
    let mut counting = StreamingMode::MetadataPass(meta);
    let outputs = circuit(&mut counting, &mock);
    let (mut running, wires) = counting.to_root_ctx(mode, inputs, &outputs);
    let outputs = circuit(&mut running, &wires);
    (running, wires, outputs)
}

fn prepare() -> (S, S, EvaluatedWire, EvaluatedWire) {
    let mut rng = ChaChaRng::seed_from_u64(0);
    let delta = S::from_u128(rng.gen::<u128>());
    let mut wire = || {
        let label0 = S::from_u128(rng.gen());
        GarbledWire::new(label0, label0 ^ &delta)
    };
    let true_wire = wire();
    let false_wire = wire();
    let a = wire();
    let b = wire();
    let true_evaluated = EvaluatedWire::new_from_garbled(&true_wire, true);
    let false_evaluated = EvaluatedWire::new_from_garbled(&false_wire, false);
    let a_evaluated = EvaluatedWire::new_from_garbled(&a, rng.gen());
    let b_evaluated = EvaluatedWire::new_from_garbled(&b, rng.gen());
    (true_evaluated.active_label, false_evaluated.active_label, a_evaluated, b_evaluated)
}

#[test]
fn test_xor_evaluate_mode_basic() {
    let (true_wire, false_wire, a, b) = prepare();
    let mode = EvaluateMode::new(Blake3Hasher, 5, true_wire, false_wire, DummySource);
    let (mut ctx, _, outputs) = run(mode, vec![a, b], |ctx, input| {
        let output = ctx.issue_wire();
        ctx.add_gate(gate(GateType::Xor, input[0], input[1], output));
        vec![output]
    });
    assert_eq!(outputs.len(), 1);
    let out = ctx.lookup_wire(outputs[0]).unwrap();
    assert!(out.value);
    assert_eq!(out.active_label, a.active_label ^ &b.active_label);
}

#[test]
fn test_xor_evaluate_mode_with_constants() {
    let (true_wire, false_wire, a, b) = prepare();
    let mode = EvaluateMode::new(Blake3Hasher, 5, true_wire, false_wire, DummySource);
    let (mut ctx, _, outputs) = run(mode, vec![a, b], |ctx, input| {
        let output1 = ctx.issue_wire();
        let output2 = ctx.issue_wire();
        ctx.add_gate(gate(GateType::Xor, input[0], TRUE_WIRE, output1));
        ctx.add_gate(gate(GateType::Xor, output1, input[1], output2));
        vec![output2]
    });
    let out = ctx.lookup_wire(outputs[0]).unwrap();
    assert_eq!(out.value, (a.value ^ true) ^ b.value);
}

#[test]
fn test_evaluate_mode() {
    const NON_FREE_GATE_COUNT: usize = 5;
    let mut rng = ChaChaRng::seed_from_u64(1);
    let ciphertexts = (0..NON_FREE_GATE_COUNT).map(|_| S::from_u128(rng.gen())).collect();
    let (true_wire, false_wire, wa, wb) = prepare();
    let (a, b) = (wa.value, wb.value);
    let source = BufferedSource::new(ciphertexts);
    let mode = EvaluateMode::new(Blake3Hasher, 10, true_wire, false_wire, source);
    let (mut ctx, _, outputs) = run(mode, vec![wa, wb], |ctx, input| {
        let val1 = ctx.issue_wire();
        ctx.add_gate(gate(GateType::And, input[0], input[1], val1));
        let val2 = ctx.issue_wire();
        ctx.add_gate(gate(GateType::Nimp, val1, input[0], val2));
        let val3 = ctx.issue_wire();
        ctx.add_gate(gate(GateType::Nor, val1, val2, val3));
        let val4 = ctx.issue_wire();
        ctx.add_gate(gate(GateType::Imp, val2, val3, val4));
        let val5 = ctx.issue_wire();
        ctx.add_gate(gate(GateType::Imp, input[0], val3, val5));
        let val6 = ctx.issue_wire();
        ctx.add_gate(gate(GateType::Xor, val5, val4, val6));
        vec![val6]
    });
    let val1 = GateType::And.eval(a, b);
    let val2 = GateType::Nimp.eval(val1, a);
    let val3 = GateType::Nor.eval(val1, val2);
    let val4 = GateType::Imp.eval(val2, val3);
    let val5 = GateType::Imp.eval(a, val3);
    let val6 = GateType::Xor.eval(val5, val4);
    assert_eq!(ctx.lookup_wire(outputs[0]).unwrap().value, val6);
}

fn half_adder<M: CircuitMode>(ctx: &mut StreamingMode<M>, input: &[WireId]) -> Vec<WireId> {
    let sum = ctx.issue_wire();
    ctx.add_gate(gate(GateType::Xor, input[0], input[1], sum));
    let carry = ctx.issue_wire();
    ctx.add_gate(gate(GateType::And, input[0], input[1], carry));
    vec![sum, carry]
}

#[test]
fn evaluation_follows_garbling_through_a_circuit() {
    let mut rng = ChaChaRng::seed_from_u64(5);
    let delta = Delta(S::from_u128(rng.gen()));
    let a0 = S::from_u128(rng.gen());
    let b0 = S::from_u128(rng.gen());
    let (sum0, none) = garble_gate(&Blake3Hasher, GateType::Xor, a0, b0, &delta, 0);
    let (carry0, ct) = garble_gate(&Blake3Hasher, GateType::And, a0, b0, &delta, 1);
    assert!(none.is_none());
    for (x, y) in [(false, false), (false, true), (true, false), (true, true)] {
        let wire = |l: S, v: bool| EvaluatedWire::new(if v { l ^ &delta.0 } else { l }, v);
        let source = BufferedSource::new(vec![ct.unwrap()]);
        let mode = EvaluateMode::new(Blake3Hasher, 4, S::one(), S::zero(), source);
        let (mut ctx, _, out) = run(mode, vec![wire(a0, x), wire(b0, y)], half_adder);
        assert_eq!(ctx.lookup_wire(out[0]), Some(wire(sum0, x ^ y)));
        assert_eq!(ctx.lookup_wire(out[1]), Some(wire(carry0, x && y)));
    }
}

#[test]
fn multigarbling_garbles_every_lane() {
    let handler = Blake3AccumulatingHashBatch::<2>::new();
    let mut mode = MultigarblingMode::<AesNiHasher, _, 2>::new(8, [41, 42], handler);
    let a = mode.issue_garbled_wire_batch();
    let b = mode.issue_garbled_wire_batch();
    let deltas = mode.deltas_arr;
    let (mut ctx, _, out) = run(mode, vec![a, b], half_adder);
    let sum = ctx.lookup_wire(out[0]).unwrap();
    let carry = ctx.lookup_wire(out[1]).unwrap();
    let acc = match ctx {
        StreamingMode::ExecutionPass(ctx) => ctx.finalize_ciphertext_accumulator(),
        StreamingMode::MetadataPass(_) => panic!("not running"),
    };
    for k in 0..2 {
        assert_eq!(a[k].label1, a[k].label0 ^ &deltas[k].0);
        let (s0, _) =
            garble_gate(&AesNiHasher, GateType::Xor, a[k].label0, b[k].label0, &deltas[k], 0);
        let (c0, ct) =
            garble_gate(&AesNiHasher, GateType::And, a[k].label0, b[k].label0, &deltas[k], 1);
        assert_eq!(sum[k].label0, s0);
        assert_eq!(carry[k], GarbledWire::new(c0, c0 ^ &deltas[k].0));
        assert_eq!(acc.0[k], Blake3AccumulatingHash::digest(ct.unwrap()));
    }
    assert_ne!(a[0], a[1]);
}

#[test]
fn lanes_draw_from_chacha() {
    let handler = Blake3AccumulatingHashBatch::<1>::new();
    let mut mode = MultigarblingMode::<AesNiHasher, _, 1>::new(8, [9], handler);
    let mut rng = ChaChaRng::seed_from_u64(9);
    let delta = S::from_u128(rng.gen());
    let first = S::from_u128(rng.gen());
    let second = S::from_u128(rng.gen());
    assert_eq!(mode.deltas_arr[0].0, delta);
    assert_eq!(mode.lanes[0].false_wire_label0, first);
    assert_eq!(mode.lanes[0].true_wire_label0, second);
    let wire = mode.issue_garbled_wire_batch();
    assert_eq!(wire[0].label0, S::from_u128(rng.gen()));
}

#[test]
fn unreachable_output_is_not_counted() {
    let (t, f, a, b) = prepare();
    let mut mode = EvaluateMode::new(Blake3Hasher, 4, t, f, DummySource);
    let x = mode.allocate_wire(2);
    let y = mode.allocate_wire(1);
    mode.feed_wire(x, a);
    mode.feed_wire(y, b);
    mode.evaluate_gate(&gate(GateType::And, x, y, WireId(UNREACHABLE_ID)));
    assert_eq!(mode.gate_index, 0);
    assert_eq!(mode.lookup_wire(x), Some(a));
    assert_eq!(mode.lookup_wire(x), None);
    assert_eq!(mode.lookup_wire(y), None);
    assert_eq!(mode.lookup_wire(TRUE_WIRE), Some(EvaluatedWire::new(t, true)));
    assert_eq!(mode.lookup_wire(FALSE_WIRE), Some(EvaluatedWire::new(f, false)));
}

#[test]
fn named_child_is_counted_once_and_run_every_time() {
    let mode = AnchorStatsMode::new(16, 4);
    let (mut ctx, _, out) = run(mode, vec![true, false, true], |ctx, input| {
        let first = ctx.with_named_child(
            *b"halfadd\0",
            vec![input[0], input[1]],
            |c, w| half_adder(c, w),
            2,
        );
        let second = ctx.with_named_child(
            *b"halfadd\0",
            vec![first[0], input[2]],
            |c, w| half_adder(c, w),
            2,
        );
        vec![second[0], second[1], first[1]]
    });
    assert_eq!(ctx.lookup_wire(out[0]), Some(false));
    assert_eq!(ctx.lookup_wire(out[1]), Some(true));
    assert_eq!(ctx.lookup_wire(out[2]), Some(false));
    let stats = ctx.get_mode().unwrap().stats;
    assert_eq!((stats.gates, stats.free_gates, stats.nonfree_gates), (4, 2, 2));
}

#[test]
fn anchor_statistics_of_a_chain() {
    let mode = AnchorStatsMode::new(16, 2);
    let (ctx, _, _) = run(mode, vec![true, true, true], |ctx, input| {
        let x = ctx.issue_wire();
        ctx.add_gate(gate(GateType::Xor, input[0], input[1], x));
        let y = ctx.issue_wire();
        ctx.add_gate(gate(GateType::Xor, x, input[2], y));
        let z = ctx.issue_wire();
        ctx.add_gate(gate(GateType::And, y, x, z));
        vec![z]
    });
    let stats = ctx.get_mode().unwrap().stats;
    assert_eq!(stats.gates, 3);
    assert_eq!(stats.promoted, 1);
    assert_eq!(stats.max_anchors, 3);
    assert_eq!(stats.max_support, 2);
    assert_eq!(stats.max_xor_nodes, 1);
    assert_eq!(stats.sum_anchors, 2 + 3 + 3);
    assert_eq!(stats.sum_reads, 2 + 4 + 4);
}

#[test]
fn every_live_wire_counts_for_the_support() {
    let mut mode = AnchorStatsMode::new(16, 4);
    assert_eq!(mode.allocate_wire(0), WireId(UNREACHABLE_ID));
    assert_eq!(mode.anc.len(), 0);
    assert_eq!(mode.stats.max_support, 0);
    let a = mode.allocate_wire(2);
    mode.feed_wire(a, true);
    assert_eq!(mode.anc.len(), 1);
    assert_eq!(mode.stats.max_support, 1);
    let b = mode.allocate_wire(1);
    mode.evaluate_gate(&gate(GateType::And, a, a, b));
    assert_eq!(mode.anc.len(), 1);
    assert_eq!(mode.stats.max_support, 1);
    assert_eq!(mode.lookup_wire(b), Some(true));
    assert_eq!(mode.anc.len(), 0);
}

#[test]
fn component_statistics_count_instances() {
    let mode = ComponentStatsMode::new(16);
    let (ctx, _, _) = run(mode, vec![true, false], |ctx, input| {
        let first =
            ctx.with_named_child(*b"adder\0\0\0", vec![input[0], input[1]], |c, w| half_adder(c, w), 2);
        ctx.with_named_child(*b"adder\0\0\0", vec![first[0], first[1]], |c, w| half_adder(c, w), 2)
    });
    let stats = &ctx.get_mode().unwrap().stats;
    assert_eq!(stats.counts.instances, 2);
    assert_eq!(stats.counts.gates, 4);
    assert_eq!(stats.counts.cross_boundary_inputs, 4);
}

#[test]
fn gates_on_wires_of_their_instance_do_not_cross_it() {
    let mode = ComponentStatsMode::new(16);
    let (ctx, _, _) = run(mode, vec![true, false], |ctx, input| {
        ctx.with_named_child(
            *b"carry\0\0\0",
            vec![input[0], input[1]],
            |c, w| {
                let x = c.issue_wire();
                c.add_gate(gate(GateType::Xor, w[0], w[1], x));
                let y = c.with_named_child(
                    *b"square\0\0",
                    vec![x, x],
                    |d, v| {
                        let y = d.issue_wire();
                        d.add_gate(gate(GateType::And, v[0], v[1], y));
                        vec![y]
                    },
                    1,
                );
                let z = c.issue_wire();
                c.add_gate(gate(GateType::Or, x, y[0], z));
                let u = c.issue_wire();
                c.add_gate(gate(GateType::Or, z, w[1], u));
                vec![u]
            },
            1,
        )
    });
    let counts = ctx.get_mode().unwrap().stats.counts;
    assert_eq!(counts.instances, 2);
    assert_eq!(counts.gates, 4);
    assert_eq!(counts.cross_boundary_inputs, 3);
}

#[test]
fn gates_outside_every_instance_cross_nothing() {
    let mode = ComponentStatsMode::new(16);
    let (ctx, _, _) = run(mode, vec![true, false], half_adder);
    let counts = ctx.get_mode().unwrap().stats.counts;
    assert_eq!(counts.gates, 2);
    assert_eq!(counts.cross_boundary_inputs, 0);
}

#[test]
fn a_wire_allocated_anew_was_not_produced() {
    let mut mode = ComponentStatsMode::new(16);
    let a = mode.allocate_wire(3);
    mode.feed_wire(a, true);
    mode.note_component_enter(*b"reuse\0\0\0");
    let b = mode.allocate_wire(1);
    mode.evaluate_gate(&gate(GateType::Xor, a, a, b));
    assert_eq!(mode.stats.counts.cross_boundary_inputs, 1);
    assert_eq!(mode.lookup_wire(b), Some(false));
    let c = mode.allocate_wire(2);
    assert_eq!(c, b);
    mode.feed_wire(c, true);
    let d = mode.allocate_wire(2);
    mode.evaluate_gate(&gate(GateType::And, c, c, d));
    assert_eq!(mode.stats.counts.cross_boundary_inputs, 2);
    let e = mode.allocate_wire(1);
    mode.evaluate_gate(&gate(GateType::And, d, d, e));
    assert_eq!(mode.stats.counts.cross_boundary_inputs, 2);
    mode.note_component_exit(*b"reuse\0\0\0");
    assert_eq!(mode.stats.counts.gates, 3);
}

#[test]
fn a_component_of_one_gate_is_run_and_counted() {
    let mode = ComponentStatsMode::new(16);
    let (mut ctx, wires, outputs) = run(mode, vec![true, false], |ctx, input| {
        let key = *b"gate\0\0\0\0";
        let first = run_gate_component(ctx, key, GateType::Or, input[0], input[1]);
        let second = run_gate_component(ctx, key, GateType::Xor, first, input[0]);
        vec![first, second]
    });
    assert_eq!(wires.len(), 2);
    assert_eq!(ctx.lookup_wire(outputs[0]), Some(true));
    assert_eq!(ctx.lookup_wire(outputs[1]), Some(false));
    let counts = ctx.get_mode().unwrap().stats.counts;
    assert_eq!(counts.instances, 2);
    assert_eq!(counts.distinct_templates, 1);
    assert_eq!(counts.gates, 2);
    assert_eq!(counts.cross_boundary_inputs, 2);
    match ctx {
        StreamingMode::ExecutionPass(run) => assert_eq!(run.stack.len(), 1),
        StreamingMode::MetadataPass(_) => panic!("gates are executed"),
    }
}

#[test]
fn topology_is_exported_as_records() {
    let mode = TopoExportMode::new(16, 0, 0);
    let (ctx, _, _) = run(mode, vec![true, false], half_adder);
    let bytes = &ctx.get_mode().unwrap().out;
    assert_eq!(bytes.len(), 2 * 12);
}

#[test]
fn exported_records_refer_to_earlier_gates_and_inputs() {
    let mode = TopoExportMode::new(16, 0, 0);
    let (ctx, _, _) = run(mode, vec![true, false], |ctx, input| {
        let x = ctx.issue_wire();
        ctx.add_gate(gate(GateType::Nand, input[0], input[1], x));
        let y = ctx.issue_wire();
        ctx.add_gate(gate(GateType::Xor, x, input[0], y));
        vec![y]
    });
    let mode = ctx.get_mode().unwrap();
    let words: Vec<u32> = mode
        .out
        .chunks(4)
        .map(|c| u32::from_le_bytes([c[0], c[1], c[2], c[3]]))
        .collect();
    assert_eq!(words, vec![1, INPUT_FLAG, INPUT_FLAG | 1, 8, 0, INPUT_FLAG]);
    assert_eq!(mode.stats.inputs, 2);
    assert_eq!(mode.stats.input_srcs, 3);
}

#[test]
fn records_are_put_together_from_reads() {
    let a = S::from_u128(0x0102_0304_0506_0708_090a_0b0c_0d0e_0f10);
    let bytes = a.to_bytes();
    let mut reader = RecordReader::new(Blake3AccumulatingHash::new());
    assert_eq!(reader.missing(), 16);
    assert_eq!(reader.take_bytes(&bytes[..5]), RecordStep::More);
    assert_eq!(reader.missing(), 11);
    assert_eq!(reader.take_bytes(&bytes[5..]), RecordStep::Record { label: a });
    assert_eq!(reader.take_bytes(&bytes[..3]), RecordStep::More);
    assert_eq!(reader.take_bytes(&[]), RecordStep::End);
    assert_eq!(reader.take_bytes(&bytes[..1]), RecordStep::End);
    assert_eq!(reader.finalize(), Blake3AccumulatingHash::digest(a));
}

#[test]
fn records_are_hashed_so_far() {
    let mut reader = RecordReader::new(Blake3AccumulatingHash::new());
    let mut hash = Blake3AccumulatingHash::new();
    for i in 0..70u128 {
        let label = S::from_u128(i);
        assert_eq!(reader.take_bytes(&label.to_bytes()), RecordStep::Record { label });
        hash.update(label);
        assert_eq!(reader.finalize(), AccumulatingHash::finalize(&hash));
    }
    assert_eq!(reader.finalize(), hash.finalize());
}

#[test]
fn buffered_source_gives_ciphertexts_in_order() {
    let mut source = BufferedSource::new(vec![S::from_u128(1), S::from_u128(2)]);
    assert_eq!(source.recv(), Some(S::from_u128(1)));
    assert_eq!(source.recv(), Some(S::from_u128(2)));
    assert_eq!(source.recv(), None);
}

#[test]
fn accumulating_hash_chains_batches() {
    let mut h = Blake3AccumulatingHash::new();
    let mut g = Blake3AccumulatingHash::new();
    for i in 0..200u128 {
        h.update(S::from_u128(i));
        g.update(S::from_u128(if i == 3 { 4 } else { i }));
    }
    let (h, g) = (h.finalize(), g.finalize());
    assert_ne!(h, g);
    assert_ne!(h, [0u8; 32]);
}

fn batch_digest(index: u64, prev: [u8; 32], batch: &[u128]) -> [u8; 32] {
    let mut input = index.to_le_bytes().to_vec();
    input.extend_from_slice(&prev);
    for ciphertext in batch {
        input.extend_from_slice(&ciphertext.to_le_bytes());
    }
    *blake3::hash(&input).as_bytes()
}

fn stream_of(ciphertexts: &[u128]) -> [u8; 32] {
    let mut hash = Blake3AccumulatingHash::new();
    for ciphertext in ciphertexts {
        hash.update(S::from_u128(*ciphertext));
    }
    hash.finalize()
}

#[test]
fn batches_hold_a_kilobyte_of_ciphertexts() {
    assert_eq!(BATCH_SIZE * 16, 1024);
    let ciphertexts: Vec<u128> = (0..130u128).map(|i| i * 0x0102_0304_0506_0708_090a + 7).collect();
    let zero = [0u8; 32];
    assert_eq!(stream_of(&[]), zero);
    assert_eq!(stream_of(&ciphertexts[..63]), batch_digest(0, zero, &ciphertexts[..63]));
    let first = batch_digest(0, zero, &ciphertexts[..64]);
    assert_eq!(stream_of(&ciphertexts[..64]), first);
    assert_eq!(stream_of(&ciphertexts[..65]), batch_digest(1, first, &ciphertexts[64..65]));
    let second = batch_digest(1, first, &ciphertexts[64..128]);
    assert_eq!(stream_of(&ciphertexts[..128]), second);
    assert_eq!(stream_of(&ciphertexts), batch_digest(2, second, &ciphertexts[128..]));
}
