use garbled_snark_verifier::anchoring::circuit::PCircuit;
use garbled_snark_verifier::anchoring::depth::xor_depth_stats;
use garbled_snark_verifier::anchoring::derive::DeriveStats;
use garbled_snark_verifier::anchoring::garble::{garble_anchored, Garbled};
use garbled_snark_verifier::anchoring::merkle::{
    leaf_hash_and, leaf_hash_of, leaf_hash_x, merkle_ok, merkle_path, merkle_root,
};
use garbled_snark_verifier::anchoring::plan::{plan_anchors, AnchorPlan};
use garbled_snark_verifier::anchoring::prf::{
    anchor, anchor_of, delta_of, hasher_of, label0, prf, prf32, xanchor, TAG_WIRE,
};
use garbled_snark_verifier::anchoring::settle::{
    output_commits, phi_settle_output, phi_settle_v2, sizes, ve, VeFault,
};
use garbled_snark_verifier::component::ComponentMetaBuilder;
use garbled_snark_verifier::gate::{Gate, GateType, WireId};
use garbled_snark_verifier::halfgates::degarble_gate;
use garbled_snark_verifier::modes::anchor_stats::AnchorStatsMode;
use garbled_snark_verifier::s::S;
use garbled_snark_verifier::streaming::StreamingMode;

const K: usize = 1024;

fn seed_a() -> [u8; 32] {
    [7u8; 32]
}

fn setup(
    n_in: usize,
    n_and: usize,
    depth: usize,
    k: usize,
) -> (PCircuit, [u8; 32], AnchorPlan, Garbled) {
    let c = PCircuit::synthetic(n_in, n_and, depth);
    let seed = seed_a();
    let plan = plan_anchors(&c, k);
    let gb = garble_anchored(&c, &seed, &plan);
    (c, seed, plan, gb)
}

fn commit(c: &PCircuit, gb: &Garbled) -> (Vec<[u8; 32]>, [u8; 32]) {
    let hs: Vec<_> = gb
        .leaves
        .iter()
        .enumerate()
        .map(|(i, (t, r))| leaf_hash_of(c, gb.leaf_gate[i], *t, *r))
        .collect();
    let root = merkle_root(&hs);
    (hs, root)
}

fn outs_of(gb: &Garbled, c: &PCircuit, k: usize) -> Vec<usize> {
    gb.leaf_gate.iter().rev().take(k).map(|&g| c.gates[g].c).collect()
}

fn replaced(c: &PCircuit, hs: &[[u8; 32]], li: usize, g: usize, bad: (S, S)) -> Vec<[u8; 32]> {
    hs.iter()
        .cloned()
        .enumerate()
        .map(|(i, h)| if i == li { leaf_hash_of(c, g, bad.0, bad.1) } else { h })
        .collect()
}

#[test]
fn t1_determinism() {
    let (c, seed, plan, x) = setup(64, 200, 3, K);
    let y = garble_anchored(&c, &seed, &plan);
    assert_eq!(x.leaves, y.leaves);
    assert_eq!(x.labels0, y.labels0);
}

#[test]
fn t3_translation_invariant() {
    let (c, seed, _plan, gb) = setup(64, 200, 3, K);
    for &g in gb.leaf_gate.iter() {
        assert_eq!(gb.labels0[c.gates[g].c], anchor(&seed, g), "gate {g} not anchored");
    }
}

#[test]
fn t4_derive_matches_garbler_labels() {
    for k in [64usize, 256, K] {
        let (c, seed, plan, gb) = setup(64, 400, 6, k);
        let mut memo = vec![None; c.n_wires];
        let mut st = DeriveStats::default();
        for w in 0..c.n_wires {
            let d = garbled_snark_verifier::anchoring::derive::derive(&c, &seed, &gb.gate_of_wire, &plan, w, &mut memo, &mut st);
            assert_eq!(d, gb.labels0[w], "derive disagrees at wire {w}, K={k}");
        }
    }
}

#[test]
fn t_predicate_honest_and_cheats() {
    let (c, seed, plan, gb) = setup(64, 200, 3, K);
    let (hs, root) = commit(&c, &gb);
    let li = hs.len() / 2;
    let g = gb.leaf_gate[li];
    let path = merkle_path(&hs, li);

    let (v, _) =
        phi_settle_v2(&c, &seed, &plan, root, li, g, gb.leaves[li], &path, &gb.gate_of_wire);
    assert_eq!(v, 0, "honest leaf must acquit");

    for mutate_t in [true, false] {
        let bad = if mutate_t {
            (gb.leaves[li].0 ^ &S::one(), gb.leaves[li].1)
        } else {
            (gb.leaves[li].0, gb.leaves[li].1 ^ &S::one())
        };
        let hs2 = replaced(&c, &hs, li, g, bad);
        let (v, _) = phi_settle_v2(
            &c,
            &seed,
            &plan,
            merkle_root(&hs2),
            li,
            g,
            bad,
            &merkle_path(&hs2, li),
            &gb.gate_of_wire,
        );
        assert_eq!(v, 1, "corrupt leaf must convict (table={mutate_t})");
    }

    let (v, _) =
        phi_settle_v2(&c, &seed, &plan, root, li, g, gb.leaves[li], &[], &gb.gate_of_wire);
    assert_eq!(v, 0, "bad path must acquit");
    let (v, _) = phi_settle_v2(
        &c,
        &seed,
        &plan,
        root,
        li,
        c.gates.len() + 5,
        gb.leaves[li],
        &path,
        &gb.gate_of_wire,
    );
    assert_eq!(v, 0, "out-of-range gate must acquit");
}

#[test]
fn t9_xor_anchor_leaf_is_contestable() {
    let (c, seed, plan, gb) = setup(32, 400, 40, 8);
    assert!(plan.n_xor_anchors > 0, "test needs XOR anchors");
    let (hs, root) = commit(&c, &gb);
    let li = gb
        .leaf_gate
        .iter()
        .position(|&g| c.gates[g].t.is_free())
        .expect("expected an anchored free gate leaf");
    let g = gb.leaf_gate[li];

    let (v, _) = phi_settle_v2(
        &c,
        &seed,
        &plan,
        root,
        li,
        g,
        gb.leaves[li],
        &merkle_path(&hs, li),
        &gb.gate_of_wire,
    );
    assert_eq!(v, 0, "honest XOR-anchor leaf must acquit");

    let bad = (gb.leaves[li].0, gb.leaves[li].1 ^ &S::one());
    let hs2 = replaced(&c, &hs, li, g, bad);
    let (v, _) = phi_settle_v2(
        &c,
        &seed,
        &plan,
        merkle_root(&hs2),
        li,
        g,
        bad,
        &merkle_path(&hs2, li),
        &gb.gate_of_wire,
    );
    assert_eq!(v, 1, "corrupt XOR-anchor offset must convict");
}

#[test]
fn t6_ve_detection() {
    let (c, seed, plan, gb) = setup(64, 200, 3, K);
    let outs = outs_of(&gb, &c, 8);
    let oc = output_commits(&gb, &seed, &outs);
    assert_eq!(ve(&c, &seed, &plan, &gb.leaves, &outs, &oc), None);

    let k = gb.leaves.len() / 3;
    let mut m = gb.leaves.clone();
    m[k].1 = m[k].1 ^ &S::one();
    assert_eq!(
        ve(&c, &seed, &plan, &m, &outs, &oc),
        Some(VeFault::Leaf { gate: gb.leaf_gate[k] })
    );

    let mut mo = oc.clone();
    mo[3][0] ^= 1;
    assert_eq!(
        ve(&c, &seed, &plan, &gb.leaves, &outs, &mo),
        Some(VeFault::Output { index: 3 })
    );
}

#[test]
fn t7_output_check() {
    let (c, seed, plan, gb) = setup(64, 200, 3, K);
    let outs = outs_of(&gb, &c, 8);
    let oc = output_commits(&gb, &seed, &outs);
    for i in 0..outs.len() {
        assert_eq!(phi_settle_output(&c, &seed, &gb.gate_of_wire, &plan, &outs, i, &oc), 0);
    }
    let mut bad = oc.clone();
    bad[5][0] ^= 1;
    assert_eq!(phi_settle_output(&c, &seed, &gb.gate_of_wire, &plan, &outs, 5, &bad), 1);
}

#[test]
fn t2_evaluation_correctness() {
    let (c, seed, plan, gb) = setup(32, 120, 4, 16);
    let delta = delta_of(&seed);
    let gh = hasher_of(&seed);
    let bits: Vec<bool> = (0..c.n_in).map(|i| i % 3 == 0).collect();
    let mut val = vec![false; c.n_wires];
    let mut act = vec![S::zero(); c.n_wires];
    for w in 0..c.n_in {
        val[w] = bits[w];
        act[w] = if bits[w] { gb.labels0[w] ^ &delta.0 } else { gb.labels0[w] };
    }
    let mut li = 0usize;
    for (g, gate) in c.gates.iter().enumerate() {
        let out = gate.t.eval(val[gate.a], val[gate.b]);
        let free = gate.t.is_free();
        let mut lab = if free {
            degarble_gate(
                &gh,
                gate.t,
                || unreachable!(),
                act[gate.a],
                val[gate.a],
                act[gate.b],
                g,
            )
        } else {
            let t = gb.leaves[li].0;
            degarble_gate(&gh, gate.t, || t, act[gate.a], val[gate.a], act[gate.b], g)
        };
        if !free || plan.anchored[g] {
            lab = lab ^ &gb.leaves[li].1;
            li += 1;
        }
        val[gate.c] = out;
        act[gate.c] = lab;
        let expect = if out { gb.labels0[gate.c] ^ &delta.0 } else { gb.labels0[gate.c] };
        assert_eq!(act[gate.c], expect, "wrong active label at gate {g} ({:?})", gate.t);
    }
}

#[test]
fn t5_k_sweep() {
    for k in [64usize, 128, 256, 512, 1024] {
        let (c, seed, plan, gb) = setup(64, 400, 24, k);
        let (mut a_max, mut x_max, mut a_sum, mut n) = (0usize, 0usize, 0usize, 0usize);
        for &g in gb.leaf_gate.iter() {
            let gate = c.gates[g];
            let mut memo = vec![None; c.n_wires];
            let mut st = DeriveStats::default();
            garbled_snark_verifier::anchoring::derive::derive(&c, &seed, &gb.gate_of_wire, &plan, gate.a, &mut memo, &mut st);
            garbled_snark_verifier::anchoring::derive::derive(&c, &seed, &gb.gate_of_wire, &plan, gate.b, &mut memo, &mut st);
            a_max = a_max.max(st.anchors_touched);
            x_max = x_max.max(st.xor_nodes_visited);
            a_sum += st.anchors_touched;
            n += 1;
        }
        let s = sizes(&c, &gb, merkle_path(&commit(&c, &gb).0, 0).len());
        println!(
            "K={k:<5} xor_anchors={:<5} leaves={:<5} F={:<7}B  anchors max={a_max:<5} mean={:<7.1}  xor_nodes max={x_max}",
            plan.n_xor_anchors,
            s.n_leaf,
            s.f_bytes,
            a_sum as f64 / n as f64
        );
        assert!(a_max <= 2 * k, "gate-level bound is 2K, got {a_max} at K={k}");
    }
}

#[test]
fn leaf_hashes_of_kinds_differ() {
    let (t, r) = (S::from_u128(1), S::from_u128(2));
    let mut and_bytes = vec![0x06, 0x00];
    and_bytes.extend_from_slice(&9u64.to_le_bytes());
    and_bytes.extend_from_slice(&t.to_bytes());
    and_bytes.extend_from_slice(&r.to_bytes());
    assert_eq!(leaf_hash_and(9, t, r), *blake3::hash(&and_bytes).as_bytes());
    let mut x_bytes = vec![0x06, 0x01];
    x_bytes.extend_from_slice(&9u64.to_le_bytes());
    x_bytes.extend_from_slice(&r.to_bytes());
    assert_eq!(leaf_hash_x(9, r), *blake3::hash(&x_bytes).as_bytes());
    assert_ne!(leaf_hash_and(9, t, r), leaf_hash_x(9, r));
}

#[test]
fn every_merkle_path_leads_to_the_root() {
    for n in 1usize..9 {
        let leaves: Vec<[u8; 32]> = (0..n).map(|i| [i as u8; 32]).collect();
        let root = merkle_root(&leaves);
        for i in 0..n {
            let path = merkle_path(&leaves, i);
            assert!(merkle_ok(leaves[i], i, &path, root));
            assert!(!merkle_ok([99u8; 32], i, &path, root));
        }
    }
    assert_eq!(merkle_root(&[]), [0u8; 32]);
}

#[test]
fn labels_are_indexed_by_tag_and_number() {
    let seed = seed_a();
    let mut bytes = seed.to_vec();
    bytes.push(TAG_WIRE);
    bytes.extend_from_slice(&3u64.to_le_bytes());
    let digest = blake3::hash(&bytes);
    assert_eq!(prf32(&seed, TAG_WIRE, 3), *digest.as_bytes());
    assert_eq!(&prf(&seed, TAG_WIRE, 3).to_bytes()[..], &digest.as_bytes()[..16]);
    assert_eq!(label0(&seed, 3), prf(&seed, TAG_WIRE, 3));
    assert_ne!(anchor(&seed, 3), xanchor(&seed, 3));
    let c = PCircuit::synthetic(4, 2, 1);
    for g in 0..c.gates.len() {
        let expect = if c.gates[g].t.is_free() { xanchor(&seed, g) } else { anchor(&seed, g) };
        assert_eq!(anchor_of(&seed, &c, g), expect);
    }
}

#[test]
fn bristol_text_is_parsed() {
    let text = b"3 7\n2 2 2\n1 1\n\n2 1 0 2 4 AND\n2 1 4 3 5 XOR\n1 1 5 6 INV\n";
    let c = PCircuit::from_bristol(text).expect("parses");
    assert_eq!(c.n_in, 4);
    assert_eq!(c.gates.len(), 3);
    assert!(matches!(c.gates[0].t, GateType::And));
    assert!(matches!(c.gates[1].t, GateType::Xor));
    assert_eq!((c.gates[0].a, c.gates[0].b, c.gates[0].c), (0, 2, 4));
    assert_eq!(c.n_nonfree(), 1);
}

fn separated_by(c: char) -> Option<PCircuit> {
    let text = format!("3 7\n2{c}2{c}2\n1 1\n\n{c}2{c}1{c}{c}0{c}2{c}4{c}AND{c}\n");
    PCircuit::from_bristol(text.as_bytes())
}

#[test]
fn every_white_space_character_separates_words() {
    let mut seen = 0;
    for c in (0..=0x10ffffu32).filter_map(char::from_u32) {
        if c.is_whitespace() && c != '\n' {
            let circuit = separated_by(c).expect("parses");
            assert_eq!(circuit.n_in, 4);
            assert_eq!(circuit.gates.len(), 1);
            assert!(matches!(circuit.gates[0].t, GateType::And));
            let g = &circuit.gates[0];
            assert_eq!((g.a, g.b, g.c), (0, 2, 4));
            seen += 1;
        }
    }
    assert_eq!(seen, 24);
    for c in ['\u{200b}', '\u{feff}', '\u{e9}', '\u{84}', '\u{2030}', 'x'] {
        let circuit = separated_by(c).expect("parses");
        assert_eq!(circuit.n_in, 0);
        assert_eq!(circuit.gates.len(), 0);
    }
}

fn run_gates(
    c: &PCircuit,
    ctx: &mut StreamingMode<AnchorStatsMode>,
    input: &[WireId],
) -> Vec<WireId> {
    let mut wires: Vec<Option<WireId>> = vec![None; c.n_wires];
    for (i, w) in input.iter().enumerate() {
        wires[i] = Some(*w);
    }
    for g in &c.gates {
        let wire_c = ctx.issue_wire();
        let (wire_a, wire_b) = (wires[g.a].unwrap(), wires[g.b].unwrap());
        ctx.add_gate(Gate { wire_a, wire_b, wire_c, gate_type: g.t });
        wires[g.c] = Some(wire_c);
    }
    wires.into_iter().flatten().collect()
}

#[test]
fn streaming_statistics_match_deriving() {
    for k in [2usize, 8, 64] {
        let (c, seed, plan, gb) = setup(16, 60, 9, k);
        let (mut a_max, mut x_max, mut reads, mut anchors) = (0usize, 0usize, 0u128, 0u128);
        for gate in &c.gates {
            let mut memo = vec![None; c.n_wires];
            let mut st = DeriveStats::default();
            for w in [gate.a, gate.b] {
                garbled_snark_verifier::anchoring::derive::derive(
                    &c,
                    &seed,
                    &gb.gate_of_wire,
                    &plan,
                    w,
                    &mut memo,
                    &mut st,
                );
            }
            a_max = a_max.max(st.anchors_touched);
            x_max = x_max.max(st.xor_nodes_visited);
            anchors += st.anchors_touched as u128;
            reads += (st.anchors_touched + st.xor_nodes_visited) as u128;
        }
        let mut meta = ComponentMetaBuilder::new(c.n_in);
        let mock: Vec<WireId> = (0..c.n_in).map(|_| meta.issue_wire()).collect();
        let mut counting = StreamingMode::MetadataPass(meta);
        let outputs = run_gates(&c, &mut counting, &mock);
        let mode = AnchorStatsMode::new(64, k);
        let (mut running, wires) = counting.to_root_ctx(mode, vec![false; c.n_in], &outputs);
        run_gates(&c, &mut running, &wires);
        let stats = running.get_mode().unwrap().stats;
        assert_eq!(stats.gates as usize, c.gates.len());
        assert_eq!(stats.promoted as usize, plan.n_xor_anchors);
        assert_eq!(stats.max_anchors, a_max);
        assert_eq!(stats.max_xor_nodes, x_max);
        assert_eq!(stats.sum_anchors, anchors);
        assert_eq!(stats.sum_reads, reads);
    }
}

#[test]
fn depths_of_chains_of_free_gates() {
    let text = b"4 8\n1 4\n1 1\n\n2 1 0 1 4 XOR\n2 1 4 2 5 XOR\n2 1 5 3 6 AND\n2 1 6 0 7 AND\n";
    let c = PCircuit::from_bristol(text).unwrap();
    let plan = plan_anchors(&c, 16);
    let stats = xor_depth_stats(&c, &plan);
    assert_eq!((stats.max, stats.sum, stats.count, stats.p95), (2, 2, 2, 0));
}

fn bristol_text(c: &PCircuit) -> String {
    let mut text = format!("{} {}\n1 {}\n1 1\n\n", c.gates.len(), c.n_wires, c.n_in);
    for g in &c.gates {
        let name = match g.t {
            GateType::And => "AND",
            GateType::Xor => "XOR",
            _ => panic!("not in the format"),
        };
        text.push_str(&format!("2 1 {} {} {} {}\n", g.a, g.b, g.c, name));
    }
    text
}

#[test]
fn parsed_circuit_is_garbled_derived_and_settled() {
    let text = bristol_text(&PCircuit::synthetic(24, 80, 12));
    let c = PCircuit::from_bristol(text.as_bytes()).unwrap();
    let seed = seed_a();
    let plan = plan_anchors(&c, 6);
    let gb = garble_anchored(&c, &seed, &plan);
    let mut memo = vec![None; c.n_wires];
    let mut st = DeriveStats::default();
    for w in 0..c.n_wires {
        let d = garbled_snark_verifier::anchoring::derive::derive(
            &c,
            &seed,
            &gb.gate_of_wire,
            &plan,
            w,
            &mut memo,
            &mut st,
        );
        assert_eq!(d, gb.labels0[w], "derive disagrees at wire {w}");
    }
    let (hs, root) = commit(&c, &gb);
    for li in [0usize, hs.len() / 2, hs.len() - 1] {
        let g = gb.leaf_gate[li];
        let path = merkle_path(&hs, li);
        let (v, _) =
            phi_settle_v2(&c, &seed, &plan, root, li, g, gb.leaves[li], &path, &gb.gate_of_wire);
        assert_eq!(v, 0, "honest leaf {li} must acquit");
        let bad = (gb.leaves[li].0, gb.leaves[li].1 ^ &S::one());
        let hs2 = replaced(&c, &hs, li, g, bad);
        let (v, _) = phi_settle_v2(
            &c,
            &seed,
            &plan,
            merkle_root(&hs2),
            li,
            g,
            bad,
            &merkle_path(&hs2, li),
            &gb.gate_of_wire,
        );
        assert_eq!(v, 1, "corrupt leaf {li} must convict");
    }
}
