use garbled_snark_verifier::ciphertext_hasher::Blake3AccumulatingHash;
use garbled_snark_verifier::cut_and_choose::commit::{
    gate_hasher_seed_of, CommitPhaseOne, CommitPhaseTwo, Config, LabelCommit,
    Sha256LabelCommitHasher, StreamingResult,
};
use garbled_snark_verifier::cut_and_choose::errors::{fmt_label_commit, ConsistencyError};
use garbled_snark_verifier::cut_and_choose::evaluator::{
    sample_indexes, CheckTask, EvaluatedCase, EvaluationResult, Evaluator, EvaluatorCaseInput,
    EvaluatorRawParts, Evidence, Stage,
};
use garbled_snark_verifier::cut_and_choose::garbler::{
    Garbler, GarblerRawParts, GarblerStage, OpenForInstance,
};
use garbled_snark_verifier::cut_and_choose::soldering;
use garbled_snark_verifier::cut_and_choose::soldering::{SolderingCheckError, SolderingStage};
use garbled_snark_verifier::gate::{Delta, GarbledWire, GateType};
use garbled_snark_verifier::halfgates::{degarble_gate, garble_gate};
use garbled_snark_verifier::hashers::{AesCcrGateHasher, GateHasher};
use garbled_snark_verifier::modes::evaluate::EvaluatedWire;
use garbled_snark_verifier::s::S;
use garbled_snark_verifier::soldering_data::{solder_instances, SolderedLabels};
use rand::{Rng, SeedableRng};
use rand_chacha::ChaChaRng;

type LH = Sha256LabelCommitHasher;
type GH = AesCcrGateHasher;

fn hasher(seed: u64) -> GH {
    GH::from_seed(gate_hasher_seed_of::<GH>(seed))
}

fn garble(seed: u64) -> (StreamingResult, S) {
    let gh = hasher(seed);
    let mut rng = ChaChaRng::seed_from_u64(seed);
    let _salt: u128 = rng.gen();
    let delta = Delta(S::from_u128(rng.gen()));
    let mut wire = || {
        let label0 = S::from_u128(rng.gen());
        GarbledWire::new(label0, label0 ^ &delta.0)
    };
    let (f, t, a, b) = (wire(), wire(), wire(), wire());
    let (c0, ct) = garble_gate(&gh, GateType::And, a.label0, b.label0, &delta, 0);
    let ct = ct.unwrap();
    let res = StreamingResult {
        false_wire_constant: f,
        true_wire_constant: t,
        output_value: GarbledWire::new(c0, c0 ^ &delta.0),
        input_wire_values: vec![a, b],
        ciphertext_handler_result: Blake3AccumulatingHash::digest(ct),
    };
    (res, ct)
}

fn evaluate(seed: u64, input: &[EvaluatedWire]) -> EvaluationResult {
    let (_, ct) = garble(seed);
    let gh = hasher(seed);
    let (a, b) = (input[0], input[1]);
    let label = degarble_gate(
        &gh,
        GateType::And,
        || ct,
        a.active_label,
        a.value,
        b.active_label,
        0,
    );
    EvaluationResult {
        input_wire_values: input.to_vec(),
        ciphertext_handler_result: Blake3AccumulatingHash::digest(ct),
        output_value: EvaluatedWire::new(label, a.value && b.value),
    }
}

const SEEDS: [u64; 4] = [11, 22, 33, 44];

fn draws() -> Vec<usize> {
    vec![0, 0, 1, 3]
}

fn garbler() -> Garbler<(), GH> {
    let results = SEEDS.iter().map(|s| garble(*s).0).collect();
    Garbler::create(SEEDS.to_vec(), results, Config::new(4, 2, ()), 100)
}

fn prepared() -> (Garbler<(), GH>, Evaluator<(), GH, LH>) {
    let mut g = garbler();
    let mut e = Evaluator::create(&draws(), 99, Config::new(4, 2, ()), g.commit_phase_one::<LH>());
    let second = g.commit_phase_two::<LH>(e.get_nonce());
    e.fill_second_commit(second);
    (g, e)
}

fn evidence(finalized: &[usize]) -> Vec<Evidence> {
    (0..4)
        .map(|i| {
            let (res, _) = garble(SEEDS[i]);
            if finalized.contains(&i) {
                Evidence::CiphertextHash(res.ciphertext_handler_result)
            } else {
                Evidence::Regarbled(res)
            }
        })
        .collect()
}

fn text<T>(r: Result<T, ConsistencyError<LH>>) -> String {
    match r {
        Ok(_) => panic!("no error"),
        Err(e) => e.fmt(),
    }
}

#[test]
fn honest_run_is_consistent() {
    let (mut g, mut e) = prepared();
    let finalized = e.finalized_indexes().to_vec();
    assert_eq!(finalized, sample_indexes(4, 2, &draws()));
    let chosen = g.open_commit_without_ciphertexts(finalized.clone());
    assert_eq!(chosen.finalized.len(), 2);
    assert_eq!(chosen.revealed.len(), 2);
    for (i, seed) in chosen.revealed.iter() {
        assert!(!finalized.contains(i));
        assert_eq!(*seed, SEEDS[*i]);
        assert_eq!(e.check_task(*i, &chosen.revealed), CheckTask::Regarble { seed: *seed });
    }
    for i in &finalized {
        assert_eq!(e.check_task(*i, &chosen.revealed), CheckTask::Ciphertexts);
    }
    assert!(!e.is_regarbled());
    assert!(e.full_check_commit(&evidence(&finalized)).is_ok());
    assert!(e.is_regarbled());
    for bits in [[true, true], [true, false], [false, false]] {
        let inputs = g.prepare_input_labels(&bits);
        let cases: Vec<EvaluatedCase> = inputs
            .iter()
            .map(|c| EvaluatedCase {
                index: c.index,
                result: Some(evaluate(SEEDS[c.index], &c.input)),
            })
            .collect();
        match e.evaluate_from(&cases) {
            Ok(outs) => {
                assert_eq!(outs.len(), 2);
                for (k, (i, w)) in outs.iter().enumerate() {
                    assert_eq!(*i, finalized[k]);
                    assert_eq!(w.value, bits[0] && bits[1]);
                    assert_eq!(w.active_label, g.output_wire(*i).unwrap().select(w.value));
                }
            }
            Err(err) => panic!("{}", err.fmt()),
        }
    }
}

#[test]
fn corrupted_openings_are_refused() {
    let (_, mut e) = prepared();
    let finalized = e.finalized_indexes().to_vec();
    let opened = (0..4).find(|i| !finalized.contains(i)).unwrap();
    let mut bad = evidence(&finalized);
    bad[opened] = Evidence::Regarbled(garble(1234).0);
    assert!(e.full_check_commit(&bad).is_err());
    assert!(e.run_regarbling(&bad).is_err());
    let mut bad = evidence(&finalized);
    bad[finalized[0]] = Evidence::CiphertextHash([1u8; 32]);
    assert!(e.full_check_commit(&bad).is_err());
    assert!(!e.is_regarbled());
    assert!(e.run_regarbling(&bad).is_ok());
    let mut bad = evidence(&finalized);
    bad[opened] = Evidence::Unavailable;
    assert!(e.run_regarbling(&bad).is_err());
    assert_eq!(e.check_task(opened, &[]), CheckTask::MissingSeed);
}

#[test]
fn inconsistent_evaluations_are_named() {
    let (mut g, mut e) = prepared();
    let finalized = e.finalized_indexes().to_vec();
    g.open_commit_without_ciphertexts(finalized.clone());
    e.mark_regarbled();
    let i = finalized[0];
    let input = g.prepare_input_labels(&[true, true]).remove(0).input;
    let case = |result| vec![EvaluatedCase { index: i, result }];
    assert_eq!(
        text(e.evaluate_from(&case(None))),
        format!("Missing ciphertext hash for instance {i}")
    );
    let mut r = evaluate(SEEDS[i], &input);
    r.input_wire_values.pop();
    assert_eq!(
        text(e.evaluate_from(&case(Some(r)))),
        format!("Input labels count mismatch for instance {i}: expected 2, got 1")
    );
    let mut r = evaluate(SEEDS[i], &input);
    r.input_wire_values[1].value = false;
    assert!(text(e.evaluate_from(&case(Some(r))))
        .starts_with(&format!("Input label commit mismatch for instance {i}, label 1: expected ")));
    let mut r = evaluate(SEEDS[i], &input);
    r.ciphertext_handler_result = [0u8; 32];
    assert!(text(e.evaluate_from(&case(Some(r))))
        .starts_with(&format!("Ciphertext hash mismatch for instance {i}: expected 0x")));
    let mut r = evaluate(SEEDS[i], &input);
    r.output_value.value = false;
    assert!(text(e.evaluate_from(&case(Some(r))))
        .starts_with(&format!("Output label hash mismatch for instance {i}: expected 0x")));
}

#[test]
fn consistency_texts() {
    let e: ConsistencyError<LH> = ConsistencyError::CommitFileNotFound(3);
    assert_eq!(e.fmt(), "Commit file not found for instance 3");
    let e: ConsistencyError<LH> = ConsistencyError::CommitFileInvalid(4, "bad".to_string());
    assert_eq!(e.fmt(), "Invalid commit file for instance 4: bad");
    let z = [0u8; 32];
    let hex = "00".repeat(32);
    let e: ConsistencyError<LH> =
        ConsistencyError::TrueConstantMismatch { index: 5, expected: z, actual: z };
    assert_eq!(
        e.fmt(),
        format!("True constant hash mismatch for instance 5: expected 0x{hex}, got 0x{hex}")
    );
    let e: ConsistencyError<LH> =
        ConsistencyError::FalseConstantMismatch { index: 6, expected: z, actual: z };
    assert_eq!(
        e.fmt(),
        format!("False constant hash mismatch for instance 6: expected 0x{hex}, got 0x{hex}")
    );
}

#[test]
fn handlers_go_to_closed_instances() {
    let (mut g, _) = prepared();
    let opened = g.open_commit(vec![(2usize, "two"), (0, "zero")]);
    assert_eq!(opened.len(), 4);
    for (i, o) in opened.iter().enumerate() {
        match o {
            OpenForInstance::Open(index, seed) => {
                assert!(i == 1 || i == 3);
                assert_eq!((*index, *seed), (i, SEEDS[i]));
            }
            OpenForInstance::Closed { index, seed, handler } => {
                assert_eq!((*index, *seed), (i, SEEDS[i]));
                assert_eq!(*handler, if i == 2 { "two" } else { "zero" });
            }
        }
    }
    assert_eq!(g.finalized_indexes(), Some(&[2usize, 0][..]));
}

#[test]
fn phase_two_commits_to_blended_labels() {
    let mut g = garbler();
    assert!(g.get_commitment::<LH>().is_none());
    let nonce = S::from_u128(5);
    let two = g.commit_phase_two::<LH>(nonce);
    let w = g.input_labels_for(0)[0];
    let expected = LabelCommit::new::<LH>(w.label0 ^ &nonce, w.label1 ^ &nonce, &None);
    assert_eq!(two[0].input_commitments()[0].commit_false, expected.commit_false);
    assert_eq!(two[0].input_commitments()[0].commit_true, expected.commit_true);
    assert_eq!(g.nonce(), Some(nonce));
    assert!(g.get_commitment::<LH>().is_some());
    let one = g.commit_phase_one::<LH>();
    let zero = g.instances().iter().map(|i| CommitPhaseTwo::<LH>::from_instance(i, S::zero()));
    for (a, b) in one.iter().zip(zero) {
        assert_eq!(
            a.input_commitments()[0].commit_for_value(true),
            b.input_commitments()[0].commit_for_value(true)
        );
    }
}

#[test]
fn parts_are_put_together_again() {
    let g = garbler();
    let parts = GarblerRawParts::from(g);
    assert!(matches!(parts.stage, GarblerStage::Generating { .. }));
    let g = Garbler::from(parts);
    assert_eq!(g.live_capacity(), 100);
    let (stage, instances, config, capacity, nonce) = g.into_raw_parts();
    let g = Garbler::<(), GH>::from_raw_parts(stage, instances, config, capacity, nonce);
    assert_eq!(g.config().total(), 4);
    let (_, mut e) = prepared();
    assert!(e.get_commitment().is_some());
    let first = match e.stage_mut() {
        Stage::Filled { first, .. } => first.len(),
        _ => 0,
    };
    assert_eq!(first, 4);
    let parts = EvaluatorRawParts::from(e);
    assert_eq!(parts.nonce, S::from_u128(99));
    let e = Evaluator::from(parts);
    let (config, nonce, finalized, regarbled, stage) = e.into_raw_parts();
    let e = Evaluator::<(), GH, LH>::from_raw_parts(
        config,
        nonce.to_u128(),
        finalized,
        regarbled,
        stage,
    );
    assert!(e.get_commit_phase_one(3).is_some());
    assert!(e.get_commit_phase_one(4).is_none());
    assert_eq!(e.config().finalized_count(), 2);
}

#[test]
fn evidence_answers_the_task_of_an_instance() {
    let mut g = garbler();
    let e = Evaluator::<(), GH, LH>::create(
        &draws(),
        99,
        Config::new(4, 2, ()),
        g.commit_phase_one::<LH>(),
    );
    let finalized = e.finalized_indexes().to_vec();
    let chosen = g.open_commit_without_ciphertexts(finalized.clone());
    for i in 0..4 {
        let got = e.evidence_for(
            i,
            &chosen.revealed,
            |seed| garble(seed).0,
            |index| if index == finalized[0] { Some([7; 32]) } else { None },
        );
        match got {
            Evidence::CiphertextHash(h) => {
                assert_eq!(i, finalized[0]);
                assert_eq!(h, [7; 32]);
            }
            Evidence::Unavailable => assert_eq!(i, finalized[1]),
            Evidence::Regarbled(res) => {
                assert!(!finalized.contains(&i));
                let own = garble(SEEDS[i]).0;
                assert_eq!(res.output_value, own.output_value);
            }
        }
    }
    let opened = (0..4).find(|i| !finalized.contains(i)).unwrap();
    let missing = e.evidence_for(opened, &[], |seed| garble(seed).0, |_| None);
    assert!(matches!(missing, Evidence::Unavailable));
}

fn soldering_parties() -> (Garbler<(), GH>, soldering::Evaluator<(), GH, LH>) {
    let mut g = garbler();
    let mut e = soldering::Evaluator::create(
        &draws(),
        99,
        Config::new(4, 2, ()),
        g.commit_phase_one::<LH>(),
    );
    let second = g.commit_phase_two::<LH>(e.get_nonce());
    e.fill_second_commit(second);
    let finalized = e.finalized_indexes().to_vec();
    g.open_commit_without_ciphertexts(finalized.clone());
    assert!(e.run_regarbling(&evidence(&finalized)).is_ok());
    (g, e)
}

#[test]
fn soldered_instances_are_evaluated_from_one_input() {
    let (g, mut e) = soldering_parties();
    let finalized = e.finalized_indexes().to_vec();
    assert!(e.verified_soldered_base_commitment().is_none());
    let data = solder_instances(&g.do_soldering());
    let statement = e.soldering_statement(data.deltas.clone()).unwrap();
    assert_eq!(statement.base_commitment, data.base_commitment);
    assert_eq!(statement.base_nonce_commitment, data.base_nonce_commitment);
    assert_eq!(statement.commitments, data.commitments);
    assert_eq!(statement.nonce, data.nonce);
    let accepted = e
        .verify_soldering_against_commits(data.deltas.clone(), |d| {
            d.deltas == data.deltas
                && d.base_commitment == data.base_commitment
                && d.base_nonce_commitment == data.base_nonce_commitment
                && d.nonce == data.nonce
                && d.commitments == data.commitments
        })
        .unwrap();
    assert_eq!(accepted.deltas, data.deltas);
    assert!(matches!(e.soldering_stage, SolderingStage::Soldered { .. }));
    let base = e.verified_soldered_base_commitment().unwrap();
    let own = g.soldered_base_commitment::<LH>().unwrap();
    assert_eq!(base.len(), own.len());
    let outs = e.finalized_output_label_commitment().unwrap();
    let own = g.finalized_output_label_commitment::<LH>().unwrap();
    for ((t, f), (own_f, own_t)) in outs.iter().zip(own.iter()) {
        assert_eq!(t, own_t);
        assert_eq!(f, own_f);
    }
    let bits = [true, true];
    let input: Vec<EvaluatedWire> = g
        .input_labels_for(finalized[0])
        .iter()
        .zip(bits)
        .map(|(w, b)| EvaluatedWire::new_from_garbled(w, b))
        .collect();
    let case = EvaluatorCaseInput { index: finalized[0], input };
    let outs = e.evaluate_with_soldered_instances_from(case, |c| {
        Some(evaluate(SEEDS[c.index], &c.input))
    });
    match outs {
        Ok(outs) => {
            assert_eq!(outs.len(), 2);
            assert!(outs.iter().all(|(_, w)| w.value));
        }
        Err(err) => panic!("{}", err.fmt()),
    }
}

#[test]
fn bad_soldering_is_refused() {
    let (g, mut e) = soldering_parties();
    let data = solder_instances(&g.do_soldering());
    match e.verify_soldering_against_commits(data.deltas.clone(), |_| false) {
        Err(SolderingCheckError::SolderingFailed(m)) => {
            assert_eq!(m, "Soldering verification failed")
        }
        _ => panic!("accepted"),
    }
    match e.accept_soldering(Vec::new(), true) {
        Err(SolderingCheckError::ShapeMismatch(m)) => {
            assert_eq!(m, "deltas count vs additional instances")
        }
        _ => panic!("accepted"),
    }
    match e.verify_soldering_against_commits(vec![vec![(0, 0)]], |_| true) {
        Err(SolderingCheckError::ShapeMismatch(m)) => assert_eq!(m, "per-instance wire count"),
        _ => panic!("accepted"),
    }
    assert!(matches!(e.soldering_stage, SolderingStage::Vanilla));
}

#[test]
fn differing_soldering_data_is_located() {
    let (g, e) = soldering_parties();
    let finalized = e.finalized_indexes().to_vec();
    let (first, second): (&Vec<CommitPhaseOne<GH, LH>>, _) = e.get_commitment().unwrap();
    let check = |d: &SolderedLabels| soldering::check_data(first, second, &finalized, d);
    let fresh = || solder_instances(&g.do_soldering());
    assert!(check(&fresh()).is_ok());
    let mut d = fresh();
    d.base_commitment.pop();
    assert_eq!(check(&d).unwrap_err().fmt(), "Shape mismatch: base commitment wire count");
    let mut d = fresh();
    d.commitments.pop();
    assert_eq!(
        check(&d).unwrap_err().fmt(),
        "Shape mismatch: commitments count vs additional instances"
    );
    let mut d = fresh();
    d.base_commitment[1].1[0] ^= 1;
    match check(&d) {
        Err(SolderingCheckError::BaseCommitMismatch { wire_index, which, .. }) => {
            assert_eq!((wire_index, which), (1, "label1"))
        }
        _ => panic!("accepted"),
    }
    let mut d = fresh();
    d.base_nonce_commitment[0].0[0] ^= 1;
    match check(&d) {
        Err(SolderingCheckError::BaseNonceCommitMismatch { wire_index, which, .. }) => {
            assert_eq!((wire_index, which), (0, "label0_with_nonce"))
        }
        _ => panic!("accepted"),
    }
    let mut d = fresh();
    d.commitments[0][1].0[0] ^= 1;
    match check(&d) {
        Err(SolderingCheckError::InstanceCommitMismatch {
            instance_index,
            wire_index,
            which,
            ..
        }) => assert_eq!((instance_index, wire_index, which), (finalized[1], 1, "label0")),
        _ => panic!("accepted"),
    }
}

#[test]
fn constants_and_commitments_of_an_instance() {
    let g = garbler();
    let (res, _) = garble(SEEDS[1]);
    assert_eq!(g.true_wire_constant_for(1), res.true_wire_constant.label1.to_u128());
    assert_eq!(g.false_wire_constant_for(1), res.false_wire_constant.label0.to_u128());
    let commits = g.commit_phase_one::<LH>();
    assert_eq!(commits[1].true_constant(), res.true_wire_constant.label1.to_u128());
    assert_eq!(commits[1].ciphertext_hash(), res.ciphertext_handler_result);
    let c = LabelCommit { commit_false: [0u8; 32], commit_true: [0xabu8; 32] };
    assert_eq!(
        fmt_label_commit::<LH>(&c),
        format!("LabelCommit {{ false: 0x{}, true: 0x{} }}", "00".repeat(32), "ab".repeat(32))
    );
}
