use ark_ff::{PrimeField, UniformRand};
use ark_secp256k1::Fr;
use garbled_snark_verifier::ciphertext_hasher::Blake3AccumulatingHash;
use garbled_snark_verifier::cut_and_choose::commit::{
    gate_hasher_seed_of, Config, Sha256LabelCommitHasher, StreamingResult,
};
use garbled_snark_verifier::cut_and_choose::evaluator::{
    CheckTask, EvaluatedCase, EvaluationResult, Evidence,
};
use garbled_snark_verifier::gate::{Delta, GarbledWire, GateType};
use garbled_snark_verifier::halfgates::{degarble_gate, garble_gate};
use garbled_snark_verifier::hashers::{AesCcrGateHasher, GateHasher};
use garbled_snark_verifier::modes::evaluate::EvaluatedWire;
use garbled_snark_verifier::s::S;
use garbled_snark_verifier::vsss::evaluator::{verify_share_commits, Evaluator};
use garbled_snark_verifier::vsss::field::Scalar;
use garbled_snark_verifier::vsss::garbler::{
    polynomials_of, wide_label_count, Garbler, InstanceWideLabelLookup, VSSSContext,
};
use garbled_snark_verifier::vsss::points::Point;
use garbled_snark_verifier::vsss::protocol::{
    encode_input, signed_labels, Challenge, EvaluatorAdaptorSigs, FinalizeChallenge,
    OpenVsssInstance,
};
use rand::{Rng, SeedableRng};
use rand_chacha::ChaChaRng;

type LH = Sha256LabelCommitHasher;
type GH = AesCcrGateHasher;

const SEEDS: [u64; 4] = [11, 22, 33, 44];
const WIRES: usize = 2;
const W: usize = 8;

fn garble(seed: u64) -> (StreamingResult, S) {
    let gh = GH::from_seed(gate_hasher_seed_of::<GH>(seed));
    let mut rng = ChaChaRng::seed_from_u64(seed);
    let _salt: u128 = rng.gen();
    let delta = Delta(S::from_u128(rng.gen()));
    let mut wire = || {
        let label0 = S::from_u128(rng.gen());
        GarbledWire::new(label0, label0 ^ &delta.0)
    };
    let (f, t) = (wire(), wire());
    let inputs: Vec<GarbledWire> = (0..WIRES).map(|_| wire()).collect();
    let (c0, ct) =
        garble_gate(&gh, GateType::And, inputs[0].label0, inputs[1].label0, &delta, 0);
    let ct = ct.unwrap();
    let res = StreamingResult {
        false_wire_constant: f,
        true_wire_constant: t,
        output_value: GarbledWire::new(c0, c0 ^ &delta.0),
        input_wire_values: inputs,
        ciphertext_handler_result: Blake3AccumulatingHash::digest(ct),
    };
    (res, ct)
}

fn evaluate(seed: u64, input: &[EvaluatedWire]) -> EvaluationResult {
    let (_, ct) = garble(seed);
    let gh = GH::from_seed(gate_hasher_seed_of::<GH>(seed));
    let (a, b) = (input[0], input[1]);
    let label =
        degarble_gate(&gh, GateType::And, || ct, a.active_label, a.value, b.active_label, 0);
    EvaluationResult {
        input_wire_values: input.to_vec(),
        ciphertext_handler_result: Blake3AccumulatingHash::digest(ct),
        output_value: EvaluatedWire::new(label, a.value && b.value),
    }
}

fn draws(count: usize) -> Vec<Scalar> {
    let mut rng = ChaChaRng::seed_from_u64(77);
    (0..count)
        .map(|_| Scalar::from_limbs(Fr::rand(&mut rng).into_bigint().0).unwrap())
        .collect()
}

fn garbler() -> Garbler<(), GH> {
    let config = Config::new(4, 2, ());
    let results = SEEDS.iter().map(|s| garble(*s).0).collect();
    let size = config.total - config.finalized_count() + 1;
    let draws = draws(wide_label_count(WIRES) * size);
    Garbler::create(SEEDS.to_vec(), results, config, 100, WIRES, &draws)
}

fn evidence(finalized: &[usize]) -> Vec<Evidence> {
    (0..4)
        .map(|i| {
            let (res, _) = garble(SEEDS[i]);
            if finalized.contains(&i) {
                Evidence::CiphertextHash(res.ciphertext_handler_result)
            } else {
                Evidence::Regarbled(res)
            }
        })
        .collect()
}

fn parties() -> (
    Garbler<(), GH>,
    Evaluator<(), GH, LH>,
    Vec<OpenVsssInstance>,
    Vec<(usize, InstanceWideLabelLookup)>,
) {
    let mut g = garbler();
    let e = match Evaluator::create(
        &[0, 0, 1, 3],
        5,
        Config::new(4, 2, ()),
        WIRES,
        g.commit::<LH>(),
    ) {
        Ok(e) => e,
        Err(m) => panic!("{m}"),
    };
    let challenges = e
        .finalized_indexes()
        .iter()
        .map(|i| FinalizeChallenge { index: *i, ciphertext_handler: *i * 10 })
        .collect();
    let (open, closed) = g.open_commit(challenges);
    for c in &closed {
        assert_eq!(c.ciphertext_handler, c.index * 10);
        assert_eq!(c.seed, SEEDS[c.index]);
    }
    let lookups = closed.into_iter().map(|c| (c.index, c.wide_label_lookup)).collect();
    (g, e, open, lookups)
}

#[test]
fn all_instances_are_evaluated_from_the_labels_of_one() {
    let (g, mut e, open, lookups) = parties();
    let finalized = e.finalized_indexes().to_vec();
    assert_eq!(open.len(), 2);
    assert!(e.run_regarbling(&open, &lookups, &evidence(&finalized)).is_ok());
    assert!(e.regarbled);
    for bits in [[true, true], [false, true]] {
        let input: Vec<EvaluatedWire> = bits.iter().map(|b| EvaluatedWire::new(S::one(), *b)).collect();
        assert_eq!(encode_input::<GH>(&input, S::zero()), bits.to_vec());
        let challenge = Challenge {
            finalized: Vec::<FinalizeChallenge<()>>::new(),
            adaptor_sigs: vec![1u8],
            assert_index: finalized[1],
        };
        let labels = g.wide_labels_for(finalized[1]);
        let signatures =
            challenge.compute_signatures::<W, _, _>(&labels, &bits, |_, s| Some(*s)).unwrap();
        assert_eq!(signatures, signed_labels::<W>(&labels, &bits));
        let sigs = EvaluatorAdaptorSigs {
            assert_index: finalized[1],
            secret: Scalar::from_u64(1),
            adaptor_sigs: vec![1u8],
        };
        let wires = sigs
            .evaluated_wires::<W, _, _>(&signatures, &lookups, &open, 4, |_, s| Some(*s))
            .expect("recovered");
        assert_eq!(wires.len(), 2);
        assert_eq!(wires[0].0, finalized[0]);
        assert_eq!(wires[1].0, finalized[1]);
        let mut cases = Vec::new();
        for (i, w) in wires {
            let expected: Vec<EvaluatedWire> = g
                .input_labels_for(i)
                .iter()
                .zip(bits)
                .map(|(l, b)| EvaluatedWire::new_from_garbled(l, b))
                .collect();
            assert_eq!(w, expected);
            assert_eq!(g.prepare_input_labels(&bits, i).input, expected);
            cases.push(EvaluatedCase { index: i, result: Some(evaluate(SEEDS[i], &w)) });
        }
        match e.evaluate_from(&cases) {
            Ok(outs) => assert!(outs.iter().all(|(_, w)| w.value == (bits[0] && bits[1]))),
            Err(err) => panic!("{}", err.fmt()),
        }
    }
}

#[test]
fn shared_evidence_answers_the_task_of_an_instance() {
    let (_, mut e, open, lookups) = parties();
    let finalized = e.finalized_indexes().to_vec();
    for o in &open {
        assert_eq!(e.check_task(o.index, &open), CheckTask::Regarble { seed: o.seed });
        assert_eq!(e.check_task(o.index, &[]), CheckTask::MissingSeed);
    }
    for i in &finalized {
        assert_eq!(e.check_task(*i, &open), CheckTask::Ciphertexts);
    }
    let take = |i: usize| Some(garble(SEEDS[i]).0.ciphertext_handler_result);
    let all: Vec<Evidence> =
        (0..4).map(|i| e.evidence_for(i, &open, |seed| garble(seed).0, take)).collect();
    assert!(e.run_regarbling(&open, &lookups, &all).is_ok());
    assert!(matches!(
        e.evidence_for(finalized[0], &open, |seed| garble(seed).0, |_| None),
        Evidence::Unavailable
    ));
}

#[test]
fn pieces_wider_than_a_byte_are_signed_for_small_values() {
    let labels: Vec<Scalar> = (10..13).map(Scalar::from_u64).collect();
    let mut bits = vec![false; 9];
    bits[7] = true;
    assert_eq!(signed_labels::<9>(&labels, &bits), vec![Scalar::from_u64(12)]);
    bits[7] = false;
    bits[8] = true;
    assert_eq!(signed_labels::<9>(&labels, &bits), vec![Scalar::from_u64(11)]);
}

#[test]
fn a_failed_signature_stops() {
    let (g, e, open, lookups) = parties();
    let finalized = e.finalized_indexes().to_vec();
    let challenge = Challenge {
        finalized: Vec::<FinalizeChallenge<()>>::new(),
        adaptor_sigs: vec![1u8],
        assert_index: finalized[1],
    };
    let labels = g.wide_labels_for(finalized[1]);
    let none = challenge.compute_signatures::<W, Scalar, _>(&labels, &[true, false], |_, _| None);
    assert!(none.is_none());
    let sigs = EvaluatorAdaptorSigs {
        assert_index: finalized[1],
        secret: Scalar::from_u64(1),
        adaptor_sigs: vec![1u8],
    };
    let wrong = [Scalar::from_u64(12345)];
    assert!(sigs.evaluated_wires::<W, _, _>(&wrong, &lookups, &open, 4, |_, s| Some(*s)).is_none());
    assert!(sigs.evaluated_wires::<W, _, _>(&wrong, &lookups, &open, 4, |_, _| None).is_none());
}

#[test]
fn corrupted_parts_are_refused() {
    let (_, mut e, mut open, lookups) = parties();
    let finalized = e.finalized_indexes().to_vec();
    let share = open[0].shares[0];
    open[0].shares[0] = Scalar::from_u64(3);
    assert!(e.run_regarbling(&open, &lookups, &evidence(&finalized)).is_err());
    open[0].shares[0] = share;
    let mut bad = evidence(&finalized);
    bad[finalized[0]] = Evidence::CiphertextHash([0u8; 32]);
    assert!(e.run_regarbling(&open, &lookups, &bad).is_err());
    let mut bad = evidence(&finalized);
    bad[open[0].index] = Evidence::Regarbled(garble(999).0);
    assert!(e.run_regarbling(&open, &lookups, &bad).is_err());
    let (_, _, _, mut tampered) = parties();
    tampered[0].1[0].0[0][0] ^= 1;
    assert!(e.run_regarbling(&open, &tampered, &evidence(&finalized)).is_err());
    assert!(!e.regarbled);
    assert!(e.run_regarbling(&open, &lookups, &evidence(&finalized)).is_ok());
}

#[test]
fn false_share_commitments_are_refused() {
    let g = garbler();
    let mut commits = g.commit::<LH>();
    assert!(verify_share_commits(&commits.polynomial_commits, &commits.share_commits).is_ok());
    commits.share_commits[1].0[3] = commits.share_commits[1].0[2];
    assert!(verify_share_commits(&commits.polynomial_commits, &commits.share_commits).is_err());
    match Evaluator::create(&[0, 0, 1, 3], 5, Config::new(4, 2, ()), WIRES, commits) {
        Ok(_) => panic!("accepted"),
        Err(m) => assert_eq!(m, "Share commit verification failed"),
    }
}

#[test]
fn adaptors_see_the_commitments_of_the_drawn_instance() {
    let g = garbler();
    let commits = g.commit::<LH>();
    let sigs = EvaluatorAdaptorSigs::new::<W, _>(
        1,
        Scalar::from_u64(9),
        &[0, 2],
        &commits.share_commits,
        &[vec![1, 2, 3]],
        |s: &Scalar, c: &Vec<Point>, m: &Vec<u8>| (*s, c.clone(), m.clone()),
    );
    assert_eq!(sigs.assert_index, 2);
    let (secret, points, message) = &sigs.adaptor_sigs[0];
    assert_eq!(*secret, Scalar::from_u64(9));
    assert_eq!(message, &vec![1, 2, 3]);
    assert_eq!(points.len(), 4);
    for (p, c) in points.iter().zip(&commits.share_commits) {
        assert_eq!(*p, c.0[2]);
    }
}

#[test]
fn sharing_gives_every_instance_its_shares() {
    let draws = draws(4 * 3);
    let polys = polynomials_of(&draws, 2, 4, 2);
    assert_eq!(polys.len(), 4);
    for (p, polynomial) in polys.iter().enumerate() {
        assert_eq!(polynomial.0, draws[3 * p..3 * p + 3]);
    }
    let shares: Vec<_> = polys.iter().map(|p| p.shares(4)).collect();
    let context = VSSSContext::new(&draws, 2, 4, 2);
    assert_eq!(context.polynomials.len(), 4);
    for i in 0..4 {
        let expected: Vec<Scalar> = shares.iter().map(|s| s[i].1).collect();
        assert_eq!(context.shares_for_instance(i), &expected[..]);
    }
    assert_eq!(wide_label_count(0), 0);
    assert_eq!(wide_label_count(8), 256);
    assert_eq!(wide_label_count(11), 264);
}
