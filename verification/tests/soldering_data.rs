use garbled_snark_verifier::cut_and_choose::commit::{
    commit_label, commit_output_true, Sha256LabelCommitHasher,
};
use garbled_snark_verifier::cut_and_choose::soldering::SolderingCheckError;
use garbled_snark_verifier::gate::GarbledWire;
use garbled_snark_verifier::modes::evaluate::EvaluatedWire;
use garbled_snark_verifier::s::S;
use garbled_snark_verifier::soldering_data::{
    deserialize_public_params, serialize_public_params, serialize_wires_input, solder_instances,
    wires_input, EvaluatedCompressedG1Wires, EvaluatedCompressedG2Wires, EvaluatorCompressedInput,
    Sha256Commit, SolderInput, SolderedLabels, WiresInput,
};
use garbled_snark_verifier::soldering_format::check_lengths;
use rand::rngs::StdRng;
use rand::{Rng, SeedableRng};
use sha2::{Digest, Sha256};

fn hash_label(label: u128) -> Sha256Commit {
    Sha256::digest(label.to_be_bytes()).into()
}

fn build_expected_public_params(
    raw_instances: &[Vec<(u128, u128)>],
    nonce: u128,
) -> SolderedLabels {
    let (base, rest) = raw_instances.split_first().expect("at least one instance required");
    let mut base_commitment = Vec::new();
    let mut base_nonce_commitment = Vec::new();
    for &(label0, label1) in base {
        base_commitment.push((hash_label(label0), hash_label(label1)));
        base_nonce_commitment.push((hash_label(label0 ^ nonce), hash_label(label1 ^ nonce)));
    }
    let mut commitments = Vec::new();
    let mut deltas = Vec::new();
    for instance in rest {
        let mut instance_commitment = Vec::new();
        let mut instance_deltas = Vec::new();
        for ((base0, base1), (label0, label1)) in base.iter().zip(instance.iter()) {
            instance_commitment.push((hash_label(*label0), hash_label(*label1)));
            instance_deltas.push((base0 ^ label0, base1 ^ label1));
        }
        commitments.push(instance_commitment);
        deltas.push(instance_deltas);
    }
    SolderedLabels { deltas, base_commitment, base_nonce_commitment, nonce, commitments }
}

fn assert_same(a: &SolderedLabels, b: &SolderedLabels, text: &str) {
    assert_eq!(a.deltas, b.deltas, "{text}");
    assert_eq!(a.base_commitment, b.base_commitment, "{text}");
    assert_eq!(a.base_nonce_commitment, b.base_nonce_commitment, "{text}");
    assert_eq!(a.nonce, b.nonce, "{text}");
    assert_eq!(a.commitments, b.commitments, "{text}");
}

fn raw(rng: &mut StdRng, wires: usize, instances: usize, delta: u128) -> Vec<Vec<(u128, u128)>> {
    let mut raw_instances = Vec::new();
    for _ in 0..=instances {
        let mut raw_labels = Vec::new();
        for _ in 0..wires {
            let label0: u128 = rng.gen();
            raw_labels.push((label0, label0 ^ delta));
        }
        raw_instances.push(raw_labels);
    }
    raw_instances
}

#[test]
fn test_serialization_consistency() {
    let mut rng = StdRng::seed_from_u64(12345);
    let wires = 3;
    let instances = 2;
    let nonce: u128 = rng.gen();
    let delta: u128 = rng.gen::<u128>() | 1;
    let raw_instances = raw(&mut rng, wires, instances, delta);

    let expected_params = build_expected_public_params(&raw_instances, nonce);
    let serialized =
        serialize_public_params(&expected_params).expect("failed to serialize public params");

    const EXPECTED_BYTES: &[u8] = &[
        2, 3, 254, 84, 109, 203, 40, 102, 41, 191, 75, 209, 57, 43, 101, 15, 149, 7, 76, 254,
        84, 109, 203, 40, 102, 41, 191, 75, 209, 57, 43, 101, 15, 149, 7, 76, 254, 34, 19, 42,
        254, 185, 101, 187, 5, 27, 16, 105, 61, 97, 2, 116, 31, 254, 34, 19, 42, 254, 185, 101,
        187, 5, 27, 16, 105, 61, 97, 2, 116, 31, 254, 182, 21, 249, 25, 222, 31, 52, 60, 218,
        31, 155, 201, 149, 3, 99, 101, 254, 182, 21, 249, 25, 222, 31, 52, 60, 218, 31, 155,
        201, 149, 3, 99, 101, 3, 254, 251, 139, 135, 213, 90, 245, 72, 4, 83, 173, 70, 62, 202,
        128, 51, 35, 254, 251, 139, 135, 213, 90, 245, 72, 4, 83, 173, 70, 62, 202, 128, 51,
        35, 254, 25, 243, 32, 205, 28, 208, 76, 187, 21, 242, 94, 157, 189, 2, 174, 116, 254,
        25, 243, 32, 205, 28, 208, 76, 187, 21, 242, 94, 157, 189, 2, 174, 116, 254, 198, 24,
        113, 143, 100, 186, 14, 195, 176, 136, 142, 128, 71, 47, 129, 213, 254, 198, 24, 113,
        143, 100, 186, 14, 195, 176, 136, 142, 128, 71, 47, 129, 213, 3, 74, 18, 227, 81, 109,
        20, 32, 81, 167, 205, 13, 107, 67, 217, 120, 181, 127, 52, 96, 68, 40, 210, 214, 23,
        163, 182, 248, 147, 207, 165, 170, 180, 157, 50, 197, 242, 108, 168, 242, 228, 103,
        195, 51, 222, 137, 193, 220, 51, 118, 142, 201, 216, 117, 198, 253, 115, 15, 9, 231,
        32, 20, 206, 236, 212, 52, 115, 217, 150, 130, 99, 177, 29, 236, 242, 123, 57, 32, 136,
        1, 184, 22, 46, 13, 231, 47, 31, 236, 250, 196, 150, 145, 201, 122, 16, 94, 215, 6,
        254, 174, 197, 109, 209, 241, 75, 67, 112, 225, 212, 184, 230, 42, 62, 159, 61, 206,
        187, 204, 17, 177, 112, 35, 141, 151, 71, 91, 112, 35, 231, 69, 141, 240, 41, 145, 21,
        211, 40, 81, 45, 12, 65, 130, 174, 101, 247, 159, 51, 227, 198, 206, 136, 249, 89, 46,
        120, 2, 137, 145, 158, 69, 111, 205, 218, 100, 177, 142, 209, 92, 148, 117, 159, 45,
        15, 236, 179, 120, 132, 43, 129, 157, 203, 15, 21, 186, 203, 75, 252, 169, 254, 181,
        184, 157, 249, 3, 107, 214, 146, 201, 93, 102, 119, 125, 224, 42, 161, 46, 2, 0, 138,
        34, 151, 147, 122, 48, 53, 29, 82, 168, 222, 80, 62, 85, 161, 172, 38, 249, 241, 186,
        249, 141, 38, 79, 203, 41, 77, 219, 180, 195, 249, 125, 217, 205, 153, 90, 148, 2, 168,
        227, 243, 165, 21, 120, 255, 120, 156, 206, 231, 144, 215, 204, 209, 36, 24, 56, 150,
        7, 198, 194, 111, 8, 138, 125, 41, 93, 239, 41, 217, 249, 64, 17, 180, 217, 18, 84,
        217, 31, 41, 111, 126, 90, 58, 213, 36, 219, 148, 137, 101, 22, 52, 21, 117, 164, 139,
        203, 121, 118, 84, 216, 162, 213, 167, 130, 229, 103, 144, 203, 177, 108, 157, 126,
        207, 243, 54, 31, 120, 190, 154, 154, 11, 136, 18, 238, 144, 187, 97, 120, 192, 137,
        43, 207, 76, 79, 162, 77, 108, 228, 60, 38, 165, 2, 93, 49, 164, 42, 3, 238, 2, 222,
        220, 180, 233, 194, 154, 153, 197, 124, 142, 138, 148, 61, 17, 68, 45, 177, 153, 62,
        149, 142, 171, 221, 199, 185, 193, 130, 249, 159, 254, 86, 209, 93, 136, 38, 148, 81,
        78, 75, 84, 66, 238, 158, 221, 19, 226, 2, 3, 177, 86, 229, 61, 52, 32, 21, 65, 5, 188,
        104, 26, 189, 3, 83, 188, 30, 226, 128, 34, 158, 33, 184, 3, 65, 49, 201, 148, 223,
        142, 84, 161, 235, 34, 99, 16, 117, 213, 38, 19, 170, 21, 217, 78, 120, 174, 89, 28,
        127, 32, 196, 252, 25, 232, 56, 32, 181, 33, 186, 188, 159, 140, 200, 14, 13, 254, 55,
        104, 131, 173, 74, 130, 20, 71, 46, 245, 31, 50, 211, 164, 129, 132, 30, 2, 241, 61,
        91, 56, 36, 165, 54, 170, 109, 194, 146, 181, 136, 51, 172, 28, 151, 68, 169, 100, 48,
        69, 40, 105, 214, 86, 216, 20, 196, 8, 243, 168, 176, 126, 193, 125, 156, 84, 204, 237,
        125, 107, 80, 79, 122, 175, 57, 198, 200, 93, 82, 47, 144, 214, 184, 245, 34, 31, 178,
        61, 133, 199, 93, 180, 255, 166, 28, 130, 61, 51, 201, 125, 12, 160, 123, 237, 25, 239,
        18, 98, 160, 0, 34, 24, 198, 9, 254, 241, 131, 162, 31, 17, 105, 243, 249, 143, 16, 35,
        53, 174, 184, 224, 98, 39, 90, 193, 91, 94, 3, 28, 160, 248, 247, 58, 170, 100, 252,
        228, 229, 154, 252, 113, 9, 99, 206, 97, 73, 193, 16, 240, 168, 7, 228, 210, 164, 135,
        23, 70, 231, 72, 136, 34, 107, 215, 205, 168, 221, 123, 130, 192, 51, 69, 125, 30, 61,
        188, 144, 56, 186, 181, 178, 191, 109, 191, 20, 119, 59, 192, 5, 233, 27, 167, 125,
        238, 84, 195, 236, 209, 242, 248, 194, 79, 249, 154, 113, 122, 218, 111, 8, 241, 234,
        0, 97, 139, 177, 172, 92, 236, 112, 21, 250, 17, 58, 51, 51, 148, 175, 232, 127, 126,
        8, 48, 47, 231, 235, 35, 113, 149, 230, 173, 101, 255, 137, 21, 31, 236, 142, 203, 141,
        146, 103, 155, 154, 239, 35, 63, 116, 186, 79, 87, 37, 34, 195, 28, 119, 236, 222, 6,
        31, 51, 174, 117, 102, 221, 34, 156, 82, 99, 78, 146, 62, 177, 206, 117, 180, 130, 175,
        133, 105, 219, 168, 207, 6, 167, 15, 148, 205, 157, 184, 96, 122, 180, 101, 109, 57,
        216, 64, 29, 179, 224, 27, 93, 222, 109, 25, 219, 131, 50, 157, 36, 148,
    ];

    assert_eq!(serialized.as_slice(), EXPECTED_BYTES);

    let deserialized = deserialize_public_params(&serialized).expect("failed to deserialize");
    assert_same(&deserialized, &expected_params, "deserialized params differ");
}

#[test]
fn execute_guest_emits_expected_public_values() {
    let wires = 1019;
    let total_instances = 7;
    let additional_instances = total_instances - 1;
    let mut rng = StdRng::seed_from_u64(1337);
    let nonce: u128 = rng.gen();
    let delta: u128 = rng.gen::<u128>() | 1;
    let raw_instances = raw(&mut rng, wires, additional_instances, delta);
    let input = WiresInput { instances_wires: raw_instances.clone(), nonce };
    let input_bytes =
        serialize_wires_input(&input).expect("failed to serialize wires input for execution");
    assert!(!input_bytes.is_empty());
    let public_values = serialize_public_params(&solder_instances(&input)).unwrap();
    let recovered =
        deserialize_public_params(&public_values).expect("failed to decode public params");
    let expected = build_expected_public_params(&raw_instances, nonce);
    assert_same(&recovered, &expected, "unexpected public params from execution");
}

#[test]
fn garbage_is_not_deserialized() {
    assert!(deserialize_public_params(&[255, 255, 255]).is_none());
    assert!(deserialize_public_params(&[]).is_none());
}

#[test]
fn soldered_wires_have_the_labels_of_the_other_instance() {
    let mut rng = StdRng::seed_from_u64(3);
    let raw_instances = raw(&mut rng, 4, 1, 0xabcdef);
    let wires: Vec<Vec<GarbledWire>> = raw_instances
        .iter()
        .map(|i| {
            i.iter().map(|(a, b)| GarbledWire::new(S::from_u128(*a), S::from_u128(*b))).collect()
        })
        .collect();
    let input = wires_input(&wires, 77);
    assert_eq!(input.instances_wires, raw_instances);
    let data = solder_instances(&input);
    let deltas: Vec<(S, S)> =
        data.deltas[0].iter().map(|(a, b)| (S::from_u128(*a), S::from_u128(*b))).collect();
    let base: Vec<EvaluatedWire> = wires[0]
        .iter()
        .enumerate()
        .map(|(i, w)| EvaluatedWire::new_from_garbled(w, i % 2 == 0))
        .collect();
    let moved = base.solder(&deltas);
    for (i, w) in wires[1].iter().enumerate() {
        assert_eq!(moved[i], EvaluatedWire::new_from_garbled(w, i % 2 == 0));
    }
}

#[test]
fn soldering_keeps_the_parts_of_a_compressed_input() {
    let wire = |i: u128| EvaluatedWire::new(S::from_u128(i), i % 2 == 1);
    let wires = |from: u128, n: u128| (from..from + n).map(wire).collect::<Vec<_>>();
    let input = EvaluatorCompressedInput {
        public: vec![wires(0, 2), wires(2, 1)],
        a: EvaluatedCompressedG1Wires { x: wires(3, 2), y_flag: wire(5) },
        b: EvaluatedCompressedG2Wires { x0: wires(6, 1), x1: wires(7, 3), y_flag: wire(10) },
        c: EvaluatedCompressedG1Wires { x: wires(11, 2), y_flag: wire(13) },
    };
    let deltas: Vec<(S, S)> =
        (0..14u128).map(|i| (S::from_u128(256 * i), S::from_u128(4096 * i))).collect();
    let moved = |from: u128, n: u128| {
        (from..from + n)
            .map(|i| {
                let delta = if i % 2 == 1 { 4096 * i } else { 256 * i };
                EvaluatedWire::new(S::from_u128(i ^ delta), i % 2 == 1)
            })
            .collect::<Vec<_>>()
    };
    let r = input.solder(&deltas);
    assert_eq!(r.public, vec![moved(0, 2), moved(2, 1)]);
    assert_eq!(r.a.x, moved(3, 2));
    assert_eq!(vec![r.a.y_flag], moved(5, 1));
    assert_eq!(r.b.x0, moved(6, 1));
    assert_eq!(r.b.x1, moved(7, 3));
    assert_eq!(vec![r.b.y_flag], moved(10, 1));
    assert_eq!(r.c.x, moved(11, 2));
    assert_eq!(vec![r.c.y_flag], moved(13, 1));
}

#[test]
fn label_commitments_are_sha256() {
    let label = S::from_u128(99);
    assert_eq!(commit_label(label), hash_label(99));
    let wire = GarbledWire::new(S::from_u128(1), S::from_u128(2));
    assert_eq!(commit_output_true::<Sha256LabelCommitHasher>(&wire), hash_label(2));
}

#[test]
fn soldering_errors_have_texts() {
    let e = SolderingCheckError::ShapeMismatch("base commitment wire count");
    assert_eq!(e.fmt(), "Shape mismatch: base commitment wire count");
    assert_eq!(e.fmt_hex(), "soldering data shape mismatch: base commitment wire count");
    let mut expected = [0u8; 32];
    expected[0] = 10;
    let e = SolderingCheckError::BaseCommitMismatch {
        wire_index: 12,
        which: "label0",
        expected,
        actual: [255u8; 32],
    };
    assert_eq!(
        e.fmt(),
        format!(
            "Base commit mismatch at wire 12, label0: expected {:?}, actual {:?}",
            expected, [255u8; 32]
        )
    );
    assert!(e.fmt_hex().starts_with("base commit mismatch at wire 12 (label0): expected 0x0a00"));
    let e = SolderingCheckError::BaseNonceCommitMismatch {
        wire_index: 0,
        which: "label1_with_nonce",
        expected,
        actual: expected,
    };
    assert!(e.fmt().starts_with("Base nonce commit mismatch at wire 0, label1_with_nonce: "));
    assert!(e.fmt_hex().starts_with("base nonce commit mismatch at wire 0 (label1_with_nonce)"));
    let e = SolderingCheckError::InstanceCommitMismatch {
        instance_index: 3,
        wire_index: 4,
        which: "label1",
        expected,
        actual: expected,
    };
    assert!(e.fmt().starts_with("Instance 3 commit mismatch at wire 4, label1: expected [10, 0,"));
    assert!(e.fmt_hex().starts_with("instance 3 commit mismatch at wire 4 (label1): expected 0x"));
    let e = SolderingCheckError::SolderingFailed("no".to_string());
    assert_eq!(e.fmt(), "Soldering verification failed: no");
    assert_eq!(e.fmt_hex(), "soldering verification failed: no");
}

#[test]
fn test_core_public_params_roundtrip() {
    let wires = 1;
    let instances = 1;
    let mut rng = StdRng::seed_from_u64(42);
    let nonce: u128 = rng.gen();
    let delta: u128 = rng.gen::<u128>() | 1;
    let raw_instances = raw(&mut rng, wires, instances, delta);
    let input = WiresInput { instances_wires: raw_instances.clone(), nonce };
    let public_values = serialize_public_params(&solder_instances(&input)).unwrap();
    let recovered =
        deserialize_public_params(&public_values).expect("failed to deserialize pp");
    let expected = build_expected_public_params(&raw_instances, nonce);
    assert_same(&recovered, &expected, "deserialized public params differ from expected output");
    let reserialized =
        serialize_public_params(&recovered).expect("failed to reserialize public params");
    let decoded = deserialize_public_params(&reserialized)
        .expect("failed to deserialize reserialized params");
    assert_same(
        &decoded,
        &recovered,
        "reserialized params differ from original deserialize output",
    );
}

#[test]
fn claimed_lengths_are_looked_at_before_decoding() {
    let huge = [253u8, 255, 255, 255, 255, 255, 255, 255, 127];
    assert!(!check_lengths(&huge));
    assert!(deserialize_public_params(&huge).is_none());
    let inner = [1u8, 252, 255, 255, 255, 255];
    assert!(!check_lengths(&inner));
    assert!(deserialize_public_params(&inner).is_none());
    let input = WiresInput { instances_wires: vec![vec![(1, 300)]; 300], nonce: 70000 };
    let bytes = serialize_public_params(&solder_instances(&input)).unwrap();
    assert!(check_lengths(&bytes));
    assert!(deserialize_public_params(&bytes).is_some());
    assert!(check_lengths(&bytes[..bytes.len() - 1]));
    assert!(deserialize_public_params(&bytes[..bytes.len() - 1]).is_none());
}
