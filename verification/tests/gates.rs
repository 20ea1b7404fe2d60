use garbled_snark_verifier::gate::{Delta, GateType};
use garbled_snark_verifier::halfgates::{degarble_gate, garble_gate, garble_gate_batch};
use garbled_snark_verifier::hashers::{
    AesCcrGateHasher, AesNiHasher, Blake3Hasher, DoubleAesNiHasher, GateHasher, HashWithGate,
};
use garbled_snark_verifier::s::S;
use rand::{Rng, SeedableRng};
use rand_chacha::ChaChaRng;

const GATE_ID: usize = 0;

const TEST_CASES: [(bool, bool); 4] =
    [(false, false), (false, true), (true, false), (true, true)];

fn garble_consistency<H: GateHasher>(gh: &H, gt: GateType) {
    let mut rng = ChaChaRng::seed_from_u64(7);
    let delta = Delta::generate(rng.gen());
    let a_label0 = S::from_u128(rng.gen());
    let b_label0 = S::from_u128(rng.gen());
    let (c_label0, ct) = garble_gate(gh, gt, a_label0, b_label0, &delta, GATE_ID);
    for (a_vl, b_vl) in TEST_CASES {
        let a_active_label = if a_vl { a_label0 ^ &delta.0 } else { a_label0 };
        let b_active_label = if b_vl { b_label0 ^ &delta.0 } else { b_label0 };
        let evaluated = degarble_gate(
            gh,
            gt,
            || ct.unwrap(),
            a_active_label,
            a_vl,
            b_active_label,
            GATE_ID,
        );
        let expected = if gt.eval(a_vl, b_vl) { c_label0 ^ &delta.0 } else { c_label0 };
        assert_eq!(evaluated, expected, "{gt:?} on {a_vl} and {b_vl}");
    }
}

fn garble_batch_consistency<const N: usize>(gt: GateType) {
    let mut rng = ChaChaRng::seed_from_u64(11);
    let deltas: [Delta; N] = core::array::from_fn(|_| Delta::generate(rng.gen()));
    let a_label0: [S; N] = core::array::from_fn(|_| S::from_u128(rng.gen()));
    let b_label0: [S; N] = core::array::from_fn(|_| S::from_u128(rng.gen()));
    let (w0_batch, ct_batch) = garble_gate_batch::<N>(gt, a_label0, b_label0, &deltas, 0);
    let ct_arr = ct_batch.as_ref();
    for i in 0..N {
        let (w0, ct) = garble_gate(&AesNiHasher, gt, a_label0[i], b_label0[i], &deltas[i], 0);
        assert_eq!(w0_batch[i], w0, "lane {i} w0 mismatch");
        match (ct_arr, ct) {
            (None, None) => {}
            (Some(arr), Some(s)) => assert_eq!(arr[i], s, "lane {i} ct mismatch"),
            _ => panic!("ciphertext presence mismatch at lane {i}"),
        }
    }
}

fn all_batches(gt: GateType) {
    garble_batch_consistency::<1>(gt);
    garble_batch_consistency::<2>(gt);
    garble_batch_consistency::<3>(gt);
    garble_batch_consistency::<4>(gt);
    garble_batch_consistency::<5>(gt);
    garble_batch_consistency::<6>(gt);
    garble_batch_consistency::<7>(gt);
    garble_batch_consistency::<8>(gt);
    garble_batch_consistency::<9>(gt);
    garble_batch_consistency::<10>(gt);
    garble_batch_consistency::<11>(gt);
    garble_batch_consistency::<12>(gt);
    garble_batch_consistency::<13>(gt);
    garble_batch_consistency::<14>(gt);
    garble_batch_consistency::<15>(gt);
    garble_batch_consistency::<16>(gt);
    garble_batch_consistency::<17>(gt);
    garble_batch_consistency::<18>(gt);
    garble_batch_consistency::<19>(gt);
}

#[test]
fn garble_consistency_and() {
    garble_consistency(&Blake3Hasher, GateType::And);
    garble_consistency(&AesNiHasher, GateType::And);
    garble_consistency(&DoubleAesNiHasher, GateType::And);
    garble_consistency(&AesCcrGateHasher::from_draw(99), GateType::And);
}

#[test]
fn batch_consistency_and() {
    all_batches(GateType::And);
}

#[test]
fn garble_consistency_nand() {
    garble_consistency(&Blake3Hasher, GateType::Nand);
    garble_consistency(&AesNiHasher, GateType::Nand);
    garble_consistency(&DoubleAesNiHasher, GateType::Nand);
    garble_consistency(&AesCcrGateHasher::from_draw(99), GateType::Nand);
}

#[test]
fn batch_consistency_nand() {
    all_batches(GateType::Nand);
}

#[test]
fn garble_consistency_nimp() {
    garble_consistency(&Blake3Hasher, GateType::Nimp);
    garble_consistency(&AesNiHasher, GateType::Nimp);
    garble_consistency(&DoubleAesNiHasher, GateType::Nimp);
    garble_consistency(&AesCcrGateHasher::from_draw(99), GateType::Nimp);
}

#[test]
fn batch_consistency_nimp() {
    all_batches(GateType::Nimp);
}

#[test]
fn garble_consistency_imp() {
    garble_consistency(&Blake3Hasher, GateType::Imp);
    garble_consistency(&AesNiHasher, GateType::Imp);
    garble_consistency(&DoubleAesNiHasher, GateType::Imp);
    garble_consistency(&AesCcrGateHasher::from_draw(99), GateType::Imp);
}

#[test]
fn batch_consistency_imp() {
    all_batches(GateType::Imp);
}

#[test]
fn garble_consistency_ncimp() {
    garble_consistency(&Blake3Hasher, GateType::Ncimp);
    garble_consistency(&AesNiHasher, GateType::Ncimp);
    garble_consistency(&DoubleAesNiHasher, GateType::Ncimp);
    garble_consistency(&AesCcrGateHasher::from_draw(99), GateType::Ncimp);
}

#[test]
fn batch_consistency_ncimp() {
    all_batches(GateType::Ncimp);
}

#[test]
fn garble_consistency_cimp() {
    garble_consistency(&Blake3Hasher, GateType::Cimp);
    garble_consistency(&AesNiHasher, GateType::Cimp);
    garble_consistency(&DoubleAesNiHasher, GateType::Cimp);
    garble_consistency(&AesCcrGateHasher::from_draw(99), GateType::Cimp);
}

#[test]
fn batch_consistency_cimp() {
    all_batches(GateType::Cimp);
}

#[test]
fn garble_consistency_nor() {
    garble_consistency(&Blake3Hasher, GateType::Nor);
    garble_consistency(&AesNiHasher, GateType::Nor);
    garble_consistency(&DoubleAesNiHasher, GateType::Nor);
    garble_consistency(&AesCcrGateHasher::from_draw(99), GateType::Nor);
}

#[test]
fn batch_consistency_nor() {
    all_batches(GateType::Nor);
}

#[test]
fn garble_consistency_or() {
    garble_consistency(&Blake3Hasher, GateType::Or);
    garble_consistency(&AesNiHasher, GateType::Or);
    garble_consistency(&DoubleAesNiHasher, GateType::Or);
    garble_consistency(&AesCcrGateHasher::from_draw(99), GateType::Or);
}

#[test]
fn batch_consistency_or() {
    all_batches(GateType::Or);
}

#[test]
fn free_gates_have_no_ciphertext() {
    for gt in [GateType::Xor, GateType::Xnor, GateType::Not] {
        assert!(gt.is_free());
        garble_consistency(&AesNiHasher, gt);
        all_batches(gt);
        let delta = Delta(S::from_u128(3));
        let (_, ct) = garble_gate(&AesNiHasher, gt, S::one(), S::zero(), &delta, 5);
        assert!(ct.is_none());
    }
}

#[test]
fn truth_tables() {
    let f = |t: GateType| TEST_CASES.map(|(a, b)| t.eval(a, b));
    assert_eq!(f(GateType::And), [false, false, false, true]);
    assert_eq!(f(GateType::Nand), [true, true, true, false]);
    assert_eq!(f(GateType::Nimp), [false, false, true, false]);
    assert_eq!(f(GateType::Imp), [true, true, false, true]);
    assert_eq!(f(GateType::Ncimp), [false, true, false, false]);
    assert_eq!(f(GateType::Cimp), [true, false, true, true]);
    assert_eq!(f(GateType::Nor), [true, false, false, false]);
    assert_eq!(f(GateType::Or), [false, true, true, true]);
    assert_eq!(f(GateType::Xor), [false, true, true, false]);
    assert_eq!(f(GateType::Xnor), [true, false, false, true]);
}

#[test]
fn alphas_describe_every_gate() {
    for t in [
        GateType::And,
        GateType::Nand,
        GateType::Nimp,
        GateType::Imp,
        GateType::Ncimp,
        GateType::Cimp,
        GateType::Nor,
        GateType::Or,
    ] {
        let (a, b, c) = t.alphas_const();
        for (x, y) in TEST_CASES {
            assert_eq!(t.eval(x, y), ((x ^ a) && (y ^ b)) ^ c);
        }
    }
}

#[test]
fn blake3_hasher_hashes_label_and_number() {
    let label = S::from_u128(1234);
    let mut bytes = label.to_bytes().to_vec();
    bytes.extend_from_slice(&9u64.to_le_bytes());
    let digest = blake3::hash(&bytes);
    let h: [S; 1] = Blake3Hasher.hash_with_gate(&[label], 9);
    assert_eq!(&h[0].to_bytes()[..], &digest.as_bytes()[..16]);
}

#[test]
fn same_seed_gives_the_same_hasher() {
    let a = AesCcrGateHasher::from_draw(77);
    let b = AesCcrGateHasher::from_seed(*a.seed());
    let labels = [S::from_u128(5), S::from_u128(6)];
    let x: [S; 2] = a.hash_with_gate(&labels, 3);
    let y: [S; 2] = b.hash_with_gate(&labels, 3);
    assert_eq!(x, y);
    let c = AesCcrGateHasher::from_draw(78);
    let z: [S; 2] = c.hash_with_gate(&labels, 3);
    assert_ne!(x, z);
}

#[test]
fn hashes_of_lanes_do_not_mix() {
    let labels = [S::from_u128(5), S::from_u128(6)];
    let two: [S; 2] = AesNiHasher.hash_with_gate(&labels, 3);
    let first: [S; 1] = AesNiHasher.hash_with_gate(&[labels[0]], 3);
    let second: [S; 1] = AesNiHasher.hash_with_gate(&[labels[1]], 3);
    assert_eq!(two, [first[0], second[0]]);
    let other: [S; 1] = AesNiHasher.hash_with_gate(&[labels[0]], 4);
    assert_ne!(first, other);
}
