use garbled_snark_verifier::s::{S, S_SIZE};
use rand::{Rng, SeedableRng};

fn rnd() -> S {
    S::from_u128(rand::rngs::StdRng::from_seed([0u8; 32]).gen())
}

#[test]
fn test_xor_zero_identity() {
    let zero = S::zero();
    let a = rnd();
    assert_eq!(&a ^ &zero, a, "a ^ 0 should be a");
    assert_eq!(&zero ^ &a, a, "0 ^ a should be a");
}

#[test]
fn test_xor_self_is_zero() {
    let a = rnd();
    let result = &a ^ &a;
    assert_eq!(result, S::zero(), "a ^ a should be 0");
}

#[test]
fn test_xor_commutative() {
    let a = rnd();
    let b = rnd();
    assert_eq!(&a ^ &b, &b ^ &a, "a ^ b should equal b ^ a");
}

#[test]
fn test_xor_associative() {
    let a = rnd();
    let b = rnd();
    let c = rnd();
    assert_eq!((&a ^ &b) ^ &c, &a ^ &(&b ^ &c), "XOR should be associative");
}

#[test]
fn test_xor_known_value() {
    let a = S::from_bytes([0xFF; S_SIZE]);
    let b = S::from_bytes([0x0F; S_SIZE]);
    let expected = S::from_bytes([0xF0; S_SIZE]);
    assert_eq!(&a ^ &b, expected);
}

#[test]
fn test_bitxor_is_pure() {
    let a = rnd();
    let b = rnd();
    let _ = &a ^ &b;
    let _ = &a ^ &b;
    assert_eq!(a, a, "a should remain unchanged");
    assert_eq!(b, b, "b should remain unchanged");
}

#[test]
fn test_from_to_bytes_roundtrip() {
    let mut rng = rand::rngs::StdRng::from_seed([42u8; 32]);
    for _ in 0..100 {
        let arr: [u8; S_SIZE] = rng.gen();
        let s = S::from_bytes(arr);
        assert_eq!(s.to_bytes(), arr);
    }
}

#[test]
fn test_zero_one_constants() {
    assert_eq!(S::zero().to_bytes(), [0u8; S_SIZE]);
    assert_eq!(S::one().to_bytes()[S_SIZE - 1], 1);
    assert!(S::one().to_bytes()[..S_SIZE - 1].iter().all(|&b| b == 0));
}

#[test]
fn xor_assign_changes_left_side() {
    let mut a = S::from_u128(0b1100);
    a ^= &S::from_u128(0b1010);
    assert_eq!(a, S::from_u128(0b0110));
}

#[test]
fn little_and_big_endian_bytes() {
    let s = S::from_u128(0x0102_0304_0506_0708_090a_0b0c_0d0e_0f10);
    assert_eq!(s.to_bytes()[0], 1);
    assert_eq!(s.to_bytes()[15], 16);
    assert_eq!(s.to_le_bytes()[0], 16);
    assert_eq!(S::from_le_bytes(s.to_le_bytes()), s);
    let mut out = [0u8; 16];
    s.write_bytes(&mut out);
    assert_eq!(out, s.to_bytes());
    s.write_bytes_le(&mut out);
    assert_eq!(out, s.to_le_bytes());
    assert_eq!(s.to_hex(), "0102030405060708090a0b0c0d0e0f10");
}

#[test]
fn neg_and_add_wrap_around() {
    assert_eq!(S::from_u128(1).neg(), S::from_u128(u128::MAX));
    assert_eq!(S::zero().neg(), S::zero());
    let a = S::from_u128(77);
    assert_eq!(a + a.neg(), S::zero());
}

#[test]
fn hash_is_truncated_blake3() {
    let a = S::from_u128(5);
    let b = S::from_u128(6);
    let full = blake3::hash(&a.to_bytes());
    assert_eq!(&a.hash().to_bytes()[..], &full.as_bytes()[..16]);
    let mut both = Vec::new();
    both.extend_from_slice(&a.to_bytes());
    both.extend_from_slice(&b.to_bytes());
    let full = blake3::hash(&both);
    assert_eq!(&S::hash_together(a, b).to_bytes()[..], &full.as_bytes()[..16]);
    assert_ne!(a.hash(), a);
}
