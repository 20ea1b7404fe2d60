//! Hash functions on wire labels, tweaked by the number of a gate.

use crate::aes_ni::{
    aes128_encrypt2_blocks_static, aes128_encrypt2_blocks_static_xor, aes128_encrypt_block_static,
    aes128_encrypt_block_static_xor, static_block, static_key, xor_block,
};
use crate::primitives::{aes128, blake3_digest, blake3_hash};
use crate::s::{be_bytes, be_value, first_16, le_bytes, le_value, push_bytes, xor, S};
use vstd::prelude::*;

verus! {

/// The families of gate hashers.
#[derive(Clone, Copy, Debug, PartialEq, Eq, Structural)]
pub enum HasherKind {
    Blake3,
    Aes,
}

/// The eight bytes of `x`, least significant first.
pub open spec fn le_bytes_8(x: u64) -> Seq<u8> {
    Seq::new(8, |i: int| (x >> ((8 * i) as u64)) as u8)
}

/// The eight bytes of `x`, least significant first.
pub fn u64_to_le_bytes(x: u64) -> (r: [u8; 8])
    ensures
        r@ == le_bytes_8(x),
{
    let r: [u8; 8] = [
        (x >> 0) as u8,
        (x >> 8) as u8,
        (x >> 16) as u8,
        (x >> 24) as u8,
        (x >> 32) as u8,
        (x >> 40) as u8,
        (x >> 48) as u8,
        (x >> 56) as u8,
    ];
    assert(r@ =~= le_bytes_8(x));
    r
}

/// The eight bytes of a number are its digits to the base 256, the lowest first; so
/// different numbers have different bytes.
pub proof fn number_bytes_are_digits(x: u64, y: u64, i: int)
    requires
        0 <= i < 7,
    ensures
        le_bytes_8(x).len() == 8,
        le_bytes_8(x)[0] == x % 256,
        le_bytes_8(x)[i + 1] == le_bytes_8(x / 256)[i],
        le_bytes_8(x) == le_bytes_8(y) ==> x == y,
{
    assert((x >> 0) as u8 == x % 256) by (bit_vector);
    let k = (8 * (i + 1)) as u64;
    let l = (8 * i) as u64;
    assert((x >> k) as u8 == ((x / 256) >> l) as u8) by (bit_vector)
        requires
            k == l + 8,
            l <= 48,
    ;
    if le_bytes_8(x) == le_bytes_8(y) {
        assert(le_bytes_8(x)[0] == le_bytes_8(y)[0] && le_bytes_8(x)[1] == le_bytes_8(y)[1]
            && le_bytes_8(x)[2] == le_bytes_8(y)[2] && le_bytes_8(x)[3] == le_bytes_8(y)[3]
            && le_bytes_8(x)[4] == le_bytes_8(y)[4] && le_bytes_8(x)[5] == le_bytes_8(y)[5]
            && le_bytes_8(x)[6] == le_bytes_8(y)[6] && le_bytes_8(x)[7] == le_bytes_8(y)[7]);
        assert(x == y) by (bit_vector)
            requires
                (x >> 0) as u8 == (y >> 0) as u8,
                (x >> 8) as u8 == (y >> 8) as u8,
                (x >> 16) as u8 == (y >> 16) as u8,
                (x >> 24) as u8 == (y >> 24) as u8,
                (x >> 32) as u8 == (y >> 32) as u8,
                (x >> 40) as u8 == (y >> 40) as u8,
                (x >> 48) as u8 == (y >> 48) as u8,
                (x >> 56) as u8 == (y >> 56) as u8,
        ;
    }
}

/// A hash from labels to labels for each gate number.
pub trait LabelHash {
    /// The hash of `label` for gate `gate_id`.
    spec fn gate_hash(&self, label: S, gate_id: usize) -> S;
}

/// Hashes `N` labels for one gate.
pub trait HashWithGate<const N: usize>: LabelHash {
    fn hash_with_gate(&self, labels: &[S; N], gate_id: usize) -> (r: [S; N])
        ensures
            forall|i: int| 0 <= i < N ==> #[trigger] r@[i] == self.gate_hash(labels@[i], gate_id),
    ;
}

/// A gate hasher that can be rebuilt from its seed.
pub trait GateHasher: HashWithGate<1> + HashWithGate<2> + Sized {
    /// What rebuilds the hasher.
    type Seed: Copy;

    spec fn seed_spec(&self) -> Self::Seed;

    /// The seed of the hasher that is made from one random draw.
    spec fn drawn_seed(draw: u128) -> Self::Seed;

    /// Two hashers with the same seed hash alike.
    proof fn seed_determines_hash(&self, other: &Self, label: S, gate_id: usize)
        requires
            self.seed_spec() == other.seed_spec(),
        ensures
            self.gate_hash(label, gate_id) == other.gate_hash(label, gate_id),
    ;

    /// The hasher made from one 128-bit random draw.
    fn from_draw(draw: u128) -> (r: Self)
        ensures
            r.seed_spec() == Self::drawn_seed(draw),
    ;

    fn from_seed(seed: Self::Seed) -> (r: Self)
        ensures
            r.seed_spec() == seed,
    ;

    fn seed(&self) -> (r: &Self::Seed)
        ensures
            *r == self.seed_spec(),
    ;

    /// Whether two seeds are equal.
    fn same_seed(a: &Self::Seed, b: &Self::Seed) -> (r: bool)
        ensures
            r == (*a == *b),
    ;
}

/// The seed of a hasher that needs none.
#[derive(Clone, Copy, Debug, PartialEq, Eq, Structural)]
pub struct NoSeed;

/// A hasher on BLAKE3; it needs no seed.
#[derive(Clone, Copy, Debug, Default, PartialEq, Eq, Structural)]
pub struct Blake3Hasher;

/// The label read from the first sixteen bytes of the digest of the label's bytes
/// followed by its gate number.
pub open spec fn blake3_gate_hash(label: S, gate_id: usize) -> S {
    S(be_value(blake3_digest(be_bytes(label.0) + le_bytes_8(gate_id as u64)).take(16)))
}

fn blake3_label(label: S, gate_id: usize) -> (r: S)
    ensures
        r == blake3_gate_hash(label, gate_id),
{
    let mut input: Vec<u8> = Vec::new();
    push_bytes(&mut input, label.to_bytes().as_slice());
    push_bytes(&mut input, u64_to_le_bytes(gate_id as u64).as_slice());
    assert(input@ =~= be_bytes(label.0) + le_bytes_8(gate_id as u64));
    let digest = blake3_hash(input.as_slice());
    S::from_bytes(first_16(digest.as_slice()))
}

impl LabelHash for Blake3Hasher {
    open spec fn gate_hash(&self, label: S, gate_id: usize) -> S {
        blake3_gate_hash(label, gate_id)
    }
}

impl HashWithGate<2> for Blake3Hasher {
    fn hash_with_gate(&self, labels: &[S; 2], gate_id: usize) -> (r: [S; 2])
        ensures
            forall|i: int|
                0 <= i < 2 ==> (#[trigger] r@[i]).0 == be_value(
                    blake3_digest(be_bytes(labels@[i].0) + le_bytes_8(gate_id as u64)).take(16),
                ),
    {
        [blake3_label(labels[0], gate_id), blake3_label(labels[1], gate_id)]
    }
}

impl HashWithGate<1> for Blake3Hasher {
    fn hash_with_gate(&self, labels: &[S; 1], gate_id: usize) -> (r: [S; 1])
        ensures
            forall|i: int|
                0 <= i < 1 ==> (#[trigger] r@[i]).0 == be_value(
                    blake3_digest(be_bytes(labels@[i].0) + le_bytes_8(gate_id as u64)).take(16),
                ),
    {
        [blake3_label(labels[0], gate_id)]
    }
}

impl GateHasher for Blake3Hasher {
    type Seed = NoSeed;

    open spec fn seed_spec(&self) -> NoSeed {
        NoSeed
    }

    open spec fn drawn_seed(draw: u128) -> NoSeed {
        NoSeed
    }

    proof fn seed_determines_hash(&self, other: &Self, label: S, gate_id: usize) {
    }

    fn from_draw(draw: u128) -> (r: Self) {
        Blake3Hasher
    }

    fn from_seed(seed: NoSeed) -> (r: Self) {
        Blake3Hasher
    }

    fn seed(&self) -> (r: &NoSeed) {
        &NoSeed
    }

    fn same_seed(a: &NoSeed, b: &NoSeed) -> (r: bool) {
        true
    }
}

/// Single-AES circular correlation-robust hash with a public salt:
/// `H(label, tweak) = AES(p) ^ p` with `p = perm(salt ^ label ^ tweak)`.
#[derive(Clone, Copy, Debug, PartialEq, Eq, Structural)]
pub struct AesCcrGateHasher {
    pub salt: S,
}

/// The linear orthomorphism on 128-bit words: from the low half `l` and the high
/// half `h`, the word with low half `l ^ h` and high half `l`.
pub open spec fn perm(x: S) -> S {
    S((((x.0 as u64) ^ ((x.0 >> 64) as u64)) as u128) | (((x.0 as u64) as u128) << 64))
}

fn perm_u128(x: S) -> (r: S)
    ensures
        r == perm(x),
{
    let x = x.to_u128();
    let x_l: u64 = x as u64;
    let x_r: u64 = (x >> 64) as u64;
    let y_l: u64 = x_l ^ x_r;
    let y_r: u64 = x_l;
    S::from_u128((y_l as u128) | ((y_r as u128) << 64))
}

/// The input of the cipher for a salt, a label and a gate number.
pub open spec fn ccr_point(salt: S, label: S, gate_id: usize) -> S {
    perm(xor(xor(label, S(gate_id as u128)), salt))
}

/// The salted single-AES hash of a label for a gate number.
pub open spec fn ccr_hash(salt: S, label: S, gate_id: usize) -> S {
    let p = ccr_point(salt, label, gate_id);
    xor(S(le_value(static_block(le_bytes(p.0)))), p)
}

/// Two labels with the same hash input, under one salt and gate number, are equal.
pub proof fn perm_is_injective(a: S, b: S)
    ensures
        perm(a) == perm(b) ==> a == b,
        xor(perm(a), a) == xor(perm(b), b) ==> a == b,
{
    let (x, y) = (a.0, b.0);
    let px = (((x as u64) ^ ((x >> 64) as u64)) as u128) | (((x as u64) as u128) << 64);
    let py = (((y as u64) ^ ((y >> 64) as u64)) as u128) | (((y as u64) as u128) << 64);
    assert((px == py ==> x == y) && (px ^ x == py ^ y ==> x == y)) by (bit_vector)
        requires
            px == (((x as u64) ^ ((x >> 64) as u64)) as u128) | (((x as u64) as u128) << 64),
            py == (((y as u64) ^ ((y >> 64) as u64)) as u128) | (((y as u64) as u128) << 64),
    ;
}

/// The word permutation commutes with exclusive or.
pub proof fn perm_is_linear(a: S, b: S)
    ensures
        perm(xor(a, b)) == xor(perm(a), perm(b)),
{
    let (x, y) = (a.0, b.0);
    assert(((((x ^ y) as u64) ^ (((x ^ y) >> 64) as u64)) as u128) | ((((x ^ y) as u64) as u128)
        << 64) == ((((x as u64) ^ ((x >> 64) as u64)) as u128) | (((x as u64) as u128) << 64)) ^ (((
    ((y as u64) ^ ((y >> 64) as u64)) as u128)) | (((y as u64) as u128) << 64))) by (bit_vector);
}

/// The halves of a permuted word: the low one is the exclusive or of both halves, the
/// high one is the low half that was.
pub proof fn perm_halves(x: S)
    ensures
        perm(x).0 % 0x1_0000_0000_0000_0000 == (x.0 % 0x1_0000_0000_0000_0000) ^ (x.0
            / 0x1_0000_0000_0000_0000),
        perm(x).0 / 0x1_0000_0000_0000_0000 == x.0 % 0x1_0000_0000_0000_0000,
{
    let v = x.0;
    let p = perm(x).0;
    assert(p % 0x1_0000_0000_0000_0000 == (v % 0x1_0000_0000_0000_0000) ^ (v
        / 0x1_0000_0000_0000_0000) && p / 0x1_0000_0000_0000_0000 == v % 0x1_0000_0000_0000_0000)
        by (bit_vector)
        requires
            p == (((v as u64) ^ ((v >> 64) as u64)) as u128) | (((v as u64) as u128) << 64),
    ;
}

/// Every part of what is hashed counts: with two of salt, label and gate number the same,
/// the cipher gets the same block only if the third is the same too.
pub proof fn every_part_is_hashed(salt: S, label: S, gate_id: usize, other: S, other_id: usize)
    ensures
        ccr_point(salt, label, gate_id) == ccr_point(other, label, gate_id) ==> salt == other,
        ccr_point(salt, label, gate_id) == ccr_point(salt, other, gate_id) ==> label == other,
        ccr_point(salt, label, gate_id) == ccr_point(salt, label, other_id) ==> gate_id == other_id,
{
    let g = S(gate_id as u128);
    let h = S(other_id as u128);
    perm_is_injective(xor(xor(label, g), salt), xor(xor(label, g), other));
    perm_is_injective(xor(xor(label, g), salt), xor(xor(other, g), salt));
    perm_is_injective(xor(xor(label, g), salt), xor(xor(label, h), salt));
    let (l, s, o, x, y) = (label.0, salt.0, other.0, g.0, h.0);
    assert((l ^ x ^ s == l ^ x ^ o ==> s == o) && (l ^ x ^ s == o ^ x ^ s ==> l == o) && (l ^ x ^ s
        == l ^ y ^ s ==> x == y)) by (bit_vector);
}

/// Salt and gate number enter the hash by exclusive or with the label: the hash for any
/// salt and gate is that of the label so changed, without salt, for gate zero.
pub proof fn salt_and_gate_shift_the_label(salt: S, label: S, gate_id: usize)
    ensures
        ccr_hash(salt, label, gate_id) == ccr_hash(
            S(0),
            S(label.0 ^ (gate_id as u128) ^ salt.0),
            0,
        ),
{
    let x = S(label.0 ^ (gate_id as u128) ^ salt.0);
    crate::s::xor_laws(x, S(0), S(0));
}

/// Hashing a permuted word is the Davies-Meyer form: the hash and the word differ by the
/// word's encryption under the shared key, sixteen bytes of 0x42.
pub proof fn hash_is_encryption_of_permuted_word(label: S, key: Seq<u8>)
    requires
        key.len() == 16,
        forall|i: int| 0 <= i < 16 ==> #[trigger] key[i] == 0x42,
    ensures
        xor(ccr_hash(S(0), label, 0), perm(label)) == S(
            le_value(aes128(key, le_bytes(perm(label).0))),
        ),
{
    assert(key =~= static_key());
    let p = perm(label);
    let c = S(le_value(static_block(le_bytes(p.0))));
    crate::s::xor_laws(label, S(0), S(0));
    crate::s::xor_laws(c, p, p);
    crate::s::xor_laws(p, p, p);
    crate::s::xor_laws(c, S(0), S(0));
}

fn hash_label_with_gate(salt: S, label: S, gate_id: usize) -> (r: S)
    ensures
        r == ccr_hash(salt, label, gate_id),
{
    let tweak = S::from_u128(gate_id as u128);
    let x0 = S::xor(S::xor(label, tweak), salt);
    let p = perm_u128(x0);
    match aes128_encrypt_block_static(p.to_le_bytes()) {
        Some(c) => S::xor(S::from_le_bytes(c), p),
        None => p,
    }
}

impl AesCcrGateHasher {
    pub fn new(salt: S) -> (r: AesCcrGateHasher)
        ensures
            r == (AesCcrGateHasher { salt }),
    {
        AesCcrGateHasher { salt }
    }
}

impl LabelHash for AesCcrGateHasher {
    open spec fn gate_hash(&self, label: S, gate_id: usize) -> S {
        ccr_hash(self.salt, label, gate_id)
    }
}

impl HashWithGate<2> for AesCcrGateHasher {
    fn hash_with_gate(&self, labels: &[S; 2], gate_id: usize) -> (r: [S; 2])
        ensures
            forall|i: int|
                0 <= i < 2 ==> ({
                    let p = perm(S(labels@[i].0 ^ (gate_id as u128) ^ self.salt.0));
                    (#[trigger] r@[i]).0 == le_value(aes128(static_key(), le_bytes(p.0))) ^ p.0
                }),
    {
        let tweak = S::from_u128(gate_id as u128);
        let x0 = S::xor(S::xor(labels[0], tweak), self.salt);
        let x1 = S::xor(S::xor(labels[1], tweak), self.salt);
        let p0 = perm_u128(x0);
        let p1 = perm_u128(x1);
        match aes128_encrypt2_blocks_static(p0.to_le_bytes(), p1.to_le_bytes()) {
            Some((c0, c1)) => [
                S::xor(S::from_le_bytes(c0), p0),
                S::xor(S::from_le_bytes(c1), p1),
            ],
            None => [p0, p1],
        }
    }
}

impl HashWithGate<1> for AesCcrGateHasher {
    fn hash_with_gate(&self, labels: &[S; 1], gate_id: usize) -> (r: [S; 1])
        ensures
            ({
                let p = perm(S(labels@[0].0 ^ (gate_id as u128) ^ self.salt.0));
                r@[0].0 == le_value(aes128(static_key(), le_bytes(p.0))) ^ p.0
            }),
    {
        [hash_label_with_gate(self.salt, labels[0], gate_id)]
    }
}

impl GateHasher for AesCcrGateHasher {
    type Seed = S;

    open spec fn seed_spec(&self) -> S {
        self.salt
    }

    open spec fn drawn_seed(draw: u128) -> S {
        S(draw)
    }

    proof fn seed_determines_hash(&self, other: &Self, label: S, gate_id: usize) {
    }

    fn from_draw(draw: u128) -> (r: Self)
        ensures
            r.salt.0 == draw,
    {
        AesCcrGateHasher { salt: S::from_u128(draw) }
    }

    fn from_seed(seed: S) -> (r: Self)
        ensures
            r.salt == seed,
    {
        AesCcrGateHasher { salt: seed }
    }

    fn seed(&self) -> (r: &S)
        ensures
            *r == self.salt,
    {
        &self.salt
    }

    fn same_seed(a: &S, b: &S) -> (r: bool) {
        *a == *b
    }
}

/// The block XORed into a label before the cipher: a gate number in eight
/// bytes, least significant first, then eight zero bytes.
pub open spec fn tweak_block(gate_id: usize) -> Seq<u8> {
    le_bytes_8(gate_id as u64) + Seq::new(8, |i: int| 0u8)
}

/// The block XORed into a label before the cipher.
pub fn to_tweak(gate_id: usize) -> (r: [u8; 16])
    ensures
        r@ == tweak_block(gate_id),
{
    let t = u64_to_le_bytes(gate_id as u64);
    let r: [u8; 16] = [t[0], t[1], t[2], t[3], t[4], t[5], t[6], t[7], 0, 0, 0, 0, 0, 0, 0, 0];
    assert(r@ =~= tweak_block(gate_id));
    r
}

/// The label read from the encryption of the label's bytes XORed with the tweak.
pub open spec fn aes_ni_hash(label: S, gate_id: usize) -> S {
    S(be_value(static_block(xor_block(be_bytes(label.0), tweak_block(gate_id)))))
}

/// A hasher that encrypts the tweaked label once.
#[derive(Clone, Copy, Debug, PartialEq, Eq, Structural)]
pub struct AesNiHasher;

impl LabelHash for AesNiHasher {
    open spec fn gate_hash(&self, label: S, gate_id: usize) -> S {
        aes_ni_hash(label, gate_id)
    }
}

impl HashWithGate<2> for AesNiHasher {
    fn hash_with_gate(&self, labels: &[S; 2], gate_id: usize) -> (r: [S; 2])
        ensures
            forall|i: int|
                0 <= i < 2 ==> (#[trigger] r@[i]).0 == be_value(
                    aes128(
                        static_key(),
                        xor_block(be_bytes(labels@[i].0), tweak_block(gate_id)),
                    ),
                ),
    {
        let tweak = to_tweak(gate_id);
        match aes128_encrypt2_blocks_static_xor(labels[0].to_bytes(), labels[1].to_bytes(), tweak) {
            Some((c0, c1)) => [S::from_bytes(c0), S::from_bytes(c1)],
            None => [labels[0], labels[1]],
        }
    }
}

impl HashWithGate<1> for AesNiHasher {
    fn hash_with_gate(&self, labels: &[S; 1], gate_id: usize) -> (r: [S; 1])
        ensures
            forall|i: int|
                0 <= i < 1 ==> (#[trigger] r@[i]).0 == be_value(
                    aes128(
                        static_key(),
                        xor_block(be_bytes(labels@[i].0), tweak_block(gate_id)),
                    ),
                ),
    {
        match aes128_encrypt_block_static_xor(labels[0].to_bytes(), to_tweak(gate_id)) {
            Some(c) => [S::from_bytes(c)],
            None => [labels[0]],
        }
    }
}

impl GateHasher for AesNiHasher {
    type Seed = NoSeed;

    open spec fn seed_spec(&self) -> NoSeed {
        NoSeed
    }

    open spec fn drawn_seed(draw: u128) -> NoSeed {
        NoSeed
    }

    proof fn seed_determines_hash(&self, other: &Self, label: S, gate_id: usize) {
    }

    fn from_draw(draw: u128) -> (r: Self) {
        AesNiHasher
    }

    fn from_seed(seed: NoSeed) -> (r: Self) {
        AesNiHasher
    }

    fn seed(&self) -> (r: &NoSeed) {
        &NoSeed
    }

    fn same_seed(a: &NoSeed, b: &NoSeed) -> (r: bool) {
        true
    }
}

/// The label read from the twofold encryption of the label's bytes XORed with the
/// tweak.
pub open spec fn double_aes_hash(label: S, gate_id: usize) -> S {
    S(
        be_value(
            static_block(static_block(xor_block(be_bytes(label.0), tweak_block(gate_id)))),
        ),
    )
}

fn double_aes_label(label: S, gate_id: usize) -> (r: S)
    ensures
        r == double_aes_hash(label, gate_id),
{
    match aes128_encrypt_block_static_xor(label.to_bytes(), to_tweak(gate_id)) {
        Some(c) => match aes128_encrypt_block_static(c) {
            Some(d) => S::from_bytes(d),
            None => label,
        },
        None => label,
    }
}

/// A hasher that encrypts the tweaked label twice.
#[derive(Clone, Copy, Debug, PartialEq, Eq, Structural)]
pub struct DoubleAesNiHasher;

impl LabelHash for DoubleAesNiHasher {
    open spec fn gate_hash(&self, label: S, gate_id: usize) -> S {
        double_aes_hash(label, gate_id)
    }
}

impl HashWithGate<2> for DoubleAesNiHasher {
    fn hash_with_gate(&self, labels: &[S; 2], gate_id: usize) -> (r: [S; 2])
        ensures
            forall|i: int|
                0 <= i < 2 ==> (#[trigger] r@[i]).0 == be_value(
                    aes128(
                        static_key(),
                        aes128(
                            static_key(),
                            xor_block(be_bytes(labels@[i].0), tweak_block(gate_id)),
                        ),
                    ),
                ),
    {
        [double_aes_label(labels[0], gate_id), double_aes_label(labels[1], gate_id)]
    }
}

impl HashWithGate<1> for DoubleAesNiHasher {
    fn hash_with_gate(&self, labels: &[S; 1], gate_id: usize) -> (r: [S; 1])
        ensures
            forall|i: int|
                0 <= i < 1 ==> (#[trigger] r@[i]).0 == be_value(
                    aes128(
                        static_key(),
                        aes128(
                            static_key(),
                            xor_block(be_bytes(labels@[i].0), tweak_block(gate_id)),
                        ),
                    ),
                ),
    {
        [double_aes_label(labels[0], gate_id)]
    }
}

impl GateHasher for DoubleAesNiHasher {
    type Seed = NoSeed;

    open spec fn seed_spec(&self) -> NoSeed {
        NoSeed
    }

    open spec fn drawn_seed(draw: u128) -> NoSeed {
        NoSeed
    }

    proof fn seed_determines_hash(&self, other: &Self, label: S, gate_id: usize) {
    }

    fn from_draw(draw: u128) -> (r: Self) {
        DoubleAesNiHasher
    }

    fn from_seed(seed: NoSeed) -> (r: Self) {
        DoubleAesNiHasher
    }

    fn seed(&self) -> (r: &NoSeed) {
        &NoSeed
    }

    fn same_seed(a: &NoSeed, b: &NoSeed) -> (r: bool) {
        true
    }
}

/// The block that is XORed into a label holds the digits of its gate number to the base
/// 256, the lowest first, then zeros; so it tells gates apart.
pub proof fn tweak_holds_gate_number(gate_id: usize, other_id: usize, i: int)
    requires
        0 <= i < 7,
    ensures
        tweak_block(gate_id).len() == 16,
        tweak_block(gate_id)[0] == gate_id % 256,
        tweak_block(gate_id)[i + 1] == tweak_block((gate_id / 256) as usize)[i],
        forall|k: int| 8 <= k < 16 ==> #[trigger] tweak_block(gate_id)[k] == 0,
        tweak_block(gate_id) == tweak_block(other_id) ==> gate_id == other_id,
{
    number_bytes_are_digits(gate_id as u64, other_id as u64, i);
    if tweak_block(gate_id) == tweak_block(other_id) {
        assert(tweak_block(gate_id).take(8) =~= le_bytes_8(gate_id as u64));
        assert(tweak_block(other_id).take(8) =~= le_bytes_8(other_id as u64));
    }
}

/// A gate number enters the hashes by one or two encryptions as a shift of the label:
/// the hash for any gate is that of the label XORed with the tweak, for gate zero.
pub proof fn gate_shifts_the_label(label: S, gate_id: usize)
    ensures
        ({
            let shifted = S(label.0 ^ be_value(tweak_block(gate_id)));
            &&& aes_ni_hash(label, gate_id) == aes_ni_hash(shifted, 0)
            &&& double_aes_hash(label, gate_id) == double_aes_hash(shifted, 0)
        }),
{
    let t = tweak_block(gate_id);
    let shift = S(be_value(t));
    crate::s::bytes_round_trip(label, t);
    assert(tweak_block(0) =~= Seq::new(16, |i: int| 0u8)) by {
        assert forall|i: int| 0 <= i < 16 implies #[trigger] tweak_block(0)[i] == 0 by {
            if i < 8 {
                let k = (8 * i) as u64;
                assert((0u64 >> k) as u8 == 0) by (bit_vector);
            }
        }
    }
    assert(xor_block(be_bytes(xor(label, shift).0), tweak_block(0)) =~= xor_block(
        be_bytes(label.0),
        t,
    )) by {
        assert forall|i: int| 0 <= i < 16 implies #[trigger] be_bytes(xor(label, shift).0)[i] ^ 0u8
            == be_bytes(label.0)[i] ^ t[i] by {
            crate::s::bytes_of_xor(label, shift, i);
            let v = be_bytes(xor(label, shift).0)[i];
            assert(v ^ 0u8 == v) by (bit_vector);
        }
    }
}

/// What the hashers by one and by two encryptions do without a tweak: the label read
/// from the label's bytes encrypted once under the shared key, sixteen bytes of 0x42, and
/// the hash by two is that by one of the hash by one.
pub proof fn hash_is_encryption(label: S, gate_id: usize, key: Seq<u8>)
    requires
        key.len() == 16,
        forall|i: int| 0 <= i < 16 ==> #[trigger] key[i] == 0x42,
        aes128(key, be_bytes(label.0)).len() == 16,
    ensures
        aes_ni_hash(label, 0) == S(be_value(aes128(key, be_bytes(label.0)))),
        double_aes_hash(label, 0) == aes_ni_hash(aes_ni_hash(label, 0), 0),
{
    assert(key =~= static_key());
    let c = aes128(key, be_bytes(label.0));
    crate::s::bytes_round_trip(label, c);
    assert forall|b: Seq<u8>| b.len() == 16 implies #[trigger] xor_block(b, tweak_block(0)) == b by {
        assert forall|i: int| 0 <= i < 16 implies #[trigger] xor_block(b, tweak_block(0))[i]
            == b[i] by {
            let v = b[i];
            assert(v ^ 0u8 == v) by (bit_vector);
            if i < 8 {
                let k = (8 * i) as u64;
                assert((0u64 >> k) as u8 == 0) by (bit_vector);
            }
            assert(tweak_block(0)[i] == 0);
        }
        assert(xor_block(b, tweak_block(0)) =~= b);
    }
}

/// The hash on BLAKE3 is read from the digest of the label's sixteen bytes and the eight
/// bytes of its gate number, and no other label or gate has that message.
pub proof fn blake3_message_is_unique(
    label: S,
    gate_id: usize,
    other: S,
    other_id: usize,
    message: Seq<u8>,
)
    requires
        message.len() == 24,
        message.take(16) == be_bytes(label.0),
        message.skip(16) == le_bytes_8(gate_id as u64),
    ensures
        blake3_gate_hash(label, gate_id) == S(be_value(blake3_digest(message).take(16))),
        message.take(16) == be_bytes(other.0) && message.skip(16) == le_bytes_8(other_id as u64)
            ==> label == other && gate_id == other_id,
{
    assert(message =~= be_bytes(label.0) + le_bytes_8(gate_id as u64));
    crate::s::bytes_round_trip(label, be_bytes(label.0));
    crate::s::bytes_round_trip(other, be_bytes(other.0));
    number_bytes_are_digits(gate_id as u64, other_id as u64, 0);
}

/// A salted hasher keeps what was drawn for it: different draws give different seeds, two
/// hashers with one seed are the same, and their seed is their salt.
pub proof fn salted_hasher_keeps_its_draw(a: AesCcrGateHasher, b: AesCcrGateHasher, x: u128, y: u128)
    ensures
        AesCcrGateHasher::drawn_seed(x) == AesCcrGateHasher::drawn_seed(y) ==> x == y,
        AesCcrGateHasher::drawn_seed(x).0 == x,
        a.seed_spec() == b.seed_spec() ==> a == b,
{
}

} // verus!
