//! The indexed pseudo-random function and the anchor labels drawn from it.

use crate::anchoring::circuit::PCircuit;
use crate::gate::{active, free, Delta};
use crate::hashers::{
    ccr_hash, ccr_point, every_part_is_hashed, le_bytes_8, number_bytes_are_digits,
    u64_to_le_bytes, AesCcrGateHasher, HashWithGate, LabelHash,
};
use crate::primitives::{blake3_digest, blake3_hash, chacha_first, chacha_keyed};
use crate::s::{be_value, first_16, push_bytes, S};
use vstd::prelude::*;

verus! {

/// Tag of the labels of input wires.
pub const TAG_WIRE: u8 = 0x01;

/// Tag of the label offset.
pub const TAG_DELTA: u8 = 0x02;

/// Tag of the anchors of non-free gates.
pub const TAG_ANCHOR: u8 = 0x03;

/// Tag of the salts of gate hasher and anchor hasher.
pub const TAG_HASHER: u8 = 0x04;

/// Tag of the anchors of free gates that the plan promotes.
pub const TAG_XANCH: u8 = 0x05;

/// The 32 pseudo-random bytes for a tag and an index: the digest of the seed, the
/// tag and the index.
pub open spec fn prf_bytes(seed: Seq<u8>, tag: u8, idx: u64) -> Seq<u8> {
    blake3_digest(seed + seq![tag] + le_bytes_8(idx))
}

/// The label read from the first sixteen pseudo-random bytes.
pub open spec fn prf_label(seed: Seq<u8>, tag: u8, idx: u64) -> S {
    S(be_value(prf_bytes(seed, tag, idx).take(16)))
}

/// The false label of an input wire.
pub open spec fn input_label(seed: Seq<u8>, wire: int) -> S {
    prf_label(seed, TAG_WIRE, wire as u64)
}

/// The label offset of a seed.
pub open spec fn seed_delta(seed: Seq<u8>) -> Delta {
    Delta(S(chacha_keyed(prf_bytes(seed, TAG_DELTA, 0))))
}

/// A seed's gate hasher.
pub open spec fn seed_hasher(seed: Seq<u8>) -> AesCcrGateHasher {
    AesCcrGateHasher { salt: S(chacha_keyed(prf_bytes(seed, TAG_HASHER, 0))) }
}

/// The anchor generator of a seed.
pub open spec fn seed_anchors(seed: Seq<u8>) -> AnchorPrf {
    AnchorPrf {
        h: AesCcrGateHasher { salt: S(chacha_keyed(prf_bytes(seed, TAG_HASHER, 1))) },
        base_and: prf_label(seed, TAG_ANCHOR, 0),
        base_x: prf_label(seed, TAG_XANCH, 0),
    }
}

/// The anchor label of gate `g`: under the base of free gates or that of non-free
/// gates.
pub open spec fn anchor_label(seed: Seq<u8>, is_free: bool, g: int) -> S {
    let ap = seed_anchors(seed);
    if is_free {
        ccr_hash(ap.h.salt, ap.base_x, g as usize)
    } else {
        ccr_hash(ap.h.salt, ap.base_and, g as usize)
    }
}

/// The pseudo-random bytes for a tag and an index.
pub fn prf32(seed: &[u8; 32], tag: u8, idx: u64) -> (r: [u8; 32])
    ensures
        r@ == prf_bytes(seed@, tag, idx),
        r@ == blake3_digest(seed@ + seq![tag] + le_bytes_8(idx)),
{
    let mut input: Vec<u8> = Vec::new();
    push_bytes(&mut input, seed.as_slice());
    input.push(tag);
    push_bytes(&mut input, u64_to_le_bytes(idx).as_slice());
    assert(input@ =~= seed@ + seq![tag] + le_bytes_8(idx));
    blake3_hash(input.as_slice())
}

/// The pseudo-random label for a tag and an index.
pub fn prf(seed: &[u8; 32], tag: u8, idx: u64) -> (r: S)
    ensures
        r == prf_label(seed@, tag, idx),
        r.0 == be_value(blake3_digest(seed@ + seq![tag] + le_bytes_8(idx)).take(16)),
{
    let b = prf32(seed, tag, idx);
    S::from_bytes(first_16(b.as_slice()))
}

/// The false label of an input wire.
pub fn label0(seed: &[u8; 32], wire: usize) -> (r: S)
    ensures
        r == input_label(seed@, wire as int),
        r.0 == be_value(blake3_digest(seed@ + seq![0x01u8] + le_bytes_8(wire as u64)).take(16)),
{
    prf(seed, TAG_WIRE, wire as u64)
}

/// Draws one anchor label for each gate number. Its salt is drawn apart from
/// that of a gate hasher, and free and non-free gates have bases of their own.
#[derive(Clone, Copy, Debug, PartialEq, Eq, Structural)]
pub struct AnchorPrf {
    pub h: AesCcrGateHasher,
    pub base_and: S,
    pub base_x: S,
}

impl AnchorPrf {
    /// The anchor generator of a seed.
    pub fn new(seed: &[u8; 32]) -> (r: AnchorPrf)
        ensures
            r == seed_anchors(seed@),
            r.h.salt.0 == chacha_keyed(blake3_digest(seed@ + seq![0x04u8] + le_bytes_8(1))),
            r.base_and.0 == be_value(
                blake3_digest(seed@ + seq![0x03u8] + le_bytes_8(0)).take(16),
            ),
            r.base_x.0 == be_value(blake3_digest(seed@ + seq![0x05u8] + le_bytes_8(0)).take(16)),
    {
        let salt = S(chacha_first(prf32(seed, TAG_HASHER, 1)));
        AnchorPrf {
            h: AesCcrGateHasher { salt },
            base_and: prf(seed, TAG_ANCHOR, 0),
            base_x: prf(seed, TAG_XANCH, 0),
        }
    }

    /// The anchor of a non-free gate.
    pub fn and(&self, gate: usize) -> (r: S)
        ensures
            r == ccr_hash(self.h.salt, self.base_and, gate),
    {
        let labels: [S; 1] = [self.base_and];
        let h: [S; 1] = self.h.hash_with_gate(&labels, gate);
        h[0]
    }

    /// The anchor of a free gate.
    pub fn xor(&self, gate: usize) -> (r: S)
        ensures
            r == ccr_hash(self.h.salt, self.base_x, gate),
    {
        let labels: [S; 1] = [self.base_x];
        let h: [S; 1] = self.h.hash_with_gate(&labels, gate);
        h[0]
    }

    /// The anchor of gate `g` of a circuit, whichever kind it is.
    pub fn of(&self, c: &PCircuit, g: usize) -> (r: S)
        requires
            g < c.gates@.len(),
        ensures
            r == ccr_hash(
                self.h.salt,
                if free(c.gates@[g as int].t) {
                    self.base_x
                } else {
                    self.base_and
                },
                g,
            ),
    {
        if c.gates[g].t.is_free() {
            self.xor(g)
        } else {
            self.and(g)
        }
    }
}

/// The anchor label of a non-free gate.
pub fn anchor(seed: &[u8; 32], gate: usize) -> (r: S)
    ensures
        r == anchor_label(seed@, false, gate as int),
{
    AnchorPrf::new(seed).and(gate)
}

/// The anchor label of a free gate that the plan promotes.
pub fn xanchor(seed: &[u8; 32], gate: usize) -> (r: S)
    ensures
        r == anchor_label(seed@, true, gate as int),
{
    AnchorPrf::new(seed).xor(gate)
}

/// The anchor label of gate `g` of a circuit, whichever kind it is.
pub fn anchor_of(seed: &[u8; 32], c: &PCircuit, g: usize) -> (r: S)
    requires
        g < c.gates@.len(),
    ensures
        r == anchor_label(seed@, free(c.gates@[g as int].t), g as int),
{
    AnchorPrf::new(seed).of(c, g)
}

/// The label offset of a seed.
pub fn delta_of(seed: &[u8; 32]) -> (r: Delta)
    ensures
        r == seed_delta(seed@),
        r.0.0 == chacha_keyed(blake3_digest(seed@ + seq![0x02u8] + le_bytes_8(0))),
{
    Delta::generate(prf32(seed, TAG_DELTA, 0))
}

/// A seed's gate hasher.
pub fn hasher_of(seed: &[u8; 32]) -> (r: AesCcrGateHasher)
    ensures
        r == seed_hasher(seed@),
        r.salt.0 == chacha_keyed(blake3_digest(seed@ + seq![0x04u8] + le_bytes_8(0))),
{
    AesCcrGateHasher { salt: S(chacha_first(prf32(seed, TAG_HASHER, 0))) }
}

/// What is drawn for a tag and an index is the digest of one message: the seed, the tag
/// and the eight bytes of the index. No other tag or index has that message.
pub proof fn draws_have_messages_of_their_own(
    seed: Seq<u8>,
    tag: u8,
    idx: u64,
    other_tag: u8,
    other_idx: u64,
    message: Seq<u8>,
)
    requires
        message.len() == seed.len() + 9,
        message.take(seed.len() as int) == seed,
        message[seed.len() as int] == tag,
        message.skip(seed.len() as int + 1) == le_bytes_8(idx),
    ensures
        prf_bytes(seed, tag, idx) == blake3_digest(message),
        prf_label(seed, tag, idx) == S(be_value(blake3_digest(message).take(16))),
        message == seed + seq![other_tag] + le_bytes_8(other_idx) ==> tag == other_tag && idx
            == other_idx,
{
    assert(message =~= seed + seq![tag] + le_bytes_8(idx));
    number_bytes_are_digits(idx, other_idx, 0);
    let other = seed + seq![other_tag] + le_bytes_8(other_idx);
    assert(other[seed.len() as int] == other_tag);
    assert(other.skip(seed.len() as int + 1) =~= le_bytes_8(other_idx));
}

/// The uses of a seed: its label offset is the generator's first draw keyed with the
/// digest for tag 2, the salts of its gate hasher and of its anchors are those for tag 4
/// at 0 and at 1, and the labels of inputs and the bases of non-free and of free gates are
/// read from the digests for tags 1, 3 and 5.
pub proof fn seed_is_used_by_tags(seed: Seq<u8>, wire: usize)
    ensures
        seed_delta(seed).0.0 == chacha_keyed(blake3_digest(seed + seq![2u8] + le_bytes_8(0))),
        seed_hasher(seed).salt.0 == chacha_keyed(
            blake3_digest(seed + seq![4u8] + le_bytes_8(0)),
        ),
        seed_anchors(seed).h.salt.0 == chacha_keyed(
            blake3_digest(seed + seq![4u8] + le_bytes_8(1)),
        ),
        input_label(seed, wire as int).0 == be_value(
            blake3_digest(seed + seq![1u8] + le_bytes_8(wire as u64)).take(16),
        ),
        seed_anchors(seed).base_and.0 == be_value(
            blake3_digest(seed + seq![3u8] + le_bytes_8(0)).take(16),
        ),
        seed_anchors(seed).base_x.0 == be_value(
            blake3_digest(seed + seq![5u8] + le_bytes_8(0)).take(16),
        ),
{
}

/// The offset of a seed keeps the two labels of every wire apart wherever what the
/// generator draws for it is not zero, and two seeds have the same offset only if the
/// generator draws the same for both.
pub proof fn seed_delta_keeps_labels_apart(seed: Seq<u8>, other: Seq<u8>, label: S)
    ensures
        active(label, seed_delta(seed), false) == label,
        active(label, seed_delta(seed), true).0 == label.0 ^ chacha_keyed(
            blake3_digest(seed + seq![2u8] + le_bytes_8(0)),
        ),
        chacha_keyed(blake3_digest(seed + seq![2u8] + le_bytes_8(0))) != 0 ==> active(
            label,
            seed_delta(seed),
            true,
        ) != active(label, seed_delta(seed), false),
        seed_delta(seed) == seed_delta(other) ==> chacha_keyed(
            blake3_digest(seed + seq![2u8] + le_bytes_8(0)),
        ) == chacha_keyed(blake3_digest(other + seq![2u8] + le_bytes_8(0))),
{
    let l = label.0;
    let d = seed_delta(seed).0.0;
    assert(d != 0 ==> l ^ d != l) by (bit_vector);
}

/// The anchor of a gate is the hash of its base for its number, under the salt
/// of anchors; so anchors of different gates under one base come from different blocks.
pub proof fn anchors_are_drawn_by_gate(seed: Seq<u8>, g: usize, h: usize)
    ensures
        ({
            let ap = seed_anchors(seed);
            &&& anchor_label(seed, false, g as int) == ap.h.gate_hash(ap.base_and, g)
            &&& anchor_label(seed, true, g as int) == ap.h.gate_hash(ap.base_x, g)
            &&& g != h ==> ccr_point(ap.h.salt, ap.base_and, g) != ccr_point(
                ap.h.salt,
                ap.base_and,
                h,
            )
            &&& g != h ==> ccr_point(ap.h.salt, ap.base_x, g) != ccr_point(ap.h.salt, ap.base_x, h)
        }),
{
    let ap = seed_anchors(seed);
    every_part_is_hashed(ap.h.salt, ap.base_and, g, ap.base_x, h);
    every_part_is_hashed(ap.h.salt, ap.base_x, g, ap.base_and, h);
}

} // verus!
