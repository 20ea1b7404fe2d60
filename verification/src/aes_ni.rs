//! AES-128 on one or more independent blocks, with optional XOR masks.

use crate::primitives::{aes128, aes128_encrypt};
use vstd::prelude::*;

verus! {

/// Byte by byte exclusive or of two blocks.
pub open spec fn xor_block(a: Seq<u8>, b: Seq<u8>) -> Seq<u8> {
    Seq::new(16, |i: int| a[i] ^ b[i])
}

/// The key shared by every gate hash.
pub open spec fn static_key() -> Seq<u8> {
    Seq::new(16, |i: int| 0x42u8)
}

/// The encryption of `block` under the shared key.
pub open spec fn static_block(block: Seq<u8>) -> Seq<u8> {
    aes128(static_key(), block)
}

/// An AES-128 cipher for one key.
#[derive(Clone, Copy, Debug, PartialEq, Eq)]
pub struct Aes128 {
    pub key: [u8; 16],
}

/// `block` with `mask` XORed into it.
fn masked(block: [u8; 16], mask: [u8; 16]) -> (r: [u8; 16])
    ensures
        r@ == xor_block(block@, mask@),
{
    let mut r = block;
    let mut i: usize = 0;
    while i < 16
        invariant
            i <= 16,
            forall|j: int| 0 <= j < i ==> r@[j] == block@[j] ^ mask@[j],
            forall|j: int| i <= j < 16 ==> r@[j] == block@[j],
        decreases 16 - i,
    {
        r[i] = block[i] ^ mask[i];
        i = i + 1;
    }
    assert(r@ =~= xor_block(block@, mask@));
    r
}

impl Aes128 {
    /// A cipher for `key`. It is always available.
    pub fn new(key: [u8; 16]) -> (r: Option<Aes128>)
        ensures
            r == Some(Aes128 { key }),
    {
        Some(Aes128 { key })
    }

    /// Encrypts one block.
    pub fn encrypt_block(&self, block: [u8; 16]) -> (r: [u8; 16])
        ensures
            r@ == aes128(self.key@, block@),
    {
        aes128_encrypt(&self.key, &block)
    }

    /// Encrypts one block after XORing a mask into it.
    pub fn encrypt_block_xor(&self, block: [u8; 16], xor_mask: [u8; 16]) -> (r: [u8; 16])
        ensures
            r@ == aes128(self.key@, xor_block(block@, xor_mask@)),
    {
        self.encrypt_block(masked(block, xor_mask))
    }

    /// Encrypts each of `M` blocks.
    pub fn encrypt_blocks<const M: usize>(&self, b: [[u8; 16]; M]) -> (r: [[u8; 16]; M])
        ensures
            forall|k: int| 0 <= k < M ==> (#[trigger] r@[k])@ == aes128(self.key@, b@[k]@),
    {
        let mut r = b;
        let mut i: usize = 0;
        while i < M
            invariant
                i <= M,
                forall|k: int| 0 <= k < i ==> (#[trigger] r@[k])@ == aes128(self.key@, b@[k]@),
            decreases M - i,
        {
            r[i] = self.encrypt_block(b[i]);
            i = i + 1;
        }
        r
    }

    /// Encrypts each of `M` blocks after XORing its own mask into it.
    pub fn encrypt_blocks_masks<const M: usize>(
        &self,
        b: [[u8; 16]; M],
        masks: [[u8; 16]; M],
    ) -> (r: [[u8; 16]; M])
        ensures
            forall|k: int|
                0 <= k < M ==> (#[trigger] r@[k])@ == aes128(
                    self.key@,
                    xor_block(b@[k]@, masks@[k]@),
                ),
    {
        let mut r = b;
        let mut i: usize = 0;
        while i < M
            invariant
                i <= M,
                forall|k: int|
                    0 <= k < i ==> (#[trigger] r@[k])@ == aes128(
                        self.key@,
                        xor_block(b@[k]@, masks@[k]@),
                    ),
            decreases M - i,
        {
            r[i] = self.encrypt_block_xor(b[i], masks[i]);
            i = i + 1;
        }
        r
    }

    /// Encrypts two blocks.
    pub fn encrypt2_blocks(&self, b0: [u8; 16], b1: [u8; 16]) -> (r: ([u8; 16], [u8; 16]))
        ensures
            r.0@ == aes128(self.key@, b0@),
            r.1@ == aes128(self.key@, b1@),
    {
        (self.encrypt_block(b0), self.encrypt_block(b1))
    }

    /// Encrypts two blocks after XORing one mask into both.
    pub fn encrypt2_blocks_xor(&self, b0: [u8; 16], b1: [u8; 16], xor_mask: [u8; 16]) -> (r: (
        [u8; 16],
        [u8; 16],
    ))
        ensures
            r.0@ == aes128(self.key@, xor_block(b0@, xor_mask@)),
            r.1@ == aes128(self.key@, xor_block(b1@, xor_mask@)),
    {
        (self.encrypt_block_xor(b0, xor_mask), self.encrypt_block_xor(b1, xor_mask))
    }

    /// Encrypts four blocks.
    pub fn encrypt4_blocks(&self, b: [[u8; 16]; 4]) -> (r: [[u8; 16]; 4])
        ensures
            forall|k: int| 0 <= k < 4 ==> (#[trigger] r@[k])@ == aes128(self.key@, b@[k]@),
    {
        self.encrypt_blocks::<4>(b)
    }

    /// Encrypts four blocks after XORing one mask into each.
    pub fn encrypt4_blocks_xor(&self, b: [[u8; 16]; 4], xor_mask: [u8; 16]) -> (r: [[u8; 16]; 4])
        ensures
            forall|k: int|
                0 <= k < 4 ==> (#[trigger] r@[k])@ == aes128(
                    self.key@,
                    xor_block(b@[k]@, xor_mask@),
                ),
    {
        self.encrypt_blocks_masks::<4>(b, [xor_mask; 4])
    }

    /// Encrypts eight blocks.
    pub fn encrypt8_blocks(&self, b: [[u8; 16]; 8]) -> (r: [[u8; 16]; 8])
        ensures
            forall|k: int| 0 <= k < 8 ==> (#[trigger] r@[k])@ == aes128(self.key@, b@[k]@),
    {
        self.encrypt_blocks::<8>(b)
    }

    /// Encrypts eight blocks after XORing one mask into each.
    pub fn encrypt8_blocks_xor(&self, b: [[u8; 16]; 8], xor_mask: [u8; 16]) -> (r: [[u8; 16]; 8])
        ensures
            forall|k: int|
                0 <= k < 8 ==> (#[trigger] r@[k])@ == aes128(
                    self.key@,
                    xor_block(b@[k]@, xor_mask@),
                ),
    {
        self.encrypt_blocks_masks::<8>(b, [xor_mask; 8])
    }
}

/// The cipher for the shared key.
fn get_or_init_static_cipher() -> (r: Aes128)
    ensures
        r.key@ == static_key(),
{
    let key: [u8; 16] = [0x42; 16];
    assert(key@ =~= static_key());
    Aes128 { key }
}

/// Encrypts one block under `key`.
pub fn aes128_encrypt_block(key: [u8; 16], block: [u8; 16]) -> (r: Option<[u8; 16]>)
    ensures
        r matches Some(c) && c@ == aes128(key@, block@),
{
    match Aes128::new(key) {
        Some(cipher) => Some(cipher.encrypt_block(block)),
        None => None,
    }
}

/// Encrypts two blocks under `key`.
pub fn aes128_encrypt2_blocks(key: [u8; 16], b0: [u8; 16], b1: [u8; 16]) -> (r: Option<
    ([u8; 16], [u8; 16]),
>)
    ensures
        r matches Some(c) && c.0@ == aes128(key@, b0@) && c.1@ == aes128(key@, b1@),
{
    match Aes128::new(key) {
        Some(cipher) => Some(cipher.encrypt2_blocks(b0, b1)),
        None => None,
    }
}

/// Encrypts one block under the shared key.
pub fn aes128_encrypt_block_static(block: [u8; 16]) -> (r: Option<[u8; 16]>)
    ensures
        r matches Some(c) && c@ == static_block(block@),
{
    Some(get_or_init_static_cipher().encrypt_block(block))
}

/// Encrypts two blocks under the shared key.
pub fn aes128_encrypt2_blocks_static(b0: [u8; 16], b1: [u8; 16]) -> (r: Option<
    ([u8; 16], [u8; 16]),
>)
    ensures
        r matches Some(c) && c.0@ == static_block(b0@) && c.1@ == static_block(b1@),
{
    Some(get_or_init_static_cipher().encrypt2_blocks(b0, b1))
}

/// Encrypts one block under the shared key after XORing a mask into it.
pub fn aes128_encrypt_block_static_xor(block: [u8; 16], xor_mask: [u8; 16]) -> (r: Option<
    [u8; 16],
>)
    ensures
        r matches Some(c) && c@ == static_block(xor_block(block@, xor_mask@)),
{
    Some(get_or_init_static_cipher().encrypt_block_xor(block, xor_mask))
}

/// Encrypts two blocks under the shared key after XORing one mask into both.
pub fn aes128_encrypt2_blocks_static_xor(b0: [u8; 16], b1: [u8; 16], xor_mask: [u8; 16]) -> (r:
    Option<([u8; 16], [u8; 16])>)
    ensures
        r matches Some(c) && c.0@ == static_block(xor_block(b0@, xor_mask@)) && c.1@
            == static_block(xor_block(b1@, xor_mask@)),
{
    Some(get_or_init_static_cipher().encrypt2_blocks_xor(b0, b1, xor_mask))
}

/// Encrypts four blocks under the shared key after XORing one mask into each.
pub fn aes128_encrypt4_blocks_static_xor(b: [[u8; 16]; 4], xor_mask: [u8; 16]) -> (r: Option<
    [[u8; 16]; 4],
>)
    ensures
        r matches Some(c) && forall|k: int|
            0 <= k < 4 ==> (#[trigger] c@[k])@ == static_block(xor_block(b@[k]@, xor_mask@)),
{
    aes128_encrypt4_blocks_static_xor_masks(b, [xor_mask; 4])
}

/// Encrypts eight blocks under the shared key after XORing one mask into each.
pub fn aes128_encrypt8_blocks_static_xor(b: [[u8; 16]; 8], xor_mask: [u8; 16]) -> (r: Option<
    [[u8; 16]; 8],
>)
    ensures
        r matches Some(c) && forall|k: int|
            0 <= k < 8 ==> (#[trigger] c@[k])@ == static_block(xor_block(b@[k]@, xor_mask@)),
{
    aes128_encrypt8_blocks_static_xor_masks(b, [xor_mask; 8])
}

/// Encrypts sixteen blocks under the shared key after XORing one mask into each.
pub fn aes128_encrypt16_blocks_static_xor(b: [[u8; 16]; 16], xor_mask: [u8; 16]) -> (r: Option<
    [[u8; 16]; 16],
>)
    ensures
        r matches Some(c) && forall|k: int|
            0 <= k < 16 ==> (#[trigger] c@[k])@ == static_block(xor_block(b@[k]@, xor_mask@)),
{
    aes128_encrypt16_blocks_static_xor_masks(b, [xor_mask; 16])
}

/// Encrypts two blocks under the shared key after XORing its own mask into each.
pub fn aes128_encrypt2_blocks_static_xor_masks(b: [[u8; 16]; 2], masks: [[u8; 16]; 2]) -> (r:
    Option<[[u8; 16]; 2]>)
    ensures
        r matches Some(c) && forall|k: int|
            0 <= k < 2 ==> (#[trigger] c@[k])@ == static_block(xor_block(b@[k]@, masks@[k]@)),
{
    aes128_encrypt_blocks_static_xor_masks::<2>(b, masks)
}

/// Encrypts four blocks under the shared key after XORing its own mask into each.
pub fn aes128_encrypt4_blocks_static_xor_masks(b: [[u8; 16]; 4], masks: [[u8; 16]; 4]) -> (r:
    Option<[[u8; 16]; 4]>)
    ensures
        r matches Some(c) && forall|k: int|
            0 <= k < 4 ==> (#[trigger] c@[k])@ == static_block(xor_block(b@[k]@, masks@[k]@)),
{
    aes128_encrypt_blocks_static_xor_masks::<4>(b, masks)
}

/// Encrypts eight blocks under the shared key after XORing its own mask into each.
pub fn aes128_encrypt8_blocks_static_xor_masks(b: [[u8; 16]; 8], masks: [[u8; 16]; 8]) -> (r:
    Option<[[u8; 16]; 8]>)
    ensures
        r matches Some(c) && forall|k: int|
            0 <= k < 8 ==> (#[trigger] c@[k])@ == static_block(xor_block(b@[k]@, masks@[k]@)),
{
    aes128_encrypt_blocks_static_xor_masks::<8>(b, masks)
}

/// Encrypts sixteen blocks under the shared key after XORing its own mask into each.
pub fn aes128_encrypt16_blocks_static_xor_masks(b: [[u8; 16]; 16], masks: [[u8; 16]; 16]) -> (r:
    Option<[[u8; 16]; 16]>)
    ensures
        r matches Some(c) && forall|k: int|
            0 <= k < 16 ==> (#[trigger] c@[k])@ == static_block(xor_block(b@[k]@, masks@[k]@)),
{
    aes128_encrypt_blocks_static_xor_masks::<16>(b, masks)
}

/// Encrypts any number of blocks under the shared key after XORing its own mask
/// into each.
pub fn aes128_encrypt_blocks_static_xor_masks<const M: usize>(
    b: [[u8; 16]; M],
    masks: [[u8; 16]; M],
) -> (r: Option<[[u8; 16]; M]>)
    ensures
        r matches Some(c) && forall|k: int|
            0 <= k < M ==> (#[trigger] c@[k])@ == static_block(xor_block(b@[k]@, masks@[k]@)),
{
    Some(get_or_init_static_cipher().encrypt_blocks_masks::<M>(b, masks))
}

} // verus!
