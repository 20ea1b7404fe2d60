//! The outside cryptographic functions that the library calls.
//!
//! Nothing here is proved: each function hands its arguments to the outside
//! crate and its contract names what comes back.

use aes::cipher::{BlockEncrypt, KeyInit};
use rand::{Rng, SeedableRng};
use sha2::Digest;
use vstd::prelude::*;

verus! {

/// The 32-byte BLAKE3 digest of `input`.
pub uninterp spec fn blake3_digest(input: Seq<u8>) -> Seq<u8>;

/// The first `len` bytes of the BLAKE3 extendable output for `input`.
pub uninterp spec fn blake3_output(input: Seq<u8>, len: nat) -> Seq<u8>;

/// The 32-byte SHA-256 digest of `input`.
pub uninterp spec fn sha256_digest(input: Seq<u8>) -> Seq<u8>;

/// The AES-128 encryption of `block` under `key`.
pub uninterp spec fn aes128(key: Seq<u8>, block: Seq<u8>) -> Seq<u8>;

/// The first 128-bit integer drawn from a ChaCha20 generator keyed with `seed`.
pub uninterp spec fn chacha_keyed(seed: Seq<u8>) -> u128;

/// The 128-bit integer drawn at 32-bit word `word` of the stream of a ChaCha20
/// generator whose key is expanded from `seed`.
pub uninterp spec fn chacha_stream(seed: u64, word: u128) -> u128;

/// Calls `blake3::hash`: the digest is a function of the input bytes alone.
#[verifier::external_body]
pub(crate) fn blake3_hash(input: &[u8]) -> (r: [u8; 32])
    ensures
        r@ == blake3_digest(input@),
{
    *blake3::hash(input).as_bytes()
}

/// Calls `blake3::Hasher::finalize_xof` on a hasher updated with `input`, and
/// `OutputReader::fill` on a buffer of `len` bytes: the output has that length
/// and is a function of the input bytes and the length alone.
#[verifier::external_body]
pub(crate) fn blake3_fill(input: &[u8], len: usize) -> (r: Vec<u8>)
    ensures
        r@ == blake3_output(input@, len as nat),
        r@.len() == len,
{
    let mut out = vec![0u8; len];
    blake3::Hasher::new().update(input).finalize_xof().fill(&mut out);
    out
}

/// Calls `sha2::Sha256::digest`: the digest is a function of the input bytes
/// alone.
#[verifier::external_body]
pub(crate) fn sha256(input: &[u8]) -> (r: [u8; 32])
    ensures
        r@ == sha256_digest(input@),
{
    sha2::Sha256::digest(input).into()
}

/// Calls `aes::Aes128::new` with `key` and `encrypt_block` on `block`: the
/// result is a function of the key and the block alone.
#[verifier::external_body]
pub(crate) fn aes128_encrypt(key: &[u8; 16], block: &[u8; 16]) -> (r: [u8; 16])
    ensures
        r@ == aes128(key@, block@),
{
    let cipher = aes::Aes128::new(key.into());
    let mut b: aes::Block = (*block).into();
    cipher.encrypt_block(&mut b);
    b.into()
}

/// Calls `rand_chacha::ChaChaRng::from_seed` and draws one `u128`: the draw is a
/// function of the seed alone.
#[verifier::external_body]
pub(crate) fn chacha_first(seed: [u8; 32]) -> (r: u128)
    ensures
        r == chacha_keyed(seed@),
{
    rand_chacha::ChaChaRng::from_seed(seed).gen::<u128>()
}

/// Calls `rand_chacha::ChaChaRng::seed_from_u64`, moves to 32-bit word `word` of
/// the stream with `set_word_pos` and draws one `u128`: the draw is a function of
/// the seed and the position alone.
#[verifier::external_body]
pub(crate) fn chacha_draw(seed: u64, word: u128) -> (r: u128)
    ensures
        r == chacha_stream(seed, word),
{
    let mut rng = rand_chacha::ChaChaRng::seed_from_u64(seed);
    rng.set_word_pos(word);
    rng.gen::<u128>()
}

} // verus!
