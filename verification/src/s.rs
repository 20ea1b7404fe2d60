//! 128-bit wire labels.

use crate::primitives::{blake3_fill, blake3_output};
use crate::text::{hex_text, write_commit_hex};
use vstd::prelude::*;
use vstd::std_specs::ops::AddSpec;

verus! {

/// Size of a label in bytes.
pub const S_SIZE: usize = 16;

/// A 128-bit wire label.
#[derive(Clone, Copy, Debug, PartialEq, Eq, Structural)]
pub struct S(pub u128);

/// The label whose bits are the exclusive or of the bits of `a` and `b`.
pub open spec fn xor(a: S, b: S) -> S {
    S(a.0 ^ b.0)
}

/// The number of different labels, 2^128.
pub open spec fn modulus() -> int {
    u128::MAX + 1
}

/// Byte number `i` of `x`, counted from the least significant end.
#[verifier::opaque]
pub open spec fn le_byte(x: u128, i: int) -> u8 {
    (x >> ((8 * i) as u128)) as u8
}

/// The sixteen bytes of `x`, least significant first.
pub open spec fn le_bytes(x: u128) -> Seq<u8> {
    Seq::new(16, |i: int| le_byte(x, i))
}

/// The sixteen bytes of `x`, most significant first.
pub open spec fn be_bytes(x: u128) -> Seq<u8> {
    Seq::new(16, |i: int| le_byte(x, 15 - i))
}

/// The number whose bytes are `b`, most significant first.
#[verifier::opaque]
pub open spec fn be_value(b: Seq<u8>) -> u128 {
    ((b[0] as u128) << 120) | ((b[1] as u128) << 112) | ((b[2] as u128) << 104) | ((b[3] as u128)
        << 96) | ((b[4] as u128) << 88) | ((b[5] as u128) << 80) | ((b[6] as u128) << 72) | ((
    b[7] as u128) << 64) | ((b[8] as u128) << 56) | ((b[9] as u128) << 48) | ((b[10] as u128) << 40)
        | ((b[11] as u128) << 32) | ((b[12] as u128) << 24) | ((b[13] as u128) << 16) | ((
    b[14] as u128) << 8) | (b[15] as u128)
}

/// The number whose bytes are `b`, least significant first.
pub open spec fn le_value(b: Seq<u8>) -> u128 {
    be_value(b.reverse())
}

impl S {
    /// The label with every bit clear.
    pub fn zero() -> (r: S)
        ensures
            r == S(0),
    {
        S(0)
    }

    /// The label with only the least significant bit set.
    pub fn one() -> (r: S)
        ensures
            r == S(1),
    {
        S(1)
    }

    /// Reads a label from sixteen bytes, most significant first.
    pub fn from_bytes(bytes: [u8; 16]) -> (r: S)
        ensures
            r == S(be_value(bytes@)),
    {
        reveal(be_value);
        let b = bytes;
        S(
            ((b[0] as u128) << 120) | ((b[1] as u128) << 112) | ((b[2] as u128) << 104) | ((
            b[3] as u128) << 96) | ((b[4] as u128) << 88) | ((b[5] as u128) << 80) | ((b[6] as u128)
                << 72) | ((b[7] as u128) << 64) | ((b[8] as u128) << 56) | ((b[9] as u128) << 48)
                | ((b[10] as u128) << 40) | ((b[11] as u128) << 32) | ((b[12] as u128) << 24) | ((
            b[13] as u128) << 16) | ((b[14] as u128) << 8) | (b[15] as u128),
        )
    }

    /// Reads a label from sixteen bytes, least significant first.
    pub fn from_le_bytes(bytes: [u8; 16]) -> (r: S)
        ensures
            r == S(le_value(bytes@)),
    {
        let b = bytes;
        let rev: [u8; 16] = [
            b[15],
            b[14],
            b[13],
            b[12],
            b[11],
            b[10],
            b[9],
            b[8],
            b[7],
            b[6],
            b[5],
            b[4],
            b[3],
            b[2],
            b[1],
            b[0],
        ];
        assert(rev@ =~= b@.reverse());
        S::from_bytes(rev)
    }

    /// The sixteen bytes of the label, most significant first.
    pub fn to_bytes(&self) -> (r: [u8; 16])
        ensures
            r@ == be_bytes(self.0),
    {
        let x = self.0;
        let r: [u8; 16] = [
            (x >> 120) as u8,
            (x >> 112) as u8,
            (x >> 104) as u8,
            (x >> 96) as u8,
            (x >> 88) as u8,
            (x >> 80) as u8,
            (x >> 72) as u8,
            (x >> 64) as u8,
            (x >> 56) as u8,
            (x >> 48) as u8,
            (x >> 40) as u8,
            (x >> 32) as u8,
            (x >> 24) as u8,
            (x >> 16) as u8,
            (x >> 8) as u8,
            (x >> 0) as u8,
        ];
        reveal(le_byte);
        assert(r@ =~= be_bytes(x));
        r
    }

    /// The sixteen bytes of the label, least significant first.
    pub fn to_le_bytes(&self) -> (r: [u8; 16])
        ensures
            r@ == le_bytes(self.0),
    {
        let x = self.0;
        let r: [u8; 16] = [
            (x >> 0) as u8,
            (x >> 8) as u8,
            (x >> 16) as u8,
            (x >> 24) as u8,
            (x >> 32) as u8,
            (x >> 40) as u8,
            (x >> 48) as u8,
            (x >> 56) as u8,
            (x >> 64) as u8,
            (x >> 72) as u8,
            (x >> 80) as u8,
            (x >> 88) as u8,
            (x >> 96) as u8,
            (x >> 104) as u8,
            (x >> 112) as u8,
            (x >> 120) as u8,
        ];
        reveal(le_byte);
        assert(r@ =~= le_bytes(x));
        r
    }

    /// Writes the bytes of the label, most significant first.
    pub fn write_bytes(&self, out: &mut [u8; 16])
        ensures
            final(out)@ == be_bytes(self.0),
    {
        *out = self.to_bytes();
    }

    /// Writes the bytes of the label, least significant first.
    pub fn write_bytes_le(&self, out: &mut [u8; 16])
        ensures
            final(out)@ == le_bytes(self.0),
    {
        *out = self.to_le_bytes();
    }

    pub fn from_u128(l: u128) -> (r: S)
        ensures
            r == S(l),
    {
        S(l)
    }

    pub fn to_u128(&self) -> (r: u128)
        ensures
            r == self.0,
    {
        self.0
    }

    /// The bytes of the label in hexadecimal, most significant first.
    pub fn to_hex(&self) -> (r: String)
        ensures
            r@ == hex_text(be_bytes(self.0)),
    {
        let mut out = String::new();
        let bytes = self.to_bytes();
        write_commit_hex(&mut out, bytes.as_slice());
        assert(out@ =~= hex_text(be_bytes(self.0)));
        out
    }

    /// The two's complement of the label, modulo 2^128.
    pub fn neg(&self) -> (r: S)
        ensures
            r.0 == if self.0 == 0 {
                0
            } else {
                modulus() - self.0
            },
    {
        S(0u128.wrapping_sub(self.0))
    }

    /// The label read from the first sixteen bytes of the BLAKE3 output for this
    /// label's bytes.
    pub fn hash(&self) -> (r: S)
        ensures
            r == S(be_value(blake3_output(be_bytes(self.0), 16))),
    {
        let bytes = self.to_bytes();
        let out = blake3_fill(bytes.as_slice(), S_SIZE);
        S::from_bytes(first_16(out.as_slice()))
    }

    /// The label read from the first sixteen bytes of the BLAKE3 output for the
    /// bytes of `a` followed by those of `b`.
    pub fn hash_together(a: S, b: S) -> (r: S)
        ensures
            r == S(be_value(blake3_output(be_bytes(a.0) + be_bytes(b.0), 16))),
    {
        let mut input: Vec<u8> = Vec::new();
        push_bytes(&mut input, a.to_bytes().as_slice());
        push_bytes(&mut input, b.to_bytes().as_slice());
        assert(input@ =~= be_bytes(a.0) + be_bytes(b.0));
        let out = blake3_fill(input.as_slice(), S_SIZE);
        S::from_bytes(first_16(out.as_slice()))
    }

    /// The bitwise exclusive or of two labels.
    pub fn xor(a: S, b: S) -> (r: S)
        ensures
            r == xor(a, b),
    {
        S(a.0 ^ b.0)
    }
}

/// Appends `bytes` to `out`.
pub fn push_bytes(out: &mut Vec<u8>, bytes: &[u8])
    ensures
        final(out)@ == old(out)@ + bytes@,
{
    let mut i: usize = 0;
    while i < bytes.len()
        invariant
            i <= bytes@.len(),
            out@ == old(out)@ + bytes@.take(i as int),
        decreases bytes@.len() - i,
    {
        out.push(bytes[i]);
        i = i + 1;
        assert(out@ =~= old(out)@ + bytes@.take(i as int));
    }
    assert(bytes@.take(bytes@.len() as int) =~= bytes@);
}

/// The first sixteen bytes of a slice.
pub(crate) fn first_16(bytes: &[u8]) -> (r: [u8; 16])
    requires
        bytes@.len() >= 16,
    ensures
        r@ == bytes@.take(16),
        bytes@.len() == 16 ==> r@ == bytes@,
{
    let b = bytes;
    let r: [u8; 16] = [
        b[0],
        b[1],
        b[2],
        b[3],
        b[4],
        b[5],
        b[6],
        b[7],
        b[8],
        b[9],
        b[10],
        b[11],
        b[12],
        b[13],
        b[14],
        b[15],
    ];
    assert(r@ =~= bytes@.take(16));
    assert(bytes@.len() == 16 ==> bytes@.take(16) =~= bytes@);
    r
}

impl core::ops::BitXor<&S> for &S {
    type Output = S;

    fn bitxor(self, rhs: &S) -> (r: S) {
        S(self.0 ^ rhs.0)
    }
}

impl vstd::std_specs::ops::BitXorSpecImpl<&S> for &S {
    open spec fn obeys_bitxor_spec() -> bool {
        true
    }

    open spec fn bitxor_req(self, rhs: &S) -> bool {
        true
    }

    open spec fn bitxor_spec(self, rhs: &S) -> S {
        xor(*self, *rhs)
    }
}

impl core::ops::BitXor<&S> for S {
    type Output = S;

    fn bitxor(self, rhs: &S) -> (r: S) {
        S(self.0 ^ rhs.0)
    }
}

impl vstd::std_specs::ops::BitXorSpecImpl<&S> for S {
    open spec fn obeys_bitxor_spec() -> bool {
        true
    }

    open spec fn bitxor_req(self, rhs: &S) -> bool {
        true
    }

    open spec fn bitxor_spec(self, rhs: &S) -> S {
        xor(self, *rhs)
    }
}

impl core::ops::BitXorAssign<&S> for S {
    fn bitxor_assign(&mut self, rhs: &S)
        ensures
            *final(self) == xor(*old(self), *rhs),
    {
        self.0 = self.0 ^ rhs.0;
    }
}

impl core::ops::Add for S {
    type Output = S;

    fn add(self, rhs: S) -> (r: S) {
        S(self.0.wrapping_add(rhs.0))
    }
}

impl vstd::std_specs::ops::AddSpecImpl for S {
    open spec fn obeys_add_spec() -> bool {
        true
    }

    open spec fn add_req(self, rhs: S) -> bool {
        true
    }

    open spec fn add_spec(self, rhs: S) -> S {
        if self.0 + rhs.0 < modulus() {
            S((self.0 + rhs.0) as u128)
        } else {
            S((self.0 + rhs.0 - modulus()) as u128)
        }
    }
}

/// Exclusive or of labels is associative, commutative, has the zero label as its
/// unit, and every label is its own inverse.
pub broadcast proof fn xor_laws(a: S, b: S, c: S)
    ensures
        #[trigger] xor(xor(a, b), c) == xor(a, xor(b, c)),
        xor(a, b) == xor(b, a),
        xor(a, S(0)) == a,
        xor(a, a) == S(0),
{
    let (x, y, z) = (a.0, b.0, c.0);
    assert((x ^ y) ^ z == x ^ (y ^ z) && x ^ y == y ^ x && x ^ 0 == x && x ^ x == 0) by (bit_vector);
}

/// Reading back the big-endian bytes of a label gives the label, and the bytes of
/// a label that was read are the bytes it was read from.
pub proof fn bytes_round_trip(s: S, bytes: Seq<u8>)
    requires
        bytes.len() == 16,
    ensures
        be_value(be_bytes(s.0)) == s.0,
        be_bytes(be_value(bytes)) == bytes,
{
    reveal(be_value);
    reveal(le_byte);
    let x = s.0;
    assert(x == (((x >> 120) as u8 as u128) << 120) | (((x >> 112) as u8 as u128) << 112) | (((x
        >> 104) as u8 as u128) << 104) | (((x >> 96) as u8 as u128) << 96) | (((x
        >> 88) as u8 as u128) << 88) | (((x >> 80) as u8 as u128) << 80) | (((x
        >> 72) as u8 as u128) << 72) | (((x >> 64) as u8 as u128) << 64) | (((x
        >> 56) as u8 as u128) << 56) | (((x >> 48) as u8 as u128) << 48) | (((x
        >> 40) as u8 as u128) << 40) | (((x >> 32) as u8 as u128) << 32) | (((x
        >> 24) as u8 as u128) << 24) | (((x >> 16) as u8 as u128) << 16) | (((x
        >> 8) as u8 as u128) << 8) | ((x >> 0) as u8 as u128)) by (bit_vector);
    let (b0, b1, b2, b3) = (bytes[0], bytes[1], bytes[2], bytes[3]);
    let (b4, b5, b6, b7) = (bytes[4], bytes[5], bytes[6], bytes[7]);
    let (b8, b9, b10, b11) = (bytes[8], bytes[9], bytes[10], bytes[11]);
    let (b12, b13, b14, b15) = (bytes[12], bytes[13], bytes[14], bytes[15]);
    let y = be_value(bytes);
    assert(b0 == (y >> 120) as u8 && b1 == (y >> 112) as u8 && b2 == (y >> 104) as u8 && b3 == (y
        >> 96) as u8 && b4 == (y >> 88) as u8 && b5 == (y >> 80) as u8 && b6 == (y >> 72) as u8
        && b7 == (y >> 64) as u8 && b8 == (y >> 56) as u8 && b9 == (y >> 48) as u8 && b10 == (y
        >> 40) as u8 && b11 == (y >> 32) as u8 && b12 == (y >> 24) as u8 && b13 == (y >> 16) as u8
        && b14 == (y >> 8) as u8 && b15 == (y >> 0) as u8) by (bit_vector)
        requires
            y == ((b0 as u128) << 120) | ((b1 as u128) << 112) | ((b2 as u128) << 104) | ((
            b3 as u128) << 96) | ((b4 as u128) << 88) | ((b5 as u128) << 80) | ((b6 as u128) << 72)
                | ((b7 as u128) << 64) | ((b8 as u128) << 56) | ((b9 as u128) << 48) | ((
            b10 as u128) << 40) | ((b11 as u128) << 32) | ((b12 as u128) << 24) | ((b13 as u128)
                << 16) | ((b14 as u128) << 8) | (b15 as u128),
    ;
    assert(be_bytes(y) =~= bytes);
}

/// Reading back the little-endian bytes of a label gives the label, and the bytes
/// of a label that was read are the bytes it was read from.
pub proof fn le_bytes_round_trip(s: S, bytes: Seq<u8>)
    requires
        bytes.len() == 16,
    ensures
        le_value(le_bytes(s.0)) == s.0,
        le_bytes(le_value(bytes)) == bytes,
{
    bytes_round_trip(s, bytes.reverse());
    assert(le_bytes(s.0).reverse() =~= be_bytes(s.0));
    let y = le_value(bytes);
    assert(le_bytes(y) =~= be_bytes(y).reverse());
    assert(bytes.reverse().reverse() =~= bytes);
}

/// The bytes of a label are the digits of its number to the base 256: the last
/// big-endian byte, which is the first little-endian byte, is the remainder, and the
/// others are the bytes of the quotient.
pub proof fn bytes_are_digits(x: u128, i: int)
    requires
        0 <= i < 15,
    ensures
        be_bytes(x)[15] == x % 256,
        be_bytes(x)[i] == be_bytes(x / 256)[i + 1],
        be_bytes(x)[i] == le_bytes(x)[15 - i],
        le_bytes(x)[0] == x % 256,
{
    reveal(le_byte);
    assert((x >> 0) as u8 == x % 256) by (bit_vector);
    let k = (8 * (15 - i)) as u128;
    let l = (8 * (14 - i)) as u128;
    assert((x >> k) as u8 == ((x / 256) >> l) as u8) by (bit_vector)
        requires
            k == l + 8,
            l <= 112,
    ;
    assert(le_byte(x, 15 - i) == le_byte(x / 256, 14 - i));
}

/// The number read from bytes is the last one plus 256 times the number of those before
/// it, with a zero byte in front.
pub proof fn value_is_positional(b: Seq<u8>)
    requires
        b.len() == 16,
    ensures
        be_value(b) == 256 * be_value(seq![0u8] + b.take(15)) + b[15],
        be_value(seq![0u8] + b.take(15)) <= u128::MAX / 256,
{
    let x = be_value(b);
    bytes_round_trip(S(x), b);
    let c = seq![0u8] + b.take(15);
    let y = (x / 256) as u128;
    assert(be_bytes(y) =~= c) by {
        reveal(le_byte);
        assert((y >> 120) as u8 == 0) by (bit_vector)
            requires
                y == x / 256,
        ;
        assert(be_bytes(y)[0] == c[0]);
        assert forall|i: int| 0 < i < 16 implies be_bytes(y)[i] == #[trigger] c[i] by {
            bytes_are_digits(x, i - 1);
            assert(c[i] == b[i - 1]);
        }
    }
    bytes_round_trip(S(y), c);
    bytes_are_digits(x, 0);
}

/// The bytes of the exclusive or of two labels are the exclusive or of their bytes.
pub proof fn bytes_of_xor(a: S, b: S, i: int)
    requires
        0 <= i < 16,
    ensures
        be_bytes(xor(a, b).0)[i] == be_bytes(a.0)[i] ^ be_bytes(b.0)[i],
        le_bytes(xor(a, b).0)[i] == le_bytes(a.0)[i] ^ le_bytes(b.0)[i],
{
    reveal(le_byte);
    let (x, y) = (a.0, b.0);
    let k = (8 * (15 - i)) as u128;
    let l = (8 * i) as u128;
    assert(((x ^ y) >> k) as u8 == ((x >> k) as u8) ^ ((y >> k) as u8)) by (bit_vector);
    assert(((x ^ y) >> l) as u8 == ((x >> l) as u8) ^ ((y >> l) as u8)) by (bit_vector);
}

/// Labels are added modulo 2^128.
pub proof fn labels_are_added_modulo(a: S, b: S)
    ensures
        a.add_spec(b).0 as int == (a.0 + b.0) % 0x1_0000_0000_0000_0000_0000_0000_0000_0000int,
{
}

} // verus!
