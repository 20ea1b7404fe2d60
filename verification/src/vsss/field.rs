//! Scalars: the integers modulo the order of the curve secp256k1.

use crate::hashers::{le_bytes_8, number_bytes_are_digits, u64_to_le_bytes};
use crate::s::push_bytes;
use ark_ff::{BigInt, Field, PrimeField};
use ark_secp256k1::Fr;
use vstd::arithmetic::div_mod::{lemma_fundamental_div_mod_converse, lemma_small_mod};
use vstd::arithmetic::power2::{lemma2_to64, lemma_pow2_adds, lemma_pow2_unfold, pow2};
use vstd::prelude::*;

verus! {

/// 2 to the 64.
pub open spec fn word() -> int {
    0x1_0000_0000_0000_0000
}

/// The order of the curve, a prime.
#[verifier::opaque]
pub open spec fn order() -> int {
    0xffff_ffff_ffff_ffff_ffff_ffff_ffff_fffe_int * (word() * word())
        + 0xbaae_dce6_af48_a03b_bfd2_5e8c_d036_4141_int
}

/// The order has 256 bits.
pub proof fn order_bounds()
    ensures
        word() < order(),
        order() < word() * word() * word() * word(),
        2 * order() > word() * word() * word() * word(),
{
    reveal(order);
}

/// The number that four words stand for, the lowest word first.
pub open spec fn limbs_value(l: Seq<u64>) -> int {
    l[0] + word() * (l[1] + word() * (l[2] + word() * l[3]))
}

/// Calls `+` on `Fr`: the sum modulo the order.
#[verifier::external_body]
fn fr_add(a: &[u64; 4], b: &[u64; 4]) -> (r: [u64; 4])
    requires
        limbs_value(a@) < order(),
        limbs_value(b@) < order(),
    ensures
        limbs_value(r@) == (limbs_value(a@) + limbs_value(b@)) % order(),
{
    (Fr::new(BigInt(*a)) + Fr::new(BigInt(*b))).into_bigint().0
}

/// Calls `-` on `Fr`: the difference modulo the order.
#[verifier::external_body]
fn fr_sub(a: &[u64; 4], b: &[u64; 4]) -> (r: [u64; 4])
    requires
        limbs_value(a@) < order(),
        limbs_value(b@) < order(),
    ensures
        limbs_value(r@) == (limbs_value(a@) - limbs_value(b@)) % order(),
{
    (Fr::new(BigInt(*a)) - Fr::new(BigInt(*b))).into_bigint().0
}

/// Calls `*` on `Fr`: the product modulo the order. As the order is prime, it is zero
/// only if a factor is.
#[verifier::external_body]
fn fr_mul(a: &[u64; 4], b: &[u64; 4]) -> (r: [u64; 4])
    requires
        limbs_value(a@) < order(),
        limbs_value(b@) < order(),
    ensures
        limbs_value(r@) == (limbs_value(a@) * limbs_value(b@)) % order(),
        limbs_value(r@) == 0 ==> limbs_value(a@) == 0 || limbs_value(b@) == 0,
{
    (Fr::new(BigInt(*a)) * Fr::new(BigInt(*b))).into_bigint().0
}

/// Calls the unary `-` on `Fr`: the negative modulo the order.
#[verifier::external_body]
fn fr_neg(a: &[u64; 4]) -> (r: [u64; 4])
    requires
        limbs_value(a@) < order(),
    ensures
        limbs_value(r@) == (-limbs_value(a@)) % order(),
{
    (-Fr::new(BigInt(*a))).into_bigint().0
}

/// Calls `Field::inverse` on `Fr`: every element but zero has an inverse, whose product
/// with it is one.
#[verifier::external_body]
fn fr_inverse(a: &[u64; 4]) -> (r: Option<[u64; 4]>)
    requires
        limbs_value(a@) < order(),
    ensures
        r is Some <==> limbs_value(a@) != 0,
        r matches Some(b) ==> limbs_value(b@) < order() && (limbs_value(a@) * limbs_value(b@))
            % order() == 1,
{
    Fr::new(BigInt(*a)).inverse().map(|x| x.into_bigint().0)
}

/// A number modulo the order, held as four words, the lowest first.
#[derive(Clone, Copy, Debug, PartialEq, Eq)]
pub struct Scalar {
    limbs: [u64; 4],
}

impl View for Scalar {
    type V = int;

    closed spec fn view(&self) -> int {
        limbs_value(self.limbs@) % order()
    }
}

/// A scalar is a number from zero to the order.
pub proof fn scalar_bounds(s: Scalar)
    ensures
        0 <= s@ < order(),
{
    order_bounds();
}

impl Scalar {
    #[verifier::type_invariant]
    spec fn is_reduced(self) -> bool {
        limbs_value(self.limbs@) < order()
    }

    /// The scalar that four words stand for, if it is less than the order.
    pub fn from_limbs(limbs: [u64; 4]) -> (r: Option<Scalar>)
        ensures
            match r {
                Some(s) => limbs_value(limbs@) < order() && s@ == limbs_value(limbs@),
                None => limbs_value(limbs@) >= order(),
            },
    {
        let less = limbs[3] < 0xffff_ffff_ffff_ffff || limbs[2] < 0xffff_ffff_ffff_fffe || (limbs[2]
            == 0xffff_ffff_ffff_fffe && (limbs[1] < 0xbaae_dce6_af48_a03b || (limbs[1]
            == 0xbaae_dce6_af48_a03b && limbs[0] < 0xbfd2_5e8c_d036_4141)));
        proof {
            reveal(order);
            limbs_are_positive(limbs@);
            let (a, b, c, d) = (limbs@[0] as int, limbs@[1] as int, limbs@[2] as int, limbs@[3] as int);
            assert(limbs_value(limbs@) == a + word() * b + word() * word() * c + word() * word()
                * word() * d) by (nonlinear_arith)
                requires
                    limbs_value(limbs@) == a + word() * (b + word() * (c + word() * d)),
            ;
            assert(less <==> limbs_value(limbs@) < order());
            if less {
                lemma_small_mod(limbs_value(limbs@) as nat, order() as nat);
            }
        }
        if less {
            Some(Scalar { limbs })
        } else {
            None
        }
    }

    /// The four words of the scalar, the lowest first.
    pub fn to_limbs(&self) -> (r: [u64; 4])
        ensures
            limbs_value(r@) == self@,
    {
        proof {
            use_type_invariant(*self);
            limbs_are_positive(self.limbs@);
            lemma_small_mod(limbs_value(self.limbs@) as nat, order() as nat);
        }
        self.limbs
    }

    /// A small number as a scalar.
    pub fn from_u64(x: u64) -> (r: Scalar)
        ensures
            r@ == x,
    {
        let limbs: [u64; 4] = [x, 0, 0, 0];
        proof {
            order_bounds();
            assert(limbs_value(limbs@) == x);
            lemma_small_mod(x as nat, order() as nat);
        }
        Scalar { limbs }
    }

    /// The sum of two scalars.
    pub fn plus(&self, other: &Scalar) -> (r: Scalar)
        ensures
            r@ == (self@ + other@) % order(),
    {
        let limbs = fr_add(&self.to_limbs_checked(), &other.to_limbs_checked());
        proof {
            order_bounds();
            lemma_small_mod(limbs_value(limbs@) as nat, order() as nat);
        }
        Scalar { limbs }
    }

    /// The difference of two scalars.
    pub fn minus(&self, other: &Scalar) -> (r: Scalar)
        ensures
            r@ == (self@ - other@) % order(),
    {
        let limbs = fr_sub(&self.to_limbs_checked(), &other.to_limbs_checked());
        proof {
            order_bounds();
            lemma_small_mod(limbs_value(limbs@) as nat, order() as nat);
        }
        Scalar { limbs }
    }

    /// The product of two scalars, which is zero only if one of them is.
    pub fn times(&self, other: &Scalar) -> (r: Scalar)
        ensures
            r@ == (self@ * other@) % order(),
            r@ == 0 ==> self@ == 0 || other@ == 0,
    {
        let limbs = fr_mul(&self.to_limbs_checked(), &other.to_limbs_checked());
        proof {
            order_bounds();
            lemma_small_mod(limbs_value(limbs@) as nat, order() as nat);
        }
        Scalar { limbs }
    }

    /// The negative of a scalar.
    pub fn negated(&self) -> (r: Scalar)
        ensures
            r@ == (-self@) % order(),
    {
        let limbs = fr_neg(&self.to_limbs_checked());
        proof {
            order_bounds();
            lemma_small_mod(limbs_value(limbs@) as nat, order() as nat);
        }
        Scalar { limbs }
    }

    /// The inverse of a scalar, which every one but zero has.
    pub fn inverse(&self) -> (r: Option<Scalar>)
        ensures
            r is Some <==> self@ != 0,
            r matches Some(b) ==> (self@ * b@) % order() == 1,
    {
        match fr_inverse(&self.to_limbs_checked()) {
            Some(limbs) => {
                proof {
                    limbs_are_positive(limbs@);
                    lemma_small_mod(limbs_value(limbs@) as nat, order() as nat);
                }
                Some(Scalar { limbs })
            },
            None => None,
        }
    }

    fn to_limbs_checked(&self) -> (r: [u64; 4])
        ensures
            limbs_value(r@) == self@,
            limbs_value(r@) < order(),
    {
        proof {
            order_bounds();
        }
        self.to_limbs()
    }

    /// The 32 bytes of the scalar, the lowest first.
    pub fn to_bytes_le(&self) -> (r: Vec<u8>)
        ensures
            r@ == le_bytes_32(self@),
    {
        let limbs = self.to_limbs();
        let mut r: Vec<u8> = Vec::new();
        push_bytes(&mut r, u64_to_le_bytes(limbs[0]).as_slice());
        push_bytes(&mut r, u64_to_le_bytes(limbs[1]).as_slice());
        push_bytes(&mut r, u64_to_le_bytes(limbs[2]).as_slice());
        push_bytes(&mut r, u64_to_le_bytes(limbs[3]).as_slice());
        proof {
            words_of_value(limbs@);
            assert(r@ =~= le_bytes_32(self@));
        }
        r
    }

    /// The 256 bits of the scalar, the lowest first.
    pub fn to_bits_le(&self) -> (r: Vec<bool>)
        ensures
            r@.len() == 256,
            bits_value(r@) == self@,
    {
        let limbs = self.to_limbs();
        let mut r: Vec<bool> = Vec::new();
        push_bits(&mut r, limbs[0]);
        push_bits(&mut r, limbs[1]);
        push_bits(&mut r, limbs[2]);
        push_bits(&mut r, limbs[3]);
        proof {
            lemma2_to64();
            lemma_pow2_adds(64, 64);
            lemma_pow2_adds(64, 128);
            let (a, b, c, d) = (limbs@[0] as int, limbs@[1] as int, limbs@[2] as int, limbs@[3] as int);
            let w = word();
            assert(pow2(64) == w);
            assert(pow2(128) == w * w);
            assert(pow2(192) == w * (w * w));
            assert(pow2(0) * a == a);
            assert(pow2(64) * b == w * b);
            assert(pow2(128) * c == (w * w) * c);
            assert(pow2(192) * d == (w * (w * w)) * d);
            assert(limbs_value(limbs@) == a + w * (b + w * (c + w * d)));
            assert(a + w * (b + w * (c + w * d)) == a + w * b + (w * w) * c + (w * (w * w)) * d)
                by (nonlinear_arith);
        }
        r
    }
}

/// The word at a position of a number.
pub open spec fn word_at(v: int, i: nat) -> u64
    decreases i,
{
    if i == 0 {
        (v % word()) as u64
    } else {
        word_at(v / word(), (i - 1) as nat)
    }
}

/// The 32 bytes of a number, the lowest first.
pub open spec fn le_bytes_32(v: int) -> Seq<u8> {
    le_bytes_8(word_at(v, 0)) + le_bytes_8(word_at(v, 1)) + le_bytes_8(word_at(v, 2)) + le_bytes_8(
        word_at(v, 3),
    )
}

proof fn words_of_value(l: Seq<u64>)
    requires
        l.len() == 4,
    ensures
        word_at(limbs_value(l), 0) == l[0],
        word_at(limbs_value(l), 1) == l[1],
        word_at(limbs_value(l), 2) == l[2],
        word_at(limbs_value(l), 3) == l[3],
{
    reveal_with_fuel(word_at, 5);
    let v3 = l[3] as int;
    let v2 = l[2] + word() * v3;
    let v1 = l[1] + word() * v2;
    let v0 = l[0] + word() * v1;
    lemma_fundamental_div_mod_converse(v0, word(), v1, l[0] as int);
    lemma_fundamental_div_mod_converse(v1, word(), v2, l[1] as int);
    lemma_fundamental_div_mod_converse(v2, word(), v3, l[2] as int);
    lemma_small_mod(l[3] as nat, word() as nat);
}

/// The number that bits stand for, the lowest bit first.
pub open spec fn bits_value(bits: Seq<bool>) -> int
    decreases bits.len(),
{
    if bits.len() == 0 {
        0
    } else {
        bits_value(bits.drop_last()) + if bits.last() {
            pow2((bits.len() - 1) as nat) as int
        } else {
            0
        }
    }
}

fn push_bits(out: &mut Vec<bool>, x: u64)
    ensures
        final(out)@.len() == old(out)@.len() + 64,
        bits_value(final(out)@) == bits_value(old(out)@) + pow2(old(out)@.len()) * x,
{
    let ghost start = out@;
    let mut rest: u64 = x;
    let mut i: u64 = 0;
    proof {
        lemma2_to64();
        assert(pow2(0) * rest == rest) by (nonlinear_arith)
            requires
                pow2(0) == 1,
        ;
        assert(pow2(start.len()) * (pow2(0) * rest) == pow2(start.len()) * x);
    }
    while i < 64
        invariant
            i <= 64,
            out@.len() == start.len() + i,
            bits_value(out@) + pow2(start.len()) * (pow2(i as nat) * rest) == bits_value(start)
                + pow2(start.len()) * x,
            rest < pow2((64 - i) as nat) || i == 0,
        decreases 64 - i,
    {
        let bit = rest % 2 == 1;
        let ghost before = out@;
        let half: u64 = rest / 2;
        proof {
            lemma2_to64();
            lemma_pow2_unfold((i + 1) as nat);
            lemma_pow2_unfold((64 - i) as nat);
            lemma_pow2_adds(start.len(), i as nat);
            let p = pow2(start.len()) as int;
            let q = pow2(i as nat) as int;
            let b: int = if bit {
                1
            } else {
                0
            };
            assert(rest == 2 * half + b);
            assert(pow2((i + 1) as nat) == 2 * q);
            assert(p * (q * rest) == p * (2 * q * half) + (p * q) * b) by (nonlinear_arith)
                requires
                    rest == 2 * half + b,
            ;
            assert((p * q) * b == if bit {
                p * q
            } else {
                0
            }) by (nonlinear_arith)
                requires
                    b == 1 && bit || b == 0 && !bit,
            ;
            assert(before.push(bit).drop_last() =~= before);
        }
        out.push(bit);
        rest = half;
        i = i + 1;
    }
    proof {
        lemma2_to64();
        assert(rest == 0);
        assert(pow2(start.len()) * (pow2(64) * rest) == 0) by (nonlinear_arith)
            requires
                rest == 0,
        ;
    }
}

proof fn limbs_are_positive(l: Seq<u64>)
    ensures
        0 <= limbs_value(l),
{
    assert(0 <= word() * (l[1] + word() * (l[2] + word() * l[3]))) by (nonlinear_arith)
        requires
            word() > 0,
            l[1] >= 0,
            l[2] >= 0,
            l[3] >= 0,
    ;
}

/// The 32 bytes of a number below 2^256 are those of its four words, the lowest first, and
/// no other number below 2^256 has them.
pub proof fn scalar_bytes_are_unique(v: int, other: int)
    requires
        0 <= v < word() * word() * word() * word(),
        0 <= other < word() * word() * word() * word(),
    ensures
        le_bytes_32(v).len() == 32,
        le_bytes_32(v).subrange(0, 8) == le_bytes_8((v % word()) as u64),
        le_bytes_32(v).subrange(8, 16) == le_bytes_8(((v / word()) % word()) as u64),
        le_bytes_32(v).subrange(16, 24) == le_bytes_8(((v / word() / word()) % word()) as u64),
        le_bytes_32(v).subrange(24, 32) == le_bytes_8(((v / word() / word() / word()) % word()) as u64),
        le_bytes_32(v) == le_bytes_32(other) ==> v == other,
{
    reveal_with_fuel(word_at, 5);
    let b = le_bytes_32(v);
    let c = le_bytes_32(other);
    assert(b.subrange(0, 8) =~= le_bytes_8(word_at(v, 0)));
    assert(b.subrange(8, 16) =~= le_bytes_8(word_at(v, 1)));
    assert(b.subrange(16, 24) =~= le_bytes_8(word_at(v, 2)));
    assert(b.subrange(24, 32) =~= le_bytes_8(word_at(v, 3)));
    assert(c.subrange(0, 8) =~= le_bytes_8(word_at(other, 0)));
    assert(c.subrange(8, 16) =~= le_bytes_8(word_at(other, 1)));
    assert(c.subrange(16, 24) =~= le_bytes_8(word_at(other, 2)));
    assert(c.subrange(24, 32) =~= le_bytes_8(word_at(other, 3)));
    number_bytes_are_digits(word_at(v, 0), word_at(other, 0), 0);
    number_bytes_are_digits(word_at(v, 1), word_at(other, 1), 0);
    number_bytes_are_digits(word_at(v, 2), word_at(other, 2), 0);
    number_bytes_are_digits(word_at(v, 3), word_at(other, 3), 0);
    assert(v / word() / word() / word() < word() && other / word() / word() / word() < word())
        by (nonlinear_arith)
        requires
            0 <= v < word() * word() * word() * word(),
            0 <= other < word() * word() * word() * word(),
            word() == 0x1_0000_0000_0000_0000,
    ;
}

} // verus!
