//! Numbers as sums and differences of powers of two.

use crate::vsss::field::bits_value;
use vstd::arithmetic::power2::{lemma_pow2_unfold, pow2};
use vstd::prelude::*;

verus! {

/// The number that signed digits stand for, the lowest digit first.
pub open spec fn digits_value(digits: Seq<i8>) -> int
    decreases digits.len(),
{
    if digits.len() == 0 {
        0
    } else {
        digits_value(digits.drop_last()) + digits.last() * pow2((digits.len() - 1) as nat)
    }
}

/// Whether digits are minus one, zero or one, with a zero next to every other.
pub open spec fn is_sparse(digits: Seq<i8>) -> bool {
    &&& forall|i: int| 0 <= i < digits.len() ==> -1 <= #[trigger] digits[i] <= 1
    &&& forall|i: int|
        0 <= i < digits.len() - 1 ==> #[trigger] digits[i] == 0 || digits[i + 1] == 0
}

/// The number of some bits as a sum and difference of powers of two, no two of them
/// next to each other.
pub fn neg_pos_sum_of_powers_of_two(bits: &Vec<bool>) -> (r: Vec<i8>)
    requires
        bits@.len() < usize::MAX,
    ensures
        r@.len() == bits@.len() + 1,
        digits_value(r@) == bits_value(bits@),
        is_sparse(r@),
{
    let n: usize = bits.len();
    let mut r: Vec<i8> = Vec::new();
    let mut carry = false;
    let mut i: usize = 0;
    assert(bits@.take(0) =~= Seq::<bool>::empty());
    while i <= n
        invariant
            i <= n + 1,
            n == bits@.len(),
            n < usize::MAX,
            r@.len() == i,
            digits_value(r@) + if carry {
                pow2(i as nat) as int
            } else {
                0
            } == bits_value(
                bits@.take(
                    if i <= n {
                        i as int
                    } else {
                        n as int
                    },
                ),
            ),
            i == n + 1 ==> !carry,
            forall|k: int| 0 <= k < i ==> -1 <= #[trigger] r@[k] <= 1,
            forall|k: int| 0 <= k < i - 1 ==> #[trigger] r@[k] == 0 || r@[k + 1] == 0,
            0 < i <= n && r@[i - 1] != 0 ==> carry == (i < n && bits@[i as int]),
        decreases n + 1 - i,
    {
        let bit = i < n && bits[i];
        let next = i < n && i + 1 < n && bits[i + 1];
        let ghost before = r@;
        let ghost had = carry;
        let digit: i8 = if bit == carry {
            0
        } else if next {
            -1
        } else {
            1
        };
        if bit == carry {
        } else {
            carry = next;
        }
        r.push(digit);
        proof {
            lemma_pow2_unfold((i + 1) as nat);
            assert(r@.drop_last() =~= before);
            assert(digits_value(r@) == digits_value(before) + digit * pow2(i as nat));
            let p = pow2(i as nat) as int;
            assert(digit * p == if digit == 0 {
                0
            } else if digit == 1 {
                p
            } else {
                -p
            }) by (nonlinear_arith)
                requires
                    digit == 0 || digit == 1 || digit == -1,
            ;
            if i < n {
                assert(bits@.take(i + 1).drop_last() =~= bits@.take(i as int));
            }
        }
        i = i + 1;
    }
    assert(bits@.take(n as int) =~= bits@);
    r
}

} // verus!
