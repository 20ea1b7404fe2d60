//! Points of the curve secp256k1 and commitments to scalars.

use crate::vsss::field::{bits_value, limbs_value, order, order_bounds, scalar_bounds, Scalar};
use crate::vsss::interpolation::Linear;
use ark_ec::scalar_mul::BatchMulPreprocessing;
use ark_ec::{CurveGroup, PrimeGroup};
use ark_ff::{BigInt, PrimeField, Zero};
use ark_secp256k1::{Affine, Fq, Fr, Projective};
use vstd::arithmetic::div_mod::{
    lemma_add_mod_noop, lemma_fundamental_div_mod, lemma_mod_bound, lemma_mul_mod_noop_left,
    lemma_small_mod, lemma_sub_mod_noop,
};
use vstd::arithmetic::power2::{
    lemma2_to64, lemma_pow2_adds, lemma_pow2_pos, lemma_pow2_strictly_increases, lemma_pow2_unfold,
    pow2,
};
use vstd::prelude::*;

verus! {

/// A point in affine coordinates, each held as four words, the lowest first. The
/// point at infinity has coordinates zero.
#[derive(Clone, Copy, Debug, PartialEq, Eq)]
pub struct Point {
    pub x: [u64; 4],
    pub y: [u64; 4],
    pub infinity: bool,
}

impl View for Point {
    type V = (Seq<u64>, Seq<u64>, bool);

    open spec fn view(&self) -> (Seq<u64>, Seq<u64>, bool) {
        (self.x@, self.y@, self.infinity)
    }
}

/// The affine coordinates of the `k`th multiple of the curve's generator.
pub uninterp spec fn generator_multiple(k: int) -> (Seq<u64>, Seq<u64>, bool);

/// A table of multiples of the generator for windows of a scalar's bits.
pub struct GeneratorTable {
    pub window: usize,
    pub max_scalar_size: usize,
    pub table: Vec<Vec<Point>>,
}

/// How many rows a table has for its window.
pub open spec fn table_rows(window: int) -> int {
    (256 + window - 1) / window
}

/// Whether a table is one of multiples of the generator.
pub open spec fn is_generator_table(t: GeneratorTable) -> bool {
    &&& 3 <= t.window <= 13
    &&& t.max_scalar_size == 256
    &&& t.table@.len() == table_rows(t.window as int)
    &&& forall|o: int, i: int|
        0 <= o < t.table@.len() && 0 <= i < pow2(t.window as nat) && (o == t.table@.len() - 1 ==> i
            < pow2((256 - o * t.window) as nat)) ==> i < (#[trigger] t.table@[o])@.len() && (
        #[trigger] t.table@[o]@[i])@ == generator_multiple(
            (i * pow2((o * t.window) as nat)) % order(),
        )
}

/// Calls `BatchMulPreprocessing::new` on the generator: the window depends on the
/// number of scalars, and row `o` holds the multiples of the generator by the numbers
/// below 2 to the window, times 2 to the window times `o`; the last row only those
/// that a 256-bit scalar can need.
#[verifier::external_body]
fn new_generator_table(num_scalars: usize) -> (r: GeneratorTable)
    requires
        num_scalars <= 0x10_0000,
    ensures
        is_generator_table(r),
{
    let pre = BatchMulPreprocessing::new(Projective::generator(), num_scalars);
    let point = |p: &Affine| Point {
        x: p.x.into_bigint().0,
        y: p.y.into_bigint().0,
        infinity: p.infinity,
    };
    GeneratorTable {
        window: pre.window,
        max_scalar_size: pre.max_scalar_size,
        table: pre.table.iter().map(|row| row.iter().map(point).collect()).collect(),
    }
}

/// Calls `Projective::zero`: the point at infinity, which is the generator zero times.
#[verifier::external_body]
fn zero_point() -> (r: Point)
    ensures
        r@ == generator_multiple(0),
{
    let p = Projective::zero().into_affine();
    Point { x: p.x.into_bigint().0, y: p.y.into_bigint().0, infinity: p.infinity }
}

/// Calls `+` on `Projective`: multiples of the generator are added by adding their
/// factors, and different factors below the order give different points. Every point
/// of the curve is a multiple of the generator.
#[verifier::external_body]
fn add_points(a: &Point, b: &Point) -> (r: Point)
    ensures
        forall|i: int, j: int|
            0 <= i < order() && 0 <= j < order() && a@ == #[trigger] generator_multiple(i) && b@
                == #[trigger] generator_multiple(j) ==> r@ == generator_multiple((i + j) % order()),
        forall|i: int, j: int, k: int|
            0 <= i < order() && 0 <= j < order() && 0 <= k < order() && a@
                == #[trigger] generator_multiple(i) && b@ == #[trigger] generator_multiple(j) && r@
                == #[trigger] generator_multiple(k) ==> k == (i + j) % order(),
{
    let point = |p: &Point| Affine {
        x: Fq::new(BigInt(p.x)),
        y: Fq::new(BigInt(p.y)),
        infinity: p.infinity,
    };
    let p = (Projective::from(point(a)) + Projective::from(point(b))).into_affine();
    Point { x: p.x.into_bigint().0, y: p.y.into_bigint().0, infinity: p.infinity }
}

/// Calls `-` on `Projective`: multiples of the generator are subtracted by
/// subtracting their factors.
#[verifier::external_body]
fn subtract_points(a: &Point, b: &Point) -> (r: Point)
    ensures
        forall|i: int, j: int|
            0 <= i < order() && 0 <= j < order() && a@ == #[trigger] generator_multiple(i) && b@
                == #[trigger] generator_multiple(j) ==> r@ == generator_multiple((i - j) % order()),
{
    let point = |p: &Point| Affine {
        x: Fq::new(BigInt(p.x)),
        y: Fq::new(BigInt(p.y)),
        infinity: p.infinity,
    };
    let p = (Projective::from(point(a)) - Projective::from(point(b))).into_affine();
    Point { x: p.x.into_bigint().0, y: p.y.into_bigint().0, infinity: p.infinity }
}

/// Calls `*` on `Projective` and `Fr`: a multiple of the generator is multiplied by
/// multiplying its factor.
#[verifier::external_body]
fn multiply_point(a: &Point, k: &[u64; 4]) -> (r: Point)
    requires
        limbs_value(k@) < order(),
    ensures
        forall|i: int|
            0 <= i < order() && a@ == #[trigger] generator_multiple(i) ==> r@
                == generator_multiple((i * limbs_value(k@)) % order()),
{
    let p = Affine {
        x: Fq::new(BigInt(a.x)),
        y: Fq::new(BigInt(a.y)),
        infinity: a.infinity,
    };
    let p = (Projective::from(p) * Fr::new(BigInt(*k))).into_affine();
    Point { x: p.x.into_bigint().0, y: p.y.into_bigint().0, infinity: p.infinity }
}

impl Linear for Point {
    open spec fn represents(&self, k: int) -> bool {
        self@ == generator_multiple(k % order())
    }

    proof fn represents_equal(&self, a: int, b: int) {
    }

    fn zero() -> (r: Self) {
        let r = zero_point();
        proof {
            order_bounds();
            lemma_small_mod(0, order() as nat);
        }
        r
    }

    fn sum(&self, other: &Self) -> (r: Self) {
        let r = add_points(self, other);
        proof {
            order_bounds();
            assert forall|i: int, j: int|
                #[trigger] self.represents(i) && #[trigger] other.represents(j) implies r.represents(
                i + j,
            ) by {
                lemma_mod_bound(i, order());
                lemma_mod_bound(j, order());
                lemma_add_mod_noop(i, j, order());
            }
        }
        r
    }

    fn difference(&self, other: &Self) -> (r: Self) {
        let r = subtract_points(self, other);
        proof {
            order_bounds();
            assert forall|i: int, j: int|
                #[trigger] self.represents(i) && #[trigger] other.represents(j) implies r.represents(
                i - j,
            ) by {
                lemma_mod_bound(i, order());
                lemma_mod_bound(j, order());
                lemma_sub_mod_noop(i, j, order());
            }
        }
        r
    }

    fn multiple(&self, k: &Scalar) -> (r: Self) {
        let limbs = k.to_limbs();
        proof {
            order_bounds();
            scalar_bounds(*k);
        }
        let r = multiply_point(self, &limbs);
        proof {
            assert forall|i: int| #[trigger] self.represents(i) implies r.represents(i * k@) by {
                lemma_mod_bound(i, order());
                lemma_mul_mod_noop_left(i, k@, order());
            }
        }
        r
    }
}

/// The table of multiples of the generator with which commitments are made.
pub struct Secp256k1 {
    generator: GeneratorTable,
}

/// The number of generator multiplications that a table is made for.
const GENERATOR_MULTIPLICATIONS: usize = 95568;

/// How many bits of a window that begins at bit `start` a scalar has.
spec fn bits_in(start: int, i: int) -> nat {
    (if start + i <= 256 {
        i
    } else {
        256 - start
    }) as nat
}

impl Secp256k1 {
    #[verifier::type_invariant]
    spec fn holds_multiples(self) -> bool {
        is_generator_table(self.generator)
    }

    /// The table of multiples of the generator.
    pub closed spec fn table(&self) -> GeneratorTable {
        self.generator
    }

    /// A table that is made for many multiplications.
    pub fn new() -> (r: Secp256k1)
        ensures
            is_generator_table(r.table()),
    {
        Secp256k1 { generator: new_generator_table(GENERATOR_MULTIPLICATIONS) }
    }

    /// The generator times a scalar; no other multiple of it is the same point.
    pub fn windowed_mul(&self, scalar: &Scalar) -> (r: Point)
        ensures
            r@ == generator_multiple(scalar@),
            forall|k: int|
                0 <= k < order() && r@ == #[trigger] generator_multiple(k) ==> k == scalar@,
    {
        proof {
            use_type_invariant(self);
        }
        let t = &self.generator;
        let window: usize = t.window;
        let rows: usize = (t.max_scalar_size + window - 1) / window;
        let bits = scalar.to_bits_le();
        let ghost w = window as int;
        proof {
            rows_cover(w);
            order_bounds();
            lemma2_to64();
            lemma_pow2_pos(w as nat);
            lemma_pow2_pos((256 - 0 * w) as nat);
            assert(0 * w == 0);
            assert(t.table@[0]@[0]@ == generator_multiple((0int * pow2((0 * w) as nat)) % order()));
            lemma_small_mod(0, order() as nat);
            assert(0 * pow2((0 * w) as nat) == 0);
            assert(bits@.take(0) =~= Seq::<bool>::empty());
        }
        let mut res = t.table[0][0];
        let mut outer: usize = 0;

        while outer < rows
            invariant
                outer <= rows,
                is_generator_table(*t),
                w == window == t.window,
                rows == table_rows(w),
                bits@.len() == 256,
                (rows - 1) * w < 256 <= rows * w,
                outer * w + bits_in(outer * w, 0) >= 0,
                res.represents(
                    bits_value(
                        bits@.take(
                            if outer * w <= 256 {
                                outer * w
                            } else {
                                256
                            },
                        ),
                    ),
                ),
                outer > 0 ==> forall|k: int|
                    0 <= k < order() && res@ == #[trigger] generator_multiple(k) ==> k
                        == bits_value(
                        bits@.take(
                            if outer * w <= 256 {
                                outer * w
                            } else {
                                256
                            },
                        ),
                    ) % order(),
            decreases rows - outer,
        {
            let ghost start = outer * w;
            proof {
                assert(outer * w <= (rows - 1) * w) by (nonlinear_arith)
                    requires
                        outer <= rows - 1,
                        w > 0,
                ;
                assert((outer + 1) * w == start + w) by (nonlinear_arith)
                    requires
                        start == outer * w,
                ;
                lemma2_to64();
            }
            let begin: usize = outer * window;
            let mut inner: usize = 0;
            let mut power: usize = 1;
            let mut i: usize = 0;
            proof {
                assert(pow2(start as nat) * 0 == 0);
            }
            while i < window
                invariant
                    i <= window,
                    3 <= window <= 13,
                    begin == start,
                    0 <= start < 256,
                    bits@.len() == 256,
                    power == pow2(i as nat),
                    inner < pow2(bits_in(start, i as int)),
                    bits_value(bits@.take(start + bits_in(start, i as int))) == bits_value(
                        bits@.take(start),
                    ) + pow2(start as nat) * inner,
                decreases window - i,
            {
                let ghost before = inner;
                let ghost used = bits_in(start, i as int);
                proof {
                    lemma_pow2_unfold((i + 1) as nat);
                    lemma_pow2_unfold(used + 1);
                    pow2_at_most(i as nat, 13);
                    pow2_at_most(used, 13);
                    assert(pow2(13) == 8192) by {
                        lemma2_to64();
                    }
                }
                if begin + i < 256 && bits[begin + i] {
                    inner = inner + power;
                }
                proof {
                    if begin + i < 256 {
                        let whole = bits@.take(start + i + 1);
                        assert(whole.drop_last() =~= bits@.take(start + i));
                        assert(whole.last() == bits@[start + i]);
                        lemma_pow2_adds(start as nat, i as nat);
                        let (p, q) = (pow2(start as nat) as int, pow2(i as nat) as int);
                        assert(p * (before + q) == p * before + p * q) by (nonlinear_arith);
                    }
                }
                power = power * 2;
                i = i + 1;
            }
            let ghost used = bits_in(start, w);
            proof {
                if used < w {
                    pow2_at_most(used, w as nat);
                }
                if outer == rows - 1 {
                    assert(used <= 256 - outer * w);
                    pow2_at_most(used, (256 - outer * w) as nat);
                }
                assert(t.table@[outer as int]@[inner as int]@ == generator_multiple(
                    (inner * pow2((outer * w) as nat)) % order(),
                ));
            }
            let ghost before = res;
            let row = &t.table[outer];
            let entry = row[inner];
            res = add_points(&res, &entry);
            proof {
                let a = bits_value(bits@.take(start));
                let b = inner * pow2(start as nat);
                let sum = bits_value(bits@.take(start + used));
                assert(b == pow2(start as nat) * inner) by (nonlinear_arith)
                    requires
                        b == inner * pow2(start as nat),
                ;
                assert(sum == a + b);
                order_bounds();
                lemma_mod_bound(a, order());
                lemma_mod_bound(b, order());
                lemma_add_mod_noop(a, b, order());
                assert(before@ == generator_multiple(a % order()));
                assert(entry@ == generator_multiple(b % order()));
                assert(res@ == generator_multiple(sum % order()));
                let end = if (outer + 1) * w <= 256 {
                    (outer + 1) * w
                } else {
                    256
                };
                assert(start + used == end);
                assert forall|k: int|
                    0 <= k < order() && res@ == #[trigger] generator_multiple(k) implies k == sum
                    % order() by {
                    assert(k == ((a % order()) + (b % order())) % order());
                }
            }
            outer = outer + 1;
        }
        proof {
            assert(bits@.take(256) =~= bits@);
            assert(rows > 0);
            scalar_bounds(*scalar);
            lemma_small_mod(scalar@ as nat, order() as nat);
        }
        res
    }

    /// The generator times each of some scalars.
    pub fn generator_batch_mul(&self, scalars: &[Scalar]) -> (r: Vec<Point>)
        ensures
            are_commitments(scalars@, r@),
    {
        let mut r: Vec<Point> = Vec::new();
        let mut i: usize = 0;
        while i < scalars.len()
            invariant
                i <= scalars@.len(),
                r@.len() == i,
                forall|k: int|
                    0 <= k < i ==> (#[trigger] r@[k])@ == generator_multiple(scalars@[k]@),
                forall|k: int, m: int|
                    0 <= k < i && 0 <= m < order() && (#[trigger] r@[k])@
                        == #[trigger] generator_multiple(m) ==> m == scalars@[k]@,
            decreases scalars@.len() - i,
        {
            r.push(self.windowed_mul(&scalars[i]));
            i = i + 1;
        }
        r
    }
}

impl Default for Secp256k1 {
    fn default() -> (r: Secp256k1)
        ensures
            is_generator_table(r.table()),
    {
        Secp256k1::new()
    }
}

/// Whether points are the generator times scalars, and times no other scalars.
pub open spec fn are_commitments(scalars: Seq<Scalar>, points: Seq<Point>) -> bool {
    &&& points.len() == scalars.len()
    &&& forall|k: int|
        0 <= k < points.len() ==> (#[trigger] points[k])@ == generator_multiple(scalars[k]@)
    &&& forall|k: int, m: int|
        0 <= k < points.len() && 0 <= m < order() && (#[trigger] points[k])@
            == #[trigger] generator_multiple(m) ==> m == scalars[k]@
}

proof fn rows_cover(w: int)
    requires
        3 <= w <= 13,
    ensures
        0 < table_rows(w),
        (table_rows(w) - 1) * w < 256 <= table_rows(w) * w,
{
    let q = table_rows(w);
    lemma_fundamental_div_mod(256 + w - 1, w);
    assert(q * w == w * q) by (nonlinear_arith);
    assert((q - 1) * w == q * w - w) by (nonlinear_arith);
    assert(q > 0) by (nonlinear_arith)
        requires
            w * q > 0,
            w > 0,
    ;
}

proof fn pow2_at_most(a: nat, b: nat)
    requires
        a <= b,
    ensures
        pow2(a) <= pow2(b),
{
    if a < b {
        lemma_pow2_strictly_increases(a, b);
    }
}

} // verus!
