//! The messages of cut-and-choose with shared labels of bytes.

use crate::cut_and_choose::commit::{CommitPhaseOne, LabelCommitHasher, Seed};
use crate::hashers::GateHasher;
use crate::modes::backend::CircuitMode;
use crate::modes::ciphertexts::DummySource;
use crate::modes::evaluate::{EvaluateMode, EvaluatedWire};
use crate::gate::WireId;
use crate::s::S;
use crate::vsss::commits::{PolynomialCommits, ShareCommits};
use crate::vsss::field::Scalar;
use crate::vsss::points::Point;
use crate::vsss::recovery::{lesser, power_of_two};
use crate::vsss::wide_garbling::{
    bit_of, piece, pieces, pieces_are_consecutive, pieces_end, GarbledWideLabelTable,
};
use vstd::arithmetic::power2::{lemma2_to64, lemma_pow2_pos, lemma_pow2_unfold, pow2};
use vstd::prelude::*;

verus! {

/// What the garbler commits to.
pub struct VsssCommit<GH: GateHasher, LH: LabelCommitHasher> {
    pub circuit_commits: Vec<CommitPhaseOne<GH, LH>>,
    pub share_commits: Vec<ShareCommits>,
    pub polynomial_commits: Vec<PolynomialCommits>,
    pub garbling_table_commits: Vec<[u8; 32]>,
}

/// An instance that is to be finalized, and where its ciphertexts go.
pub struct FinalizeChallenge<CTH> {
    pub index: usize,
    pub ciphertext_handler: CTH,
}

/// What is revealed of an opened instance.
pub struct OpenVsssInstance {
    pub index: usize,
    pub seed: Seed,
    pub shares: Vec<Scalar>,
}

/// A finalized instance: its tables, and the seed from which it is to be garbled again
/// with its ciphertexts going to the handler.
pub struct FinalizedVsssInstance<CTH> {
    pub index: usize,
    pub wide_label_lookup: Vec<GarbledWideLabelTable>,
    pub seed: Seed,
    pub ciphertext_handler: CTH,
}

/// The number that bits stand for, the highest bit first.
pub open spec fn bits_number(bits: Seq<bool>) -> int
    decreases bits.len(),
{
    if bits.len() == 0 {
        0
    } else {
        2 * bits_number(bits.drop_last()) + if bits.last() {
            1int
        } else {
            0
        }
    }
}

/// The label of each byte for the value of its bits.
pub open spec fn labels_for_bits(wide_labels: Seq<Scalar>, bits: Seq<bool>, w: nat) -> Seq<Scalar> {
    let size = pow2(w) as int;
    Seq::new(
        lesser(pieces(wide_labels, size), pieces(bits, w as int)),
        |k: int| piece(wide_labels, size, k)[bits_number(piece(bits, w as int, k))],
    )
}

/// Whether there is a label for the value of each byte.
pub open spec fn has_labels_for_bits(wide_labels: Seq<Scalar>, bits: Seq<bool>, w: nat) -> bool {
    let size = pow2(w) as int;
    forall|k: int|
        0 <= k < lesser(pieces(wide_labels, size), pieces(bits, w as int)) ==> bits_number(
            #[trigger] piece(bits, w as int, k),
        ) < piece(wide_labels, size, k).len()
}

/// Whether the value of each byte of `w` bits that has labels is below 256.
pub open spec fn values_fit_bytes(wide_labels: Seq<Scalar>, bits: Seq<bool>, w: nat) -> bool {
    forall|k: int|
        0 <= k < lesser(pieces(wide_labels, pow2(w) as int), pieces(bits, w as int))
            ==> bits_number(#[trigger] piece(bits, w as int, k)) < 256
}

/// The first bits stand for no larger number than all bits.
proof fn prefix_is_no_larger(bits: Seq<bool>, n: int)
    requires
        0 <= n <= bits.len(),
    ensures
        bits_number(bits.take(n)) <= bits_number(bits),
    decreases bits.len(),
{
    if n < bits.len() {
        prefix_is_no_larger(bits.drop_last(), n);
        bits_number_bounds(bits.drop_last());
        assert(bits.drop_last().take(n) =~= bits.take(n));
    } else {
        assert(bits.take(n) =~= bits);
    }
}

/// Bits stand for a number that they can count to.
pub proof fn bits_number_bounds(bits: Seq<bool>)
    ensures
        0 <= bits_number(bits) < pow2(bits.len()),
    decreases bits.len(),
{
    lemma2_to64();
    if bits.len() > 0 {
        bits_number_bounds(bits.drop_last());
        lemma_pow2_unfold(bits.len());
    }
}

/// The bits of the number that bits stand for are those bits.
pub proof fn bits_of_number(bits: Seq<bool>, b: int)
    requires
        0 <= b < bits.len(),
    ensures
        bit_of(bits_number(bits), bits.len() as int, b) == bits[b],
    decreases bits.len(),
{
    let n = bits.len() as int;
    let rest = bits.drop_last();
    let v = bits_number(rest);
    let last: int = if bits.last() {
        1
    } else {
        0
    };
    lemma2_to64();
    if b == n - 1 {
        assert(bits_number(bits) == 2 * v + last);
        assert((2 * v + last) / 1 == 2 * v + last);
    } else {
        bits_of_number(rest, b);
        let p = pow2((n - b - 2) as nat) as int;
        lemma_pow2_unfold((n - b - 1) as nat);
        lemma_pow2_pos((n - b - 2) as nat);
        assert((2 * v + last) / 2 == v);
        bits_number_bounds(rest);
        vstd::arithmetic::div_mod::lemma_div_denominator(2 * v + last, 2, p);
        assert(rest[b] == bits[b]);
    }
}

/// What the evaluator answers to the commitments of the garbler: which instances are
/// finalized, which of them gives the labels, and what signatures are made with.
pub struct Challenge<CTH, A> {
    pub finalized: Vec<FinalizeChallenge<CTH>>,
    pub adaptor_sigs: Vec<A>,
    pub assert_index: usize,
}

/// What the garbler sends while it sets up.
pub enum SetupBroadcast<GH: GateHasher, LH: LabelCommitHasher, SIG> {
    Commit(VsssCommit<GH, LH>),
    OpenInstances(Vec<OpenVsssInstance>, Vec<(usize, Vec<GarbledWideLabelTable>)>),
    Assert(Vec<SIG>),
}

/// What the evaluator sends while it sets up.
pub enum SetupResponse<CTH, A> {
    FinalizeChallenge(Challenge<CTH, A>),
}

/// The label of each byte of `W` bits for the value of its bits.
pub fn signed_labels<const W: usize>(wide_labels: &[Scalar], wire_values: &[bool]) -> (r: Vec<
    Scalar,
>)
    requires
        0 < W,
        pow2(W as nat) <= usize::MAX,
        has_labels_for_bits(wide_labels@, wire_values@, W as nat),
        values_fit_bytes(wide_labels@, wire_values@, W as nat),
    ensures
        r@ == labels_for_bits(wide_labels@, wire_values@, W as nat),
{
    proof {
        lemma_pow2_pos(W as nat);
    }
    let size: usize = power_of_two(W);
    let ghost (a, b) = (pieces(wide_labels@, size as int), pieces(wire_values@, W as int));
    proof {
        pieces_end(wide_labels@, size as int);
        pieces_end(wire_values@, W as int);
    }
    let total: usize = wire_values.len();
    let mut r: Vec<Scalar> = Vec::new();
    let mut start: usize = 0;
    let mut first: usize = 0;
    while start < wide_labels.len() && first < total
        invariant
            0 < W,
            total == wire_values@.len(),
            size == pow2(W as nat),
            0 < size,
            has_labels_for_bits(wide_labels@, wire_values@, W as nat),
            values_fit_bytes(wide_labels@, wire_values@, W as nat),
            a == pieces(wide_labels@, size as int),
            b == pieces(wire_values@, W as int),
            size * (a - 1) < wide_labels@.len() <= size * a || a == 0 && wide_labels@.len()
                == 0,
            W * (b - 1) < wire_values@.len() <= W * b || b == 0 && wire_values@.len() == 0,
            start <= wide_labels@.len(),
            first <= wire_values@.len(),
            r@.len() <= a,
            r@.len() <= b,
            start == size * r@.len() || start == wide_labels@.len() && r@.len() == a,
            first == W * r@.len() || first == wire_values@.len() && r@.len() == b,
            forall|k: int|
                0 <= k < r@.len() ==> #[trigger] r@[k] == labels_for_bits(
                    wide_labels@,
                    wire_values@,
                    W as nat,
                )[k],
        decreases wide_labels@.len() - start,
    {
        let ghost k = r@.len() as int;
        let len: usize = if wide_labels.len() - start < size {
            wide_labels.len() - start
        } else {
            size
        };
        let count: usize = if total - first < W {
            total - first
        } else {
            W
        };
        proof {
            piece_bounds(wide_labels@, size as int, k, start as int, len as int);
            piece_bounds(wire_values@, W as int, k, first as int, count as int);
        }
        let ghost bits = piece(wire_values@, W as int, k);
        let mut index: usize = 0;
        let mut i: usize = 0;
        assert(bits.take(0) =~= Seq::<bool>::empty());
        assert(bits_number(bits) < 256);
        while i < count
            invariant
                i <= count,
                bits_number(bits) < 256,
                total == wire_values@.len(),
                first + count <= wire_values@.len(),
                bits.len() == count,
                forall|j: int| 0 <= j < count ==> #[trigger] bits[j] == wire_values@[first + j],
                index == bits_number(bits.take(i as int)),
                index < 256,
            decreases count - i,
        {
            proof {
                assert(bits.take(i + 1).drop_last() =~= bits.take(i as int));
                assert(bits.take(i + 1).last() == bits[i as int]);
                prefix_is_no_larger(bits, i + 1);
            }
            index = 2 * index + if wire_values[first + i] {
                1
            } else {
                0
            };
            i = i + 1;
        }
        proof {
            assert(bits.take(count as int) =~= bits);
            assert(bits_number(bits) < piece(wide_labels@, size as int, k).len());
        }
        r.push(wide_labels[start + index]);
        start = start + len;
        first = first + count;
    }
    proof {
        ended(wide_labels@, size as int, a, r@.len() as int, start as int);
        ended(wire_values@, W as int, b, r@.len() as int, first as int);
    }
    assert(r@ =~= labels_for_bits(wide_labels@, wire_values@, W as nat));
    r
}

impl<CTH, A> Challenge<CTH, A> {
    /// A signature for the label of each byte of `W` bits for the value of its bits;
    /// nothing if one cannot be made. `sign` makes a signature that gives away the
    /// label.
    pub fn compute_signatures<const W: usize, SIG, F: Fn(&A, &Scalar) -> Option<SIG>>(
        &self,
        wide_labels: &[Scalar],
        wire_values: &[bool],
        sign: F,
    ) -> (r: Option<Vec<SIG>>)
        requires
            0 < W,
            pow2(W as nat) <= usize::MAX,
            has_labels_for_bits(wide_labels@, wire_values@, W as nat),
            values_fit_bytes(wide_labels@, wire_values@, W as nat),
            labels_for_bits(wide_labels@, wire_values@, W as nat).len()
                == self.adaptor_sigs@.len(),
            forall|a: &A, s: &Scalar| #[trigger] sign.requires((a, s)),
        ensures
            match r {
                Some(v) => {
                    &&& v@.len() == self.adaptor_sigs@.len()
                    &&& forall|i: int|
                        0 <= i < v@.len() ==> sign.ensures(
                            (
                                &self.adaptor_sigs@[i],
                                &labels_for_bits(wide_labels@, wire_values@, W as nat)[i],
                            ),
                            Some(#[trigger] v@[i]),
                        )
                },
                None => exists|i: int|
                    0 <= i < self.adaptor_sigs@.len() && sign.ensures(
                        (
                            #[trigger] &self.adaptor_sigs@[i],
                            &labels_for_bits(wide_labels@, wire_values@, W as nat)[i],
                        ),
                        None,
                    ),
            },
    {
        let labels = signed_labels::<W>(wide_labels, wire_values);
        let mut r: Vec<SIG> = Vec::new();
        let mut i: usize = 0;
        while i < labels.len()
            invariant
                i <= labels@.len(),
                labels@.len() == self.adaptor_sigs@.len(),
                labels@ == labels_for_bits(wide_labels@, wire_values@, W as nat),
                forall|a: &A, s: &Scalar| #[trigger] sign.requires((a, s)),
                r@.len() == i,
                forall|k: int|
                    0 <= k < i ==> sign.ensures(
                        (&self.adaptor_sigs@[k], &labels@[k]),
                        Some(#[trigger] r@[k]),
                    ),
            decreases labels@.len() - i,
        {
            match sign(&self.adaptor_sigs[i], &labels[i]) {
                Some(sig) => {
                    r.push(sig);
                },
                None => {
                    assert(sign.ensures(
                        (&self.adaptor_sigs@[i as int], &labels@[i as int]),
                        None,
                    ));
                    return None;
                },
            }
            i = i + 1;
        }
        Some(r)
    }
}

/// What the evaluator keeps to read labels off signatures: the instance whose labels
/// are signed, a secret, and what signatures are made with.
pub struct EvaluatorAdaptorSigs<A> {
    pub assert_index: usize,
    pub secret: Scalar,
    pub adaptor_sigs: Vec<A>,
}

/// Whether what signatures are made with was made from the secret, commitments and a
/// message.
pub open spec fn made_for<A, F: Fn(&Scalar, &Vec<Point>, &Vec<u8>) -> A>(
    adaptor: F,
    secret: Scalar,
    commits: Seq<Point>,
    message: Vec<u8>,
    a: A,
) -> bool {
    exists|c: Vec<Point>| c@ == commits && #[trigger] adaptor.ensures((&secret, &c, &message), a)
}

impl<A> EvaluatorAdaptorSigs<A> {
    /// For each byte of `W` bits what its signature is made with, from the secret, the
    /// commitments to its labels and the message to be signed. The instance whose
    /// labels are signed is the drawn one of the finalized ones.
    pub fn new<const W: usize, F: Fn(&Scalar, &Vec<Point>, &Vec<u8>) -> A>(
        draw: usize,
        secret: Scalar,
        finalized_indices: &[usize],
        garbler_commits: &[ShareCommits],
        sighashes: &[Vec<u8>],
        adaptor: F,
    ) -> (r: Self)
        requires
            draw < finalized_indices@.len(),
            pow2(W as nat) <= usize::MAX,
            forall|p: int|
                0 <= p < garbler_commits@.len() ==> finalized_indices@[draw as int] < (
                #[trigger] garbler_commits@[p]).0@.len(),
            pieces(garbler_commits@, pow2(W as nat) as int) == sighashes@.len(),
            forall|s: &Scalar, c: &Vec<Point>, m: &Vec<u8>| #[trigger] adaptor.requires((s, c, m)),
        ensures
            r.assert_index == finalized_indices@[draw as int],
            r.secret == secret,
            r.adaptor_sigs@.len() == sighashes@.len(),
            forall|k: int|
                0 <= k < r.adaptor_sigs@.len() ==> made_for(
                    adaptor,
                    secret,
                    commits_of_instance(
                        garbler_commits@,
                        r.assert_index as int,
                        pow2(W as nat) as int,
                    )[k],
                    sighashes@[k],
                    #[trigger] r.adaptor_sigs@[k],
                ),
    {
        let assert_index: usize = finalized_indices[draw];
        let commits = commits_for_assert::<W>(garbler_commits, assert_index);
        let ghost want = commits_of_instance(
            garbler_commits@,
            assert_index as int,
            pow2(W as nat) as int,
        );
        assert(commits@.len() == crate::soldering_data::rows(commits@).len());
        let mut adaptor_sigs: Vec<A> = Vec::new();
        let mut k: usize = 0;
        proof {
            lemma_pow2_pos(W as nat);
            pieces_end(garbler_commits@, pow2(W as nat) as int);
        }
        while k < commits.len()
            invariant
                k <= commits@.len(),
                commits@.len() == sighashes@.len(),
                crate::soldering_data::rows(commits@) == want,
                forall|s: &Scalar, c: &Vec<Point>, m: &Vec<u8>| #[trigger]
                    adaptor.requires((s, c, m)),
                adaptor_sigs@.len() == k,
                forall|i: int|
                    0 <= i < k ==> made_for(
                        adaptor,
                        secret,
                        want[i],
                        sighashes@[i],
                        #[trigger] adaptor_sigs@[i],
                    ),
            decreases commits@.len() - k,
        {
            let a = adaptor(&secret, &commits[k], &sighashes[k]);
            proof {
                assert(crate::soldering_data::rows(commits@)[k as int] == commits@[k as int]@);
                assert(adaptor.ensures(
                    (&secret, &commits@[k as int], &sighashes@[k as int]),
                    a,
                ));
                assert(made_for(adaptor, secret, want[k as int], sighashes@[k as int], a));
            }
            adaptor_sigs.push(a);
            k = k + 1;
        }
        EvaluatorAdaptorSigs { assert_index, secret, adaptor_sigs }
    }

    /// The labels that signatures give away; nothing if one gives none.
    pub fn extract_wide_labels<SIG, F: Fn(&A, &SIG) -> Option<Scalar>>(
        &self,
        signatures: &[SIG],
        extract: F,
    ) -> (r: Option<Vec<Scalar>>)
        requires
            signatures@.len() == self.adaptor_sigs@.len(),
            forall|a: &A, s: &SIG| #[trigger] extract.requires((a, s)),
        ensures
            match r {
                Some(v) => {
                    &&& v@.len() == signatures@.len()
                    &&& forall|i: int|
                        0 <= i < v@.len() ==> extract.ensures(
                            (&self.adaptor_sigs@[i], &signatures@[i]),
                            Some(#[trigger] v@[i]),
                        )
                },
                None => exists|i: int|
                    0 <= i < signatures@.len() && extract.ensures(
                        (#[trigger] &self.adaptor_sigs@[i], &signatures@[i]),
                        None,
                    ),
            },
    {
        let mut r: Vec<Scalar> = Vec::new();
        let mut i: usize = 0;
        while i < signatures.len()
            invariant
                i <= signatures@.len(),
                signatures@.len() == self.adaptor_sigs@.len(),
                forall|a: &A, s: &SIG| #[trigger] extract.requires((a, s)),
                r@.len() == i,
                forall|k: int|
                    0 <= k < i ==> extract.ensures(
                        (&self.adaptor_sigs@[k], &signatures@[k]),
                        Some(#[trigger] r@[k]),
                    ),
            decreases signatures@.len() - i,
        {
            match extract(&self.adaptor_sigs[i], &signatures[i]) {
                Some(label) => {
                    r.push(label);
                },
                None => {
                    assert(extract.ensures(
                        (&self.adaptor_sigs@[i as int], &signatures@[i as int]),
                        None,
                    ));
                    return None;
                },
            }
            i = i + 1;
        }
        Some(r)
    }
}

/// Where a piece lies.
proof fn piece_bounds<T>(s: Seq<T>, size: int, k: int, start: int, len: int)
    requires
        size > 0,
        k >= 0,
        start < s.len(),
        start == size * k || start == s.len() && k == pieces(s, size),
        len == if s.len() - start < size {
            s.len() - start
        } else {
            size
        },
    ensures
        k < pieces(s, size),
        piece(s, size, k).len() == len,
        forall|j: int| 0 <= j < len ==> #[trigger] piece(s, size, k)[j] == s[start + j],
        size * (k + 1) == start + size,
        len < size ==> k + 1 == pieces(s, size),
{
    pieces_end(s, size);
    let q = pieces(s, size);
    assert(size * (k + 1) == size * k + size) by (nonlinear_arith);
    if k >= q {
        assert(size * k >= size * q) by (nonlinear_arith)
            requires
                k >= q,
                size > 0,
        ;
    }
    if len < size && k + 1 < q {
        assert(size * (q - 1) >= size * (k + 1)) by (nonlinear_arith)
            requires
                q - 1 >= k + 1,
                size > 0,
        ;
    }
}

proof fn ended<T>(s: Seq<T>, size: int, q: int, k: int, start: int)
    requires
        size > 0,
        q == pieces(s, size),
        0 <= k <= q,
        start <= s.len(),
        start == size * k || start == s.len() && k == q,
    ensures
        start >= s.len() ==> k == q,
{
    pieces_end(s, size);
    if k < q && start >= s.len() {
        assert(size * k <= size * (q - 1)) by (nonlinear_arith)
            requires
                k <= q - 1,
                size > 0,
        ;
    }
}

/// For each byte of `W` bits the commitments to its labels in instance `index`.
pub open spec fn commits_of_instance(share_commits: Seq<ShareCommits>, index: int, size: int) -> Seq<
    Seq<Point>,
> {
    Seq::new(
        pieces(share_commits, size) as nat,
        |k: int|
            Seq::new(
                piece(share_commits, size, k).len(),
                |j: int| piece(share_commits, size, k)[j].0@[index],
            ),
    )
}

/// For each byte of `W` bits the commitments to its labels in the instance that gives
/// the labels.
pub fn commits_for_assert<const W: usize>(share_commits: &[ShareCommits], assert_index: usize) -> (r:
    Vec<Vec<Point>>)
    requires
        pow2(W as nat) <= usize::MAX,
        forall|p: int|
            0 <= p < share_commits@.len() ==> assert_index < (#[trigger] share_commits@[p]).0@.len(),
    ensures
        crate::soldering_data::rows(r@) == commits_of_instance(
            share_commits@,
            assert_index as int,
            pow2(W as nat) as int,
        ),
{
    proof {
        lemma_pow2_pos(W as nat);
    }
    let size: usize = power_of_two(W);
    let ghost q = pieces(share_commits@, size as int);
    let ghost want = commits_of_instance(share_commits@, assert_index as int, size as int);
    proof {
        pieces_end(share_commits@, size as int);
    }
    let total: usize = share_commits.len();
    let mut r: Vec<Vec<Point>> = Vec::new();
    let mut start: usize = 0;
    while start < total
        invariant
            size > 0,
            total == share_commits@.len(),
            q == pieces(share_commits@, size as int),
            q >= 0,
            want == commits_of_instance(share_commits@, assert_index as int, size as int),
            start <= share_commits@.len(),
            r@.len() <= q,
            start == size * r@.len() || start == share_commits@.len() && r@.len() == q,
            forall|p: int|
                0 <= p < share_commits@.len() ==> assert_index < (
                #[trigger] share_commits@[p]).0@.len(),
            forall|k: int| 0 <= k < r@.len() ==> (#[trigger] r@[k])@ == want[k],
        decreases share_commits@.len() - start,
    {
        let ghost k = r@.len() as int;
        let len: usize = if total - start < size {
            total - start
        } else {
            size
        };
        proof {
            piece_bounds(share_commits@, size as int, k, start as int, len as int);
        }
        let mut points: Vec<Point> = Vec::new();
        let mut j: usize = 0;
        while j < len
            invariant
                j <= len,
                total == share_commits@.len(),
                start + len <= share_commits@.len(),
                forall|p: int|
                    0 <= p < share_commits@.len() ==> assert_index < (
                    #[trigger] share_commits@[p]).0@.len(),
                points@.len() == j,
                forall|i: int|
                    0 <= i < j ==> #[trigger] points@[i] == share_commits@[start
                        + i].0@[assert_index as int],
            decreases len - j,
        {
            assert(assert_index < share_commits@[start + j].0@.len());
            points.push(share_commits[start + j].0[assert_index]);
            j = j + 1;
        }
        proof {
            assert(points@ =~= want[k]) by {
                assert forall|i: int| 0 <= i < len implies points@[i] == want[k][i] by {
                    assert(piece(share_commits@, size as int, k)[i] == share_commits@[start + i]);
                }
            }
        }
        r.push(points);
        start = start + len;
    }
    proof {
        ended(share_commits@, size as int, q, r@.len() as int, start as int);
        assert(crate::soldering_data::rows(r@) =~= want);
    }
    r
}

/// The values of input wires, as a backend that evaluates holds them.
pub fn encode_input<GH: GateHasher>(input: &[EvaluatedWire], seed: GH::Seed) -> (r: Vec<bool>)
    requires
        input@.len() + 2 < usize::MAX,
    ensures
        r@ == Seq::new(input@.len(), |i: int| input@[i].value),
{
    let mut mode = EvaluateMode::<GH, DummySource>::new(
        GH::from_seed(seed),
        0,
        S::zero(),
        S::zero(),
        DummySource,
    );
    let n: usize = input.len();
    let mut i: usize = 0;
    assert(mode.storage@.entries.dom() =~= Set::new(|k: int| 0 <= k < 0));
    while i < n
        invariant
            i <= n,
            n == input@.len(),
            n + 2 < usize::MAX,
            mode.wf(),
            mode.storage@.vacant.len() == 0,
            mode.storage@.entries.dom() == vstd::set_lib::set_int_range(0, i as int),
            forall|k: int| 0 <= k < i ==> #[trigger] mode.storage@.entries[k] == (1u16, None::<EvaluatedWire>),
        decreases n - i,
    {
        proof {
            vstd::set_lib::lemma_int_range(0, i as int);
        }
        let ghost before = mode.storage@;
        let wire = mode.allocate_wire(1);
        proof {
            assert(before.next_place() == i);
            assert(mode.storage@ == before.after_allocate(None, 1));
            assert(mode.storage@.entries.dom() =~= vstd::set_lib::set_int_range(0, i + 1));
        }
        i = i + 1;
    }
    let mut j: usize = 0;
    while j < n
        invariant
            j <= n,
            n == input@.len(),
            n + 2 < usize::MAX,
            mode.wf(),
            mode.storage@.vacant.len() == 0,
            mode.storage@.entries.dom() == vstd::set_lib::set_int_range(0, n as int),
            forall|k: int|
                0 <= k < n ==> #[trigger] mode.storage@.entries[k] == (
                    1u16,
                    if k < j {
                        Some(input@[k])
                    } else {
                        None
                    },
                ),
        decreases n - j,
    {
        let ghost before = mode.storage@;
        assert(before.holds(j as int));
        mode.feed_wire(WireId(j + 2), input[j]);
        proof {
            assert(mode.storage@ == before.after_set(j as int, Some(input@[j as int])));
            assert(mode.storage@.entries.dom() =~= before.entries.dom());
        }
        j = j + 1;
    }
    let mut r: Vec<bool> = Vec::new();
    let ghost mut held = mode.storage@;
    let mut k: usize = 0;
    while k < n
        invariant
            k <= n,
            n == input@.len(),
            n + 2 < usize::MAX,
            mode.wf(),
            held == mode.storage@,
            forall|m: int| k <= m < n ==> #[trigger] held.entries.dom().contains(m),
            forall|m: int|
                k <= m < n ==> #[trigger] held.entries[m] == (1u16, Some(input@[m])),
            r@.len() == k,
            forall|m: int| 0 <= m < k ==> #[trigger] r@[m] == input@[m].value,
        decreases n - k,
    {
        proof {
            assert(held.entries.dom().contains(k as int));
            assert(held.entries[k as int] == (1u16, Some(input@[k as int])));
        }
        let value = match mode.lookup_wire(WireId(k + 2)) {
            Some(wire) => wire.value,
            None => false,
        };
        r.push(value);
        proof {
            let after = held.after_get(k as int);
            assert(mode.storage@ == after);
            assert(after.entries == held.entries.remove(k as int));
            held = after;
        }
        k = k + 1;
    }
    assert(r@ =~= Seq::new(input@.len(), |i: int| input@[i].value));
    r
}

/// The number that bits write: the bits in front count for the power of two of the number
/// of bits behind them, so the first bit is the highest.
pub proof fn bits_in_front_count_more(front: Seq<bool>, rest: Seq<bool>)
    ensures
        bits_number(front + rest) == bits_number(front) * pow2(rest.len()) + bits_number(rest),
    decreases rest.len(),
{
    if rest.len() == 0 {
        lemma2_to64();
        assert(front + rest =~= front);
    } else {
        let less = rest.drop_last();
        bits_in_front_count_more(front, less);
        lemma_pow2_unfold(rest.len());
        assert((front + rest).drop_last() =~= front + less);
        assert(2 * (bits_number(front) * pow2(less.len())) == bits_number(front) * pow2(rest.len()))
            by (nonlinear_arith)
            requires
                pow2(rest.len()) == 2 * pow2(less.len()),
        ;
    }
}

/// The labels that are signed for bits: for each byte of `w` bits the label whose place
/// among the byte's labels is the number that the byte's bits write.
pub proof fn signed_labels_stand_for_bytes(
    wide_labels: Seq<Scalar>,
    bits: Seq<bool>,
    w: nat,
    k: int,
)
    requires
        0 < w,
        0 <= k < pieces(wide_labels, pow2(w) as int),
        k < pieces(bits, w as int),
        bits_number(piece(bits, w as int, k)) < piece(wide_labels, pow2(w) as int, k).len(),
    ensures
        k < labels_for_bits(wide_labels, bits, w).len(),
        labels_for_bits(wide_labels, bits, w)[k] == wide_labels[pow2(w) * k + bits_number(
            piece(bits, w as int, k),
        )],
{
    lemma_pow2_pos(w);
    bits_number_bounds(piece(bits, w as int, k));
    pieces_are_consecutive(
        wide_labels,
        pow2(w) as int,
        k,
        bits_number(piece(bits, w as int, k)),
    );
}

/// The commitments to an instance's labels of a byte are those to its share of each of the
/// byte's polynomials, in order.
pub proof fn commits_are_of_one_instance(
    share_commits: Seq<ShareCommits>,
    index: int,
    size: int,
    k: int,
    j: int,
)
    requires
        0 < size,
        0 <= k < pieces(share_commits, size),
        0 <= j < piece(share_commits, size, k).len(),
    ensures
        commits_of_instance(share_commits, index, size).len() == pieces(share_commits, size),
        commits_of_instance(share_commits, index, size)[k].len() == piece(
            share_commits,
            size,
            k,
        ).len(),
        commits_of_instance(share_commits, index, size)[k][j] == share_commits[size * k + j].0@[
            index],
{
    pieces_are_consecutive(share_commits, size, k, j);
}

} // verus!
