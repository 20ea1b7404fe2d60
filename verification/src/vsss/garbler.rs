//! The garbler of cut-and-choose with shared labels of bytes.

use crate::cut_and_choose::commit::{
    instance_of, Config, GarbledInstance, LabelCommitHasher, Seed, StreamingResult,
};
use crate::cut_and_choose::evaluator::EvaluatorCaseInput;
use crate::cut_and_choose::garbler::{
    copy_wires, input_of, openings, phase_ones, select_input, GarblerStage, OpenForInstance,
};
use crate::gate::GarbledWire;
use crate::hashers::GateHasher;
use crate::modes::evaluate::EvaluatedWire;
use crate::primitives::chacha_stream;
use crate::soldering_data::rows;
use crate::vsss::commits::{are_share_commits, PolynomialCommits, ShareCommits};
use crate::vsss::field::Scalar;
use crate::vsss::interpolation::{are_shares, Polynomial};
use crate::vsss::points::{are_commitments, Secp256k1};
use crate::vsss::protocol::{
    FinalizeChallenge, FinalizedVsssInstance, OpenVsssInstance, VsssCommit,
};
use crate::vsss::types::{columns, transpose};
use crate::vsss::wide_garbling::{
    all_rows, has_all_labels, labels_match, piece, pieces, rows_of, table_count, tables_hash,
    tables_of, GarbledWideLabelTable,
};
use vstd::arithmetic::power2::{lemma2_to64, lemma_pow2_pos, pow2};
use vstd::prelude::*;

verus! {

/// The tables of one instance.
pub type InstanceWideLabelLookup = Vec<GarbledWideLabelTable>;

/// How many labels of bytes there are for inputs of `n` bits: one for each value of
/// each eight bits, and of the bits that are left.
pub open spec fn wide_labels(n: int) -> int {
    256 * (n / 8) + if n % 8 == 0 {
        0
    } else {
        pow2((n % 8) as nat) as int
    }
}

/// How many labels of bytes there are for inputs of `n` bits.
pub fn wide_label_count(n: usize) -> (r: usize)
    requires
        wide_labels(n as int) <= usize::MAX,
    ensures
        r == wide_labels(n as int),
{
    proof {
        lemma2_to64();
    }
    let whole: usize = n / 8;
    let left: usize = n % 8;
    let rest: usize = match left {
        0 => 0,
        1 => 2,
        2 => 4,
        3 => 8,
        4 => 16,
        5 => 32,
        6 => 64,
        _ => 128,
    };
    256 * whole + rest
}

/// How many values a polynomial is given by: one for each opened instance and one more.
pub open spec fn polynomial_size(total: int, finalized_count: int) -> int {
    total - finalized_count + 1
}

/// Whether there is a polynomial for each label of a byte of inputs of `num_inputs` bits,
/// and each takes the next random scalars.
pub open spec fn are_drawn(
    polynomials: Seq<Polynomial<Scalar>>,
    draws: Seq<Scalar>,
    num_inputs: int,
    total: int,
    finalized_count: int,
) -> bool {
    let size = polynomial_size(total, finalized_count);
    &&& polynomials.len() == wide_labels(num_inputs)
    &&& draws.len() == wide_labels(num_inputs) * size
    &&& forall|p: int|
        0 <= p < polynomials.len() ==> (#[trigger] polynomials[p]).0@ == draws.subrange(
            p * size,
            p * size + size,
        )
}

/// The polynomials whose shares are the labels of bytes, from random scalars: one for
/// each label of a byte of inputs of `num_inputs` bits, given by its values at the first
/// points.
pub fn polynomials_of(
    draws: &[Scalar],
    num_inputs: usize,
    total: usize,
    finalized_count: usize,
) -> (r: Vec<Polynomial<Scalar>>)
    requires
        finalized_count <= total,
        total - finalized_count < usize::MAX,
        wide_labels(num_inputs as int) <= usize::MAX,
        draws@.len() == wide_labels(num_inputs as int) * polynomial_size(
            total as int,
            finalized_count as int,
        ),
    ensures
        are_drawn(r@, draws@, num_inputs as int, total as int, finalized_count as int),
{
    let count: usize = wide_label_count(num_inputs);
    let size: usize = total - finalized_count + 1;
    let n: usize = draws.len();
    let mut r: Vec<Polynomial<Scalar>> = Vec::new();
    let mut at: usize = 0;
    let mut p: usize = 0;
    while p < count
        invariant
            p <= count,
            n == draws@.len(),
            n == count * size,
            at == p * size,
            r@.len() == p,
            forall|k: int|
                0 <= k < p ==> (#[trigger] r@[k]).0@ == draws@.subrange(k * size, k * size + size),
        decreases count - p,
    {
        assert(p * size + size <= count * size) by (nonlinear_arith)
            requires
                p + 1 <= count,
        ;
        let ghost first = at as int;
        let mut values: Vec<Scalar> = Vec::new();
        let mut i: usize = 0;
        while i < size
            invariant
                i <= size,
                0 <= first,
                first + size <= n,
                n == draws@.len(),
                at == first + i,
                values@ == draws@.subrange(first, first + i),
            decreases size - i,
        {
            values.push(draws[at]);
            at = at + 1;
            i = i + 1;
            assert(values@ =~= draws@.subrange(first, first + i));
        }
        assert((p + 1) * size == p * size + size) by (nonlinear_arith);
        r.push(Polynomial(values));
        p = p + 1;
    }
    r
}

/// What the garbler holds for the sharing of labels.
pub struct VSSSContext {
    pub polynomials: Vec<Polynomial<Scalar>>,
    /// For each instance its share of every polynomial.
    pub wide_label_shares: Vec<Vec<Scalar>>,
    /// For each instance its tables.
    pub wide_tables: Vec<InstanceWideLabelLookup>,
    /// For each instance the hash over its tables.
    pub wide_table_commits: Vec<[u8; 32]>,
}

/// The shares of polynomial `p`, one for each instance.
pub open spec fn shares_of_polynomial(shares: Seq<Seq<Scalar>>, p: int) -> Seq<(usize, Scalar)> {
    Seq::new(shares.len(), |i: int| (i as usize, shares[i][p]))
}

/// Whether each instance has its share of every polynomial.
pub open spec fn are_all_shares(polynomials: Seq<Polynomial<Scalar>>, shares: Seq<Seq<Scalar>>) -> bool {
    &&& forall|i: int| 0 <= i < shares.len() ==> (#[trigger] shares[i]).len() == polynomials.len()
    &&& forall|p: int|
        0 <= p < polynomials.len() ==> are_shares(
            (#[trigger] polynomials[p]).0@,
            shares_of_polynomial(shares, p),
        )
}

/// Whether each instance has the tables for its shares and input labels.
pub open spec fn are_all_tables(
    shares: Seq<Seq<Scalar>>,
    inputs: Seq<Seq<GarbledWire>>,
    tables: Seq<InstanceWideLabelLookup>,
    commits: Seq<[u8; 32]>,
) -> bool {
    &&& tables.len() == inputs.len()
    &&& commits.len() == inputs.len()
    &&& forall|i: int|
        0 <= i < tables.len() ==> all_rows((#[trigger] tables[i])@) == tables_of(
            shares[i],
            inputs[i],
        )
    &&& forall|i: int|
        0 <= i < tables.len() ==> (#[trigger] commits[i])@ == tables_hash(all_rows(tables[i]@))
}

/// A copy of scalars.
pub fn copy_scalars(v: &Vec<Scalar>) -> (r: Vec<Scalar>)
    ensures
        r@ == v@,
{
    let mut r: Vec<Scalar> = Vec::new();
    let mut i: usize = 0;
    while i < v.len()
        invariant
            i <= v@.len(),
            r@ == v@.take(i as int),
        decreases v@.len() - i,
    {
        r.push(v[i]);
        assert(v@.take(i + 1) =~= v@.take(i as int).push(v@[i as int]));
        i = i + 1;
    }
    assert(v@.take(v@.len() as int) =~= v@);
    r
}

fn copy_bytes(v: &Vec<u8>) -> (r: Vec<u8>)
    ensures
        r@ == v@,
{
    let mut r: Vec<u8> = Vec::new();
    crate::s::push_bytes(&mut r, v.as_slice());
    assert(r@ =~= v@);
    r
}

/// A copy of the tables of an instance.
pub fn copy_tables(v: &InstanceWideLabelLookup) -> (r: InstanceWideLabelLookup)
    ensures
        all_rows(r@) == all_rows(v@),
{
    let mut r: InstanceWideLabelLookup = Vec::new();
    let mut i: usize = 0;
    while i < v.len()
        invariant
            i <= v@.len(),
            r@.len() == i,
            forall|k: int| 0 <= k < i ==> rows_of(#[trigger] r@[k]) == rows_of(v@[k]),
        decreases v@.len() - i,
    {
        let source = &v[i].0;
        let mut table: Vec<Vec<u8>> = Vec::new();
        let mut j: usize = 0;
        while j < source.len()
            invariant
                j <= source@.len(),
                table@.len() == j,
                forall|k: int| 0 <= k < j ==> (#[trigger] table@[k])@ == source@[k]@,
            decreases source@.len() - j,
        {
            table.push(copy_bytes(&source[j]));
            j = j + 1;
        }
        let copy = GarbledWideLabelTable(table);
        assert(rows_of(copy) =~= rows_of(v@[i as int]));
        r.push(copy);
        i = i + 1;
    }
    assert(all_rows(r@) =~= all_rows(v@));
    r
}

/// Inputs have a label.
proof fn some_wide_label(n: int)
    requires
        n > 0,
    ensures
        wide_labels(n) > 0,
{
    lemma_pow2_pos((n % 8) as nat);
}

/// Each drawn polynomial has the same number of values.
pub proof fn drawn_sizes(
    polynomials: Seq<Polynomial<Scalar>>,
    draws: Seq<Scalar>,
    num_inputs: int,
    total: int,
    finalized_count: int,
)
    requires
        are_drawn(polynomials, draws, num_inputs, total, finalized_count),
        finalized_count <= total,
    ensures
        forall|p: int|
            0 <= p < polynomials.len() ==> (#[trigger] polynomials[p]).0@.len()
                == polynomial_size(total, finalized_count),
{
    let size = polynomial_size(total, finalized_count);
    let count = wide_labels(num_inputs);
    assert forall|p: int| 0 <= p < polynomials.len() implies (#[trigger] polynomials[p]).0@.len()
        == size by {
        assert(0 <= p * size && p * size + size <= count * size) by (nonlinear_arith)
            requires
                0 <= p,
                p + 1 <= count,
                size >= 0,
        ;
    }
}

impl VSSSContext {
    /// The sharing of random polynomials among `total` instances, for inputs of
    /// `num_inputs` bits. The shares of the instances that are opened and of one more
    /// determine a polynomial.
    pub fn new(
        draws: &[Scalar],
        num_inputs: usize,
        total: usize,
        finalized_count: usize,
    ) -> (r: Self)
        requires
            num_inputs > 0,
            1 <= finalized_count <= total,
            wide_labels(num_inputs as int) <= usize::MAX,
            draws@.len() == wide_labels(num_inputs as int) * polynomial_size(
                total as int,
                finalized_count as int,
            ),
        ensures
            are_drawn(
                r.polynomials@,
                draws@,
                num_inputs as int,
                total as int,
                finalized_count as int,
            ),
            r.wide_label_shares@.len() == total,
            are_all_shares(r.polynomials@, rows(r.wide_label_shares@)),
            r.wide_tables@.len() == 0,
            r.wide_table_commits@.len() == 0,
    {
        let polynomials = polynomials_of(draws, num_inputs, total, finalized_count);
        proof {
            some_wide_label(num_inputs as int);
            drawn_sizes(
                polynomials@,
                draws@,
                num_inputs as int,
                total as int,
                finalized_count as int,
            );
        }
        VSSSContext::of_polynomials(polynomials, total)
    }

    /// The sharing of polynomials among `total` instances.
    pub fn of_polynomials(polynomials: Vec<Polynomial<Scalar>>, total: usize) -> (r: Self)
        requires
            polynomials@.len() > 0,
            total > 0,
            forall|p: int|
                0 <= p < polynomials@.len() ==> (#[trigger] polynomials@[p]).0@.len() <= total,
        ensures
            r.polynomials == polynomials,
            r.wide_label_shares@.len() == total,
            are_all_shares(polynomials@, rows(r.wide_label_shares@)),
            r.wide_tables@.len() == 0,
            r.wide_table_commits@.len() == 0,
    {
        let mut coeffs: Vec<Vec<Scalar>> = Vec::new();
        let mut p: usize = 0;
        while p < polynomials.len()
            invariant
                p <= polynomials@.len(),
                total > 0,
                forall|p: int|
                    0 <= p < polynomials@.len() ==> (#[trigger] polynomials@[p]).0@.len() <= total,
                coeffs@.len() == p,
                forall|k: int|
                    0 <= k < p ==> (#[trigger] coeffs@[k])@.len() == total && are_shares(
                        polynomials@[k].0@,
                        Seq::new(total as nat, |i: int| (i as usize, coeffs@[k]@[i])),
                    ),
            decreases polynomials@.len() - p,
        {
            assert(polynomials@[p as int].0@.len() <= total);
            let shares = polynomials[p].shares(total);
            let mut values: Vec<Scalar> = Vec::new();
            let mut i: usize = 0;
            while i < total
                invariant
                    i <= total,
                    shares@.len() == total,
                    values@.len() == i,
                    forall|k: int| 0 <= k < i ==> #[trigger] values@[k] == shares@[k].1,
                decreases total - i,
            {
                values.push(shares[i].1);
                i = i + 1;
            }
            assert forall|k: int| 0 <= k < total implies #[trigger] shares@[k] == (
                k as usize,
                values@[k],
            ) by {}
            assert(Seq::new(total as nat, |i: int| (i as usize, values@[i])) =~= shares@);
            coeffs.push(values);
            p = p + 1;
        }
        let wide_label_shares = transpose(coeffs.as_slice());
        proof {
            let m = rows(coeffs@);
            let t = columns(m);
            assert(rows(wide_label_shares@) == t);
            assert(wide_label_shares@.len() == t.len());
            assert forall|p: int| 0 <= p < polynomials@.len() implies are_shares(
                (#[trigger] polynomials@[p]).0@,
                shares_of_polynomial(t, p),
            ) by {
                assert(coeffs@[p]@.len() == total);
                assert(shares_of_polynomial(t, p) =~= Seq::new(
                    total as nat,
                    |i: int| (i as usize, coeffs@[p]@[i]),
                ));
            }
        }
        VSSSContext {
            polynomials,
            wide_label_shares,
            wide_tables: Vec::new(),
            wide_table_commits: Vec::new(),
        }
    }

    /// The commitments to the shares of every polynomial.
    pub fn share_commits(&self) -> (r: Vec<ShareCommits>)
        requires
            self.wide_label_shares@.len() > 0,
            forall|p: int|
                0 <= p < self.polynomials@.len() ==> (#[trigger] self.polynomials@[p]).0@.len()
                    <= self.wide_label_shares@.len(),
        ensures
            r@.len() == self.polynomials@.len(),
            forall|p: int|
                0 <= p < r@.len() ==> (#[trigger] r@[p]).0@.len() == self.wide_label_shares@.len()
                    && are_share_commits(self.polynomials@[p].0@, r@[p].0@),
    {
        let secp = Secp256k1::new();
        let mut r: Vec<ShareCommits> = Vec::new();
        let mut p: usize = 0;
        while p < self.polynomials.len()
            invariant
                p <= self.polynomials@.len(),
                self.wide_label_shares@.len() > 0,
                forall|p: int|
                    0 <= p < self.polynomials@.len() ==> (#[trigger] self.polynomials@[p]).0@.len()
                        <= self.wide_label_shares@.len(),
                r@.len() == p,
                forall|k: int|
                    0 <= k < p ==> (#[trigger] r@[k]).0@.len() == self.wide_label_shares@.len()
                        && are_share_commits(self.polynomials@[k].0@, r@[k].0@),
            decreases self.polynomials@.len() - p,
        {
            assert(self.polynomials@[p as int].0@.len() <= self.wide_label_shares@.len());
            r.push(self.polynomials[p].share_commits(&secp, self.wide_label_shares.len()));
            p = p + 1;
        }
        r
    }

    /// The commitments to every polynomial.
    pub fn polynomial_commits(&self) -> (r: Vec<PolynomialCommits>)
        ensures
            r@.len() == self.polynomials@.len(),
            forall|p: int|
                0 <= p < r@.len() ==> are_commitments(
                    self.polynomials@[p].0@,
                    (#[trigger] r@[p]).0.0@,
                ),
    {
        let secp = Secp256k1::new();
        let mut r: Vec<PolynomialCommits> = Vec::new();
        let mut p: usize = 0;
        while p < self.polynomials.len()
            invariant
                p <= self.polynomials@.len(),
                r@.len() == p,
                forall|k: int|
                    0 <= k < p ==> are_commitments(
                        self.polynomials@[k].0@,
                        (#[trigger] r@[k]).0.0@,
                    ),
            decreases self.polynomials@.len() - p,
        {
            r.push(self.polynomials[p].coefficient_commits(&secp));
            p = p + 1;
        }
        r
    }

    /// The shares of an instance.
    pub fn shares_for_instance(&self, idx: usize) -> (r: &[Scalar])
        requires
            idx < self.wide_label_shares@.len(),
        ensures
            r@ == self.wide_label_shares@[idx as int]@,
    {
        self.wide_label_shares[idx].as_slice()
    }

    /// The shares of an instance, as a list of their own.
    pub fn shares_for_instance_fr(&self, idx: usize) -> (r: Vec<Scalar>)
        requires
            idx < self.wide_label_shares@.len(),
        ensures
            r@ == self.wide_label_shares@[idx as int]@,
    {
        copy_scalars(&self.wide_label_shares[idx])
    }

    /// Makes the tables of all instances from their input labels.
    pub fn attach_input_labels(&mut self, all_input_labels: &[Vec<GarbledWire>])
        requires
            all_input_labels@.len() == old(self).wide_label_shares@.len(),
            forall|i: int|
                0 <= i < all_input_labels@.len() ==> labels_match(
                    old(self).wide_label_shares@[i]@,
                    (#[trigger] all_input_labels@[i])@,
                ),
        ensures
            final(self).polynomials == old(self).polynomials,
            final(self).wide_label_shares == old(self).wide_label_shares,
            are_all_tables(
                rows(old(self).wide_label_shares@),
                rows(all_input_labels@),
                final(self).wide_tables@,
                final(self).wide_table_commits@,
            ),
    {
        let ghost shares = rows(self.wide_label_shares@);
        let ghost inputs = rows(all_input_labels@);
        let mut tables: Vec<InstanceWideLabelLookup> = Vec::new();
        let mut commits: Vec<[u8; 32]> = Vec::new();
        let mut i: usize = 0;
        while i < all_input_labels.len()
            invariant
                i <= all_input_labels@.len(),
                all_input_labels@.len() == self.wide_label_shares@.len(),
                shares == rows(self.wide_label_shares@),
                inputs == rows(all_input_labels@),
                *self == *old(self),
                forall|i: int|
                    0 <= i < all_input_labels@.len() ==> labels_match(
                        self.wide_label_shares@[i]@,
                        (#[trigger] all_input_labels@[i])@,
                    ),
                tables@.len() == i,
                commits@.len() == i,
                forall|k: int|
                    0 <= k < i ==> all_rows((#[trigger] tables@[k])@) == tables_of(
                        shares[k],
                        inputs[k],
                    ),
                forall|k: int|
                    0 <= k < i ==> (#[trigger] commits@[k])@ == tables_hash(all_rows(tables@[k]@)),
            decreases all_input_labels@.len() - i,
        {
            assert(labels_match(
                self.wide_label_shares@[i as int]@,
                all_input_labels@[i as int]@,
            ));
            let built = GarbledWideLabelTable::build_all(
                self.wide_label_shares[i].as_slice(),
                all_input_labels[i].as_slice(),
            );
            commits.push(GarbledWideLabelTable::aggregate_hash(built.as_slice()));
            tables.push(built);
            i = i + 1;
        }
        self.wide_tables = tables;
        self.wide_table_commits = commits;
    }

    pub fn wide_table_commits(&self) -> (r: &[[u8; 32]])
        ensures
            r@ == self.wide_table_commits@,
    {
        self.wide_table_commits.as_slice()
    }

    /// The tables of an instance.
    pub fn wide_table_for(&self, idx: usize) -> (r: &InstanceWideLabelLookup)
        requires
            idx < self.wide_tables@.len(),
        ensures
            *r == self.wide_tables@[idx as int],
    {
        &self.wide_tables[idx]
    }
}

/// The contents of an opened instance.
pub struct OpenView {
    pub index: usize,
    pub seed: Seed,
    pub shares: Seq<Scalar>,
}

/// The contents of a finalized instance.
pub struct FinalizedView<CTH> {
    pub index: usize,
    pub tables: Seq<Seq<Seq<u8>>>,
    pub seed: Seed,
    pub handler: CTH,
}

/// The contents of opened instances.
pub open spec fn open_views(v: Seq<OpenVsssInstance>) -> Seq<OpenView> {
    Seq::new(
        v.len(),
        |i: int| OpenView { index: v[i].index, seed: v[i].seed, shares: v[i].shares@ },
    )
}

/// The contents of finalized instances.
pub open spec fn finalized_views<CTH>(v: Seq<FinalizedVsssInstance<CTH>>) -> Seq<
    FinalizedView<CTH>,
> {
    Seq::new(
        v.len(),
        |i: int|
            FinalizedView {
                index: v[i].index,
                tables: all_rows(v[i].wide_label_lookup@),
                seed: v[i].seed,
                handler: v[i].ciphertext_handler,
            },
    )
}

/// What is revealed of the opened ones among instances: their shares.
pub open spec fn opened<CTH>(list: Seq<OpenForInstance<CTH>>, shares: Seq<Seq<Scalar>>) -> Seq<
    OpenView,
>
    decreases list.len(),
{
    if list.len() == 0 {
        seq![]
    } else {
        let before = opened(list.drop_last(), shares);
        match list.last() {
            OpenForInstance::Open(index, seed) => before.push(
                OpenView { index, seed, shares: shares[index as int] },
            ),
            OpenForInstance::Closed { .. } => before,
        }
    }
}

/// What is handed out for the finalized ones among instances: their tables.
pub open spec fn closed<CTH>(
    list: Seq<OpenForInstance<CTH>>,
    tables: Seq<InstanceWideLabelLookup>,
) -> Seq<FinalizedView<CTH>>
    decreases list.len(),
{
    if list.len() == 0 {
        seq![]
    } else {
        let before = closed(list.drop_last(), tables);
        match list.last() {
            OpenForInstance::Open(..) => before,
            OpenForInstance::Closed { index, seed, handler } => before.push(
                FinalizedView { index, tables: all_rows(tables[index as int]@), seed, handler },
            ),
        }
    }
}

/// Every opening is of the instance at its place.
proof fn openings_are_in_order<CTH>(seeds: Seq<Seed>, list: Seq<(usize, CTH)>, n: nat)
    requires
        n <= seeds.len() <= usize::MAX,
    ensures
        openings(seeds, list, n).0.len() == n,
        forall|i: int|
            0 <= i < n ==> match #[trigger] openings(seeds, list, n).0[i] {
                OpenForInstance::Open(index, _) => index == i,
                OpenForInstance::Closed { index, .. } => index == i,
            },
    decreases n,
{
    if n > 0 {
        openings_are_in_order(seeds, list, (n - 1) as nat);
    }
}

/// If there are as many labels of bytes as the bits have values, the labels match.
pub proof fn sizes_match(byte_labels: Seq<Scalar>, wires: Seq<GarbledWire>)
    requires
        byte_labels.len() == wide_labels(wires.len() as int),
    ensures
        labels_match(byte_labels, wires),
        table_count(byte_labels, wires) == pieces(wires, 8),
{
    lemma2_to64();
    let n = wires.len() as int;
    let (q, r) = (n / 8, n % 8);
    assert(0 < pow2(r as nat) < 256) by {
        vstd::arithmetic::power2::lemma_pow2_pos(r as nat);
        vstd::arithmetic::power2::lemma_pow2_strictly_increases(r as nat, 8);
    }
    assert forall|k: int| 0 <= k < table_count(byte_labels, wires) implies has_all_labels(
        piece(byte_labels, 256, k),
        #[trigger] piece(wires, 8, k),
    ) by {
        if k < q {
            assert(piece(wires, 8, k).len() == 8);
            assert(piece(byte_labels, 256, k).len() == 256);
        } else {
            assert(piece(wires, 8, k).len() == r);
            assert(piece(byte_labels, 256, k).len() == pow2(r as nat));
        }
    }
}

/// The garbler of all instances, with shared labels of bytes.
pub struct Garbler<I, GH: GateHasher> {
    pub base: crate::cut_and_choose::garbler::Garbler<I, GH>,
    pub vsss: VSSSContext,
}

impl<I, GH: GateHasher> Garbler<I, GH> {
    /// Whether there are shares and tables for every instance.
    pub open spec fn wf(&self) -> bool {
        let n = self.base.instances@.len();
        &&& n > 0
        &&& self.base.stage matches GarblerStage::Generating { seeds } ==> seeds@.len() == n
        &&& self.vsss.wide_label_shares@.len() == n
        &&& self.vsss.wide_tables@.len() == n
        &&& self.vsss.wide_table_commits@.len() == n
        &&& forall|p: int|
            0 <= p < self.vsss.polynomials@.len() ==> (
            #[trigger] self.vsss.polynomials@[p]).0@.len() <= n
    }

    /// A garbler whose instances with inputs of `num_inputs` bits were garbled from
    /// `seeds`, and whose labels of bytes are the shares of polynomials from random
    /// scalars.
    pub fn create(
        seeds: Vec<Seed>,
        results: Vec<StreamingResult>,
        config: Config<I>,
        live_capacity: usize,
        num_inputs: usize,
        draws: &[Scalar],
    ) -> (r: Self)
        requires
            seeds@.len() == config.total,
            results@.len() == config.total,
            num_inputs > 0,
            1 <= config.finalized_count <= config.total,
            wide_labels(num_inputs as int) <= usize::MAX,
            draws@.len() == wide_labels(num_inputs as int) * polynomial_size(
                config.total as int,
                config.finalized_count as int,
            ),
            forall|i: int|
                0 <= i < results@.len() ==> (#[trigger] results@[i]).input_wire_values@.len()
                    == num_inputs,
        ensures
            r.wf(),
            r.base.stage matches GarblerStage::Generating { seeds: s } && s@ == seeds@,
            r.base.instances@.len() == results@.len(),
            forall|i: int|
                0 <= i < results@.len() ==> instance_of(
                    results@[i],
                    GH::drawn_seed(chacha_stream(seeds@[i], 0)),
                    #[trigger] r.base.instances@[i],
                ),
            r.base.config == config,
            r.base.live_capacity == live_capacity,
            are_drawn(
                r.vsss.polynomials@,
                draws@,
                num_inputs as int,
                config.total as int,
                config.finalized_count as int,
            ),
            are_all_shares(r.vsss.polynomials@, rows(r.vsss.wide_label_shares@)),
            are_all_tables(
                rows(r.vsss.wide_label_shares@),
                instance_inputs(r.base.instances@),
                r.vsss.wide_tables@,
                r.vsss.wide_table_commits@,
            ),
    {
        let total: usize = config.total;
        let mut vsss = VSSSContext::new(draws, num_inputs, total, config.finalized_count);
        let ghost polynomials = vsss.polynomials@;
        proof {
            drawn_sizes(
                polynomials,
                draws@,
                num_inputs as int,
                total as int,
                config.finalized_count as int,
            );
        }
        let base = crate::cut_and_choose::garbler::Garbler::<I, GH>::create(
            seeds,
            results,
            config,
            live_capacity,
        );
        let mut inputs: Vec<Vec<GarbledWire>> = Vec::new();
        let mut i: usize = 0;
        while i < base.instances.len()
            invariant
                i <= base.instances@.len(),
                inputs@.len() == i,
                forall|k: int|
                    0 <= k < i ==> (#[trigger] inputs@[k])@
                        == base.instances@[k].input_wire_values@,
            decreases base.instances@.len() - i,
        {
            inputs.push(copy_wires(&base.instances[i].input_wire_values));
            i = i + 1;
        }
        proof {
            assert forall|i: int| 0 <= i < inputs@.len() implies labels_match(
                vsss.wide_label_shares@[i]@,
                (#[trigger] inputs@[i])@,
            ) by {
                assert(rows(vsss.wide_label_shares@)[i].len() == polynomials.len());
                assert(instance_of(
                    results@[i],
                    GH::drawn_seed(chacha_stream(seeds@[i], 0)),
                    base.instances@[i],
                ));
                assert(results@[i].input_wire_values@.len() == num_inputs);
                sizes_match(vsss.wide_label_shares@[i]@, inputs@[i]@);
            }
        }
        vsss.attach_input_labels(inputs.as_slice());
        proof {
            assert(rows(inputs@) =~= instance_inputs(base.instances@));
        }
        Garbler { base, vsss }
    }

    /// The commitments to all instances, shares, polynomials and tables.
    pub fn commit<LH: LabelCommitHasher>(&self) -> (r: VsssCommit<GH, LH>)
        requires
            self.wf(),
        ensures
            phase_ones(self.base.instances@, r.circuit_commits@),
            r.share_commits@.len() == self.vsss.polynomials@.len(),
            r.polynomial_commits@.len() == self.vsss.polynomials@.len(),
            forall|p: int|
                0 <= p < r.share_commits@.len() ==> (#[trigger] r.share_commits@[p]).0@.len()
                    == self.base.instances@.len() && are_share_commits(
                    self.vsss.polynomials@[p].0@,
                    r.share_commits@[p].0@,
                ),
            forall|p: int|
                0 <= p < r.polynomial_commits@.len() ==> are_commitments(
                    self.vsss.polynomials@[p].0@,
                    (#[trigger] r.polynomial_commits@[p]).0.0@,
                ),
            r.garbling_table_commits@ == self.vsss.wide_table_commits@,
    {
        let circuit_commits = self.base.commit_phase_one::<LH>();
        let share_commits = self.vsss.share_commits();
        let polynomial_commits = self.vsss.polynomial_commits();
        let mut garbling_table_commits: Vec<[u8; 32]> = Vec::new();
        let hashes = self.vsss.wide_table_commits();
        let mut i: usize = 0;
        while i < hashes.len()
            invariant
                i <= hashes@.len(),
                garbling_table_commits@ == hashes@.take(i as int),
            decreases hashes@.len() - i,
        {
            garbling_table_commits.push(hashes[i]);
            assert(hashes@.take(i + 1) =~= hashes@.take(i as int).push(hashes@[i as int]));
            i = i + 1;
        }
        assert(hashes@.take(hashes@.len() as int) =~= hashes@);
        VsssCommit { circuit_commits, share_commits, polynomial_commits, garbling_table_commits }
    }

    /// Chooses the finalized instances, and reveals the seeds and shares of the
    /// others. A finalized instance gives its tables.
    pub fn open_commit<CTH>(&mut self, indexes_to_finalize: Vec<FinalizeChallenge<CTH>>) -> (r: (
        Vec<OpenVsssInstance>,
        Vec<FinalizedVsssInstance<CTH>>,
    ))
        requires
            old(self).wf(),
            old(self).base.stage is Generating,
        ensures
            ({
                let seeds = old(self).base.stage->seeds@;
                let list = openings(seeds, challenges(indexes_to_finalize@), seeds.len()).0;
                &&& open_views(r.0@) == opened(list, rows(old(self).vsss.wide_label_shares@))
                &&& finalized_views(r.1@) == closed(list, old(self).vsss.wide_tables@)
                &&& final(self).base.stage matches GarblerStage::PreparedForEval {
                    finalized_indexes,
                } && finalized_indexes@ == Seq::new(
                    indexes_to_finalize@.len(),
                    |i: int| indexes_to_finalize@[i].index,
                )
                &&& final(self).base == (crate::cut_and_choose::garbler::Garbler {
                    stage: final(self).base.stage,
                    ..old(self).base
                })
                &&& final(self).vsss == old(self).vsss
            }),
    {
        let list = to_pairs(indexes_to_finalize);
        let count: usize = self.base.instances.len();
        let ghost seeds = self.base.stage->seeds@;
        let ghost pairs = challenges(indexes_to_finalize@);
        let chosen = self.base.open_commit(list);
        proof {
            assert(seeds.len() == count);
            openings_are_in_order(seeds, pairs, seeds.len());
            assert(Seq::new(pairs.len(), |i: int| pairs[i].0) =~= Seq::new(
                indexes_to_finalize@.len(),
                |i: int| indexes_to_finalize@[i].index,
            ));
        }
        let ghost all = chosen@;
        let ghost shares = rows(self.vsss.wide_label_shares@);
        let ghost tables = self.vsss.wide_tables@;
        let mut left = reversed(chosen);
        let mut opened_data: Vec<OpenVsssInstance> = Vec::new();
        let mut finalized_data: Vec<FinalizedVsssInstance<CTH>> = Vec::new();
        let n: usize = left.len();
        let mut i: usize = 0;
        proof {
            assert(all.take(0) =~= Seq::<OpenForInstance<CTH>>::empty());
            assert(open_views(opened_data@) =~= opened(all.take(0), shares));
            assert(finalized_views(finalized_data@) =~= closed(all.take(0), tables));
            assert(left@ =~= all.skip(0).reverse());
        }
        while i < n
            invariant
                i <= n,
                n == all.len(),
                left@ == all.skip(i as int).reverse(),
                self.vsss == old(self).vsss,
                shares == rows(self.vsss.wide_label_shares@),
                tables == self.vsss.wide_tables@,
                shares.len() == n,
                tables.len() == n,
                forall|k: int|
                    0 <= k < n ==> match #[trigger] all[k] {
                        OpenForInstance::Open(index, _) => index == k,
                        OpenForInstance::Closed { index, .. } => index == k,
                    },
                open_views(opened_data@) == opened(all.take(i as int), shares),
                finalized_views(finalized_data@) == closed(all.take(i as int), tables),
            decreases n - i,
        {
            let ghost (o, f) = (opened_data@, finalized_data@);
            proof {
                assert(left@.last() == all[i as int]);
                assert(all.take(i + 1).drop_last() =~= all.take(i as int));
                assert(all.take(i + 1).last() == all[i as int]);
            }
            match left.pop() {
                Some(OpenForInstance::Open(index, seed)) => {
                    let ghost before = opened_data@;
                    let shares_copy = self.vsss.shares_for_instance_fr(index);
                    opened_data.push(OpenVsssInstance { index, seed, shares: shares_copy });
                    proof {
                        assert(open_views(opened_data@) =~= open_views(before).push(
                            OpenView { index, seed, shares: shares[index as int] },
                        ));
                    }
                },
                Some(OpenForInstance::Closed { index, seed, handler }) => {
                    let ghost before = finalized_data@;
                    let wide_label_lookup = copy_tables(self.vsss.wide_table_for(index));
                    finalized_data.push(
                        FinalizedVsssInstance {
                            index,
                            wide_label_lookup,
                            seed,
                            ciphertext_handler: handler,
                        },
                    );
                    proof {
                        assert(finalized_views(finalized_data@) =~= finalized_views(before).push(
                            FinalizedView {
                                index,
                                tables: all_rows(tables[index as int]@),
                                seed,
                                handler,
                            },
                        ));
                    }
                },
                None => (),
            }
            assert(left@ =~= all.skip(i + 1).reverse());
            i = i + 1;
        }
        assert(all.take(n as int) =~= all);
        (opened_data, finalized_data)
    }

    pub fn config(&self) -> (r: &Config<I>)
        ensures
            *r == self.base.config,
    {
        self.base.config()
    }

    /// The input labels of an instance.
    pub fn input_labels_for(&self, index: usize) -> (r: Vec<GarbledWire>)
        requires
            index < self.base.instances@.len(),
        ensures
            r@ == self.base.instances@[index as int].input_wire_values@,
    {
        self.base.input_labels_for(index)
    }

    /// The input wires of an instance for the bits of the statement and its proof.
    pub fn prepare_input_labels(&self, bits: &[bool], index: usize) -> (r: EvaluatorCaseInput<
        Vec<EvaluatedWire>,
    >)
        requires
            index < self.base.instances@.len(),
            bits@.len() <= self.base.instances@[index as int].input_wire_values@.len(),
        ensures
            r.index == index,
            r.input@ == input_of(self.base.instances@[index as int].input_wire_values@, bits@),
    {
        let labels = self.base.input_labels_for(index);
        EvaluatorCaseInput { index, input: select_input(&labels, bits) }
    }

    /// The labels of the bytes of an instance.
    pub fn wide_labels_for(&self, index: usize) -> (r: Vec<Scalar>)
        requires
            index < self.vsss.wide_label_shares@.len(),
        ensures
            r@ == self.vsss.wide_label_shares@[index as int]@,
    {
        self.vsss.shares_for_instance_fr(index)
    }
}

/// The input labels of instances.
pub open spec fn instance_inputs<GH: GateHasher>(instances: Seq<GarbledInstance<GH>>) -> Seq<
    Seq<GarbledWire>,
> {
    Seq::new(instances.len(), |i: int| instances[i].input_wire_values@)
}

/// Challenges as pairs.
pub open spec fn challenges<CTH>(v: Seq<FinalizeChallenge<CTH>>) -> Seq<(usize, CTH)> {
    Seq::new(v.len(), |i: int| (v[i].index, v[i].ciphertext_handler))
}

fn reversed<T>(v: Vec<T>) -> (r: Vec<T>)
    ensures
        r@ == v@.reverse(),
{
    let ghost all = v@;
    let mut left = v;
    let mut r: Vec<T> = Vec::new();
    let n: usize = left.len();
    let mut i: usize = 0;
    assert(all.take(n as int) =~= all);
    while i < n
        invariant
            i <= n,
            n == all.len(),
            left@ == all.take(n - i),
            r@ == all.reverse().take(i as int),
        decreases n - i,
    {
        match left.pop() {
            Some(x) => {
                assert(x == all.reverse()[i as int]);
                r.push(x);
            },
            None => (),
        }
        assert(r@ =~= all.reverse().take(i + 1));
        assert(left@ =~= all.take(n - i - 1));
        i = i + 1;
    }
    assert(r@ =~= all.reverse());
    r
}

fn to_pairs<CTH>(v: Vec<FinalizeChallenge<CTH>>) -> (r: Vec<(usize, CTH)>)
    ensures
        r@ == challenges(v@),
{
    let ghost all = v@;
    let mut left = reversed(v);
    let n: usize = left.len();
    let mut r: Vec<(usize, CTH)> = Vec::new();
    let mut i: usize = 0;
    assert(left@ =~= all.skip(0).reverse());
    while i < n
        invariant
            i <= n,
            n == all.len(),
            left@ == all.skip(i as int).reverse(),
            r@ == challenges(all).take(i as int),
        decreases n - i,
    {
        assert(left@.last() == all[i as int]);
        match left.pop() {
            Some(c) => {
                r.push((c.index, c.ciphertext_handler));
            },
            None => (),
        }
        assert(r@ =~= challenges(all).take(i + 1));
        assert(left@ =~= all.skip(i + 1).reverse());
        i = i + 1;
    }
    assert(r@ =~= challenges(all));
    r
}

/// What is handed out of the instances: every opened one with its number, its seed and
/// its shares, every closed one with its number, its seed, its handler and its tables,
/// and nothing else.
pub proof fn instances_are_handed_out<CTH>(
    list: Seq<OpenForInstance<CTH>>,
    shares: Seq<Seq<Scalar>>,
    tables: Seq<InstanceWideLabelLookup>,
    k: int,
)
    requires
        0 <= k < list.len(),
    ensures
        opened(list, shares).len() + closed(list, tables).len() == list.len(),
        match list[k] {
            OpenForInstance::Open(index, seed) => opened(list, shares).contains(
                OpenView { index, seed, shares: shares[index as int] },
            ),
            OpenForInstance::Closed { index, seed, handler } => closed(list, tables).contains(
                FinalizedView { index, tables: all_rows(tables[index as int]@), seed, handler },
            ),
        },
    decreases list.len(),
{
    let before = list.drop_last();
    let (a, b) = (opened(before, shares), closed(before, tables));
    let (c, d) = (opened(list, shares), closed(list, tables));
    if before.len() > 0 {
        instances_are_handed_out(before, shares, tables, if k < before.len() {
            k
        } else {
            0
        });
    } else {
        assert(a.len() == 0 && b.len() == 0);
    }
    if k < before.len() {
        match list[k] {
            OpenForInstance::Open(index, seed) => {
                let view = OpenView { index, seed, shares: shares[index as int] };
                let i = choose|i: int| 0 <= i < a.len() && a[i] == view;
                assert(c[i] == view);
            },
            OpenForInstance::Closed { index, seed, handler } => {
                let view = FinalizedView {
                    index,
                    tables: all_rows(tables[index as int]@),
                    seed,
                    handler,
                };
                let i = choose|i: int| 0 <= i < b.len() && b[i] == view;
                assert(d[i] == view);
            },
        }
    } else {
        match list[k] {
            OpenForInstance::Open(index, seed) => {
                assert(c[a.len() as int] == c.last());
            },
            OpenForInstance::Closed { .. } => {
                assert(d[b.len() as int] == d.last());
            },
        }
    }
}

/// How many labels of bytes an input has: eight bits more have 256 more, and fewer than
/// eight bits have two for one bit and twice as many for each bit more.
pub proof fn wide_labels_grow(n: nat)
    ensures
        wide_labels(0) == 0,
        wide_labels(1) == 2,
        wide_labels(n as int + 8) == wide_labels(n as int) + 256,
        0 < n < 8 ==> wide_labels(n as int + 1) == 2 * wide_labels(n as int),
{
    vstd::arithmetic::power2::lemma2_to64();
    if 0 < n < 8 {
        vstd::arithmetic::power2::lemma_pow2_unfold((n + 1) as nat);
    }
}

/// A polynomial is given by one value more than instances are opened: the opened
/// instances' shares leave it open, and one finalized instance's share more settles it.
pub proof fn one_share_more_than_opened(total: int, finalized_count: int)
    ensures
        polynomial_size(total, finalized_count) == (total - finalized_count) + 1,
{
}

/// Polynomials that are drawn use all draws in order: value `i` of polynomial `p` is the
/// draw after those of the polynomials before it and its own first `i`.
pub proof fn polynomials_use_draws_in_order(
    polynomials: Seq<Polynomial<Scalar>>,
    draws: Seq<Scalar>,
    num_inputs: int,
    total: int,
    finalized_count: int,
    p: int,
    i: int,
)
    requires
        are_drawn(polynomials, draws, num_inputs, total, finalized_count),
        0 <= p < polynomials.len(),
        0 <= i <= total - finalized_count,
    ensures
        polynomials.len() == wide_labels(num_inputs),
        polynomials[p].0@.len() == total - finalized_count + 1,
        polynomials[p].0@[i] == draws[p * (total - finalized_count + 1) + i],
        draws.len() == polynomials.len() * (total - finalized_count + 1),
{
    let size = total - finalized_count + 1;
    assert(0 <= p * size && p * size + size <= polynomials.len() * size) by (nonlinear_arith)
        requires
            0 <= p < polynomials.len(),
            size > 0,
    ;
    assert(polynomials[p].0@ == draws.subrange(p * size, p * size + size));
}

} // verus!
