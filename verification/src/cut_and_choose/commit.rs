//! Commitments to wire labels and to garbled instances.

use crate::bytes::same_bytes;
use crate::gate::{selected, GarbledWire};
use crate::hashers::GateHasher;
use crate::modes::multigarble::{array_of, array_of_has_elements};
use crate::primitives::{chacha_draw, chacha_stream, sha256, sha256_digest};
use crate::s::{be_bytes, xor, S};
use vstd::prelude::*;

verus! {

/// The seed from which an instance is garbled.
pub type Seed = u64;

/// The hash of an instance's ciphertexts.
pub type CiphertextCommit = [u8; 32];

/// A commitment to a label.
pub type Commit = [u8; 32];

/// A way to commit to labels.
pub trait LabelCommitHasher: Sized {
    type Output: Copy;

    /// The commitment to `label`.
    spec fn commitment(label: S) -> Self::Output;

    fn hash_label(label: S) -> (r: Self::Output)
        ensures
            r == Self::commitment(label),
    ;

    /// Whether two commitments are equal.
    fn same_commit(a: &Self::Output, b: &Self::Output) -> (r: bool)
        ensures
            r == (*a == *b),
    ;

    /// The bytes of a commitment.
    spec fn commit_bytes(c: Self::Output) -> Seq<u8>;

    fn bytes_of(c: &Self::Output) -> (r: Vec<u8>)
        ensures
            r@ == Self::commit_bytes(*c),
    ;
}

/// Commits to a label by the SHA-256 digest of its bytes, the most significant
/// first.
#[derive(Clone, Copy, Debug, PartialEq, Eq, Structural)]
pub struct Sha256LabelCommitHasher;

/// The hasher that is used where none is named.
pub type DefaultLabelCommitHasher = Sha256LabelCommitHasher;

/// The array of 32 bytes with the elements of `s`.
pub open spec fn array_32(s: Seq<u8>) -> [u8; 32] {
    choose|a: [u8; 32]| a@ == s
}

/// An array of 32 bytes is the array of its elements.
pub proof fn array_32_of_elements(a: [u8; 32])
    ensures
        array_32(a@) == a,
{
    let b = array_32(a@);
    assert(a@ == a@);
    assert(b@ == a@);
    assert(b =~= a);
}

/// The SHA-256 commitment to a label.
pub open spec fn sha256_commitment(label: S) -> [u8; 32] {
    array_32(sha256_digest(be_bytes(label.0)))
}

impl LabelCommitHasher for Sha256LabelCommitHasher {
    type Output = [u8; 32];

    open spec fn commitment(label: S) -> [u8; 32] {
        sha256_commitment(label)
    }

    fn hash_label(label: S) -> (r: [u8; 32])
        ensures
            r@ == sha256_digest(be_bytes(label.0)),
    {
        let r = sha256(label.to_bytes().as_slice());
        proof {
            array_32_of_elements(r);
        }
        r
    }

    fn same_commit(a: &[u8; 32], b: &[u8; 32]) -> (r: bool) {
        same_bytes(a, b)
    }

    open spec fn commit_bytes(c: [u8; 32]) -> Seq<u8> {
        c@
    }

    fn bytes_of(c: &[u8; 32]) -> (r: Vec<u8>) {
        let mut out: Vec<u8> = Vec::new();
        crate::s::push_bytes(&mut out, c.as_slice());
        assert(out@ =~= c@);
        out
    }
}

/// Commits to a label.
pub fn commit_label_with<H: LabelCommitHasher>(label: S) -> (r: H::Output)
    ensures
        r == H::commitment(label),
{
    H::hash_label(label)
}

/// Commits to a label with the default hasher.
pub fn commit_label(label: S) -> (r: Commit)
    ensures
        r@ == sha256_digest(be_bytes(label.0)),
{
    let r = sha256(label.to_bytes().as_slice());
    r
}

/// The commitments to the two labels of a wire.
#[derive(Debug, PartialEq, Eq)]
pub struct LabelCommit<H: Copy> {
    pub commit_false: H,
    pub commit_true: H,
}

impl<H: Copy> Clone for LabelCommit<H> {
    fn clone(&self) -> (r: Self)
        ensures
            r == *self,
    {
        *self
    }
}

impl<H: Copy> Copy for LabelCommit<H> {

}

/// A label with a nonce XORed into it, if there is one.
pub open spec fn blended(label: S, nonce: Option<S>) -> S {
    match nonce {
        Some(n) => xor(label, n),
        None => label,
    }
}

/// The commitments to both labels of a wire, each blended with the nonce.
pub open spec fn label_commit<H: LabelCommitHasher>(
    label_false: S,
    label_true: S,
    nonce: Option<S>,
) -> LabelCommit<H::Output> {
    LabelCommit {
        commit_false: H::commitment(blended(label_false, nonce)),
        commit_true: H::commitment(blended(label_true, nonce)),
    }
}

/// The commitment for a value.
pub open spec fn commit_of_value<H: Copy>(c: LabelCommit<H>, bit: bool) -> H {
    if bit {
        c.commit_true
    } else {
        c.commit_false
    }
}

impl<H: Copy> LabelCommit<H> {
    /// Commits to both labels, blended with a nonce if there is one.
    pub fn new<Hasher: LabelCommitHasher<Output = H>>(
        label_false: S,
        label_true: S,
        nonce: &Option<S>,
    ) -> (r: LabelCommit<H>)
        ensures
            r == label_commit::<Hasher>(label_false, label_true, *nonce),
    {
        match nonce {
            Some(n) => LabelCommit {
                commit_false: commit_label_with::<Hasher>(S::xor(label_false, *n)),
                commit_true: commit_label_with::<Hasher>(S::xor(label_true, *n)),
            },
            None => LabelCommit {
                commit_false: commit_label_with::<Hasher>(label_false),
                commit_true: commit_label_with::<Hasher>(label_true),
            },
        }
    }

    pub fn commit_for_value(&self, bit: bool) -> (r: H)
        ensures
            r == commit_of_value(*self, bit),
    {
        if bit {
            self.commit_true
        } else {
            self.commit_false
        }
    }
}

/// Whether two label commitments are equal.
pub fn same_label_commit<H: LabelCommitHasher>(
    a: &LabelCommit<H::Output>,
    b: &LabelCommit<H::Output>,
) -> (r: bool)
    ensures
        r == (*a == *b),
{
    H::same_commit(&a.commit_false, &b.commit_false) && H::same_commit(
        &a.commit_true,
        &b.commit_true,
    )
}

/// Whether two lists of label commitments are equal.
pub fn same_label_commits<H: LabelCommitHasher>(
    a: &Vec<LabelCommit<H::Output>>,
    b: &Vec<LabelCommit<H::Output>>,
) -> (r: bool)
    ensures
        r == (a@ == b@),
{
    if a.len() != b.len() {
        return false;
    }
    let mut i: usize = 0;
    while i < a.len()
        invariant
            i <= a@.len(),
            a@.len() == b@.len(),
            forall|k: int| 0 <= k < i ==> a@[k] == b@[k],
        decreases a@.len() - i,
    {
        if !same_label_commit::<H>(&a[i], &b[i]) {
            assert(a@[i as int] != b@[i as int]);
            return false;
        }
        i = i + 1;
    }
    assert(a@ =~= b@);
    true
}

/// The commitments to the labels of the input wires.
pub open spec fn input_commits<H: LabelCommitHasher>(inputs: Seq<GarbledWire>, nonce: Option<S>) -> Seq<
    LabelCommit<H::Output>,
> {
    Seq::new(inputs.len(), |i: int| label_commit::<H>(inputs[i].label0, inputs[i].label1, nonce))
}

/// Commits to the true label of an output.
pub fn commit_output_true<H: LabelCommitHasher>(wire: &GarbledWire) -> (r: H::Output)
    ensures
        r == H::commitment(wire.label1),
{
    commit_label_with::<H>(wire.label1)
}

/// Commits to the false label of an output.
pub fn commit_output_false<H: LabelCommitHasher>(wire: &GarbledWire) -> (r: H::Output)
    ensures
        r == H::commitment(wire.label0),
{
    commit_label_with::<H>(wire.label0)
}

/// Commits to the labels of the input wires, blended with a nonce if there is one.
pub fn commit_input_wires<H: LabelCommitHasher>(inputs: &[GarbledWire], nonce: Option<S>) -> (r:
    Vec<LabelCommit<H::Output>>)
    ensures
        r@ == input_commits::<H>(inputs@, nonce),
{
    let mut r: Vec<LabelCommit<H::Output>> = Vec::new();
    let mut i: usize = 0;
    while i < inputs.len()
        invariant
            i <= inputs@.len(),
            r@.len() == i,
            forall|k: int|
                0 <= k < i ==> #[trigger] r@[k] == label_commit::<H>(
                    inputs@[k].label0,
                    inputs@[k].label1,
                    nonce,
                ),
        decreases inputs@.len() - i,
    {
        r.push(LabelCommit::<H::Output>::new::<H>(inputs[i].label0, inputs[i].label1, &nonce));
        i = i + 1;
    }
    assert(r@ =~= input_commits::<H>(inputs@, nonce));
    r
}

/// How many instances there are and how many are finalized, with the circuit's
/// input.
#[derive(Debug, PartialEq, Eq)]
pub struct Config<I> {
    pub total: usize,
    pub finalized_count: usize,
    pub input: I,
}

impl<I> Config<I> {
    pub fn new(total: usize, finalized_count: usize, input: I) -> (r: Config<I>)
        ensures
            r == (Config { total, finalized_count, input }),
    {
        Config { total, finalized_count, input }
    }

    /// The number of instances.
    pub fn total(&self) -> (r: usize)
        ensures
            r == self.total,
    {
        self.total
    }

    /// The number of instances that stay closed.
    pub fn finalized_count(&self) -> (r: usize)
        ensures
            r == self.finalized_count,
    {
        self.finalized_count
    }

    pub fn input(&self) -> (r: &I)
        ensures
            *r == self.input,
    {
        &self.input
    }
}

/// What garbling a circuit in a stream gives.
pub struct StreamingResult {
    pub false_wire_constant: GarbledWire,
    pub true_wire_constant: GarbledWire,
    pub output_value: GarbledWire,
    pub input_wire_values: Vec<GarbledWire>,
    pub ciphertext_handler_result: CiphertextCommit,
}

/// A garbled instance.
pub struct GarbledInstance<GH: GateHasher> {
    pub false_wire_constant: GarbledWire,
    pub true_wire_constant: GarbledWire,
    pub output_wire_values: GarbledWire,
    pub input_wire_values: Vec<GarbledWire>,
    pub ciphertext_handler_result: CiphertextCommit,
    pub gate_hasher_seed: GH::Seed,
}

/// Whether `instance` holds what `res` gave and the seed of its gate hasher.
pub open spec fn instance_of<GH: GateHasher>(
    res: StreamingResult,
    gate_hasher_seed: GH::Seed,
    instance: GarbledInstance<GH>,
) -> bool {
    &&& instance.false_wire_constant == res.false_wire_constant
    &&& instance.true_wire_constant == res.true_wire_constant
    &&& instance.output_wire_values == res.output_value
    &&& instance.input_wire_values@ == res.input_wire_values@
    &&& instance.ciphertext_handler_result == res.ciphertext_handler_result
    &&& instance.gate_hasher_seed == gate_hasher_seed
}

impl<GH: GateHasher> GarbledInstance<GH> {
    pub fn from_streaming_result(res: StreamingResult, gate_hasher_seed: GH::Seed) -> (r: Self)
        ensures
            instance_of(res, gate_hasher_seed, r),
    {
        GarbledInstance {
            false_wire_constant: res.false_wire_constant,
            true_wire_constant: res.true_wire_constant,
            output_wire_values: res.output_value,
            input_wire_values: res.input_wire_values,
            ciphertext_handler_result: res.ciphertext_handler_result,
            gate_hasher_seed,
        }
    }
}

/// The seed of the hasher of an instance that is garbled from `seed`: it is
/// made from the first draw of the instance's generator.
pub fn gate_hasher_seed_of<GH: GateHasher>(seed: Seed) -> (r: GH::Seed)
    ensures
        r == GH::drawn_seed(chacha_stream(seed, 0)),
{
    let h = GH::from_draw(chacha_draw(seed, 0));
    *h.seed()
}

/// The first commitment to an instance: to its ciphertexts, its input and output
/// labels and the active labels of its constants.
pub struct CommitPhaseOne<GH: GateHasher, LH: LabelCommitHasher> {
    pub ciphertext_hash: CiphertextCommit,
    pub input_commitments: Vec<LabelCommit<LH::Output>>,
    pub output_commit_true: LH::Output,
    pub output_commit_false: LH::Output,
    pub true_constant: u128,
    pub false_constant: u128,
    pub gate_hasher_seed: GH::Seed,
}

/// The contents of a first commitment.
pub struct PhaseOneView<GH: GateHasher, LH: LabelCommitHasher> {
    pub ciphertext_hash: CiphertextCommit,
    pub input_commitments: Seq<LabelCommit<LH::Output>>,
    pub output_commit_true: LH::Output,
    pub output_commit_false: LH::Output,
    pub true_constant: u128,
    pub false_constant: u128,
    pub gate_hasher_seed: GH::Seed,
}

impl<GH: GateHasher, LH: LabelCommitHasher> View for CommitPhaseOne<GH, LH> {
    type V = PhaseOneView<GH, LH>;

    open spec fn view(&self) -> PhaseOneView<GH, LH> {
        PhaseOneView {
            ciphertext_hash: self.ciphertext_hash,
            input_commitments: self.input_commitments@,
            output_commit_true: self.output_commit_true,
            output_commit_false: self.output_commit_false,
            true_constant: self.true_constant,
            false_constant: self.false_constant,
            gate_hasher_seed: self.gate_hasher_seed,
        }
    }
}

/// The first commitment to an instance.
pub open spec fn phase_one<GH: GateHasher, LH: LabelCommitHasher>(
    instance: GarbledInstance<GH>,
) -> PhaseOneView<GH, LH> {
    PhaseOneView {
        ciphertext_hash: instance.ciphertext_handler_result,
        input_commitments: input_commits::<LH>(instance.input_wire_values@, None),
        output_commit_true: LH::commitment(instance.output_wire_values.label1),
        output_commit_false: LH::commitment(instance.output_wire_values.label0),
        true_constant: selected(instance.true_wire_constant, true).0,
        false_constant: selected(instance.false_wire_constant, false).0,
        gate_hasher_seed: instance.gate_hasher_seed,
    }
}

/// Copies a list of label commitments.
pub fn copy_commits<H: Copy>(v: &Vec<LabelCommit<H>>) -> (r: Vec<LabelCommit<H>>)
    ensures
        r@ == v@,
{
    let mut r: Vec<LabelCommit<H>> = Vec::new();
    let mut i: usize = 0;
    while i < v.len()
        invariant
            i <= v@.len(),
            r@ == v@.take(i as int),
        decreases v@.len() - i,
    {
        r.push(v[i]);
        i = i + 1;
        assert(r@ =~= v@.take(i as int));
    }
    assert(v@.take(v@.len() as int) =~= v@);
    r
}

impl<GH: GateHasher, LH: LabelCommitHasher> CommitPhaseOne<GH, LH> {
    /// A commitment from its parts.
    pub fn new(
        ciphertext_hash: CiphertextCommit,
        input_commitments: Vec<LabelCommit<LH::Output>>,
        output_commit_true: LH::Output,
        output_commit_false: LH::Output,
        true_constant: u128,
        false_constant: u128,
        gate_hasher_seed: GH::Seed,
    ) -> (r: Self)
        ensures
            r == (CommitPhaseOne::<GH, LH> {
                ciphertext_hash,
                input_commitments,
                output_commit_true,
                output_commit_false,
                true_constant,
                false_constant,
                gate_hasher_seed,
            }),
    {
        CommitPhaseOne {
            ciphertext_hash,
            input_commitments,
            output_commit_true,
            output_commit_false,
            true_constant,
            false_constant,
            gate_hasher_seed,
        }
    }

    /// The first commitment to an instance.
    pub fn from_instance(instance: &GarbledInstance<GH>) -> (r: Self)
        ensures
            r@ == phase_one::<GH, LH>(*instance),
    {
        CommitPhaseOne {
            ciphertext_hash: instance.ciphertext_handler_result,
            input_commitments: commit_input_wires::<LH>(
                instance.input_wire_values.as_slice(),
                None,
            ),
            output_commit_true: commit_output_true::<LH>(&instance.output_wire_values),
            output_commit_false: commit_output_false::<LH>(&instance.output_wire_values),
            true_constant: instance.true_wire_constant.select(true).to_u128(),
            false_constant: instance.false_wire_constant.select(false).to_u128(),
            gate_hasher_seed: instance.gate_hasher_seed,
        }
    }

    /// A commitment with the same contents.
    pub fn duplicate(&self) -> (r: Self)
        ensures
            r@ == self@,
    {
        CommitPhaseOne {
            ciphertext_hash: self.ciphertext_hash,
            input_commitments: copy_commits(&self.input_commitments),
            output_commit_true: self.output_commit_true,
            output_commit_false: self.output_commit_false,
            true_constant: self.true_constant,
            false_constant: self.false_constant,
            gate_hasher_seed: self.gate_hasher_seed,
        }
    }

    /// Whether two commitments have the same contents.
    pub fn same(&self, other: &Self) -> (r: bool)
        ensures
            r == (self@ == other@),
    {
        same_bytes(&self.ciphertext_hash, &other.ciphertext_hash) && same_label_commits::<LH>(
            &self.input_commitments,
            &other.input_commitments,
        ) && LH::same_commit(&self.output_commit_true, &other.output_commit_true)
            && LH::same_commit(&self.output_commit_false, &other.output_commit_false)
            && self.true_constant == other.true_constant && self.false_constant
            == other.false_constant && GH::same_seed(
            &self.gate_hasher_seed,
            &other.gate_hasher_seed,
        )
    }

    pub fn ciphertext_hash(&self) -> (r: CiphertextCommit)
        ensures
            r == self.ciphertext_hash,
    {
        self.ciphertext_hash
    }

    pub fn input_commitments(&self) -> (r: &[LabelCommit<LH::Output>])
        ensures
            r@ == self.input_commitments@,
    {
        self.input_commitments.as_slice()
    }

    pub fn output_commit_true(&self) -> (r: LH::Output)
        ensures
            r == self.output_commit_true,
    {
        self.output_commit_true
    }

    pub fn output_commit_false(&self) -> (r: LH::Output)
        ensures
            r == self.output_commit_false,
    {
        self.output_commit_false
    }

    pub fn true_constant(&self) -> (r: u128)
        ensures
            r == self.true_constant,
    {
        self.true_constant
    }

    pub fn false_constant(&self) -> (r: u128)
        ensures
            r == self.false_constant,
    {
        self.false_constant
    }

    pub fn gate_hasher_seed(&self) -> (r: &GH::Seed)
        ensures
            *r == self.gate_hasher_seed,
    {
        &self.gate_hasher_seed
    }

    /// A commitment from its parts and the seed of its gate hasher.
    pub fn from_raw_parts(
        parts: CommitPhaseOneRawParts<LH::Output>,
        gate_hasher_seed: GH::Seed,
    ) -> (r: Self)
        ensures
            r.into_parts() == (parts, gate_hasher_seed),
    {
        CommitPhaseOne {
            ciphertext_hash: parts.ciphertext_hash,
            input_commitments: parts.input_commitments,
            output_commit_true: parts.output_commit_true,
            output_commit_false: parts.output_commit_false,
            true_constant: parts.true_constant,
            false_constant: parts.false_constant,
            gate_hasher_seed,
        }
    }

    /// The parts of the commitment and the seed of its gate hasher.
    pub open spec fn into_parts(self) -> (CommitPhaseOneRawParts<LH::Output>, GH::Seed) {
        (
            CommitPhaseOneRawParts {
                ciphertext_hash: self.ciphertext_hash,
                input_commitments: self.input_commitments,
                output_commit_true: self.output_commit_true,
                output_commit_false: self.output_commit_false,
                true_constant: self.true_constant,
                false_constant: self.false_constant,
            },
            self.gate_hasher_seed,
        )
    }

    pub fn into_raw_parts(self) -> (r: (CommitPhaseOneRawParts<LH::Output>, GH::Seed))
        ensures
            r == self.into_parts(),
    {
        (
            CommitPhaseOneRawParts {
                ciphertext_hash: self.ciphertext_hash,
                input_commitments: self.input_commitments,
                output_commit_true: self.output_commit_true,
                output_commit_false: self.output_commit_false,
                true_constant: self.true_constant,
                false_constant: self.false_constant,
            },
            self.gate_hasher_seed,
        )
    }
}

/// The parts of a first commitment.
pub struct CommitPhaseOneRawParts<H: Copy> {
    pub ciphertext_hash: CiphertextCommit,
    pub input_commitments: Vec<LabelCommit<H>>,
    pub output_commit_true: H,
    pub output_commit_false: H,
    pub true_constant: u128,
    pub false_constant: u128,
}

/// The second commitment to an instance: to its input labels, blended with the
/// evaluator's nonce.
pub struct CommitPhaseTwo<H: LabelCommitHasher> {
    pub input_commitments: Vec<LabelCommit<H::Output>>,
}

impl<H: LabelCommitHasher> CommitPhaseTwo<H> {
    pub fn new(input_commitments: Vec<LabelCommit<H::Output>>) -> (r: Self)
        ensures
            r.input_commitments == input_commitments,
    {
        CommitPhaseTwo { input_commitments }
    }

    /// The second commitment to an instance.
    pub fn from_instance<GH: GateHasher>(instance: &GarbledInstance<GH>, nonce: S) -> (r: Self)
        ensures
            r.input_commitments@ == input_commits::<H>(instance.input_wire_values@, Some(nonce)),
    {
        CommitPhaseTwo {
            input_commitments: commit_input_wires::<H>(
                instance.input_wire_values.as_slice(),
                Some(nonce),
            ),
        }
    }

    /// A commitment with the same contents.
    pub fn duplicate(&self) -> (r: Self)
        ensures
            r.input_commitments@ == self.input_commitments@,
    {
        CommitPhaseTwo { input_commitments: copy_commits(&self.input_commitments) }
    }

    pub fn input_commitments(&self) -> (r: &[LabelCommit<H::Output>])
        ensures
            r@ == self.input_commitments@,
    {
        self.input_commitments.as_slice()
    }

    pub fn into_inner(self) -> (r: Vec<LabelCommit<H::Output>>)
        ensures
            r == self.input_commitments,
    {
        self.input_commitments
    }

    pub fn from_raw_parts(input_commitments: Vec<LabelCommit<H::Output>>) -> (r: Self)
        ensures
            r.input_commitments == input_commitments,
    {
        CommitPhaseTwo { input_commitments }
    }

    pub fn into_raw_parts(self) -> (r: Vec<LabelCommit<H::Output>>)
        ensures
            r == self.input_commitments,
    {
        self.input_commitments
    }
}

/// Two instances with the same input labels have the same second commitments for
/// every nonce; the second commitment for the zero nonce is that without one.
pub proof fn zero_nonce_changes_nothing<H: LabelCommitHasher>(inputs: Seq<GarbledWire>)
    ensures
        input_commits::<H>(inputs, Some(S(0))) == input_commits::<H>(inputs, None),
{
    assert forall|i: int| 0 <= i < inputs.len() implies label_commit::<H>(
        inputs[i].label0,
        inputs[i].label1,
        Some(S(0)),
    ) == label_commit::<H>(inputs[i].label0, inputs[i].label1, None) by {
        crate::s::xor_laws(inputs[i].label0, S(0), S(0));
        crate::s::xor_laws(inputs[i].label1, S(0), S(0));
    }
    assert(input_commits::<H>(inputs, Some(S(0))) =~= input_commits::<H>(inputs, None));
}

/// The commitment to a label is the digest of its bytes, the most significant first, and
/// the commitments to a wire are to its two labels as they are or with the nonce XORed
/// into both.
pub proof fn commitments_are_digests(wire: GarbledWire, nonce: S, any: [u8; 32])
    requires
        sha256_digest(be_bytes(wire.label0.0)).len() == 32,
        sha256_digest(be_bytes(wire.label1.0 ^ nonce.0)).len() == 32,
    ensures
        ({
            let plain = label_commit::<Sha256LabelCommitHasher>(wire.label0, wire.label1, None);
            let blended = label_commit::<Sha256LabelCommitHasher>(
                wire.label0,
                wire.label1,
                Some(nonce),
            );
            &&& plain.commit_false@ == sha256_digest(be_bytes(wire.label0.0))
            &&& blended.commit_true@ == sha256_digest(be_bytes(wire.label1.0 ^ nonce.0))
        }),
{
    let a = sha256_digest(be_bytes(wire.label0.0));
    let b = sha256_digest(be_bytes(wire.label1.0 ^ nonce.0));
    array_of_has_elements::<u8, 32>(a, any);
    array_of_has_elements::<u8, 32>(b, any);
    assert(array_of::<u8, 32>(a)@ == a);
    assert(array_of::<u8, 32>(b)@ == b);
}

/// The commitment for a value is the one made to the label that stands for it.
pub proof fn commitment_follows_value<H: LabelCommitHasher>(wire: GarbledWire, bit: bool)
    ensures
        commit_of_value(label_commit::<H>(wire.label0, wire.label1, None), bit) == H::commitment(
            if bit {
                wire.label1
            } else {
                wire.label0
            },
        ),
        selected(wire, bit) == if bit {
            wire.label1
        } else {
            wire.label0
        },
{
}

} // verus!
