//! The data by which the inputs of several instances are tied together.
//!
//! The labels of every further instance differ from those of the base instance by
//! one offset for each label. The public data holds these offsets, commitments to
//! all labels, and commitments to the base labels blended with a nonce.

use crate::cut_and_choose::commit::{
    commit_label_with, label_commit, sha256_commitment, Sha256LabelCommitHasher,
};
use crate::gate::GarbledWire;
use crate::modes::evaluate::EvaluatedWire;
use crate::s::{xor, S};
use crate::soldering_format::{check_lengths, lengths_fit};
use vstd::prelude::*;

verus! {

/// A commitment to a label.
pub type Sha256Commit = [u8; 32];

/// The labels of the wires of each instance, and the nonce.
pub struct WiresInput {
    pub instances_wires: Vec<Vec<(u128, u128)>>,
    pub nonce: u128,
}

/// The public data on soldered instances.
pub struct SolderedLabels {
    /// For every further instance, the offsets of the labels of each wire.
    pub deltas: Vec<Vec<(u128, u128)>>,
    /// The commitments to the labels of the base instance.
    pub base_commitment: Vec<(Sha256Commit, Sha256Commit)>,
    /// The commitments to the labels of the base instance blended with the nonce.
    pub base_nonce_commitment: Vec<(Sha256Commit, Sha256Commit)>,
    pub nonce: u128,
    /// For every further instance, the commitments to its labels.
    pub commitments: Vec<Vec<(Sha256Commit, Sha256Commit)>>,
}

/// The contents of a list of lists.
pub open spec fn rows<T>(v: Seq<Vec<T>>) -> Seq<Seq<T>> {
    Seq::new(v.len(), |i: int| v[i]@)
}

/// The contents of `SolderedLabels`.
pub struct SolderedView {
    pub deltas: Seq<Seq<(u128, u128)>>,
    pub base_commitment: Seq<(Sha256Commit, Sha256Commit)>,
    pub base_nonce_commitment: Seq<(Sha256Commit, Sha256Commit)>,
    pub nonce: u128,
    pub commitments: Seq<Seq<(Sha256Commit, Sha256Commit)>>,
}

impl View for SolderedLabels {
    type V = SolderedView;

    open spec fn view(&self) -> SolderedView {
        SolderedView {
            deltas: rows(self.deltas@),
            base_commitment: self.base_commitment@,
            base_nonce_commitment: self.base_nonce_commitment@,
            nonce: self.nonce,
            commitments: rows(self.commitments@),
        }
    }
}

/// The standard encoding of the public data.
pub uninterp spec fn params_encoding(
    deltas: Seq<Seq<(u128, u128)>>,
    base: Seq<([u8; 32], [u8; 32])>,
    base_nonce: Seq<([u8; 32], [u8; 32])>,
    nonce: u128,
    commitments: Seq<Seq<([u8; 32], [u8; 32])>>,
) -> Seq<u8>;

/// The standard encoding of the labels of all instances.
pub uninterp spec fn wires_encoding(wires: Seq<Seq<(u128, u128)>>, nonce: u128) -> Seq<u8>;

/// The public data that bytes encode; nothing if they encode none.
pub uninterp spec fn params_decoding(bytes: Seq<u8>) -> Option<SolderedView>;

/// The encoding of public data.
pub open spec fn encoded(v: SolderedView) -> Seq<u8> {
    params_encoding(v.deltas, v.base_commitment, v.base_nonce_commitment, v.nonce, v.commitments)
}

/// Calls `bincode::encode_to_vec` in the standard configuration on the five parts
/// in order, which are written one after the other: writing to a vector does not fail,
/// the result is a function of the parts alone, and as every item of a list takes at
/// least one byte, no length in it is larger than the number of bytes.
#[verifier::external_body]
fn encode_params(p: &SolderedLabels) -> (r: Option<Vec<u8>>)
    ensures
        r is Some,
        r->0@ == params_encoding(
            p@.deltas,
            p@.base_commitment,
            p@.base_nonce_commitment,
            p@.nonce,
            p@.commitments,
        ),
        lengths_fit(r->0@),
{
    let parts = (&p.deltas, &p.base_commitment, &p.base_nonce_commitment, p.nonce, &p.commitments);
    bincode::encode_to_vec(parts, bincode::config::standard()).ok()
}

/// Calls `bincode::encode_to_vec` in the standard configuration on the two parts in
/// order: writing to a vector does not fail, and the result is a function of the parts
/// alone.
#[verifier::external_body]
fn encode_wires(w: &WiresInput) -> (r: Option<Vec<u8>>)
    ensures
        r is Some,
        r->0@ == wires_encoding(rows(w.instances_wires@), w.nonce),
{
    let parts = (&w.instances_wires, w.nonce);
    bincode::encode_to_vec(parts, bincode::config::standard()).ok()
}

/// Calls `bincode::decode_from_slice` in the standard configuration for the five
/// parts: the result is a function of the bytes alone, and decoding the encoding of
/// parts gives these parts back. It makes room for as many items as a list claims to
/// have, so none may claim more than there are bytes; an item
/// takes no more than 64 bytes in memory.
#[verifier::external_body]
fn decode_params(bytes: &[u8]) -> (r: Option<SolderedLabels>)
    requires
        lengths_fit(bytes@),
        64 * bytes@.len() <= isize::MAX,
    ensures
        match r {
            Some(p) => params_decoding(bytes@) == Some(p@),
            None => params_decoding(bytes@) is None,
        },
        forall|v: SolderedView|
            #[trigger] params_encoding(
                v.deltas,
                v.base_commitment,
                v.base_nonce_commitment,
                v.nonce,
                v.commitments,
            ) == bytes@ ==> r is Some && r->0@ == v,
{
    let (d, _) = bincode::decode_from_slice(bytes, bincode::config::standard()).ok()?;
    let (deltas, base_commitment, base_nonce_commitment, nonce, commitments) = d;
    Some(SolderedLabels { deltas, base_commitment, base_nonce_commitment, nonce, commitments })
}

/// The encoding of the public data.
pub fn serialize_public_params(params: &SolderedLabels) -> (r: Option<Vec<u8>>)
    ensures
        r is Some,
        r->0@ == encoded(params@),
        lengths_fit(r->0@),
{
    encode_params(params)
}

/// The encoding of the labels of all instances.
pub fn serialize_wires_input(input: &WiresInput) -> (r: Option<Vec<u8>>)
    ensures
        r is Some,
        r->0@ == wires_encoding(rows(input.instances_wires@), input.nonce),
{
    encode_wires(input)
}

/// The public data that bytes encode; nothing if they encode none. Reading back an
/// encoding gives what was encoded.
pub fn deserialize_public_params(bytes: &[u8]) -> (r: Option<SolderedLabels>)
    requires
        64 * bytes@.len() <= isize::MAX,
    ensures
        match r {
            Some(p) => lengths_fit(bytes@) && params_decoding(bytes@) == Some(p@),
            None => !lengths_fit(bytes@) || params_decoding(bytes@) is None,
        },
        lengths_fit(bytes@) ==> forall|v: SolderedView| #[trigger]
            encoded(v) == bytes@ ==> r is Some && r->0@ == v,
{
    if !check_lengths(bytes) {
        return None;
    }
    let r = decode_params(bytes);
    proof {
        assert forall|v: SolderedView| #[trigger] encoded(v) == bytes@ implies r is Some && r->0@
            == v by {
            assert(params_encoding(
                v.deltas,
                v.base_commitment,
                v.base_nonce_commitment,
                v.nonce,
                v.commitments,
            ) == bytes@);
        }
    }
    r
}

/// The labels of garbled wires as numbers.
pub open spec fn raw_labels(wires: Seq<GarbledWire>) -> Seq<(u128, u128)> {
    Seq::new(wires.len(), |i: int| (wires[i].label0.0, wires[i].label1.0))
}

/// What is proved about for these instances and nonce: their labels as numbers.
pub fn wires_input(instances: &Vec<Vec<GarbledWire>>, nonce: u128) -> (r: WiresInput)
    ensures
        r.nonce == nonce,
        rows(r.instances_wires@) == Seq::new(
            instances@.len(),
            |i: int| raw_labels(instances@[i]@),
        ),
{
    let mut instances_wires: Vec<Vec<(u128, u128)>> = Vec::new();
    let mut i: usize = 0;
    while i < instances.len()
        invariant
            i <= instances@.len(),
            instances_wires@.len() == i,
            forall|k: int|
                0 <= k < i ==> (#[trigger] instances_wires@[k])@ == raw_labels(instances@[k]@),
        decreases instances@.len() - i,
    {
        let wires = &instances[i];
        let mut row: Vec<(u128, u128)> = Vec::new();
        let mut w: usize = 0;
        while w < wires.len()
            invariant
                w <= wires@.len(),
                row@.len() == w,
                forall|k: int|
                    0 <= k < w ==> #[trigger] row@[k] == (wires@[k].label0.0, wires@[k].label1.0),
            decreases wires@.len() - w,
        {
            row.push((wires[w].label0.to_u128(), wires[w].label1.to_u128()));
            w = w + 1;
        }
        assert(row@ =~= raw_labels(wires@));
        instances_wires.push(row);
        i = i + 1;
    }
    assert(rows(instances_wires@) =~= Seq::new(
        instances@.len(),
        |i: int| raw_labels(instances@[i]@),
    ));
    WiresInput { instances_wires, nonce }
}

/// The commitments to a pair of labels, each blended with a nonce.
pub open spec fn pair_commit(pair: (u128, u128), nonce: u128) -> (Sha256Commit, Sha256Commit) {
    (
        sha256_commitment(S(pair.0 ^ nonce)),
        sha256_commitment(S(pair.1 ^ nonce)),
    )
}

/// The commitments to a pair of labels.
pub open spec fn plain_commit(pair: (u128, u128)) -> (Sha256Commit, Sha256Commit) {
    (sha256_commitment(S(pair.0)), sha256_commitment(S(pair.1)))
}

/// The offsets between two pairs of labels.
pub open spec fn pair_delta(base: (u128, u128), other: (u128, u128)) -> (u128, u128) {
    (base.0 ^ other.0, base.1 ^ other.1)
}

/// The public data on these instances, the first of which is the base.
pub open spec fn soldered(wires: Seq<Seq<(u128, u128)>>, nonce: u128) -> SolderedView {
    let base = wires[0];
    let n = base.len();
    SolderedView {
        deltas: Seq::new(
            (wires.len() - 1) as nat,
            |j: int| Seq::new(n, |w: int| pair_delta(base[w], wires[j + 1][w])),
        ),
        base_commitment: Seq::new(n, |w: int| plain_commit(base[w])),
        base_nonce_commitment: Seq::new(n, |w: int| pair_commit(base[w], nonce)),
        nonce,
        commitments: Seq::new(
            (wires.len() - 1) as nat,
            |j: int| Seq::new(n, |w: int| plain_commit(wires[j + 1][w])),
        ),
    }
}

fn commit_pair(pair: (u128, u128)) -> (r: (Sha256Commit, Sha256Commit))
    ensures
        r == plain_commit(pair),
{
    (
        commit_label_with::<Sha256LabelCommitHasher>(S::from_u128(pair.0)),
        commit_label_with::<Sha256LabelCommitHasher>(S::from_u128(pair.1)),
    )
}

/// Ties the instances together: the offsets of each further instance from the base,
/// and the commitments to all labels.
pub fn solder_instances(input: &WiresInput) -> (r: SolderedLabels)
    requires
        input.instances_wires@.len() > 0,
        forall|j: int|
            0 <= j < input.instances_wires@.len() ==> (#[trigger] input.instances_wires@[j])@.len()
                >= input.instances_wires@[0]@.len(),
    ensures
        r@ == soldered(rows(input.instances_wires@), input.nonce),
{
    let ghost all = rows(input.instances_wires@);
    let wires = &input.instances_wires;
    let nonce: u128 = input.nonce;
    let base = &wires[0];
    let n: usize = base.len();
    let mut base_commitment: Vec<(Sha256Commit, Sha256Commit)> = Vec::new();
    let mut base_nonce_commitment: Vec<(Sha256Commit, Sha256Commit)> = Vec::new();
    let mut w: usize = 0;
    while w < n
        invariant
            w <= n,
            n == base@.len(),
            nonce == input.nonce,
            base_commitment@.len() == w,
            base_nonce_commitment@.len() == w,
            forall|k: int|
                0 <= k < w ==> #[trigger] base_commitment@[k] == plain_commit(base@[k]),
            forall|k: int|
                0 <= k < w ==> #[trigger] base_nonce_commitment@[k] == pair_commit(base@[k], nonce),
        decreases n - w,
    {
        let pair = base[w];
        base_commitment.push(commit_pair(pair));
        base_nonce_commitment.push(commit_pair((pair.0 ^ nonce, pair.1 ^ nonce)));
        w = w + 1;
    }
    let mut deltas: Vec<Vec<(u128, u128)>> = Vec::new();
    let mut commitments: Vec<Vec<(Sha256Commit, Sha256Commit)>> = Vec::new();
    let mut j: usize = 1;
    while j < wires.len()
        invariant
            1 <= j <= wires@.len(),
            n == base@.len(),
            *base == wires@[0],
            wires@ == input.instances_wires@,
            forall|i: int| 0 <= i < wires@.len() ==> (#[trigger] wires@[i])@.len() >= n,
            deltas@.len() == j - 1,
            commitments@.len() == j - 1,
            forall|i: int|
                0 <= i < j - 1 ==> (#[trigger] deltas@[i])@ == Seq::new(
                    n as nat,
                    |w: int| pair_delta(base@[w], wires@[i + 1]@[w]),
                ),
            forall|i: int|
                0 <= i < j - 1 ==> (#[trigger] commitments@[i])@ == Seq::new(
                    n as nat,
                    |w: int| plain_commit(wires@[i + 1]@[w]),
                ),
        decreases wires@.len() - j,
    {
        let other = &wires[j];
        let mut row: Vec<(u128, u128)> = Vec::new();
        let mut commits: Vec<(Sha256Commit, Sha256Commit)> = Vec::new();
        let mut v: usize = 0;
        while v < n
            invariant
                v <= n,
                n == base@.len(),
                n <= other@.len(),
                row@.len() == v,
                commits@.len() == v,
                forall|k: int|
                    0 <= k < v ==> #[trigger] row@[k] == pair_delta(base@[k], other@[k]),
                forall|k: int| 0 <= k < v ==> #[trigger] commits@[k] == plain_commit(other@[k]),
            decreases n - v,
        {
            row.push((base[v].0 ^ other[v].0, base[v].1 ^ other[v].1));
            commits.push(commit_pair(other[v]));
            v = v + 1;
        }
        proof {
            assert(row@ =~= Seq::new(
                n as nat,
                |w: int| pair_delta(base@[w], wires@[j as int]@[w]),
            ));
            assert(commits@ =~= Seq::new(n as nat, |w: int| plain_commit(wires@[j as int]@[w])));
        }
        deltas.push(row);
        commitments.push(commits);
        j = j + 1;
    }
    let r = SolderedLabels { deltas, base_commitment, base_nonce_commitment, nonce, commitments };
    proof {
        let want = soldered(all, nonce);
        assert(r@.deltas =~= want.deltas);
        assert(r@.commitments =~= want.commitments);
        assert(r@.base_commitment =~= want.base_commitment);
        assert(r@.base_nonce_commitment =~= want.base_nonce_commitment);
    }
    r
}

/// An evaluated wire of the base instance, moved to another instance by the offset
/// for its value.
pub open spec fn soldered_wire(wire: EvaluatedWire, deltas: (S, S)) -> EvaluatedWire {
    EvaluatedWire {
        active_label: xor(
            wire.active_label,
            if wire.value {
                deltas.1
            } else {
                deltas.0
            },
        ),
        value: wire.value,
    }
}

/// Inputs of an evaluation that can be moved to another instance.
pub trait SolderInput: Sized {
    /// The wires of the input, in order.
    spec fn wires(&self) -> Seq<EvaluatedWire>;

    /// The input with each wire moved by its offsets.
    fn solder(&self, per_wire_deltas: &[(S, S)]) -> (r: Self)
        requires
            per_wire_deltas@.len() >= self.wires().len(),
        ensures
            r.wires() == Seq::new(
                self.wires().len(),
                |i: int| soldered_wire(self.wires()[i], per_wire_deltas@[i]),
            ),
    ;
}

impl SolderInput for Vec<EvaluatedWire> {
    open spec fn wires(&self) -> Seq<EvaluatedWire> {
        self@
    }

    fn solder(&self, per_wire_deltas: &[(S, S)]) -> (r: Self) {
        let mut r: Vec<EvaluatedWire> = Vec::new();
        let mut i: usize = 0;
        while i < self.len()
            invariant
                i <= self@.len(),
                per_wire_deltas@.len() >= self@.len(),
                r@.len() == i,
                forall|k: int|
                    0 <= k < i ==> #[trigger] r@[k] == soldered_wire(self@[k], per_wire_deltas@[k]),
            decreases self@.len() - i,
        {
            let wire = self[i];
            let (d0, d1) = per_wire_deltas[i];
            let delta = if wire.value {
                d1
            } else {
                d0
            };
            r.push(EvaluatedWire::new(S::xor(wire.active_label, delta), wire.value));
            i = i + 1;
        }
        assert(r@ =~= Seq::new(
            self@.len(),
            |i: int| soldered_wire(self@[i], per_wire_deltas@[i]),
        ));
        r
    }
}

/// The compressed coordinates of a point in the first group: the wires of the
/// coordinate and that of the sign.
pub struct EvaluatedCompressedG1Wires {
    pub x: Vec<EvaluatedWire>,
    pub y_flag: EvaluatedWire,
}

/// The compressed coordinates of a point in the second group.
pub struct EvaluatedCompressedG2Wires {
    pub x0: Vec<EvaluatedWire>,
    pub x1: Vec<EvaluatedWire>,
    pub y_flag: EvaluatedWire,
}

/// The input of the verifier circuit: the public inputs and the three points of a
/// proof, with the labels of their bits.
pub struct EvaluatorCompressedInput {
    pub public: Vec<Vec<EvaluatedWire>>,
    pub a: EvaluatedCompressedG1Wires,
    pub b: EvaluatedCompressedG2Wires,
    pub c: EvaluatedCompressedG1Wires,
}

/// The wires of the public inputs, in order.
pub open spec fn flattened(v: Seq<Vec<EvaluatedWire>>) -> Seq<EvaluatedWire>
    decreases v.len(),
{
    if v.len() == 0 {
        seq![]
    } else {
        flattened(v.drop_last()) + v.last()@
    }
}

/// The wires moved by the offsets from position `from` on.
pub open spec fn moved(wires: Seq<EvaluatedWire>, deltas: Seq<(S, S)>, from: int) -> Seq<
    EvaluatedWire,
> {
    Seq::new(wires.len(), |i: int| soldered_wire(wires[i], deltas[from + i]))
}

/// Moves wires by the offsets from position `from` on.
fn move_wires(wires: &Vec<EvaluatedWire>, deltas: &[(S, S)], from: usize) -> (r: Vec<EvaluatedWire>)
    requires
        from + wires@.len() <= deltas@.len(),
    ensures
        r@ == moved(wires@, deltas@, from as int),
{
    let total: usize = deltas.len();
    let mut r: Vec<EvaluatedWire> = Vec::new();
    let mut i: usize = 0;
    while i < wires.len()
        invariant
            i <= wires@.len(),
            total == deltas@.len(),
            from + wires@.len() <= deltas@.len(),
            r@.len() == i,
            forall|k: int|
                0 <= k < i ==> #[trigger] r@[k] == soldered_wire(wires@[k], deltas@[from + k]),
        decreases wires@.len() - i,
    {
        r.push(move_wire(&wires[i], deltas, from + i));
        i = i + 1;
    }
    assert(r@ =~= moved(wires@, deltas@, from as int));
    r
}

fn move_wire(wire: &EvaluatedWire, deltas: &[(S, S)], at: usize) -> (r: EvaluatedWire)
    requires
        at < deltas@.len(),
    ensures
        r == soldered_wire(*wire, deltas@[at as int]),
{
    let (d0, d1) = deltas[at];
    let delta = if wire.value {
        d1
    } else {
        d0
    };
    EvaluatedWire::new(S::xor(wire.active_label, delta), wire.value)
}

/// Moving two runs of wires one after the other moves their concatenation.
proof fn moved_concatenation(
    first: Seq<EvaluatedWire>,
    second: Seq<EvaluatedWire>,
    deltas: Seq<(S, S)>,
    from: int,
)
    ensures
        moved(first + second, deltas, from) == moved(first, deltas, from) + moved(
            second,
            deltas,
            from + first.len(),
        ),
{
    assert(moved(first + second, deltas, from) =~= moved(first, deltas, from) + moved(
        second,
        deltas,
        from + first.len(),
    ));
}

impl SolderInput for EvaluatorCompressedInput {
    open spec fn wires(&self) -> Seq<EvaluatedWire> {
        flattened(self.public@) + self.a.x@ + seq![self.a.y_flag] + self.b.x0@ + self.b.x1@ + seq![
            self.b.y_flag,
        ] + self.c.x@ + seq![self.c.y_flag]
    }

    /// Every part keeps its number of wires.
    #[verifier::rlimit(60)]
    fn solder(&self, per_wire_deltas: &[(S, S)]) -> (r: Self)
        ensures
            r.public@.len() == self.public@.len(),
            forall|k: int|
                0 <= k < r.public@.len() ==> (#[trigger] r.public@[k])@.len()
                    == self.public@[k]@.len(),
            r.a.x@.len() == self.a.x@.len(),
            r.b.x0@.len() == self.b.x0@.len(),
            r.b.x1@.len() == self.b.x1@.len(),
            r.c.x@.len() == self.c.x@.len(),
    {
        let ghost d = per_wire_deltas@;
        let total: usize = per_wire_deltas.len();
        let mut public: Vec<Vec<EvaluatedWire>> = Vec::new();
        let mut at: usize = 0;
        let mut i: usize = 0;
        let ghost all = flattened(self.public@);
        assert(self.public@.take(0) =~= Seq::<Vec<EvaluatedWire>>::empty());
        assert(public@ =~= Seq::<Vec<EvaluatedWire>>::empty());
        assert(flattened(public@) =~= moved(flattened(self.public@.take(0)), d, 0));
        while i < self.public.len()
            invariant
                i <= self.public@.len(),
                d == per_wire_deltas@,
                total == d.len(),
                all == flattened(self.public@),
                all.len() <= d.len(),
                public@.len() == i,
                at == flattened(self.public@.take(i as int)).len(),
                flattened(public@) == moved(flattened(self.public@.take(i as int)), d, 0),
                forall|k: int|
                    0 <= k < i ==> (#[trigger] public@[k])@.len() == self.public@[k]@.len(),
            decreases self.public@.len() - i,
        {
            let ghost before = self.public@.take(i as int);
            let ghost after = self.public@.take(i + 1);
            proof {
                assert(after.drop_last() =~= before);
                flattened_prefix(self.public@, i + 1);
            }
            let row = move_wires(&self.public[i], per_wire_deltas, at);
            let ghost public0 = public@;
            at = at + self.public[i].len();
            public.push(row);
            proof {
                assert(public@.drop_last() =~= public0);
                moved_concatenation(flattened(before), self.public@[i as int]@, d, 0);
            }
            i = i + 1;
        }
        assert(self.public@.take(self.public@.len() as int) =~= self.public@);
        let a_x = move_wires(&self.a.x, per_wire_deltas, at);
        at = at + self.a.x.len();
        let a_y = move_wire(&self.a.y_flag, per_wire_deltas, at);
        at = at + 1;
        let b_x0 = move_wires(&self.b.x0, per_wire_deltas, at);
        at = at + self.b.x0.len();
        let b_x1 = move_wires(&self.b.x1, per_wire_deltas, at);
        at = at + self.b.x1.len();
        let b_y = move_wire(&self.b.y_flag, per_wire_deltas, at);
        at = at + 1;
        let c_x = move_wires(&self.c.x, per_wire_deltas, at);
        at = at + self.c.x.len();
        let c_y = move_wire(&self.c.y_flag, per_wire_deltas, at);
        let r = EvaluatorCompressedInput {
            public,
            a: EvaluatedCompressedG1Wires { x: a_x, y_flag: a_y },
            b: EvaluatedCompressedG2Wires { x0: b_x0, x1: b_x1, y_flag: b_y },
            c: EvaluatedCompressedG1Wires { x: c_x, y_flag: c_y },
        };
        proof {
            let s1 = all + self.a.x@;
            let s2 = s1 + seq![self.a.y_flag];
            let s3 = s2 + self.b.x0@;
            let s4 = s3 + self.b.x1@;
            let s5 = s4 + seq![self.b.y_flag];
            let s6 = s5 + self.c.x@;
            let s7 = s6 + seq![self.c.y_flag];
            moved_concatenation(all, self.a.x@, d, 0);
            moved_concatenation(s1, seq![self.a.y_flag], d, 0);
            moved_concatenation(s2, self.b.x0@, d, 0);
            moved_concatenation(s3, self.b.x1@, d, 0);
            moved_concatenation(s4, seq![self.b.y_flag], d, 0);
            moved_concatenation(s5, self.c.x@, d, 0);
            moved_concatenation(s6, seq![self.c.y_flag], d, 0);
            assert(moved(seq![self.a.y_flag], d, s1.len() as int) =~= seq![a_y]);
            assert(moved(seq![self.b.y_flag], d, s4.len() as int) =~= seq![b_y]);
            assert(moved(seq![self.c.y_flag], d, s6.len() as int) =~= seq![c_y]);
            assert(r.wires() =~= moved(s7, d, 0));
            assert(moved(s7, d, 0) =~= Seq::new(
                self.wires().len(),
                |i: int| soldered_wire(self.wires()[i], d[i]),
            ));
        }
        r
    }
}

proof fn flattened_prefix(v: Seq<Vec<EvaluatedWire>>, n: int)
    requires
        0 <= n <= v.len(),
    ensures
        flattened(v.take(n)).len() <= flattened(v).len(),
    decreases v.len() - n,
{
    if n < v.len() {
        flattened_prefix(v, n + 1);
        assert(v.take(n + 1).drop_last() =~= v.take(n));
    } else {
        assert(v.take(n) =~= v);
    }
}

/// Moving the active label of a wire of the base instance by the offsets of another
/// instance gives the active label of the same value there.
pub proof fn soldering_moves_labels(base: GarbledWire, other: GarbledWire, value: bool)
    ensures
        ({
            let deltas = pair_delta(
                (base.label0.0, base.label1.0),
                (other.label0.0, other.label1.0),
            );
            let wire = EvaluatedWire {
                active_label: crate::gate::selected(base, value),
                value,
            };
            soldered_wire(wire, (S(deltas.0), S(deltas.1))) == (EvaluatedWire {
                active_label: crate::gate::selected(other, value),
                value,
            })
        }),
{
    let (a, b) = (base.label0.0, other.label0.0);
    let (c, d) = (base.label1.0, other.label1.0);
    assert(a ^ (a ^ b) == b && c ^ (c ^ d) == d) by (bit_vector);
}

/// The commitments in the public data are the first commitments to the input labels
/// of the instances, and those with the nonce are the second commitments to those
/// of the base instance.
pub proof fn soldered_commits_are_phase_commits(wire: GarbledWire, nonce: S)
    ensures
        ({
            let pair = (wire.label0.0, wire.label1.0);
            let one = label_commit::<Sha256LabelCommitHasher>(wire.label0, wire.label1, None);
            let two = label_commit::<Sha256LabelCommitHasher>(
                wire.label0,
                wire.label1,
                Some(nonce),
            );
            &&& plain_commit(pair) == (one.commit_false, one.commit_true)
            &&& pair_commit(pair, nonce.0) == (two.commit_false, two.commit_true)
        }),
{
}

/// The wires of a compressed proof's input stand in the order of its parts: the public
/// inputs one after the other, then the coordinate and the flag of the first point, both
/// coordinates and the flag of the second, and the coordinate and the flag of the third.
pub proof fn proof_wires_stand_in_order(input: EvaluatorCompressedInput)
    ensures
        ({
            let all = input.wires();
            let p = flattened(input.public@).len() as int;
            let q = p + input.a.x@.len();
            let r = q + 1 + input.b.x0@.len();
            let s = r + input.b.x1@.len();
            let t = s + 1 + input.c.x@.len();
            &&& all.len() == t + 1
            &&& all.subrange(0, p) == flattened(input.public@)
            &&& all.subrange(p, q) == input.a.x@
            &&& all[q] == input.a.y_flag
            &&& all.subrange(q + 1, r) == input.b.x0@
            &&& all.subrange(r, s) == input.b.x1@
            &&& all[s] == input.b.y_flag
            &&& all.subrange(s + 1, t) == input.c.x@
            &&& all[t] == input.c.y_flag
        }),
{
    let all = input.wires();
    let p = flattened(input.public@).len() as int;
    let q = p + input.a.x@.len();
    let r = q + 1 + input.b.x0@.len();
    let s = r + input.b.x1@.len();
    let t = s + 1 + input.c.x@.len();
    assert(all.subrange(0, p) =~= flattened(input.public@));
    assert(all.subrange(p, q) =~= input.a.x@);
    assert(all.subrange(q + 1, r) =~= input.b.x0@);
    assert(all.subrange(r, s) =~= input.b.x1@);
    assert(all.subrange(s + 1, t) =~= input.c.x@);
}

/// Parts that are put one after the other keep their order.
pub proof fn flattened_keeps_order(v: Seq<Vec<EvaluatedWire>>)
    ensures
        flattened(v) == Seq::new(v.len(), |i: int| v[i]@).flatten(),
    decreases v.len(),
{
    let parts = Seq::new(v.len(), |i: int| v[i]@);
    if v.len() > 0 {
        flattened_keeps_order(v.drop_last());
        assert(parts.drop_last() =~= Seq::new((v.len() - 1) as nat, |i: int| v.drop_last()[i]@));
        parts.drop_last().lemma_flatten_and_flatten_alt_are_equivalent();
    }
    parts.lemma_flatten_and_flatten_alt_are_equivalent();
}

} // verus!
