//! Cut-and-choose with soldering: the inputs of the finalized instances are tied
//! together, so that the labels of one instance give those of all.

use crate::bytes::same_bytes;
use crate::cut_and_choose::commit::{
    commit_input_wires, commit_output_false, commit_output_true, copy_commits, input_commits,
    phase_one, CommitPhaseOne, CommitPhaseTwo, Config, GarbledInstance, LabelCommit,
    LabelCommitHasher, PhaseOneView, Sha256LabelCommitHasher,
};
use crate::cut_and_choose::errors::ConsistencyError;
use crate::cut_and_choose::evaluator::{
    fair_draws, outcome_of, sampled, EvaluatedCase, EvaluationResult, EvaluatorCaseInput, Evidence,
    Stage,
};
use crate::cut_and_choose::garbler::{
    input_of, phase_ones, phase_twos, Garbler, GarblerStage,
};
use crate::gate::GarbledWire;
use crate::hashers::GateHasher;
use crate::modes::evaluate::EvaluatedWire;
use crate::s::S;
use crate::soldering_data::{
    raw_labels, rows, soldered, soldered_wire, soldering_moves_labels, wires_input, Sha256Commit, SolderInput, SolderedLabels,
    SolderedView, WiresInput,
};
use crate::sorting::{ascending, ascending_keeps_elements, sort_indexes};
use crate::text::{decimal_text, hex_text, write_commit_hex, write_decimal};
use vstd::prelude::*;
use vstd::string::StringExecFns;

verus! {

/// Why soldering data is not accepted.
#[derive(Debug)]
pub enum SolderingCheckError {
    /// The data does not have the shape of the local commitments.
    ShapeMismatch(&'static str),
    /// A commitment to a label of the base instance differs.
    BaseCommitMismatch {
        wire_index: usize,
        which: &'static str,
        expected: Sha256Commit,
        actual: Sha256Commit,
    },
    /// A commitment to a label of the base instance with the nonce differs.
    BaseNonceCommitMismatch {
        wire_index: usize,
        which: &'static str,
        expected: Sha256Commit,
        actual: Sha256Commit,
    },
    /// A commitment to a label of a further instance differs.
    InstanceCommitMismatch {
        instance_index: usize,
        wire_index: usize,
        which: &'static str,
        expected: Sha256Commit,
        actual: Sha256Commit,
    },
    /// The proof was not accepted.
    SolderingFailed(String),
}

/// The numbers of a list, separated by commas.
pub open spec fn number_list(bytes: Seq<u8>) -> Seq<char>
    decreases bytes.len(),
{
    if bytes.len() == 0 {
        seq![]
    } else if bytes.len() == 1 {
        decimal_text(bytes[0] as nat)
    } else {
        number_list(bytes.drop_last()) + ", "@ + decimal_text(bytes.last() as nat)
    }
}

/// A list of bytes as numbers in brackets.
pub open spec fn bytes_text(bytes: Seq<u8>) -> Seq<char> {
    "["@ + number_list(bytes) + "]"@
}

fn write_bytes(out: &mut String, bytes: &[u8])
    ensures
        final(out)@ == old(out)@ + bytes_text(bytes@),
{
    out.append("[");
    let ghost start = out@;
    let mut i: usize = 0;
    assert(bytes@.take(0) =~= Seq::<u8>::empty());
    assert(out@ =~= start + number_list(bytes@.take(0)));
    while i < bytes.len()
        invariant
            i <= bytes@.len(),
            out@ == start + number_list(bytes@.take(i as int)),
        decreases bytes@.len() - i,
    {
        let ghost next = bytes@.take(i + 1);
        assert(next.drop_last() =~= bytes@.take(i as int));
        assert(next.last() == bytes@[i as int]);
        if i > 0 {
            out.append(", ");
        }
        write_decimal(out, bytes[i] as usize);
        assert(out@ =~= start + number_list(next));
        i = i + 1;
    }
    assert(bytes@.take(bytes@.len() as int) =~= bytes@);
    out.append("]");
    assert(out@ =~= old(out)@ + bytes_text(bytes@));
}

/// The text of an error, with commitments as lists of numbers.
pub open spec fn soldering_text(e: SolderingCheckError) -> Seq<char> {
    match e {
        SolderingCheckError::ShapeMismatch(msg) => "Shape mismatch: "@ + msg@,
        SolderingCheckError::BaseCommitMismatch { wire_index, which, expected, actual } =>
            "Base commit mismatch at wire "@ + decimal_text(wire_index as nat) + ", "@ + which@
                + ": expected "@ + bytes_text(expected@) + ", actual "@ + bytes_text(actual@),
        SolderingCheckError::BaseNonceCommitMismatch { wire_index, which, expected, actual } =>
            "Base nonce commit mismatch at wire "@ + decimal_text(wire_index as nat) + ", "@
                + which@ + ": expected "@ + bytes_text(expected@) + ", actual "@ + bytes_text(
                actual@,
            ),
        SolderingCheckError::InstanceCommitMismatch {
            instance_index,
            wire_index,
            which,
            expected,
            actual,
        } => "Instance "@ + decimal_text(instance_index as nat) + " commit mismatch at wire "@
            + decimal_text(wire_index as nat) + ", "@ + which@ + ": expected "@ + bytes_text(
            expected@,
        ) + ", actual "@ + bytes_text(actual@),
        SolderingCheckError::SolderingFailed(msg) => "Soldering verification failed: "@ + msg@,
    }
}

/// The text of an error, with commitments in hexadecimal.
pub open spec fn soldering_hex_text(e: SolderingCheckError) -> Seq<char> {
    match e {
        SolderingCheckError::ShapeMismatch(msg) => "soldering data shape mismatch: "@ + msg@,
        SolderingCheckError::BaseCommitMismatch { wire_index, which, expected, actual } =>
            "base commit mismatch at wire "@ + decimal_text(wire_index as nat) + " ("@ + which@
                + "): expected 0x"@ + hex_text(expected@) + ", got 0x"@ + hex_text(actual@),
        SolderingCheckError::BaseNonceCommitMismatch { wire_index, which, expected, actual } =>
            "base nonce commit mismatch at wire "@ + decimal_text(wire_index as nat) + " ("@
                + which@ + "): expected 0x"@ + hex_text(expected@) + ", got 0x"@ + hex_text(
                actual@,
            ),
        SolderingCheckError::InstanceCommitMismatch {
            instance_index,
            wire_index,
            which,
            expected,
            actual,
        } => "instance "@ + decimal_text(instance_index as nat) + " commit mismatch at wire "@
            + decimal_text(wire_index as nat) + " ("@ + which@ + "): expected 0x"@ + hex_text(
            expected@,
        ) + ", got 0x"@ + hex_text(actual@),
        SolderingCheckError::SolderingFailed(msg) => "soldering verification failed: "@ + msg@,
    }
}

impl SolderingCheckError {
    /// The text of the error, with commitments as lists of numbers.
    pub fn fmt(&self) -> (r: String)
        ensures
            r@ == soldering_text(*self),
    {
        let mut out = String::new();
        match self {
            SolderingCheckError::ShapeMismatch(msg) => {
                out.append("Shape mismatch: ");
                out.append(msg);
            },
            SolderingCheckError::BaseCommitMismatch { wire_index, which, expected, actual } => {
                out.append("Base commit mismatch at wire ");
                write_decimal(&mut out, *wire_index);
                out.append(", ");
                out.append(which);
                out.append(": expected ");
                write_bytes(&mut out, expected.as_slice());
                out.append(", actual ");
                write_bytes(&mut out, actual.as_slice());
            },
            SolderingCheckError::BaseNonceCommitMismatch {
                wire_index,
                which,
                expected,
                actual,
            } => {
                out.append("Base nonce commit mismatch at wire ");
                write_decimal(&mut out, *wire_index);
                out.append(", ");
                out.append(which);
                out.append(": expected ");
                write_bytes(&mut out, expected.as_slice());
                out.append(", actual ");
                write_bytes(&mut out, actual.as_slice());
            },
            SolderingCheckError::InstanceCommitMismatch {
                instance_index,
                wire_index,
                which,
                expected,
                actual,
            } => {
                out.append("Instance ");
                write_decimal(&mut out, *instance_index);
                out.append(" commit mismatch at wire ");
                write_decimal(&mut out, *wire_index);
                out.append(", ");
                out.append(which);
                out.append(": expected ");
                write_bytes(&mut out, expected.as_slice());
                out.append(", actual ");
                write_bytes(&mut out, actual.as_slice());
            },
            SolderingCheckError::SolderingFailed(msg) => {
                out.append("Soldering verification failed: ");
                out.append(msg.as_str());
            },
        }
        assert(out@ =~= soldering_text(*self));
        out
    }

    /// The text of the error, with commitments in hexadecimal.
    pub fn fmt_hex(&self) -> (r: String)
        ensures
            r@ == soldering_hex_text(*self),
    {
        let mut out = String::new();
        match self {
            SolderingCheckError::ShapeMismatch(msg) => {
                out.append("soldering data shape mismatch: ");
                out.append(msg);
            },
            SolderingCheckError::BaseCommitMismatch { wire_index, which, expected, actual } => {
                out.append("base commit mismatch at wire ");
                write_decimal(&mut out, *wire_index);
                out.append(" (");
                out.append(which);
                out.append("): expected 0x");
                write_commit_hex(&mut out, expected.as_slice());
                out.append(", got 0x");
                write_commit_hex(&mut out, actual.as_slice());
            },
            SolderingCheckError::BaseNonceCommitMismatch {
                wire_index,
                which,
                expected,
                actual,
            } => {
                out.append("base nonce commit mismatch at wire ");
                write_decimal(&mut out, *wire_index);
                out.append(" (");
                out.append(which);
                out.append("): expected 0x");
                write_commit_hex(&mut out, expected.as_slice());
                out.append(", got 0x");
                write_commit_hex(&mut out, actual.as_slice());
            },
            SolderingCheckError::InstanceCommitMismatch {
                instance_index,
                wire_index,
                which,
                expected,
                actual,
            } => {
                out.append("instance ");
                write_decimal(&mut out, *instance_index);
                out.append(" commit mismatch at wire ");
                write_decimal(&mut out, *wire_index);
                out.append(" (");
                out.append(which);
                out.append("): expected 0x");
                write_commit_hex(&mut out, expected.as_slice());
                out.append(", got 0x");
                write_commit_hex(&mut out, actual.as_slice());
            },
            SolderingCheckError::SolderingFailed(msg) => {
                out.append("soldering verification failed: ");
                out.append(msg.as_str());
            },
        }
        assert(out@ =~= soldering_hex_text(*self));
        out
    }
}

/// The commitments of an instance as pairs.
pub open spec fn commit_pairs(commits: Seq<LabelCommit<[u8; 32]>>) -> Seq<
    (Sha256Commit, Sha256Commit),
> {
    Seq::new(commits.len(), |i: int| (commits[i].commit_false, commits[i].commit_true))
}

fn pairs_of(commits: &Vec<LabelCommit<[u8; 32]>>) -> (r: Vec<(Sha256Commit, Sha256Commit)>)
    ensures
        r@ == commit_pairs(commits@),
{
    let mut r: Vec<(Sha256Commit, Sha256Commit)> = Vec::new();
    let mut i: usize = 0;
    while i < commits.len()
        invariant
            i <= commits@.len(),
            r@.len() == i,
            forall|k: int|
                0 <= k < i ==> #[trigger] r@[k] == (
                    commits@[k].commit_false,
                    commits@[k].commit_true,
                ),
        decreases commits@.len() - i,
    {
        r.push((commits[i].commit_false, commits[i].commit_true));
        i = i + 1;
    }
    assert(r@ =~= commit_pairs(commits@));
    r
}

/// The first difference between local commitments to the base instance and those in
/// the data, from wire `w` on.
pub open spec fn base_fault(
    local: Seq<LabelCommit<[u8; 32]>>,
    data: Seq<(Sha256Commit, Sha256Commit)>,
    w: int,
) -> Option<SolderingCheckError>
    decreases local.len() - w,
{
    if w >= local.len() {
        None
    } else if local[w].commit_false != data[w].0 {
        Some(
            SolderingCheckError::BaseCommitMismatch {
                wire_index: w as usize,
                which: "label0",
                expected: data[w].0,
                actual: local[w].commit_false,
            },
        )
    } else if local[w].commit_true != data[w].1 {
        Some(
            SolderingCheckError::BaseCommitMismatch {
                wire_index: w as usize,
                which: "label1",
                expected: data[w].1,
                actual: local[w].commit_true,
            },
        )
    } else {
        base_fault(local, data, w + 1)
    }
}

/// The first difference between local commitments with the nonce and those in the
/// data, from wire `w` on, as far as both go.
pub open spec fn nonce_fault(
    local: Seq<LabelCommit<[u8; 32]>>,
    data: Seq<(Sha256Commit, Sha256Commit)>,
    w: int,
) -> Option<SolderingCheckError>
    decreases local.len() - w,
{
    if w >= local.len() || w >= data.len() {
        None
    } else if data[w].0 != local[w].commit_false {
        Some(
            SolderingCheckError::BaseNonceCommitMismatch {
                wire_index: w as usize,
                which: "label0_with_nonce",
                expected: local[w].commit_false,
                actual: data[w].0,
            },
        )
    } else if data[w].1 != local[w].commit_true {
        Some(
            SolderingCheckError::BaseNonceCommitMismatch {
                wire_index: w as usize,
                which: "label1_with_nonce",
                expected: local[w].commit_true,
                actual: data[w].1,
            },
        )
    } else {
        nonce_fault(local, data, w + 1)
    }
}

/// The first difference between local commitments to instance `inst` and those in
/// the data, from wire `w` on.
pub open spec fn instance_fault(
    inst: usize,
    local: Seq<LabelCommit<[u8; 32]>>,
    data: Seq<(Sha256Commit, Sha256Commit)>,
    w: int,
) -> Option<SolderingCheckError>
    decreases local.len() - w,
{
    if w >= local.len() {
        None
    } else if local[w].commit_false != data[w].0 {
        Some(
            SolderingCheckError::InstanceCommitMismatch {
                instance_index: inst,
                wire_index: w as usize,
                which: "label0",
                expected: data[w].0,
                actual: local[w].commit_false,
            },
        )
    } else if local[w].commit_true != data[w].1 {
        Some(
            SolderingCheckError::InstanceCommitMismatch {
                instance_index: inst,
                wire_index: w as usize,
                which: "label1",
                expected: data[w].1,
                actual: local[w].commit_true,
            },
        )
    } else {
        instance_fault(inst, local, data, w + 1)
    }
}

/// The first difference between local commitments to the further instances and
/// those in the data, from the `j`th of them on.
pub open spec fn instances_fault<GH: GateHasher>(
    first: Seq<CommitPhaseOne<GH, Sha256LabelCommitHasher>>,
    extra: Seq<usize>,
    data: Seq<Seq<(Sha256Commit, Sha256Commit)>>,
    j: int,
) -> Option<SolderingCheckError>
    decreases extra.len() - j,
{
    if j >= extra.len() {
        None
    } else {
        match instance_fault(
            extra[j],
            first[extra[j] as int].input_commitments@,
            data[j],
            0,
        ) {
            Some(e) => Some(e),
            None => instances_fault(first, extra, data, j + 1),
        }
    }
}

/// Whether each further instance has `wires` local commitments, commitments in the
/// data and offsets.
pub open spec fn shapes_hold<GH: GateHasher>(
    first: Seq<CommitPhaseOne<GH, Sha256LabelCommitHasher>>,
    extra: Seq<usize>,
    data: SolderedView,
    wires: nat,
) -> bool {
    forall|j: int|
        0 <= j < extra.len() ==> first[#[trigger] extra[j] as int].input_commitments@.len() == wires
            && data.commitments[j].len() == wires && data.deltas[j].len() == wires
}

/// Why soldering data does not fit the local commitments to the finalized
/// instances, if it does not. The shape is looked at first, then the base instance,
/// its commitments with the nonce, and the further instances.
pub open spec fn data_fault<GH: GateHasher>(
    first: Seq<CommitPhaseOne<GH, Sha256LabelCommitHasher>>,
    second: Seq<CommitPhaseTwo<Sha256LabelCommitHasher>>,
    finalized: Seq<usize>,
    data: SolderedView,
) -> Option<SolderingCheckError> {
    let base = first[finalized[0] as int].input_commitments@;
    let extra = finalized.skip(1);
    if data.base_commitment.len() != base.len() {
        Some(SolderingCheckError::ShapeMismatch("base commitment wire count"))
    } else if data.deltas.len() != extra.len() {
        Some(SolderingCheckError::ShapeMismatch("deltas count vs additional instances"))
    } else if data.commitments.len() != extra.len() {
        Some(SolderingCheckError::ShapeMismatch("commitments count vs additional instances"))
    } else if !shapes_hold(first, extra, data, base.len()) {
        Some(SolderingCheckError::ShapeMismatch("per-instance wire count"))
    } else {
        match base_fault(base, data.base_commitment, 0) {
            Some(e) => Some(e),
            None => match nonce_fault(
                second[finalized[0] as int].input_commitments@,
                data.base_nonce_commitment,
                0,
            ) {
                Some(e) => Some(e),
                None => instances_fault(first, extra, data.commitments, 0),
            },
        }
    }
}

/// The public data that local commitments and offsets give.
pub open spec fn local_data<GH: GateHasher>(
    first: Seq<CommitPhaseOne<GH, Sha256LabelCommitHasher>>,
    second: Seq<CommitPhaseTwo<Sha256LabelCommitHasher>>,
    finalized: Seq<usize>,
    nonce: S,
    deltas: Seq<Seq<(u128, u128)>>,
) -> SolderedView {
    let base = finalized[0] as int;
    SolderedView {
        deltas,
        base_commitment: commit_pairs(first[base].input_commitments@),
        base_nonce_commitment: commit_pairs(second[base].input_commitments@),
        nonce: nonce.0,
        commitments: Seq::new(
            (finalized.len() - 1) as nat,
            |j: int| commit_pairs(first[finalized[j + 1] as int].input_commitments@),
        ),
    }
}

fn check_base(local: &Vec<LabelCommit<[u8; 32]>>, data: &Vec<(Sha256Commit, Sha256Commit)>) -> (r:
    Result<(), SolderingCheckError>)
    requires
        local@.len() == data@.len(),
    ensures
        match (r, base_fault(local@, data@, 0)) {
            (Ok(_), None) => true,
            (Err(e), Some(f)) => e == f,
            _ => false,
        },
{
    let mut w: usize = 0;
    while w < local.len()
        invariant
            w <= local@.len(),
            local@.len() == data@.len(),
            base_fault(local@, data@, 0) == base_fault(local@, data@, w as int),
        decreases local@.len() - w,
    {
        let (exp0, exp1) = data[w];
        if !same_bytes(&local[w].commit_false, &exp0) {
            return Err(
                SolderingCheckError::BaseCommitMismatch {
                    wire_index: w,
                    which: "label0",
                    expected: exp0,
                    actual: local[w].commit_false,
                },
            );
        }
        if !same_bytes(&local[w].commit_true, &exp1) {
            return Err(
                SolderingCheckError::BaseCommitMismatch {
                    wire_index: w,
                    which: "label1",
                    expected: exp1,
                    actual: local[w].commit_true,
                },
            );
        }
        w = w + 1;
    }
    Ok(())
}

fn check_nonce(local: &Vec<LabelCommit<[u8; 32]>>, data: &Vec<(Sha256Commit, Sha256Commit)>) -> (r:
    Result<(), SolderingCheckError>)
    ensures
        match (r, nonce_fault(local@, data@, 0)) {
            (Ok(_), None) => true,
            (Err(e), Some(f)) => e == f,
            _ => false,
        },
{
    let mut w: usize = 0;
    while w < local.len() && w < data.len()
        invariant
            w <= local@.len(),
            w <= data@.len(),
            nonce_fault(local@, data@, 0) == nonce_fault(local@, data@, w as int),
        decreases local@.len() - w,
    {
        let (got0, got1) = data[w];
        if !same_bytes(&got0, &local[w].commit_false) {
            return Err(
                SolderingCheckError::BaseNonceCommitMismatch {
                    wire_index: w,
                    which: "label0_with_nonce",
                    expected: local[w].commit_false,
                    actual: got0,
                },
            );
        }
        if !same_bytes(&got1, &local[w].commit_true) {
            return Err(
                SolderingCheckError::BaseNonceCommitMismatch {
                    wire_index: w,
                    which: "label1_with_nonce",
                    expected: local[w].commit_true,
                    actual: got1,
                },
            );
        }
        w = w + 1;
    }
    Ok(())
}

fn check_instance(
    inst: usize,
    local: &Vec<LabelCommit<[u8; 32]>>,
    data: &Vec<(Sha256Commit, Sha256Commit)>,
) -> (r: Result<(), SolderingCheckError>)
    requires
        local@.len() == data@.len(),
    ensures
        match (r, instance_fault(inst, local@, data@, 0)) {
            (Ok(_), None) => true,
            (Err(e), Some(f)) => e == f,
            _ => false,
        },
{
    let mut w: usize = 0;
    while w < local.len()
        invariant
            w <= local@.len(),
            local@.len() == data@.len(),
            instance_fault(inst, local@, data@, 0) == instance_fault(inst, local@, data@, w as int),
        decreases local@.len() - w,
    {
        let (exp0, exp1) = data[w];
        if !same_bytes(&local[w].commit_false, &exp0) {
            return Err(
                SolderingCheckError::InstanceCommitMismatch {
                    instance_index: inst,
                    wire_index: w,
                    which: "label0",
                    expected: exp0,
                    actual: local[w].commit_false,
                },
            );
        }
        if !same_bytes(&local[w].commit_true, &exp1) {
            return Err(
                SolderingCheckError::InstanceCommitMismatch {
                    instance_index: inst,
                    wire_index: w,
                    which: "label1",
                    expected: exp1,
                    actual: local[w].commit_true,
                },
            );
        }
        w = w + 1;
    }
    Ok(())
}

/// Compares soldering data with the local commitments to the finalized instances,
/// the first of which is the base.
pub fn check_data<GH: GateHasher>(
    first: &Vec<CommitPhaseOne<GH, Sha256LabelCommitHasher>>,
    second: &Vec<CommitPhaseTwo<Sha256LabelCommitHasher>>,
    finalized: &Vec<usize>,
    data: &SolderedLabels,
) -> (r: Result<(), SolderingCheckError>)
    requires
        finalized@.len() > 0,
        finalized@[0] < second@.len(),
        forall|i: int| 0 <= i < finalized@.len() ==> (#[trigger] finalized@[i]) < first@.len(),
    ensures
        match (r, data_fault(first@, second@, finalized@, data@)) {
            (Ok(_), None) => true,
            (Err(e), Some(f)) => e == f,
            _ => false,
        },
{
    let ghost extra = finalized@.skip(1);
    let n_extra: usize = finalized.len() - 1;
    let base: usize = finalized[0];
    let wires: usize = first[base].input_commitments.len();
    if data.base_commitment.len() != wires {
        return Err(SolderingCheckError::ShapeMismatch("base commitment wire count"));
    }
    if data.deltas.len() != n_extra {
        return Err(SolderingCheckError::ShapeMismatch("deltas count vs additional instances"));
    }
    if data.commitments.len() != n_extra {
        return Err(SolderingCheckError::ShapeMismatch("commitments count vs additional instances"));
    }
    let mut j: usize = 0;
    while j < n_extra
        invariant
            j <= n_extra,
            n_extra == finalized@.len() - 1,
            extra == finalized@.skip(1),
            n_extra == data.deltas@.len(),
            n_extra == data.commitments@.len(),
            base == finalized@[0],
            wires == first@[base as int].input_commitments@.len(),
            data.base_commitment@.len() == wires,
            forall|i: int| 0 <= i < finalized@.len() ==> (#[trigger] finalized@[i]) < first@.len(),
            forall|i: int|
                0 <= i < j ==> first@[#[trigger] extra[i] as int].input_commitments@.len() == wires
                    && data@.commitments[i].len() == wires && data@.deltas[i].len() == wires,
        decreases n_extra - j,
    {
        let inst: usize = finalized[j + 1];
        assert(extra[j as int] == inst);
        if first[inst].input_commitments.len() != wires || data.commitments[j].len() != wires
            || data.deltas[j].len() != wires {
            assert(!shapes_hold(first@, extra, data@, wires as nat));
            return Err(SolderingCheckError::ShapeMismatch("per-instance wire count"));
        }
        j = j + 1;
    }
    assert(shapes_hold(first@, extra, data@, wires as nat));
    match check_base(&first[base].input_commitments, &data.base_commitment) {
        Ok(_) => (),
        Err(e) => {
            return Err(e);
        },
    }
    match check_nonce(&second[base].input_commitments, &data.base_nonce_commitment) {
        Ok(_) => (),
        Err(e) => {
            return Err(e);
        },
    }
    let mut k: usize = 0;
    while k < n_extra
        invariant
            k <= n_extra,
            n_extra == finalized@.len() - 1,
            extra == finalized@.skip(1),
            n_extra == data.commitments@.len(),
            forall|i: int| 0 <= i < finalized@.len() ==> (#[trigger] finalized@[i]) < first@.len(),
            shapes_hold(first@, extra, data@, wires as nat),
            data_fault(first@, second@, finalized@, data@) == instances_fault(
                first@,
                extra,
                data@.commitments,
                k as int,
            ),
        decreases n_extra - k,
    {
        let inst: usize = finalized[k + 1];
        assert(extra[k as int] == inst);
        assert(data@.commitments[k as int] == data.commitments@[k as int]@);
        match check_instance(inst, &first[inst].input_commitments, &data.commitments[k]) {
            Ok(_) => (),
            Err(e) => {
                return Err(e);
            },
        }
        k = k + 1;
    }
    Ok(())
}

/// How far soldering is.
pub enum SolderingStage<GH: GateHasher, LH: LabelCommitHasher> {
    /// Nothing is soldered.
    Vanilla,
    /// The finalized instances are soldered.
    Soldered {
        first: Vec<CommitPhaseOne<GH, LH>>,
        second: Vec<CommitPhaseTwo<LH>>,
        soldering_deltas: Vec<Vec<(S, S)>>,
    },
}

/// An evaluator that can solder the finalized instances.
pub struct Evaluator<I, GH: GateHasher, LH: LabelCommitHasher> {
    pub inner: crate::cut_and_choose::evaluator::Evaluator<I, GH, LH>,
    pub soldering_stage: SolderingStage<GH, LH>,
}

/// The offsets as labels.
pub open spec fn label_deltas(deltas: Seq<Seq<(u128, u128)>>) -> Seq<Seq<(S, S)>> {
    Seq::new(
        deltas.len(),
        |j: int| Seq::new(deltas[j].len(), |w: int| (S(deltas[j][w].0), S(deltas[j][w].1))),
    )
}

fn to_label_deltas(deltas: &Vec<Vec<(u128, u128)>>) -> (r: Vec<Vec<(S, S)>>)
    ensures
        rows(r@) == label_deltas(rows(deltas@)),
{
    let mut r: Vec<Vec<(S, S)>> = Vec::new();
    let mut j: usize = 0;
    while j < deltas.len()
        invariant
            j <= deltas@.len(),
            r@.len() == j,
            forall|k: int|
                0 <= k < j ==> (#[trigger] r@[k])@ == label_deltas(rows(deltas@))[k],
        decreases deltas@.len() - j,
    {
        let row = &deltas[j];
        let mut out: Vec<(S, S)> = Vec::new();
        let mut w: usize = 0;
        while w < row.len()
            invariant
                w <= row@.len(),
                out@.len() == w,
                forall|k: int| 0 <= k < w ==> #[trigger] out@[k] == (S(row@[k].0), S(row@[k].1)),
            decreases row@.len() - w,
        {
            out.push((S::from_u128(row[w].0), S::from_u128(row[w].1)));
            w = w + 1;
        }
        assert(out@ =~= label_deltas(rows(deltas@))[j as int]);
        r.push(out);
        j = j + 1;
    }
    assert(rows(r@) =~= label_deltas(rows(deltas@)));
    r
}

/// The contents of a list of first commitments.
pub open spec fn first_views<GH: GateHasher, LH: LabelCommitHasher>(
    v: Seq<CommitPhaseOne<GH, LH>>,
) -> Seq<PhaseOneView<GH, LH>> {
    Seq::new(v.len(), |i: int| v[i]@)
}

/// The contents of a list of second commitments.
pub open spec fn second_views<LH: LabelCommitHasher>(v: Seq<CommitPhaseTwo<LH>>) -> Seq<
    Seq<LabelCommit<LH::Output>>,
> {
    Seq::new(v.len(), |i: int| v[i].input_commitments@)
}

fn copy_first<GH: GateHasher, LH: LabelCommitHasher>(v: &Vec<CommitPhaseOne<GH, LH>>) -> (r: Vec<
    CommitPhaseOne<GH, LH>,
>)
    ensures
        first_views(r@) == first_views(v@),
{
    let mut r: Vec<CommitPhaseOne<GH, LH>> = Vec::new();
    let mut i: usize = 0;
    while i < v.len()
        invariant
            i <= v@.len(),
            r@.len() == i,
            forall|k: int| 0 <= k < i ==> (#[trigger] r@[k])@ == v@[k]@,
        decreases v@.len() - i,
    {
        r.push(v[i].duplicate());
        i = i + 1;
    }
    assert(first_views(r@) =~= first_views(v@));
    r
}

fn copy_second<LH: LabelCommitHasher>(v: &Vec<CommitPhaseTwo<LH>>) -> (r: Vec<CommitPhaseTwo<LH>>)
    ensures
        second_views(r@) == second_views(v@),
{
    let mut r: Vec<CommitPhaseTwo<LH>> = Vec::new();
    let mut i: usize = 0;
    while i < v.len()
        invariant
            i <= v@.len(),
            r@.len() == i,
            forall|k: int|
                0 <= k < i ==> (#[trigger] r@[k]).input_commitments@ == v@[k].input_commitments@,
        decreases v@.len() - i,
    {
        r.push(v[i].duplicate());
        i = i + 1;
    }
    assert(second_views(r@) =~= second_views(v@));
    r
}

/// Why the soldering of the finalized instances is refused, if it is.
pub open spec fn soldering_fault<GH: GateHasher>(
    first: Seq<CommitPhaseOne<GH, Sha256LabelCommitHasher>>,
    finalized: Seq<usize>,
    deltas: Seq<Seq<(u128, u128)>>,
    proof_valid: bool,
) -> Option<&'static str> {
    let wires = first[finalized[0] as int].input_commitments@.len();
    if finalized.len() == 0 {
        Some("finalized_indexes must contain at least one index")
    } else if !proof_valid {
        Some("Soldering verification failed")
    } else if deltas.len() != finalized.len() - 1 {
        Some("deltas count vs additional instances")
    } else if exists|j: int|
        1 <= j < finalized.len() && (first[#[trigger] finalized[j] as int].input_commitments@.len()
            != wires || deltas[j - 1].len() != wires) {
        Some("per-instance wire count")
    } else {
        None
    }
}

/// What came of the soldering with these offsets when the check of a proof on the local
/// data had the outcome `proof_valid`: the offsets are kept for evaluation, or the
/// soldering is refused and nothing changes.
pub open spec fn soldering_settled<I, GH: GateHasher>(
    pre: Evaluator<I, GH, Sha256LabelCommitHasher>,
    deltas: Seq<Seq<(u128, u128)>>,
    proof_valid: bool,
    r: Result<SolderedLabels, SolderingCheckError>,
    post: Evaluator<I, GH, Sha256LabelCommitHasher>,
) -> bool {
    let finalized = pre.inner.finalized_indexes@;
    &&& post.inner == pre.inner
    &&& match soldering_fault(pre.inner.stage->first@, finalized, deltas, proof_valid) {
        Some(msg) => {
            &&& post.soldering_stage == pre.soldering_stage
            &&& r matches Err(e) && if finalized.len() > 0 && !proof_valid {
                e matches SolderingCheckError::SolderingFailed(m) && m@ == msg@
            } else {
                e == SolderingCheckError::ShapeMismatch(msg)
            }
        },
        None => {
            &&& r matches Ok(data) && data@ == pre.soldering_data(deltas)
            &&& post.soldering_stage matches SolderingStage::Soldered {
                first,
                second,
                soldering_deltas,
            } && first_views(first@) == first_views(pre.inner.stage->first@) && second_views(
                second@,
            ) == second_views(pre.inner.stage->Filled_second@) && rows(soldering_deltas@)
                == label_deltas(deltas)
        },
    }
}

impl<I, GH: GateHasher> Evaluator<I, GH, Sha256LabelCommitHasher> {
    /// Whether both commitments to every finalized instance are known.
    pub open spec fn can_state_soldering(&self) -> bool {
        &&& self.inner.stage is Filled
        &&& forall|i: int|
            0 <= i < self.inner.finalized_indexes@.len() ==> (
            #[trigger] self.inner.finalized_indexes@[i]) < self.inner.stage->first@.len() && (
            self.inner.finalized_indexes@[i] < self.inner.stage->Filled_second@.len())
    }

    /// The public data made of the local commitments and these offsets.
    pub open spec fn soldering_data(&self, deltas: Seq<Seq<(u128, u128)>>) -> SolderedView {
        local_data(
            self.inner.stage->first@,
            self.inner.stage->Filled_second@,
            self.inner.finalized_indexes@,
            self.inner.nonce,
            deltas,
        )
    }

    /// The public data that a soldering proof with these offsets is to be checked
    /// against; nothing if no instance is finalized.
    pub fn soldering_statement(&self, deltas: Vec<Vec<(u128, u128)>>) -> (r: Option<SolderedLabels>)
        requires
            self.can_state_soldering(),
        ensures
            match r {
                Some(data) => self.inner.finalized_indexes@.len() > 0 && data@
                    == self.soldering_data(rows(deltas@)),
                None => self.inner.finalized_indexes@.len() == 0,
            },
    {
        if self.inner.finalized_indexes.len() == 0 {
            return None;
        }
        match &self.inner.stage {
            Stage::Filled { first, second } => {
                let finalized = &self.inner.finalized_indexes;
                let base: usize = finalized[0];
                let base_commitment = pairs_of(&first[base].input_commitments);
                let base_nonce_commitment = pairs_of(&second[base].input_commitments);
                let mut commitments: Vec<Vec<(Sha256Commit, Sha256Commit)>> = Vec::new();
                let mut j: usize = 1;
                while j < finalized.len()
                    invariant
                        1 <= j <= finalized@.len(),
                        commitments@.len() == j - 1,
                        forall|i: int|
                            0 <= i < finalized@.len() ==> (#[trigger] finalized@[i]) < first@.len(),
                        forall|k: int|
                            0 <= k < j - 1 ==> (#[trigger] commitments@[k])@ == commit_pairs(
                                first@[finalized@[k + 1] as int].input_commitments@,
                            ),
                    decreases finalized@.len() - j,
                {
                    commitments.push(pairs_of(&first[finalized[j]].input_commitments));
                    j = j + 1;
                }
                let data = SolderedLabels {
                    deltas,
                    base_commitment,
                    base_nonce_commitment,
                    nonce: self.inner.nonce.to_u128(),
                    commitments,
                };
                proof {
                    let want = local_data(
                        first@,
                        second@,
                        finalized@,
                        self.inner.nonce,
                        rows(deltas@),
                    );
                    assert(data@.commitments =~= want.commitments);
                }
                Some(data)
            },
            _ => None,
        }
    }

    /// Checks the soldering of the finalized instances: `verify` says if a proof holds
    /// for the public data made of the local commitments and these offsets. If it does
    /// and the shapes fit too, the offsets are kept for evaluation.
    pub fn verify_soldering_against_commits<F: Fn(&SolderedLabels) -> bool>(
        &mut self,
        deltas: Vec<Vec<(u128, u128)>>,
        verify: F,
    ) -> (r: Result<SolderedLabels, SolderingCheckError>)
        requires
            old(self).can_state_soldering(),
            forall|data: &SolderedLabels|
                old(self).inner.finalized_indexes@.len() > 0 && data@ == old(
                    self,
                ).soldering_data(rows(deltas@)) ==> #[trigger] verify.requires((data,)),
        ensures
            old(self).inner.finalized_indexes@.len() == 0 ==> soldering_settled(
                *old(self),
                rows(deltas@),
                false,
                r,
                *final(self),
            ),
            old(self).inner.finalized_indexes@.len() > 0 ==> exists|
                data: &SolderedLabels,
                valid: bool,
            |
                {
                    &&& data@ == old(self).soldering_data(rows(deltas@))
                    &&& #[trigger] verify.ensures((data,), valid)
                    &&& soldering_settled(*old(self), rows(deltas@), valid, r, *final(self))
                },
    {
        let ghost all = rows(deltas@);
        let soldering_deltas = to_label_deltas(&deltas);
        let data = match self.soldering_statement(deltas) {
            Some(data) => data,
            None => {
                return Err(no_finalized_instance());
            },
        };
        let valid = verify(&data);
        let ghost stated = data;
        let r = self.settle_soldering(data, soldering_deltas, valid, Ghost(all));
        assert(verify.ensures((&stated,), valid));
        r
    }

    /// The outcome of the soldering of the finalized instances once a proof on the local
    /// commitments and these offsets was checked with the outcome `proof_valid`.
    pub fn accept_soldering(&mut self, deltas: Vec<Vec<(u128, u128)>>, proof_valid: bool) -> (r:
        Result<SolderedLabels, SolderingCheckError>)
        requires
            old(self).can_state_soldering(),
        ensures
            soldering_settled(*old(self), rows(deltas@), proof_valid, r, *final(self)),
    {
        let ghost all = rows(deltas@);
        let soldering_deltas = to_label_deltas(&deltas);
        match self.soldering_statement(deltas) {
            Some(data) => self.settle_soldering(data, soldering_deltas, proof_valid, Ghost(all)),
            None => Err(no_finalized_instance()),
        }
    }

    fn settle_soldering(
        &mut self,
        data: SolderedLabels,
        soldering_deltas: Vec<Vec<(S, S)>>,
        proof_valid: bool,
        Ghost(all): Ghost<Seq<Seq<(u128, u128)>>>,
    ) -> (r: Result<SolderedLabels, SolderingCheckError>)
        requires
            old(self).can_state_soldering(),
            old(self).inner.finalized_indexes@.len() > 0,
            data@ == old(self).soldering_data(all),
            rows(soldering_deltas@) == label_deltas(all),
        ensures
            soldering_settled(*old(self), all, proof_valid, r, *final(self)),
    {
        if !proof_valid {
            let mut msg = String::new();
            msg.append("Soldering verification failed");
            assert(msg@ =~= "Soldering verification failed"@);
            return Err(SolderingCheckError::SolderingFailed(msg));
        }
        match &self.inner.stage {
            Stage::Filled { first, second } => {
                let checked = check_data(first, second, &self.inner.finalized_indexes, &data);
                proof {
                    local_data_fits(
                        first@,
                        second@,
                        self.inner.finalized_indexes@,
                        self.inner.nonce,
                        all,
                    );
                }
                match checked {
                    Ok(_) => {
                        let first_copy = copy_first(first);
                        let second_copy = copy_second(second);
                        self.soldering_stage = SolderingStage::Soldered {
                            first: first_copy,
                            second: second_copy,
                            soldering_deltas,
                        };
                        Ok(data)
                    },
                    Err(e) => Err(e),
                }
            },
            _ => Ok(data),
        }
    }
}

fn no_finalized_instance() -> (r: SolderingCheckError)
    ensures
        r == SolderingCheckError::ShapeMismatch(
            "finalized_indexes must contain at least one index",
        ),
{
    SolderingCheckError::ShapeMismatch("finalized_indexes must contain at least one index")
}

/// Local data differs from the local commitments in nothing but its shape.
proof fn local_data_fits<GH: GateHasher>(
    first: Seq<CommitPhaseOne<GH, Sha256LabelCommitHasher>>,
    second: Seq<CommitPhaseTwo<Sha256LabelCommitHasher>>,
    finalized: Seq<usize>,
    nonce: S,
    deltas: Seq<Seq<(u128, u128)>>,
)
    requires
        finalized.len() > 0,
    ensures
        data_fault(first, second, finalized, local_data(first, second, finalized, nonce, deltas))
            == match soldering_fault(first, finalized, deltas, true) {
            Some(msg) => Some(SolderingCheckError::ShapeMismatch(msg)),
            None => None,
        },
{
    let data = local_data(first, second, finalized, nonce, deltas);
    let base = first[finalized[0] as int].input_commitments@;
    let extra = finalized.skip(1);
    no_base_fault(base, 0);
    no_nonce_fault(second[finalized[0] as int].input_commitments@, 0);
    no_instances_fault(first, extra, data.commitments, 0);
    if deltas.len() == finalized.len() - 1 {
        if shapes_hold(first, extra, data, base.len()) {
            assert forall|j: int| 1 <= j < finalized.len() implies first[
                #[trigger] finalized[j] as int].input_commitments@.len() == base.len() && deltas[j
                - 1].len() == base.len() by {
                assert(extra[j - 1] == finalized[j]);
            }
        } else {
            let j = choose|j: int|
                0 <= j < extra.len() && !(first[#[trigger] extra[j] as int].input_commitments@.len()
                    == base.len() && data.commitments[j].len() == base.len() && data.deltas[j].len()
                    == base.len());
            assert(finalized[j + 1] == extra[j]);
        }
    }
}

proof fn no_base_fault(commits: Seq<LabelCommit<[u8; 32]>>, w: int)
    requires
        0 <= w,
    ensures
        base_fault(commits, commit_pairs(commits), w) is None,
    decreases commits.len() - w,
{
    if w < commits.len() {
        no_base_fault(commits, w + 1);
    }
}

proof fn no_nonce_fault(commits: Seq<LabelCommit<[u8; 32]>>, w: int)
    requires
        0 <= w,
    ensures
        nonce_fault(commits, commit_pairs(commits), w) is None,
    decreases commits.len() - w,
{
    if w < commits.len() {
        no_nonce_fault(commits, w + 1);
    }
}

proof fn no_instance_fault(inst: usize, commits: Seq<LabelCommit<[u8; 32]>>, w: int)
    requires
        0 <= w,
    ensures
        instance_fault(inst, commits, commit_pairs(commits), w) is None,
    decreases commits.len() - w,
{
    if w < commits.len() {
        no_instance_fault(inst, commits, w + 1);
    }
}

proof fn no_instances_fault<GH: GateHasher>(
    first: Seq<CommitPhaseOne<GH, Sha256LabelCommitHasher>>,
    extra: Seq<usize>,
    data: Seq<Seq<(Sha256Commit, Sha256Commit)>>,
    j: int,
)
    requires
        0 <= j,
        data.len() == extra.len(),
        forall|k: int|
            0 <= k < extra.len() ==> #[trigger] data[k] == commit_pairs(
                first[extra[k] as int].input_commitments@,
            ),
    ensures
        instances_fault(first, extra, data, j) is None,
    decreases extra.len() - j,
{
    if j < extra.len() {
        assert(data[j] == commit_pairs(first[extra[j] as int].input_commitments@));
        no_instance_fault(extra[j], first[extra[j] as int].input_commitments@, 0);
        no_instances_fault(first, extra, data, j + 1);
    }
}

impl<I, GH: GateHasher, LH: LabelCommitHasher> Evaluator<I, GH, LH> {
    /// An evaluator that knows the first commitments. The instances to finalize
    /// follow from random draws, and the nonce is a random draw.
    pub fn create(
        draws: &[usize],
        nonce: u128,
        config: Config<I>,
        commits: Vec<CommitPhaseOne<GH, LH>>,
    ) -> (r: Self)
        requires
            config.finalized_count <= config.total,
            commits@.len() == config.total,
            fair_draws(config.total as nat, draws@),
        ensures
            r.inner.stage == Stage::<GH, LH>::Created(commits),
            r.inner.finalized_indexes@ == sampled(
                config.total as nat,
                config.finalized_count as nat,
                draws@,
            ),
            r.inner.config == config,
            r.inner.nonce == S(nonce),
            !r.inner.regarbled,
            r.soldering_stage is Vanilla,
    {
        Evaluator {
            inner: crate::cut_and_choose::evaluator::Evaluator::create(
                draws,
                nonce,
                config,
                commits,
            ),
            soldering_stage: SolderingStage::Vanilla,
        }
    }

    pub fn config(&self) -> (r: &Config<I>)
        ensures
            *r == self.inner.config,
    {
        self.inner.config()
    }

    /// Takes in the second commitments.
    pub fn fill_second_commit(&mut self, commits: Vec<CommitPhaseTwo<LH>>)
        requires
            old(self).inner.stage is Created,
        ensures
            final(self).inner.stage == (Stage::<GH, LH>::Filled {
                first: old(self).inner.stage->Created_0,
                second: commits,
            }),
            final(self).inner == (crate::cut_and_choose::evaluator::Evaluator {
                stage: final(self).inner.stage,
                ..old(self).inner
            }),
            final(self).soldering_stage == old(self).soldering_stage,
    {
        self.inner.fill_second_commit(commits);
    }

    pub fn get_nonce(&self) -> (r: S)
        ensures
            r == self.inner.nonce,
    {
        self.inner.get_nonce()
    }

    /// Both commitments, once they are known.
    pub fn get_commitment(&self) -> (r: Option<
        (&Vec<CommitPhaseOne<GH, LH>>, &Vec<CommitPhaseTwo<LH>>),
    >)
        ensures
            match (r, self.inner.stage) {
                (Some((f, s)), Stage::Filled { first, second }) => *f == first && *s == second,
                (None, Stage::Filled { .. }) => false,
                (Some(_), _) => false,
                (None, _) => true,
            },
    {
        self.inner.get_commitment()
    }

    pub fn finalized_indexes(&self) -> (r: &[usize])
        ensures
            r@ == self.inner.finalized_indexes@,
    {
        self.inner.finalized_indexes()
    }

    /// Whether the opened instances were checked.
    pub fn is_regarbled(&self) -> (r: bool)
        ensures
            r == self.inner.regarbled,
    {
        self.inner.is_regarbled()
    }

    /// Notes that the opened instances were checked.
    pub fn mark_regarbled(&mut self)
        ensures
            final(self).inner == (crate::cut_and_choose::evaluator::Evaluator {
                regarbled: true,
                ..old(self).inner
            }),
            final(self).soldering_stage == old(self).soldering_stage,
    {
        self.inner.mark_regarbled();
    }

    /// Checks all instances against the evidence. If all hold, the evaluator notes
    /// it.
    pub fn full_check_commit(&mut self, evidence: &Vec<Evidence>) -> (r: Result<(), ()>)
        requires
            old(self).inner.stage is Filled,
            old(self).inner.stage->first@.len() == old(self).inner.stage->Filled_second@.len(),
            evidence@.len() == old(self).inner.stage->first@.len(),
        ensures
            r is Ok <==> forall|i: int|
                0 <= i < evidence@.len() ==> #[trigger] old(self).inner.instance_holds(
                    i,
                    evidence@[i],
                ),
            final(self).inner == (crate::cut_and_choose::evaluator::Evaluator {
                regarbled: old(self).inner.regarbled || r is Ok,
                ..old(self).inner
            }),
            final(self).soldering_stage == old(self).soldering_stage,
    {
        self.inner.full_check_commit(evidence)
    }

    /// Checks the opened instances against the evidence. If all hold, the evaluator
    /// notes it.
    pub fn run_regarbling(&mut self, evidence: &Vec<Evidence>) -> (r: Result<(), ()>)
        requires
            old(self).inner.stage is Filled,
            old(self).inner.stage->first@.len() == old(self).inner.stage->Filled_second@.len(),
            evidence@.len() == old(self).inner.stage->first@.len(),
        ensures
            r is Ok <==> forall|i: int|
                0 <= i < evidence@.len() ==> #[trigger] old(self).inner.opened_instance_holds(
                    i,
                    evidence@[i],
                ),
            final(self).inner == (crate::cut_and_choose::evaluator::Evaluator {
                regarbled: old(self).inner.regarbled || r is Ok,
                ..old(self).inner
            }),
            final(self).soldering_stage == old(self).soldering_stage,
    {
        self.inner.run_regarbling(evidence)
    }

    /// Evaluated instances, checked against the commitments: the outputs if every
    /// one is consistent, else why the first that is not is inconsistent.
    pub fn evaluate_from(&self, cases: &Vec<EvaluatedCase>) -> (r: Result<
        Vec<(usize, EvaluatedWire)>,
        ConsistencyError<LH>,
    >)
        requires
            self.inner.stage.ready(self.inner.regarbled) is Some,
            forall|i: int|
                0 <= i < cases@.len() ==> (#[trigger] cases@[i]).index < self.inner.stage.ready(
                    self.inner.regarbled,
                )->0.len(),
        ensures
            outcome_of(self.inner.stage.ready(self.inner.regarbled)->0, cases@, r),
    {
        self.inner.evaluate_from(cases)
    }

    /// The first commitment to an instance, if it is known. Once the instances are
    /// soldered, it is the one kept then.
    pub fn get_commit_phase_one(&self, index: usize) -> (r: Option<&CommitPhaseOne<GH, LH>>)
        ensures
            match known_first(*self) {
                Some(first) if index < first.len() => r == Some(&first[index as int]),
                _ => r is None,
            },
    {
        match &self.soldering_stage {
            SolderingStage::Soldered { first, .. } => if index < first.len() {
                Some(&first[index])
            } else {
                None
            },
            SolderingStage::Vanilla => self.inner.get_commit_phase_one(index),
        }
    }

    /// An evaluator from its parts.
    pub fn from_raw_parts(
        config: Config<I>,
        nonce: u128,
        finalized_indexes: Vec<usize>,
        regarbled: bool,
        stage: Stage<GH, LH>,
        soldering_stage: SolderingStage<GH, LH>,
    ) -> (r: Self)
        ensures
            r.inner == (crate::cut_and_choose::evaluator::Evaluator {
                config,
                nonce: S(nonce),
                finalized_indexes,
                regarbled,
                stage,
            }),
            r.soldering_stage == soldering_stage,
    {
        Evaluator {
            inner: crate::cut_and_choose::evaluator::Evaluator::from_raw_parts(
                config,
                nonce,
                finalized_indexes,
                regarbled,
                stage,
            ),
            soldering_stage,
        }
    }

    /// The parts of the evaluator.
    pub fn into_raw_parts(self) -> (r: (
        Config<I>,
        S,
        Vec<usize>,
        bool,
        Stage<GH, LH>,
        SolderingStage<GH, LH>,
    ))
        ensures
            r == (
                self.inner.config,
                self.inner.nonce,
                self.inner.finalized_indexes,
                self.inner.regarbled,
                self.inner.stage,
                self.soldering_stage,
            ),
    {
        let (config, nonce, finalized_indexes, regarbled, stage) = self.inner.into_raw_parts();
        (config, nonce, finalized_indexes, regarbled, stage, self.soldering_stage)
    }
}

/// The first commitments that an evaluator knows.
pub open spec fn known_first<I, GH: GateHasher, LH: LabelCommitHasher>(
    e: Evaluator<I, GH, LH>,
) -> Option<Seq<CommitPhaseOne<GH, LH>>> {
    match e.soldering_stage {
        SolderingStage::Soldered { first, .. } => Some(first@),
        SolderingStage::Vanilla => match e.inner.stage {
            Stage::Empty => None,
            Stage::Created(first) => Some(first@),
            Stage::Filled { first, .. } => Some(first@),
        },
    }
}

/// The first commitments, once the instances are soldered or the opened ones were
/// checked.
pub open spec fn settled_first<I, GH: GateHasher, LH: LabelCommitHasher>(
    e: Evaluator<I, GH, LH>,
) -> Option<Seq<CommitPhaseOne<GH, LH>>> {
    match e.soldering_stage {
        SolderingStage::Soldered { first, .. } => Some(first@),
        SolderingStage::Vanilla => e.inner.stage.ready(e.inner.regarbled),
    }
}

/// The input of the base instance, moved to the instance with these offsets.
pub open spec fn moved_input(base: Seq<EvaluatedWire>, deltas: Seq<(S, S)>) -> Seq<EvaluatedWire> {
    Seq::new(base.len(), |i: int| soldered_wire(base[i], deltas[i]))
}

impl<I, GH: GateHasher> Evaluator<I, GH, Sha256LabelCommitHasher> {
    /// The commitments to the inputs of the base instance, once the instances are
    /// soldered.
    pub fn verified_soldered_base_commitment(&self) -> (r: Option<Vec<LabelCommit<Sha256Commit>>>)
        requires
            self.soldering_stage is Soldered && self.inner.finalized_indexes@.len() > 0
                ==> self.inner.finalized_indexes@[0] < self.soldering_stage->first@.len(),
        ensures
            match r {
                Some(v) => self.soldering_stage is Soldered && self.inner.finalized_indexes@.len()
                    > 0 && v@
                    == self.soldering_stage->first@[self.inner.finalized_indexes@[0] as int].input_commitments@,
                None => self.soldering_stage is Vanilla || self.inner.finalized_indexes@.len() == 0,
            },
    {
        match &self.soldering_stage {
            SolderingStage::Vanilla => None,
            SolderingStage::Soldered { first, .. } => {
                if self.inner.finalized_indexes.len() == 0 {
                    return None;
                }
                let base: usize = self.inner.finalized_indexes[0];
                Some(copy_commits(&first[base].input_commitments))
            },
        }
    }

    /// The commitments to the output labels, for true and for false, of every
    /// finalized instance, once the instances are soldered or the opened ones were
    /// checked.
    pub fn finalized_output_label_commitment(&self) -> (r: Option<
        Vec<(Sha256Commit, Sha256Commit)>,
    >)
        requires
            settled_first(*self) is Some ==> forall|i: int|
                0 <= i < self.inner.finalized_indexes@.len() ==> (
                #[trigger] self.inner.finalized_indexes@[i]) < settled_first(*self)->0.len(),
        ensures
            match (r, settled_first(*self)) {
                (Some(v), Some(first)) => v@ == Seq::new(
                    self.inner.finalized_indexes@.len(),
                    |i: int|
                        (
                            first[self.inner.finalized_indexes@[i] as int].output_commit_true,
                            first[self.inner.finalized_indexes@[i] as int].output_commit_false,
                        ),
                ),
                (None, None) => true,
                _ => false,
            },
    {
        let first = match &self.soldering_stage {
            SolderingStage::Soldered { first, .. } => first,
            SolderingStage::Vanilla => match self.inner.stage.get_commit_if_ready(
                self.inner.regarbled,
            ) {
                Some(first) => first,
                None => {
                    return None;
                },
            },
        };
        assert(settled_first(*self) == Some(first@));
        let finalized = &self.inner.finalized_indexes;
        let mut r: Vec<(Sha256Commit, Sha256Commit)> = Vec::new();
        let mut i: usize = 0;
        while i < finalized.len()
            invariant
                i <= finalized@.len(),
                r@.len() == i,
                forall|k: int| 0 <= k < finalized@.len() ==> (#[trigger] finalized@[k]) < first@.len(),
                forall|k: int|
                    0 <= k < i ==> #[trigger] r@[k] == (
                        first@[finalized@[k] as int].output_commit_true,
                        first@[finalized@[k] as int].output_commit_false,
                    ),
            decreases finalized@.len() - i,
        {
            let commit = &first[finalized[i]];
            r.push((commit.output_commit_true(), commit.output_commit_false()));
            i = i + 1;
        }
        assert(r@ =~= Seq::new(
            finalized@.len(),
            |i: int|
                (
                    first@[finalized@[i] as int].output_commit_true,
                    first@[finalized@[i] as int].output_commit_false,
                ),
        ));
        Some(r)
    }

    /// The inputs of all finalized instances: the given one of the base instance,
    /// and that moved by the offsets of each further instance.
    pub fn soldered_cases<E: SolderInput>(&self, base_case: EvaluatorCaseInput<E>) -> (r: Vec<
        EvaluatorCaseInput<E>,
    >)
        requires
            self.can_solder(base_case),
        ensures
            self.are_soldered_cases(base_case, r@),
    {
        let finalized = &self.inner.finalized_indexes;
        let mut cases: Vec<EvaluatorCaseInput<E>> = Vec::new();
        cases.push(base_case);
        match &self.soldering_stage {
            SolderingStage::Vanilla => (),
            SolderingStage::Soldered { soldering_deltas, .. } => {
                let mut j: usize = 1;
                while j < finalized.len()
                    invariant
                        1 <= j <= finalized@.len(),
                        self.inner.finalized_indexes == *finalized,
                        self.soldering_stage->soldering_deltas == *soldering_deltas,
                        self.can_solder(base_case),
                        cases@.len() == j,
                        cases@[0] == base_case,
                        forall|k: int|
                            1 <= k < j ==> (#[trigger] cases@[k]).index == finalized@[k]
                                && cases@[k].input.wires() == moved_input(
                                base_case.input.wires(),
                                soldering_deltas@[k - 1]@,
                            ),
                    decreases finalized@.len() - j,
                {
                    assert(soldering_deltas@[j - 1]@.len() >= base_case.input.wires().len());
                    let input = cases[0].input.solder(soldering_deltas[j - 1].as_slice());
                    assert(input.wires() =~= moved_input(
                        base_case.input.wires(),
                        soldering_deltas@[j - 1]@,
                    ));
                    cases.push(EvaluatorCaseInput { index: finalized[j], input });
                    j = j + 1;
                }
            },
        }
        cases
    }

    /// Whether a case is one of the base instance, with offsets for all its wires.
    pub open spec fn can_solder<E: SolderInput>(&self, base_case: EvaluatorCaseInput<E>) -> bool {
        &&& self.soldering_stage is Soldered
        &&& self.inner.finalized_indexes@.len() > 0
        &&& base_case.index == self.inner.finalized_indexes@[0]
        &&& self.soldering_stage->soldering_deltas@.len() >= self.inner.finalized_indexes@.len() - 1
        &&& forall|j: int|
            0 <= j < self.inner.finalized_indexes@.len() - 1 ==> (
            #[trigger] self.soldering_stage->soldering_deltas@[j])@.len()
                >= base_case.input.wires().len()
    }

    /// Whether these are the inputs of all finalized instances that follow from the
    /// one of the base instance.
    pub open spec fn are_soldered_cases<E: SolderInput>(
        &self,
        base_case: EvaluatorCaseInput<E>,
        cases: Seq<EvaluatorCaseInput<E>>,
    ) -> bool {
        &&& cases.len() == self.inner.finalized_indexes@.len()
        &&& cases[0] == base_case
        &&& forall|j: int|
            1 <= j < cases.len() ==> (#[trigger] cases[j]).index
                == self.inner.finalized_indexes@[j] && cases[j].input.wires() == moved_input(
                base_case.input.wires(),
                self.soldering_stage->soldering_deltas@[j - 1]@,
            )
    }

    /// Evaluates all finalized instances from the input of the base instance, and
    /// checks them against the commitments.
    pub fn evaluate_with_soldered_instances_from<
        E: SolderInput,
        F: Fn(&EvaluatorCaseInput<E>) -> Option<EvaluationResult>,
    >(&self, base_case: EvaluatorCaseInput<E>, evaluate: F) -> (r: Result<
        Vec<(usize, EvaluatedWire)>,
        ConsistencyError<Sha256LabelCommitHasher>,
    >)
        requires
            self.can_solder(base_case),
            self.inner.stage.ready(self.inner.regarbled) is Some,
            forall|i: int|
                0 <= i < self.inner.finalized_indexes@.len() ==> (
                #[trigger] self.inner.finalized_indexes@[i]) < self.inner.stage->first@.len(),
            forall|case: &EvaluatorCaseInput<E>| #[trigger] evaluate.requires((case,)),
        ensures
            exists|inputs: Seq<EvaluatorCaseInput<E>>, cases: Seq<EvaluatedCase>|
                self.are_soldered_cases(base_case, inputs) && #[trigger] evaluated_with(
                    evaluate,
                    inputs,
                    cases,
                ) && outcome_of(self.inner.stage->first@, cases, r) && inputs.len() == cases.len(),
    {
        let inputs = self.soldered_cases(base_case);
        let mut cases: Vec<EvaluatedCase> = Vec::new();
        let mut i: usize = 0;
        while i < inputs.len()
            invariant
                i <= inputs@.len(),
                cases@.len() == i,
                forall|case: &EvaluatorCaseInput<E>| #[trigger] evaluate.requires((case,)),
                forall|k: int|
                    0 <= k < i ==> (#[trigger] cases@[k]).index == inputs@[k].index
                        && evaluate.ensures((&inputs@[k],), cases@[k].result),
            decreases inputs@.len() - i,
        {
            let result = evaluate(&inputs[i]);
            cases.push(EvaluatedCase { index: inputs[i].index, result });
            i = i + 1;
        }
        assert forall|k: int| 0 <= k < cases@.len() implies (#[trigger] cases@[k]).index
            < self.inner.stage->first@.len() by {
            assert(inputs@[k].index == self.inner.finalized_indexes@[k]);
        }
        let r = self.inner.evaluate_from(&cases);
        assert(evaluated_with(evaluate, inputs@, cases@));
        assert(outcome_of(self.inner.stage->first@, cases@, r));
        r
    }
}

/// Whether each case is what evaluating its input gave.
pub open spec fn evaluated_with<
    E: SolderInput,
    F: Fn(&EvaluatorCaseInput<E>) -> Option<EvaluationResult>,
>(evaluate: F, inputs: Seq<EvaluatorCaseInput<E>>, cases: Seq<EvaluatedCase>) -> bool {
    forall|k: int|
        0 <= k < cases.len() ==> (#[trigger] cases[k]).index == inputs[k].index
            && evaluate.ensures((&inputs[k],), cases[k].result)
}

/// The commitments to the output labels, for false and for true, of those listed
/// instances that there are.
pub open spec fn output_pairs<GH: GateHasher, H: LabelCommitHasher>(
    instances: Seq<GarbledInstance<GH>>,
    indexes: Seq<usize>,
) -> Seq<(H::Output, H::Output)>
    decreases indexes.len(),
{
    if indexes.len() == 0 {
        seq![]
    } else {
        let before = output_pairs::<GH, H>(instances, indexes.drop_last());
        let i = indexes.last() as int;
        if i < instances.len() {
            before.push(
                (
                    H::commitment(instances[i].output_wire_values.label0),
                    H::commitment(instances[i].output_wire_values.label1),
                ),
            )
        } else {
            before
        }
    }
}

fn copy_indexes(v: &Vec<usize>) -> (r: Vec<usize>)
    ensures
        r@ == v@,
{
    let mut r: Vec<usize> = Vec::new();
    let mut i: usize = 0;
    while i < v.len()
        invariant
            i <= v@.len(),
            r@ == v@.take(i as int),
        decreases v@.len() - i,
    {
        r.push(v[i]);
        assert(v@.take(i + 1) =~= v@.take(i as int).push(v@[i as int]));
        i = i + 1;
    }
    assert(v@.take(v@.len() as int) =~= v@);
    r
}

impl<I, GH: GateHasher> Garbler<I, GH> {
    /// What a soldering proof is made about: the labels of the inputs of the
    /// finalized instances in ascending order, and the nonce.
    pub fn do_soldering(&self) -> (r: WiresInput)
        requires
            self.nonce is Some,
            self.stage is PreparedForEval,
            forall|i: int|
                0 <= i < self.stage->finalized_indexes@.len() ==> (
                #[trigger] self.stage->finalized_indexes@[i]) < self.instances@.len(),
        ensures
            Some(S(r.nonce)) == self.nonce,
            rows(r.instances_wires@) == Seq::new(
                self.stage->finalized_indexes@.len(),
                |i: int|
                    raw_labels(
                        self.instances@[ascending(
                            self.stage->finalized_indexes@,
                        )[i] as int].input_wire_values@,
                    ),
            ),
    {
        let mut inputs: Vec<Vec<GarbledWire>> = Vec::new();
        match &self.stage {
            GarblerStage::Generating { .. } => (),
            GarblerStage::PreparedForEval { finalized_indexes } => {
                let mut sorted = copy_indexes(finalized_indexes);
                sort_indexes(&mut sorted);
                proof {
                    ascending_keeps_elements(finalized_indexes@);
                }
                let mut i: usize = 0;
                while i < sorted.len()
                    invariant
                        i <= sorted@.len(),
                        sorted@ == ascending(finalized_indexes@),
                        forall|x: usize| sorted@.contains(x) <==> finalized_indexes@.contains(x),
                        forall|k: int|
                            0 <= k < finalized_indexes@.len() ==> (#[trigger] finalized_indexes@[k])
                                < self.instances@.len(),
                        inputs@.len() == i,
                        forall|k: int|
                            0 <= k < i ==> (#[trigger] inputs@[k])@
                                == self.instances@[sorted@[k] as int].input_wire_values@,
                    decreases sorted@.len() - i,
                {
                    assert(sorted@.contains(sorted@[i as int]));
                    inputs.push(self.input_labels_for(sorted[i]));
                    i = i + 1;
                }
            },
        }
        let nonce = match self.nonce {
            Some(n) => n,
            None => S::zero(),
        };
        let r = wires_input(&inputs, nonce.to_u128());
        assert(rows(r.instances_wires@) =~= Seq::new(
            self.stage->finalized_indexes@.len(),
            |i: int|
                raw_labels(
                    self.instances@[ascending(
                        self.stage->finalized_indexes@,
                    )[i] as int].input_wire_values@,
                ),
        ));
        r
    }

    /// The commitments to the inputs of the base instance, the least of the
    /// finalized ones, with the nonce if it is known.
    pub fn soldered_base_commitment<H: LabelCommitHasher>(&self) -> (r: Option<
        Vec<LabelCommit<H::Output>>,
    >)
        requires
            self.stage is PreparedForEval ==> forall|i: int|
                0 <= i < self.stage->finalized_indexes@.len() ==> (
                #[trigger] self.stage->finalized_indexes@[i]) < self.instances@.len(),
        ensures
            match r {
                Some(v) => self.stage is PreparedForEval && self.stage->finalized_indexes@.len() > 0
                    && v@ == input_commits::<H>(
                    self.instances@[ascending(
                        self.stage->finalized_indexes@,
                    )[0] as int].input_wire_values@,
                    self.nonce,
                ),
                None => self.stage is Generating || self.stage->finalized_indexes@.len() == 0,
            },
    {
        match &self.stage {
            GarblerStage::Generating { .. } => None,
            GarblerStage::PreparedForEval { finalized_indexes } => {
                if finalized_indexes.len() == 0 {
                    return None;
                }
                let mut sorted = copy_indexes(finalized_indexes);
                sort_indexes(&mut sorted);
                proof {
                    ascending_keeps_elements(finalized_indexes@);
                    assert(sorted@[0] == ascending(finalized_indexes@)[0]);
                    assert(ascending(finalized_indexes@).contains(sorted@[0]));
                    assert(finalized_indexes@.contains(sorted@[0]));
                    let k = choose|k: int|
                        0 <= k < finalized_indexes@.len() && finalized_indexes@[k] == sorted@[0];
                    assert(self.stage->finalized_indexes@[k] < self.instances@.len());
                }
                let base_inputs = self.input_labels_for(sorted[0]);
                Some(commit_input_wires::<H>(base_inputs.as_slice(), self.nonce))
            },
        }
    }

    /// The commitments to the output labels, for false and for true, of the
    /// finalized instances in ascending order.
    pub fn finalized_output_label_commitment<H: LabelCommitHasher>(&self) -> (r: Option<
        Vec<(H::Output, H::Output)>,
    >)
        ensures
            match r {
                Some(v) => self.stage is PreparedForEval && v@ == output_pairs::<GH, H>(
                    self.instances@,
                    ascending(self.stage->finalized_indexes@),
                ),
                None => self.stage is Generating,
            },
    {
        match &self.stage {
            GarblerStage::Generating { .. } => None,
            GarblerStage::PreparedForEval { finalized_indexes } => {
                let mut sorted = copy_indexes(finalized_indexes);
                sort_indexes(&mut sorted);
                let mut r: Vec<(H::Output, H::Output)> = Vec::new();
                let mut i: usize = 0;
                assert(sorted@.take(0) =~= Seq::<usize>::empty());
                while i < sorted.len()
                    invariant
                        i <= sorted@.len(),
                        r@ == output_pairs::<GH, H>(self.instances@, sorted@.take(i as int)),
                    decreases sorted@.len() - i,
                {
                    assert(sorted@.take(i + 1).drop_last() =~= sorted@.take(i as int));
                    match self.output_wire(sorted[i]) {
                        Some(wire) => {
                            r.push((commit_output_false::<H>(wire), commit_output_true::<H>(wire)));
                        },
                        None => (),
                    }
                    i = i + 1;
                }
                assert(sorted@.take(sorted@.len() as int) =~= sorted@);
                Some(r)
            },
        }
    }
}

/// Commitments of an honest garbler and the offsets of its public data give that
/// public data again, and it is accepted.
pub proof fn honest_soldering_fits<GH: GateHasher>(
    instances: Seq<GarbledInstance<GH>>,
    first: Seq<CommitPhaseOne<GH, Sha256LabelCommitHasher>>,
    second: Seq<CommitPhaseTwo<Sha256LabelCommitHasher>>,
    finalized: Seq<usize>,
    nonce: S,
)
    requires
        phase_ones(instances, first),
        phase_twos(instances, nonce, second),
        finalized.len() > 0,
        forall|i: int| 0 <= i < finalized.len() ==> (#[trigger] finalized[i]) < instances.len(),
        forall|i: int|
            0 <= i < finalized.len() ==> instances[#[trigger] finalized[i] as int].input_wire_values@.len()
                == instances[finalized[0] as int].input_wire_values@.len(),
    ensures
        ({
            let data = soldered(
                Seq::new(
                    finalized.len(),
                    |i: int| raw_labels(instances[finalized[i] as int].input_wire_values@),
                ),
                nonce.0,
            );
            &&& local_data(first, second, finalized, nonce, data.deltas) == data
            &&& soldering_fault(first, finalized, data.deltas, true) is None
            &&& data_fault(first, second, finalized, data) is None
        }),
{
    let wires = Seq::new(
        finalized.len(),
        |i: int| raw_labels(instances[finalized[i] as int].input_wire_values@),
    );
    let data = soldered(wires, nonce.0);
    let local = local_data(first, second, finalized, nonce, data.deltas);
    let n = wires[0].len();
    let b = finalized[0] as int;
    assert(first[b]@ == phase_one::<GH, Sha256LabelCommitHasher>(instances[b]));
    assert(local.base_commitment =~= data.base_commitment);
    assert(local.base_nonce_commitment =~= data.base_nonce_commitment);
    assert forall|j: int| 0 <= j < finalized.len() - 1 implies local.commitments[j]
        == data.commitments[j] by {
        let f = finalized[j + 1] as int;
        assert(first[f]@ == phase_one::<GH, Sha256LabelCommitHasher>(instances[f]));
        assert(local.commitments[j] =~= data.commitments[j]);
    }
    assert(local.commitments =~= data.commitments);
    assert forall|j: int| 1 <= j < finalized.len() implies first[
        #[trigger] finalized[j] as int].input_commitments@.len() == n && data.deltas[j - 1].len()
        == n by {
        let f = finalized[j] as int;
        assert(first[f]@ == phase_one::<GH, Sha256LabelCommitHasher>(instances[f]));
    }
    local_data_fits(first, second, finalized, nonce, data.deltas);
}

/// The input of the base instance, moved by an honest garbler's offsets, is the input of
/// the other instance for the same bits.
pub proof fn honest_offsets_move_inputs(
    instances: Seq<Seq<GarbledWire>>,
    nonce: u128,
    bits: Seq<bool>,
    j: int,
)
    requires
        0 <= j < instances.len() - 1,
        bits.len() == instances[0].len(),
        instances[j + 1].len() == instances[0].len(),
    ensures
        ({
            let wires = Seq::new(instances.len(), |i: int| raw_labels(instances[i]));
            moved_input(
                input_of(instances[0], bits),
                label_deltas(soldered(wires, nonce).deltas)[j],
            ) == input_of(instances[j + 1], bits)
        }),
{
    let wires = Seq::new(instances.len(), |i: int| raw_labels(instances[i]));
    let deltas = label_deltas(soldered(wires, nonce).deltas)[j];
    let moved = moved_input(input_of(instances[0], bits), deltas);
    let want = input_of(instances[j + 1], bits);
    assert forall|w: int| 0 <= w < bits.len() implies moved[w] == want[w] by {
        soldering_moves_labels(instances[0][w], instances[j + 1][w], bits[w]);
        assert(wires[0][w] == (instances[0][w].label0.0, instances[0][w].label1.0));
        assert(wires[j + 1][w] == (instances[j + 1][w].label0.0, instances[j + 1][w].label1.0));
    }
    assert(moved =~= want);
}

proof fn base_fits(
    local: Seq<LabelCommit<[u8; 32]>>,
    data: Seq<(Sha256Commit, Sha256Commit)>,
    w: int,
)
    requires
        0 <= w,
    ensures
        base_fault(local, data, w) is None <==> forall|k: int|
            w <= k < local.len() ==> (#[trigger] local[k]).commit_false == data[k].0
                && local[k].commit_true == data[k].1,
    decreases local.len() - w,
{
    if w < local.len() {
        base_fits(local, data, w + 1);
        assert(local[w].commit_false == local[w].commit_false);
    }
}

proof fn nonce_fits(
    local: Seq<LabelCommit<[u8; 32]>>,
    data: Seq<(Sha256Commit, Sha256Commit)>,
    w: int,
)
    requires
        0 <= w,
    ensures
        nonce_fault(local, data, w) is None <==> forall|k: int|
            w <= k < local.len() && k < data.len() ==> (#[trigger] local[k]).commit_false
                == data[k].0 && local[k].commit_true == data[k].1,
    decreases local.len() - w,
{
    if w < local.len() && w < data.len() {
        nonce_fits(local, data, w + 1);
        assert(local[w].commit_false == local[w].commit_false);
    }
}

proof fn instance_fits(
    inst: usize,
    local: Seq<LabelCommit<[u8; 32]>>,
    data: Seq<(Sha256Commit, Sha256Commit)>,
    w: int,
)
    requires
        0 <= w,
    ensures
        instance_fault(inst, local, data, w) is None <==> forall|k: int|
            w <= k < local.len() ==> (#[trigger] local[k]).commit_false == data[k].0
                && local[k].commit_true == data[k].1,
    decreases local.len() - w,
{
    if w < local.len() {
        instance_fits(inst, local, data, w + 1);
        assert(local[w].commit_false == local[w].commit_false);
    }
}

proof fn instances_fit<GH: GateHasher>(
    first: Seq<CommitPhaseOne<GH, Sha256LabelCommitHasher>>,
    extra: Seq<usize>,
    data: Seq<Seq<(Sha256Commit, Sha256Commit)>>,
    j: int,
)
    requires
        0 <= j,
    ensures
        instances_fault(first, extra, data, j) is None <==> forall|i: int, k: int|
            j <= i < extra.len() && 0 <= k < first[extra[i] as int].input_commitments@.len() ==> (
            #[trigger] first[extra[i] as int].input_commitments@[k]).commit_false == data[i][k].0
                && first[extra[i] as int].input_commitments@[k].commit_true == data[i][k].1,
    decreases extra.len() - j,
{
    if j < extra.len() {
        let local = first[extra[j] as int].input_commitments@;
        instance_fits(extra[j], local, data[j], 0);
        instances_fit(first, extra, data, j + 1);
        if instances_fault(first, extra, data, j) is None {
            assert forall|i: int, k: int|
                j <= i < extra.len() && 0 <= k < first[extra[i] as int].input_commitments@.len() implies (
            #[trigger] first[extra[i] as int].input_commitments@[k]).commit_false == data[i][k].0
                && first[extra[i] as int].input_commitments@[k].commit_true == data[i][k].1 by {
                if i == j {
                    assert(local[k].commit_false == data[j][k].0);
                }
            }
        }
        if forall|i: int, k: int|
            j <= i < extra.len() && 0 <= k < first[extra[i] as int].input_commitments@.len() ==> (
            #[trigger] first[extra[i] as int].input_commitments@[k]).commit_false == data[i][k].0
                && first[extra[i] as int].input_commitments@[k].commit_true == data[i][k].1 {
            assert forall|k: int| 0 <= k < local.len() implies (#[trigger] local[k]).commit_false
                == data[j][k].0 && local[k].commit_true == data[j][k].1 by {
                assert(first[extra[j] as int].input_commitments@[k].commit_false == data[j][k].0);
            }
        }
    }
}

/// Public data of a soldering fits the commitments exactly if it has the commitments of
/// the base instance, its commitments with the nonce as far as both go, offsets and
/// commitments for every other finalized instance, and each of these, wire by wire, is
/// the one that the garbler made first.
#[verifier::spinoff_prover]
pub proof fn fitting_data_is_committed<GH: GateHasher>(
    first: Seq<CommitPhaseOne<GH, Sha256LabelCommitHasher>>,
    second: Seq<CommitPhaseTwo<Sha256LabelCommitHasher>>,
    finalized: Seq<usize>,
    data: SolderedView,
)
    requires
        finalized.len() > 0,
    ensures
        ({
            let base = first[finalized[0] as int].input_commitments@;
            let blended = second[finalized[0] as int].input_commitments@;
            data_fault(first, second, finalized, data) is None <==> {
                &&& data.base_commitment.len() == base.len()
                &&& data.deltas.len() == finalized.len() - 1
                &&& data.commitments.len() == finalized.len() - 1
                &&& forall|j: int|
                    1 <= j < finalized.len() ==> first[
                    #[trigger] finalized[j] as int].input_commitments@.len() == base.len()
                        && data.commitments[j - 1].len() == base.len() && data.deltas[j - 1].len()
                        == base.len()
                &&& forall|k: int|
                    0 <= k < base.len() ==> (#[trigger] base[k]).commit_false
                        == data.base_commitment[k].0 && base[k].commit_true
                        == data.base_commitment[k].1
                &&& forall|k: int|
                    0 <= k < blended.len() && k < data.base_nonce_commitment.len() ==> (
                    #[trigger] blended[k]).commit_false == data.base_nonce_commitment[k].0
                        && blended[k].commit_true == data.base_nonce_commitment[k].1
                &&& forall|j: int, k: int|
                    1 <= j < finalized.len() && 0 <= k < base.len() ==> (
                    #[trigger] first[finalized[j] as int].input_commitments@[k]).commit_false
                        == data.commitments[j - 1][k].0
                        && first[finalized[j] as int].input_commitments@[k].commit_true
                        == data.commitments[j - 1][k].1
            }
        }),
{
    let base = first[finalized[0] as int].input_commitments@;
    let blended = second[finalized[0] as int].input_commitments@;
    let extra = finalized.skip(1);
    base_fits(base, data.base_commitment, 0);
    nonce_fits(blended, data.base_nonce_commitment, 0);
    instances_fit(first, extra, data.commitments, 0);
    let shaped = forall|j: int|
        1 <= j < finalized.len() ==> first[
        #[trigger] finalized[j] as int].input_commitments@.len() == base.len() && data.commitments[j
            - 1].len() == base.len() && data.deltas[j - 1].len() == base.len();
    assert(shapes_hold(first, extra, data, base.len()) <==> shaped) by {
        if shapes_hold(first, extra, data, base.len()) {
            assert forall|j: int| 1 <= j < finalized.len() implies first[
            #[trigger] finalized[j] as int].input_commitments@.len() == base.len()
                && data.commitments[j - 1].len() == base.len() && data.deltas[j - 1].len()
                == base.len() by {
                assert(extra[j - 1] == finalized[j]);
            }
        }
        if shaped {
            assert forall|j: int| 0 <= j < extra.len() implies first[
            #[trigger] extra[j] as int].input_commitments@.len() == base.len()
                && data.commitments[j].len() == base.len() && data.deltas[j].len() == base.len() by {
                assert(extra[j] == finalized[j + 1]);
            }
        }
    }
    let counted = data.base_commitment.len() == base.len() && data.deltas.len() == finalized.len()
        - 1 && data.commitments.len() == finalized.len() - 1;
    assert(extra.len() == finalized.len() - 1);
    assert(data_fault(first, second, finalized, data) is None <==> counted && shaped && base_fault(
        base,
        data.base_commitment,
        0,
    ) is None && nonce_fault(blended, data.base_nonce_commitment, 0) is None && instances_fault(
        first,
        extra,
        data.commitments,
        0,
    ) is None);
    if shaped {
        let each = forall|j: int, k: int|
            1 <= j < finalized.len() && 0 <= k < base.len() ==> (
            #[trigger] first[finalized[j] as int].input_commitments@[k]).commit_false
                == data.commitments[j - 1][k].0
                && first[finalized[j] as int].input_commitments@[k].commit_true
                == data.commitments[j - 1][k].1;
        assert(instances_fault(first, extra, data.commitments, 0) is None <==> each) by {
            if instances_fault(first, extra, data.commitments, 0) is None {
                assert forall|j: int, k: int|
                    1 <= j < finalized.len() && 0 <= k < base.len() implies (
                #[trigger] first[finalized[j] as int].input_commitments@[k]).commit_false
                    == data.commitments[j - 1][k].0
                    && first[finalized[j] as int].input_commitments@[k].commit_true
                    == data.commitments[j - 1][k].1 by {
                    assert(extra[j - 1] == finalized[j]);
                    assert(first[extra[j - 1] as int].input_commitments@[k].commit_false
                        == data.commitments[j - 1][k].0);
                }
            }
            if each {
                assert forall|i: int, k: int|
                    0 <= i < extra.len() && 0 <= k < first[extra[i] as int].input_commitments@.len() implies (
                #[trigger] first[extra[i] as int].input_commitments@[k]).commit_false
                    == data.commitments[i][k].0
                    && first[extra[i] as int].input_commitments@[k].commit_true
                    == data.commitments[i][k].1 by {
                    assert(extra[i] == finalized[i + 1]);
                    assert(first[finalized[i + 1] as int].input_commitments@[k].commit_false
                        == data.commitments[i][k].0);
                }
            }
        }
    }
}

/// A soldering is settled by its proof: it is taken exactly if there is a finalized
/// instance, the proof is valid, there are offsets for every other finalized instance and
/// as many as the base instance has inputs. What is then handed out are the offsets, the
/// nonce and the commitments that are known, and the evaluator keeps the offsets;
/// otherwise it stays as it was.
#[verifier::spinoff_prover]
pub proof fn soldering_is_settled_by_proof<I, GH: GateHasher>(
    pre: Evaluator<I, GH, Sha256LabelCommitHasher>,
    deltas: Seq<Seq<(u128, u128)>>,
    proof_valid: bool,
    r: Result<SolderedLabels, SolderingCheckError>,
    post: Evaluator<I, GH, Sha256LabelCommitHasher>,
    j: int,
    w: int,
)
    requires
        soldering_settled(pre, deltas, proof_valid, r, post),
    ensures
        ({
            let finalized = pre.inner.finalized_indexes@;
            let first = pre.inner.stage->first@;
            let base = first[finalized[0] as int].input_commitments@;
            let blended = pre.inner.stage->Filled_second@[finalized[0] as int].input_commitments@;
            &&& post.inner == pre.inner
            &&& r is Ok <==> {
                &&& finalized.len() > 0
                &&& proof_valid
                &&& deltas.len() == finalized.len() - 1
                &&& forall|i: int|
                    1 <= i < finalized.len() ==> first[
                    #[trigger] finalized[i] as int].input_commitments@.len() == base.len()
                        && deltas[i - 1].len() == base.len()
            }
            &&& r is Err ==> post.soldering_stage == pre.soldering_stage
            &&& r matches Ok(data) ==> {
                &&& data@.deltas == deltas
                &&& data@.nonce == pre.inner.nonce.0
                &&& data@.base_commitment.len() == base.len()
                &&& data@.base_nonce_commitment.len() == blended.len()
                &&& 0 <= w < base.len() ==> data@.base_commitment[w] == (
                    base[w].commit_false,
                    base[w].commit_true,
                )
                &&& 0 <= w < blended.len() ==> data@.base_nonce_commitment[w] == (
                    blended[w].commit_false,
                    blended[w].commit_true,
                )
                &&& 1 <= j < finalized.len() && 0 <= w < base.len() ==> data@.commitments[j - 1][w]
                    == (
                    first[finalized[j] as int].input_commitments@[w].commit_false,
                    first[finalized[j] as int].input_commitments@[w].commit_true,
                )
                &&& post.soldering_stage is Soldered
                &&& 1 <= j < finalized.len() && 0 <= w < base.len() ==> rows(
                    post.soldering_stage->soldering_deltas@,
                )[j - 1][w] == (S(deltas[j - 1][w].0), S(deltas[j - 1][w].1))
            }
        }),
{
    let finalized = pre.inner.finalized_indexes@;
    let first = pre.inner.stage->first@;
    let base = first[finalized[0] as int].input_commitments@;
    let fault = soldering_fault(first, finalized, deltas, proof_valid);
    assert(r is Ok <==> fault is None);
    let shaped = forall|i: int|
        1 <= i < finalized.len() ==> first[
        #[trigger] finalized[i] as int].input_commitments@.len() == base.len() && deltas[i
            - 1].len() == base.len();
    assert(shaped <==> !exists|i: int|
        1 <= i < finalized.len() && (first[#[trigger] finalized[i] as int].input_commitments@.len()
            != base.len() || deltas[i - 1].len() != base.len()));
    assert(fault is None <==> finalized.len() > 0 && proof_valid && deltas.len() == finalized.len()
        - 1 && shaped);
    if r is Ok {
        let data = r->Ok_0@;
        assert(data == pre.soldering_data(deltas));
        assert(post.soldering_stage is Soldered);
        if 1 <= j < finalized.len() {
            let local = first[finalized[j] as int].input_commitments@;
            assert(local.len() == base.len() && deltas[j - 1].len() == base.len());
            assert(data.commitments[j - 1] == commit_pairs(local));
            assert(rows(post.soldering_stage->soldering_deltas@) == label_deltas(deltas));
            if 0 <= w < base.len() {
                assert(label_deltas(deltas)[j - 1][w] == (
                    S(deltas[j - 1][w].0),
                    S(deltas[j - 1][w].1),
                ));
            }
        }
    }
}

/// The outputs of finalized instances are committed to in order, the false label before
/// the true one.
pub proof fn output_pairs_are_commitments<GH: GateHasher, H: LabelCommitHasher>(
    instances: Seq<GarbledInstance<GH>>,
    indexes: Seq<usize>,
    k: int,
)
    requires
        forall|i: int| 0 <= i < indexes.len() ==> (#[trigger] indexes[i]) < instances.len(),
        0 <= k < indexes.len(),
    ensures
        output_pairs::<GH, H>(instances, indexes).len() == indexes.len(),
        output_pairs::<GH, H>(instances, indexes)[k].0 == H::commitment(
            instances[indexes[k] as int].output_wire_values.label0,
        ),
        output_pairs::<GH, H>(instances, indexes)[k].1 == H::commitment(
            instances[indexes[k] as int].output_wire_values.label1,
        ),
    decreases indexes.len(),
{
    let before = indexes.drop_last();
    assert(indexes.last() < instances.len());
    if k < before.len() {
        output_pairs_are_commitments::<GH, H>(instances, before, k);
    } else if before.len() > 0 {
        output_pairs_are_commitments::<GH, H>(instances, before, 0);
    } else {
        assert(output_pairs::<GH, H>(instances, before).len() == 0);
    }
}

/// The inputs of the finalized instances that follow from that of the base instance: it
/// comes first, and each other has, wire by wire, the same value and the label moved by the
/// offset that its instance has for this value.
pub proof fn soldered_cases_move_inputs<I, GH: GateHasher, E: SolderInput>(
    e: Evaluator<I, GH, Sha256LabelCommitHasher>,
    base_case: EvaluatorCaseInput<E>,
    cases: Seq<EvaluatorCaseInput<E>>,
    j: int,
    w: int,
)
    requires
        e.are_soldered_cases(base_case, cases),
        e.soldering_stage is Soldered,
        1 <= j < cases.len(),
        0 <= w < base_case.input.wires().len(),
    ensures
        ({
            let base = base_case.input.wires()[w];
            let moved = cases[j].input.wires()[w];
            let deltas = e.soldering_stage->soldering_deltas@[j - 1]@[w];
            &&& cases.len() == e.inner.finalized_indexes@.len()
            &&& cases[0] == base_case
            &&& cases[j].index == e.inner.finalized_indexes@[j]
            &&& cases[j].input.wires().len() == base_case.input.wires().len()
            &&& moved.value == base.value
            &&& moved.active_label.0 == base.active_label.0 ^ (if base.value {
                deltas.1.0
            } else {
                deltas.0.0
            })
        }),
{
    assert(cases[j].index == e.inner.finalized_indexes@[j]);
}

/// The commitments that evaluated instances are held to: those that the soldering kept once
/// there was one, before that those of the inner evaluator once its instances were checked.
pub proof fn settled_commitments_are_checked<I, GH: GateHasher, LH: LabelCommitHasher>(
    e: Evaluator<I, GH, LH>,
)
    ensures
        e.soldering_stage matches SolderingStage::Soldered { first, second, soldering_deltas }
            ==> settled_first(e) == Some(first@) && known_first(e) == Some(first@),
        e.soldering_stage is Vanilla && !e.inner.regarbled ==> settled_first(e) is None,
        e.soldering_stage is Vanilla && !(e.inner.stage is Filled) ==> settled_first(e) is None,
        e.soldering_stage is Vanilla && e.inner.regarbled && e.inner.stage is Filled
            ==> settled_first(e) == Some(e.inner.stage->first@),
        e.soldering_stage is Vanilla && e.inner.stage is Empty ==> known_first(e) is None,
{
}

} // verus!
