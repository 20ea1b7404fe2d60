//! Why an evaluation is not consistent with the commitments.

use crate::cut_and_choose::commit::{CiphertextCommit, LabelCommit, LabelCommitHasher};
use crate::text::{decimal_text, hex_text, write_commit_hex, write_decimal};
use vstd::prelude::*;
use vstd::string::StringExecFns;

verus! {

/// Why an evaluation is not consistent with the commitments.
#[allow(inconsistent_fields)]
pub enum ConsistencyError<H: LabelCommitHasher> {
    CommitFileNotFound(usize),
    CommitFileInvalid(usize, String),
    TrueConstantMismatch { index: usize, expected: H::Output, actual: H::Output },
    FalseConstantMismatch { index: usize, expected: H::Output, actual: H::Output },
    CiphertextMismatch { index: usize, expected: CiphertextCommit, actual: CiphertextCommit },
    InputLabelsMismatch {
        index: usize,
        label_index: usize,
        expected: LabelCommit<H::Output>,
        actual: LabelCommit<H::Output>,
    },
    InputLabelsCountMismatch { index: usize, expected: usize, actual: usize },
    OutputLabelMismatch { index: usize, expected: H::Output, actual: H::Output },
    MissingCiphertextHash(usize),
}

/// The text of a pair of commitments.
pub open spec fn label_commit_text<H: LabelCommitHasher>(c: LabelCommit<H::Output>) -> Seq<char> {
    "LabelCommit { false: 0x"@ + hex_text(H::commit_bytes(c.commit_false)) + ", true: 0x"@
        + hex_text(H::commit_bytes(c.commit_true)) + " }"@
}

/// The text of two values that should be equal, after what they are.
pub open spec fn mismatch_text(
    what: Seq<char>,
    index: usize,
    expected: Seq<u8>,
    actual: Seq<u8>,
) -> Seq<char> {
    what + decimal_text(index as nat) + ": expected 0x"@ + hex_text(expected) + ", got 0x"@
        + hex_text(actual)
}

/// The text of an error.
pub open spec fn consistency_text<H: LabelCommitHasher>(e: ConsistencyError<H>) -> Seq<char> {
    match e {
        ConsistencyError::CommitFileNotFound(idx) => "Commit file not found for instance "@
            + decimal_text(idx as nat),
        ConsistencyError::CommitFileInvalid(idx, err) => "Invalid commit file for instance "@
            + decimal_text(idx as nat) + ": "@ + err@,
        ConsistencyError::TrueConstantMismatch { index, expected, actual } => mismatch_text(
            "True constant hash mismatch for instance "@,
            index,
            H::commit_bytes(expected),
            H::commit_bytes(actual),
        ),
        ConsistencyError::FalseConstantMismatch { index, expected, actual } => mismatch_text(
            "False constant hash mismatch for instance "@,
            index,
            H::commit_bytes(expected),
            H::commit_bytes(actual),
        ),
        ConsistencyError::CiphertextMismatch { index, expected, actual } => mismatch_text(
            "Ciphertext hash mismatch for instance "@,
            index,
            expected@,
            actual@,
        ),
        ConsistencyError::InputLabelsMismatch { index, label_index, expected, actual } =>
            "Input label commit mismatch for instance "@ + decimal_text(index as nat) + ", label "@
                + decimal_text(label_index as nat) + ": expected "@ + label_commit_text::<H>(
                expected,
            ) + ", got "@ + label_commit_text::<H>(actual),
        ConsistencyError::InputLabelsCountMismatch { index, expected, actual } =>
            "Input labels count mismatch for instance "@ + decimal_text(index as nat)
                + ": expected "@ + decimal_text(expected as nat) + ", got "@ + decimal_text(
                actual as nat,
            ),
        ConsistencyError::OutputLabelMismatch { index, expected, actual } => mismatch_text(
            "Output label hash mismatch for instance "@,
            index,
            H::commit_bytes(expected),
            H::commit_bytes(actual),
        ),
        ConsistencyError::MissingCiphertextHash(idx) =>
            "Missing ciphertext hash for instance "@ + decimal_text(idx as nat),
    }
}

fn write_mismatch(out: &mut String, index: usize, expected: &[u8], actual: &[u8])
    ensures
        final(out)@ == mismatch_text(old(out)@, index, expected@, actual@),
{
    write_decimal(out, index);
    out.append(": expected 0x");
    write_commit_hex(out, expected);
    out.append(", got 0x");
    write_commit_hex(out, actual);
}

/// Appends the text of a pair of commitments.
pub fn write_label_commit<H: LabelCommitHasher>(out: &mut String, c: &LabelCommit<H::Output>)
    ensures
        final(out)@ == old(out)@ + label_commit_text::<H>(*c),
{
    let f = H::bytes_of(&c.commit_false);
    let t = H::bytes_of(&c.commit_true);
    out.append("LabelCommit { false: 0x");
    write_commit_hex(out, f.as_slice());
    out.append(", true: 0x");
    write_commit_hex(out, t.as_slice());
    out.append(" }");
    assert(out@ =~= old(out)@ + label_commit_text::<H>(*c));
}

/// The text of a pair of commitments.
pub fn fmt_label_commit<H: LabelCommitHasher>(c: &LabelCommit<H::Output>) -> (r: String)
    ensures
        r@ == label_commit_text::<H>(*c),
{
    let mut out = String::new();
    write_label_commit::<H>(&mut out, c);
    assert(out@ =~= label_commit_text::<H>(*c));
    out
}

impl<H: LabelCommitHasher> ConsistencyError<H> {
    /// The text of the error.
    pub fn fmt(&self) -> (r: String)
        ensures
            r@ == consistency_text(*self),
    {
        let mut out = String::new();
        match self {
            ConsistencyError::CommitFileNotFound(idx) => {
                out.append("Commit file not found for instance ");
                write_decimal(&mut out, *idx);
            },
            ConsistencyError::CommitFileInvalid(idx, err) => {
                out.append("Invalid commit file for instance ");
                write_decimal(&mut out, *idx);
                out.append(": ");
                out.append(err.as_str());
            },
            ConsistencyError::TrueConstantMismatch { index, expected, actual } => {
                out.append("True constant hash mismatch for instance ");
                let (e, a) = (H::bytes_of(expected), H::bytes_of(actual));
                write_mismatch(&mut out, *index, e.as_slice(), a.as_slice());
            },
            ConsistencyError::FalseConstantMismatch { index, expected, actual } => {
                out.append("False constant hash mismatch for instance ");
                let (e, a) = (H::bytes_of(expected), H::bytes_of(actual));
                write_mismatch(&mut out, *index, e.as_slice(), a.as_slice());
            },
            ConsistencyError::CiphertextMismatch { index, expected, actual } => {
                out.append("Ciphertext hash mismatch for instance ");
                write_mismatch(&mut out, *index, expected.as_slice(), actual.as_slice());
            },
            ConsistencyError::InputLabelsMismatch { index, label_index, expected, actual } => {
                out.append("Input label commit mismatch for instance ");
                write_decimal(&mut out, *index);
                out.append(", label ");
                write_decimal(&mut out, *label_index);
                out.append(": expected ");
                write_label_commit::<H>(&mut out, expected);
                out.append(", got ");
                write_label_commit::<H>(&mut out, actual);
            },
            ConsistencyError::InputLabelsCountMismatch { index, expected, actual } => {
                out.append("Input labels count mismatch for instance ");
                write_decimal(&mut out, *index);
                out.append(": expected ");
                write_decimal(&mut out, *expected);
                out.append(", got ");
                write_decimal(&mut out, *actual);
            },
            ConsistencyError::OutputLabelMismatch { index, expected, actual } => {
                out.append("Output label hash mismatch for instance ");
                let (e, a) = (H::bytes_of(expected), H::bytes_of(actual));
                write_mismatch(&mut out, *index, e.as_slice(), a.as_slice());
            },
            ConsistencyError::MissingCiphertextHash(idx) => {
                out.append("Missing ciphertext hash for instance ");
                write_decimal(&mut out, *idx);
            },
        }
        assert(out@ =~= consistency_text(*self));
        out
    }
}

} // verus!
