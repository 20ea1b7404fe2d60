//! What cut-and-choose promises of honest parties and to the evaluator.

use crate::cut_and_choose::commit::{
    input_commits, instance_of, label_commit, phase_one, CommitPhaseOne,
    CommitPhaseTwo, GarbledInstance, LabelCommit, LabelCommitHasher, StreamingResult,
};
use crate::cut_and_choose::errors::ConsistencyError;
use crate::cut_and_choose::evaluator::{
    case_fault, cases_hold, check_holds, first_bad_label, label_holds, opening_holds, outcome_of,
    regarbled_phase_one, EvaluatedCase, EvaluationResult, Evaluator, Evidence, Stage,
};
use crate::cut_and_choose::garbler::{phase_ones, phase_twos};
use crate::gate::{selected, GarbledWire};
use crate::hashers::GateHasher;
use crate::modes::evaluate::EvaluatedWire;
use crate::s::S;
use vstd::prelude::*;

verus! {

/// The commitments to the labels of a wire, each blended with the nonce if there is
/// one.
pub open spec fn wire_commit<LH: LabelCommitHasher>(wire: GarbledWire, nonce: Option<S>) -> LabelCommit<
    LH::Output,
> {
    label_commit::<LH>(wire.label0, wire.label1, nonce)
}

/// The commitments of an honest garbler stand every check: whatever is finalized,
/// an opened instance that is garbled again from its seed, and the ciphertext hash
/// of a finalized one, bear them out.
pub proof fn honest_instance_holds<GH: GateHasher, LH: LabelCommitHasher>(
    first: CommitPhaseOne<GH, LH>,
    second: CommitPhaseTwo<LH>,
    nonce: S,
    instance: GarbledInstance<GH>,
    res: StreamingResult,
    seed: GH::Seed,
    finalized: bool,
)
    requires
        instance_of(res, seed, instance),
        first@ == phase_one::<GH, LH>(instance),
        second.input_commitments@ == input_commits::<LH>(res.input_wire_values@, Some(nonce)),
    ensures
        check_holds(
            first,
            second,
            nonce,
            finalized,
            if finalized {
                Evidence::CiphertextHash(res.ciphertext_handler_result)
            } else {
                Evidence::Regarbled(res)
            },
        ),
{
    assert(first@.gate_hasher_seed == first.gate_hasher_seed);
}

/// An opened instance stands the check only with what was committed: garbling it
/// again gave the committed ciphertexts, and labels whose commitments are the
/// committed ones.
pub proof fn opened_instance_is_bound<GH: GateHasher, LH: LabelCommitHasher>(
    first: CommitPhaseOne<GH, LH>,
    second: CommitPhaseTwo<LH>,
    nonce: S,
    evidence: Evidence,
    i: int,
)
    requires
        opening_holds(first, second, nonce, evidence),
        0 <= i < first.input_commitments@.len(),
    ensures
        evidence matches Evidence::Regarbled(res) && {
            &&& res.ciphertext_handler_result == first.ciphertext_hash
            &&& res.input_wire_values@.len() == first.input_commitments@.len()
            &&& wire_commit::<LH>(res.input_wire_values@[i], None) == first.input_commitments@[i]
            &&& wire_commit::<LH>(res.input_wire_values@[i], Some(nonce))
                == second.input_commitments@[i]
            &&& LH::commitment(res.output_value.label0) == first.output_commit_false
            &&& LH::commitment(res.output_value.label1) == first.output_commit_true
        },
{
    match evidence {
        Evidence::Regarbled(res) => {
            assert(first@.input_commitments == input_commits::<LH>(res.input_wire_values@, None));
            assert(first@.input_commitments[i] == wire_commit::<LH>(
                res.input_wire_values@[i],
                None,
            ));
            assert(input_commits::<LH>(res.input_wire_values@, Some(nonce))[i]
                == second.input_commitments@[i]);
            assert(first@.output_commit_false == first.output_commit_false);
        },
        _ => (),
    }
}

/// Garbling an instance again matches its first commitment exactly if every part does:
/// the hash of the ciphertexts, the commitments to both labels of every input and of the
/// output, and the active labels of the constants.
pub proof fn regarbling_matches_in_parts<GH: GateHasher, LH: LabelCommitHasher>(
    first: CommitPhaseOne<GH, LH>,
    res: StreamingResult,
)
    ensures
        regarbled_phase_one::<GH, LH>(res, first.gate_hasher_seed) == first@ <==> {
            &&& res.ciphertext_handler_result == first.ciphertext_hash
            &&& res.input_wire_values@.len() == first.input_commitments@.len()
            &&& forall|k: int|
                0 <= k < res.input_wire_values@.len() ==> (
                #[trigger] first.input_commitments@[k]).commit_false == LH::commitment(
                    res.input_wire_values@[k].label0,
                ) && first.input_commitments@[k].commit_true == LH::commitment(
                    res.input_wire_values@[k].label1,
                )
            &&& first.output_commit_false == LH::commitment(res.output_value.label0)
            &&& first.output_commit_true == LH::commitment(res.output_value.label1)
            &&& first.false_constant == res.false_wire_constant.label0.0
            &&& first.true_constant == res.true_wire_constant.label1.0
        },
{
    let again = regarbled_phase_one::<GH, LH>(res, first.gate_hasher_seed);
    let inputs = res.input_wire_values@;
    if again == first@ {
        assert(again.input_commitments == first@.input_commitments);
        assert(again.output_commit_false == first@.output_commit_false);
        assert forall|k: int| 0 <= k < inputs.len() implies (
        #[trigger] first.input_commitments@[k]).commit_false == LH::commitment(inputs[k].label0)
            && first.input_commitments@[k].commit_true == LH::commitment(inputs[k].label1) by {
            assert(again.input_commitments[k] == first.input_commitments@[k]);
        }
    }
    if inputs.len() == first.input_commitments@.len() && forall|k: int|
        0 <= k < inputs.len() ==> (#[trigger] first.input_commitments@[k]).commit_false
            == LH::commitment(inputs[k].label0) && first.input_commitments@[k].commit_true
            == LH::commitment(inputs[k].label1) {
        assert(again.input_commitments =~= first@.input_commitments);
    }
}

/// The second commitments to an instance match its labels exactly if every commitment is
/// to a label with the nonce XORed into it.
pub proof fn second_commits_match_in_parts<LH: LabelCommitHasher>(
    second: Seq<LabelCommit<LH::Output>>,
    inputs: Seq<GarbledWire>,
    nonce: S,
)
    ensures
        input_commits::<LH>(inputs, Some(nonce)) == second <==> {
            &&& inputs.len() == second.len()
            &&& forall|k: int|
                0 <= k < inputs.len() ==> (#[trigger] second[k]).commit_false == LH::commitment(
                    S(inputs[k].label0.0 ^ nonce.0),
                ) && second[k].commit_true == LH::commitment(S(inputs[k].label1.0 ^ nonce.0))
        },
{
    let again = input_commits::<LH>(inputs, Some(nonce));
    if again == second {
        assert forall|k: int| 0 <= k < inputs.len() implies (#[trigger] second[k]).commit_false
            == LH::commitment(S(inputs[k].label0.0 ^ nonce.0)) && second[k].commit_true
            == LH::commitment(S(inputs[k].label1.0 ^ nonce.0)) by {
            assert(again[k] == second[k]);
        }
    }
    if inputs.len() == second.len() && forall|k: int|
        0 <= k < inputs.len() ==> (#[trigger] second[k]).commit_false == LH::commitment(
            S(inputs[k].label0.0 ^ nonce.0),
        ) && second[k].commit_true == LH::commitment(S(inputs[k].label1.0 ^ nonce.0)) {
        assert(again =~= second);
    }
}

/// An instance stands its check exactly if what the check brought is what was committed,
/// part by part. Of a finalized instance this is the hash of its ciphertexts. Of an
/// opened one these are, of what garbling it again gave, the hash of the ciphertexts,
/// the commitments to both labels of every input, without and with the nonce, and of the
/// output, and the active labels of the constants. A check of the opened instances alone
/// asks nothing of a finalized one.
pub proof fn checked_instance_is_bound<I, GH: GateHasher, LH: LabelCommitHasher>(
    evaluator: Evaluator<I, GH, LH>,
    index: usize,
    evidence: Evidence,
)
    ensures
        ({
            let first = evaluator.stage->first@[index as int];
            let second = evaluator.stage->Filled_second@[index as int].input_commitments@;
            let finalized = evaluator.finalized_indexes@.contains(index);
            let res = evidence->Regarbled_0;
            let inputs = res.input_wire_values@;
            let opened = {
                &&& evidence is Regarbled
                &&& res.ciphertext_handler_result == first.ciphertext_hash
                &&& inputs.len() == first.input_commitments@.len()
                &&& inputs.len() == second.len()
                &&& forall|k: int|
                    0 <= k < inputs.len() ==> (
                    #[trigger] first.input_commitments@[k]).commit_false == LH::commitment(
                        inputs[k].label0,
                    ) && first.input_commitments@[k].commit_true == LH::commitment(inputs[k].label1)
                &&& forall|k: int|
                    0 <= k < inputs.len() ==> (#[trigger] second[k]).commit_false
                        == LH::commitment(S(inputs[k].label0.0 ^ evaluator.nonce.0))
                        && second[k].commit_true == LH::commitment(
                        S(inputs[k].label1.0 ^ evaluator.nonce.0),
                    )
                &&& first.output_commit_false == LH::commitment(res.output_value.label0)
                &&& first.output_commit_true == LH::commitment(res.output_value.label1)
                &&& first.false_constant == res.false_wire_constant.label0.0
                &&& first.true_constant == res.true_wire_constant.label1.0
            };
            &&& evaluator.instance_holds(index as int, evidence) <==> if finalized {
                evidence == Evidence::CiphertextHash(first.ciphertext_hash)
            } else {
                opened
            }
            &&& evaluator.opened_instance_holds(index as int, evidence) <==> finalized || opened
        }),
{
    let first = evaluator.stage->first@[index as int];
    let second = evaluator.stage->Filled_second@[index as int].input_commitments@;
    match evidence {
        Evidence::Regarbled(res) => {
            regarbling_matches_in_parts(first, res);
            second_commits_match_in_parts::<LH>(second, res.input_wire_values@, evaluator.nonce);
        },
        _ => (),
    }
}

/// An evaluated instance is consistent with its commitment exactly if there are
/// ciphertexts for it, their hash is the committed one, there are as many inputs as
/// commitments, and the active label of every input and of the output has the commitment
/// that was made for its value.
pub proof fn consistent_case_is_bound<GH: GateHasher, LH: LabelCommitHasher>(
    commit: CommitPhaseOne<GH, LH>,
    case: EvaluatedCase,
)
    ensures
        case_fault(commit, case) is None <==> case.result is Some && {
            let res = case.result->0;
            let inputs = res.input_wire_values@;
            &&& res.ciphertext_handler_result == commit.ciphertext_hash
            &&& inputs.len() == commit.input_commitments@.len()
            &&& forall|k: int|
                0 <= k < inputs.len() ==> LH::commitment((#[trigger] inputs[k]).active_label) == (
                if inputs[k].value {
                    commit.input_commitments@[k].commit_true
                } else {
                    commit.input_commitments@[k].commit_false
                })
            &&& LH::commitment(res.output_value.active_label) == (if res.output_value.value {
                commit.output_commit_true
            } else {
                commit.output_commit_false
            })
        },
{
    match case.result {
        Some(res) => {
            let commits = commit.input_commitments@;
            let inputs = res.input_wire_values@;
            if inputs.len() == commits.len() {
                first_bad_label_is_first::<LH>(commits, inputs, 0);
                if forall|k: int|
                    0 <= k < inputs.len() ==> LH::commitment((#[trigger] inputs[k]).active_label)
                        == (if inputs[k].value {
                        commits[k].commit_true
                    } else {
                        commits[k].commit_false
                    }) {
                    let bad = first_bad_label::<LH>(commits, inputs, 0);
                    if bad < commits.len() {
                        assert(!label_holds::<LH>(commits[bad], inputs[bad]));
                    }
                }
            }
        },
        None => (),
    }
}

/// The first bad label is the first that has not the commitment for its value.
pub proof fn first_bad_label_is_first<LH: LabelCommitHasher>(
    commits: Seq<LabelCommit<LH::Output>>,
    wires: Seq<EvaluatedWire>,
    from: int,
)
    requires
        0 <= from <= commits.len(),
    ensures
        ({
            let bad = first_bad_label::<LH>(commits, wires, from);
            &&& from <= bad <= commits.len()
            &&& forall|k: int|
                from <= k < bad ==> LH::commitment((#[trigger] wires[k]).active_label) == (
                if wires[k].value {
                    commits[k].commit_true
                } else {
                    commits[k].commit_false
                })
            &&& bad < commits.len() ==> LH::commitment(wires[bad].active_label) != (
            if wires[bad].value {
                commits[bad].commit_true
            } else {
                commits[bad].commit_false
            })
        }),
    decreases commits.len() - from,
{
    if from < commits.len() && label_holds::<LH>(commits[from], wires[from]) {
        first_bad_label_is_first::<LH>(commits, wires, from + 1);
    }
}

/// An evaluation with labels of the garbler's own, the ciphertexts it committed to,
/// and an output label of its own is consistent with its commitment.
pub proof fn honest_evaluation_is_consistent<GH: GateHasher, LH: LabelCommitHasher>(
    instance: GarbledInstance<GH>,
    commit: CommitPhaseOne<GH, LH>,
    index: usize,
    res: EvaluationResult,
)
    requires
        commit@ == phase_one::<GH, LH>(instance),
        res.input_wire_values@.len() == instance.input_wire_values@.len(),
        forall|i: int|
            0 <= i < res.input_wire_values@.len() ==> (
            #[trigger] res.input_wire_values@[i]).active_label == selected(
                instance.input_wire_values@[i],
                res.input_wire_values@[i].value,
            ),
        res.ciphertext_handler_result == instance.ciphertext_handler_result,
        res.output_value.active_label == selected(
            instance.output_wire_values,
            res.output_value.value,
        ),
    ensures
        case_fault(commit, EvaluatedCase { index, result: Some(res) }) is None,
{
    let commits = commit.input_commitments@;
    assert(commit@.input_commitments == commits);
    assert(commits == input_commits::<LH>(instance.input_wire_values@, None));
    assert forall|i: int| 0 <= i < commits.len() implies label_holds::<LH>(
        #[trigger] commits[i],
        res.input_wire_values@[i],
    ) by {
        let wire = res.input_wire_values@[i];
        assert(wire.active_label == selected(instance.input_wire_values@[i], wire.value));
        assert(commits[i] == wire_commit::<LH>(instance.input_wire_values@[i], None));
    }
    all_labels_hold::<LH>(commits, res.input_wire_values@, 0);
    assert(commit@.ciphertext_hash == commit.ciphertext_hash);
    assert(commit@.output_commit_true == commit.output_commit_true);
    assert(commit@.output_commit_false == commit.output_commit_false);
}

proof fn all_labels_hold<LH: LabelCommitHasher>(
    commits: Seq<LabelCommit<LH::Output>>,
    wires: Seq<EvaluatedWire>,
    from: int,
)
    requires
        0 <= from <= commits.len(),
        forall|i: int|
            0 <= i < commits.len() ==> label_holds::<LH>(#[trigger] commits[i], wires[i]),
    ensures
        first_bad_label::<LH>(commits, wires, from) == commits.len(),
    decreases commits.len() - from,
{
    if from < commits.len() {
        all_labels_hold::<LH>(commits, wires, from + 1);
    }
}

/// The first commitments are used only once both are known and the instances were checked.
pub proof fn commitments_are_used_after_check<GH: GateHasher, LH: LabelCommitHasher>(
    stage: Stage<GH, LH>,
)
    ensures
        stage.ready(false) is None,
        stage is Empty || stage is Created ==> stage.ready(true) is None,
        stage matches Stage::Filled { first, second } ==> stage.ready(true) == Some(first@),
{
}

/// What comes of evaluated instances: the output of each, in order, if every one is
/// consistent with its commitment, else the fault of the first that is not.
pub proof fn outcome_is_all_or_first_fault<GH: GateHasher, LH: LabelCommitHasher>(
    commits: Seq<CommitPhaseOne<GH, LH>>,
    cases: Seq<EvaluatedCase>,
    r: Result<Vec<(usize, EvaluatedWire)>, ConsistencyError<LH>>,
    k: int,
)
    requires
        outcome_of(commits, cases, r),
        0 <= k < cases.len(),
    ensures
        r matches Ok(outs) ==> {
            &&& outs@.len() == cases.len()
            &&& outs@[k].0 == cases[k].index
            &&& cases[k].result is Some
            &&& outs@[k].1 == cases[k].result->0.output_value
            &&& case_fault(commits[cases[k].index as int], cases[k]) is None
        },
        case_fault(commits[cases[k].index as int], cases[k]) is Some && (forall|i: int|
            0 <= i < k ==> case_fault(
                commits[(#[trigger] cases[i]).index as int],
                cases[i],
            ) is None) ==> r is Err && Some(r->Err_0) == case_fault(
            commits[cases[k].index as int],
            cases[k],
        ),
{
    assert(cases[k].index == cases[k].index);
    consistent_case_is_bound(commits[cases[k].index as int], cases[k]);
    if r is Err {
        let e = r->Err_0;
        let j = choose|j: int|
            0 <= j < cases.len() && cases_hold(commits, cases.take(j)) && #[trigger] case_fault(
                commits[cases[j].index as int],
                cases[j],
            ) == Some(e);
        if case_fault(commits[cases[k].index as int], cases[k]) is Some && forall|i: int|
            0 <= i < k ==> case_fault(commits[(#[trigger] cases[i]).index as int], cases[i]) is None {
            if j < k {
                assert(case_fault(commits[cases[j].index as int], cases[j]) is None);
            }
            if k < j {
                assert(cases.take(j)[k] == cases[k]);
            }
        }
    }
}

/// What a fault tells: the instance, what was committed and what came instead.
pub proof fn fault_tells_what_differs<GH: GateHasher, LH: LabelCommitHasher>(
    commit: CommitPhaseOne<GH, LH>,
    case: EvaluatedCase,
)
    requires
        case.result matches Some(res) ==> res.input_wire_values@.len() <= usize::MAX
            && commit.input_commitments@.len() <= usize::MAX,
    ensures
        case.result is None ==> case_fault(commit, case) == Some(
            ConsistencyError::<LH>::MissingCiphertextHash(case.index),
        ),
        case_fault(commit, case) matches Some(e) ==> match e {
            ConsistencyError::MissingCiphertextHash(index) => index == case.index
                && case.result is None,
            ConsistencyError::InputLabelsCountMismatch { index, expected, actual } => {
                &&& index == case.index
                &&& expected == commit.input_commitments@.len()
                &&& actual == case.result->0.input_wire_values@.len()
                &&& expected != actual
            },
            ConsistencyError::InputLabelsMismatch { index, label_index, expected, actual } => {
                let wire = case.result->0.input_wire_values@[label_index as int];
                &&& index == case.index
                &&& label_index < commit.input_commitments@.len()
                &&& expected == commit.input_commitments@[label_index as int]
                &&& wire.value ==> actual.commit_true == LH::commitment(wire.active_label)
                    && actual.commit_true != expected.commit_true && actual.commit_false
                    == expected.commit_false
                &&& !wire.value ==> actual.commit_false == LH::commitment(wire.active_label)
                    && actual.commit_false != expected.commit_false && actual.commit_true
                    == expected.commit_true
            },
            ConsistencyError::CiphertextMismatch { index, expected, actual } => {
                &&& index == case.index
                &&& expected == commit.ciphertext_hash
                &&& actual == case.result->0.ciphertext_handler_result
                &&& expected != actual
            },
            ConsistencyError::OutputLabelMismatch { index, expected, actual } => {
                let out = case.result->0.output_value;
                &&& index == case.index
                &&& out.value ==> expected == commit.output_commit_true
                &&& !out.value ==> expected == commit.output_commit_false
                &&& actual == LH::commitment(out.active_label)
                &&& expected != actual
            },
            _ => false,
        },
{
    match case.result {
        Some(res) => {
            if commit.input_commitments@.len() == res.input_wire_values@.len() {
                first_bad_label_is_first::<LH>(
                    commit.input_commitments@,
                    res.input_wire_values@,
                    0,
                );
            }
        },
        None => (),
    }
}

/// What a garbler commits to first for an instance is, part by part, what garbling it gave:
/// the hash of its ciphertexts, both labels of every input and of the output, the active
/// labels of the constants, and the seed of its gate hasher.
pub proof fn first_commitment_is_to_all_parts<GH: GateHasher, LH: LabelCommitHasher>(
    instances: Seq<GarbledInstance<GH>>,
    commits: Seq<CommitPhaseOne<GH, LH>>,
    i: int,
    res: StreamingResult,
    seed: GH::Seed,
    k: int,
)
    requires
        phase_ones(instances, commits),
        0 <= i < instances.len(),
        instance_of(res, seed, instances[i]),
        0 <= k < res.input_wire_values@.len(),
    ensures
        commits.len() == instances.len(),
        commits[i].gate_hasher_seed == seed,
        commits[i].ciphertext_hash == res.ciphertext_handler_result,
        commits[i].input_commitments@.len() == res.input_wire_values@.len(),
        commits[i].input_commitments@[k].commit_false == LH::commitment(
            res.input_wire_values@[k].label0,
        ),
        commits[i].input_commitments@[k].commit_true == LH::commitment(
            res.input_wire_values@[k].label1,
        ),
        commits[i].output_commit_false == LH::commitment(res.output_value.label0),
        commits[i].output_commit_true == LH::commitment(res.output_value.label1),
        commits[i].false_constant == res.false_wire_constant.label0.0,
        commits[i].true_constant == res.true_wire_constant.label1.0,
{
    let first = commits[i];
    assert(first@ == phase_one::<GH, LH>(instances[i]));
    assert(first@.gate_hasher_seed == first.gate_hasher_seed);
    assert(first@.output_commit_true == first.output_commit_true);
    assert(first@.input_commitments[k] == wire_commit::<LH>(res.input_wire_values@[k], None));
}

/// What a garbler commits to second for an instance are both labels of every input with the
/// evaluator's nonce XORed into them.
pub proof fn second_commitment_is_blended<GH: GateHasher, LH: LabelCommitHasher>(
    instances: Seq<GarbledInstance<GH>>,
    nonce: S,
    commits: Seq<CommitPhaseTwo<LH>>,
    i: int,
    k: int,
)
    requires
        phase_twos(instances, nonce, commits),
        0 <= i < instances.len(),
        0 <= k < instances[i].input_wire_values@.len(),
    ensures
        commits.len() == instances.len(),
        commits[i].input_commitments@.len() == instances[i].input_wire_values@.len(),
        commits[i].input_commitments@[k].commit_false == LH::commitment(
            S(instances[i].input_wire_values@[k].label0.0 ^ nonce.0),
        ),
        commits[i].input_commitments@[k].commit_true == LH::commitment(
            S(instances[i].input_wire_values@[k].label1.0 ^ nonce.0),
        ),
{
    second_commits_match_in_parts::<LH>(
        commits[i].input_commitments@,
        instances[i].input_wire_values@,
        nonce,
    );
    assert(commits[i].input_commitments@[k].commit_false
        == commits[i].input_commitments@[k].commit_false);
}

} // verus!
