//! The evaluator of cut-and-choose with shared labels of bytes.

use crate::bytes::same_bytes;
use crate::cut_and_choose::commit::{
    CiphertextCommit, CommitPhaseOne, Config, GarbledInstance, LabelCommitHasher, Seed,
    StreamingResult,
};
use crate::cut_and_choose::errors::ConsistencyError;
use crate::cut_and_choose::evaluator::{
    answer_task, answers, can_answer, check_cases, fair_draws, index_among, outcome_of,
    regarbled_phase_one, sample_indexes, sampled, CheckTask, EvaluatedCase, Evidence,
};
use crate::cut_and_choose::garbler::copy_wires;
use crate::hashers::GateHasher;
use crate::modes::evaluate::EvaluatedWire;
use crate::s::S;
use crate::vsss::commits::{
    commits_follow, share_fault, share_indexes, PolynomialCommits, ShareCommits,
};
use crate::vsss::field::Scalar;
use crate::vsss::garbler::{wide_labels, InstanceWideLabelLookup};
use crate::vsss::interpolation::stand_for;
use crate::vsss::points::{Point, Secp256k1};
use crate::vsss::protocol::{OpenVsssInstance, VsssCommit};
use crate::vsss::wide_garbling::{
    all_rows, labels_match, tables_hash, tables_of, GarbledWideLabelTable,
};
use vstd::prelude::*;

verus! {

/// How far the evaluator is.
pub enum Stage<GH: GateHasher, LH: LabelCommitHasher> {
    Empty,
    /// The commitments are known.
    Vsss { commits: VsssCommit<GH, LH> },
}

impl<GH: GateHasher, LH: LabelCommitHasher> Stage<GH, LH> {
    /// The commitments to the instances, once the opened ones were checked.
    pub open spec fn ready(self, regarbled: bool) -> Option<Seq<CommitPhaseOne<GH, LH>>> {
        if regarbled && self is Vsss {
            Some(self->commits.circuit_commits@)
        } else {
            None
        }
    }

    pub fn get_commit_if_ready(&self, regarbled: bool) -> (r: Option<&Vec<CommitPhaseOne<GH, LH>>>)
        ensures
            match (r, self.ready(regarbled)) {
                (Some(v), Some(s)) => v@ == s,
                (None, None) => true,
                _ => false,
            },
    {
        if !regarbled {
            return None;
        }
        match self {
            Stage::Empty => None,
            Stage::Vsss { commits } => Some(&commits.circuit_commits),
        }
    }
}

/// The evaluator of all instances, with shared labels of bytes.
pub struct Evaluator<I, GH: GateHasher, LH: LabelCommitHasher> {
    pub config: Config<I>,
    pub nonce: S,
    pub finalized_indexes: Vec<usize>,
    /// Whether the opened instances were garbled again and checked.
    pub regarbled: bool,
    pub stage: Stage<GH, LH>,
}

/// Whether the commitments to shares follow from those to the polynomial.
pub open spec fn shares_follow(polynomial: Seq<Point>, shares: Seq<Point>) -> bool {
    forall|ys: Seq<int>| #[trigger]
        stand_for(polynomial, ys) ==> commits_follow(ys, polynomial, shares)
}

/// Whether the commitments to shares contradict those to the polynomial.
pub open spec fn shares_contradict(polynomial: Seq<Point>, shares: Seq<Point>) -> bool {
    forall|ys: Seq<int>| #[trigger]
        stand_for(polynomial, ys) ==> !commits_follow(ys, polynomial, shares)
}

/// Checks that the commitments to the shares of every polynomial follow from those to
/// the polynomial.
pub fn verify_share_commits(polynomials: &Vec<PolynomialCommits>, shares: &Vec<ShareCommits>) -> (r:
    Result<(), String>)
    requires
        polynomials@.len() == shares@.len(),
        forall|p: int|
            0 <= p < shares@.len() ==> (#[trigger] shares@[p]).0@.len() > 0
                && polynomials@[p].0.0@.len() <= shares@[p].0@.len(),
    ensures
        match r {
            Ok(_) => forall|p: int|
                0 <= p < shares@.len() ==> shares_follow(
                    polynomials@[p].0.0@,
                    (#[trigger] shares@[p]).0@,
                ),
            Err(e) => e@ == "Share commit verification failed"@ && exists|p: int|
                0 <= p < shares@.len() && shares_contradict(
                    polynomials@[p].0.0@,
                    (#[trigger] shares@[p]).0@,
                ),
        },
{
    let mut p: usize = 0;
    while p < shares.len()
        invariant
            p <= shares@.len(),
            polynomials@.len() == shares@.len(),
            forall|p: int|
                0 <= p < shares@.len() ==> (#[trigger] shares@[p]).0@.len() > 0
                    && polynomials@[p].0.0@.len() <= shares@[p].0@.len(),
            forall|k: int|
                0 <= k < p ==> shares_follow(polynomials@[k].0.0@, (#[trigger] shares@[k]).0@),
        decreases shares@.len() - p,
    {
        assert(shares@[p as int].0@.len() > 0);
        match shares[p].verify(&polynomials[p]) {
            Ok(_) => {
                assert(shares_follow(polynomials@[p as int].0.0@, shares@[p as int].0@));
            },
            Err(e) => {
                assert(shares_contradict(polynomials@[p as int].0.0@, shares@[p as int].0@));
                return Err(e);
            },
        }
        p = p + 1;
    }
    Ok(())
}

/// The shares of polynomial `p` that opened instances reveal.
pub open spec fn revealed_shares(open: Seq<OpenVsssInstance>, p: int) -> Seq<(usize, Scalar)> {
    Seq::new(open.len(), |k: int| (open[k].index, open[k].shares@[p]))
}

/// Whether the revealed shares of every polynomial agree with their commitments.
pub open spec fn revealed_shares_hold(
    commits: Seq<ShareCommits>,
    open: Seq<OpenVsssInstance>,
) -> bool {
    forall|p: int|
        0 <= p < commits.len() ==> share_indexes(revealed_shares(open, p)).no_duplicates()
            && share_fault((#[trigger] commits[p]).0@, revealed_shares(open, p), 0) is None
}

/// The position of the first opened instance with this number.
pub open spec fn first_open(open: Seq<OpenVsssInstance>, index: usize, from: int) -> Option<int>
    decreases open.len() - from,
{
    if from >= open.len() {
        None
    } else if open[from].index == index {
        Some(from)
    } else {
        first_open(open, index, from + 1)
    }
}

/// The check of instance `index`, given what opened instances reveal.
pub open spec fn open_task(finalized: Seq<usize>, open: Seq<OpenVsssInstance>, index: usize) -> CheckTask {
    if finalized.contains(index) {
        CheckTask::Ciphertexts
    } else {
        match first_open(open, index, 0) {
            Some(k) => CheckTask::Regarble { seed: open[k].seed },
            None => CheckTask::MissingSeed,
        }
    }
}

/// The position of the first tables with this number.
pub open spec fn first_lookup(
    lookups: Seq<(usize, InstanceWideLabelLookup)>,
    index: usize,
    from: int,
) -> Option<int>
    decreases lookups.len() - from,
{
    if from >= lookups.len() {
        None
    } else if lookups[from].0 == index {
        Some(from)
    } else {
        first_lookup(lookups, index, from + 1)
    }
}

/// Whether a finalized instance bears out the commitments: its ciphertexts and its
/// tables have the committed hashes.
pub open spec fn finalized_holds<GH: GateHasher, LH: LabelCommitHasher>(
    commits: VsssCommit<GH, LH>,
    lookups: Seq<(usize, InstanceWideLabelLookup)>,
    index: usize,
    evidence: Evidence,
) -> bool {
    &&& ciphertexts_hold(commits, index, evidence)
    &&& tables_hash(all_rows(lookups[first_lookup(lookups, index, 0)->0].1@))
        == commits.garbling_table_commits@[index as int]@
}

/// Whether the ciphertexts of an instance have the committed hash.
pub open spec fn ciphertexts_hold<GH: GateHasher, LH: LabelCommitHasher>(
    commits: VsssCommit<GH, LH>,
    index: usize,
    evidence: Evidence,
) -> bool {
    evidence matches Evidence::CiphertextHash(h) && h
        == commits.circuit_commits@[index as int].ciphertext_hash
}

/// Whether an opened instance bears out the commitments: garbling it again gives the
/// committed labels and ciphertexts, and with the revealed shares the committed
/// tables.
pub open spec fn opened_holds<GH: GateHasher, LH: LabelCommitHasher>(
    commits: VsssCommit<GH, LH>,
    open: Seq<OpenVsssInstance>,
    index: usize,
    evidence: Evidence,
) -> bool {
    let first = commits.circuit_commits@[index as int];
    match (first_open(open, index, 0), evidence) {
        (Some(k), Evidence::Regarbled(res)) => tables_hash(
            tables_of(open[k].shares@, res.input_wire_values@),
        ) == commits.garbling_table_commits@[index as int]@ && regarbled_phase_one::<GH, LH>(
            res,
            first.gate_hasher_seed,
        ) == first@,
        _ => false,
    }
}

fn find_open(open: &[OpenVsssInstance], index: usize) -> (r: Option<usize>)
    ensures
        match (r, first_open(open@, index, 0)) {
            (Some(a), Some(b)) => a == b && a < open@.len(),
            (None, None) => true,
            _ => false,
        },
{
    let mut k: usize = 0;
    while k < open.len()
        invariant
            k <= open@.len(),
            first_open(open@, index, 0) == first_open(open@, index, k as int),
        decreases open@.len() - k,
    {
        if open[k].index == index {
            return Some(k);
        }
        k = k + 1;
    }
    None
}

/// The position of the first tables with this number, if there are any.
pub fn find_lookup(lookups: &[(usize, InstanceWideLabelLookup)], index: usize) -> (r: Option<usize>)
    ensures
        match (r, first_lookup(lookups@, index, 0)) {
            (Some(a), Some(b)) => a == b && a < lookups@.len(),
            (None, None) => true,
            _ => false,
        },
{
    let mut k: usize = 0;
    while k < lookups.len()
        invariant
            k <= lookups@.len(),
            first_lookup(lookups@, index, 0) == first_lookup(lookups@, index, k as int),
        decreases lookups@.len() - k,
    {
        if lookups[k].0 == index {
            return Some(k);
        }
        k = k + 1;
    }
    None
}

fn check_revealed_shares(commits: &Vec<ShareCommits>, open: &[OpenVsssInstance]) -> (r: bool)
    requires
        forall|k: int|
            0 <= k < open@.len() ==> (#[trigger] open@[k]).shares@.len() >= commits@.len(),
    ensures
        r == revealed_shares_hold(commits@, open@),
{
    let secp = Secp256k1::new();
    let mut p: usize = 0;
    while p < commits.len()
        invariant
            p <= commits@.len(),
            forall|k: int|
                0 <= k < open@.len() ==> (#[trigger] open@[k]).shares@.len() >= commits@.len(),
            forall|q: int|
                0 <= q < p ==> share_indexes(revealed_shares(open@, q)).no_duplicates()
                    && share_fault((#[trigger] commits@[q]).0@, revealed_shares(open@, q), 0) is None,
        decreases commits@.len() - p,
    {
        let mut shares: Vec<(usize, Scalar)> = Vec::new();
        let mut k: usize = 0;
        while k < open.len()
            invariant
                k <= open@.len(),
                p < commits@.len(),
                forall|k: int|
                    0 <= k < open@.len() ==> (#[trigger] open@[k]).shares@.len() >= commits@.len(),
                shares@.len() == k,
                forall|j: int|
                    0 <= j < k ==> #[trigger] shares@[j] == revealed_shares(open@, p as int)[j],
            decreases open@.len() - k,
        {
            assert(open@[k as int].shares@.len() >= commits@.len());
            shares.push((open[k].index, open[k].shares[p]));
            k = k + 1;
        }
        assert(shares@ =~= revealed_shares(open@, p as int));
        match commits[p].verify_shares(&secp, shares.as_slice()) {
            Ok(_) => (),
            Err(_) => {
                assert(!(share_indexes(revealed_shares(open@, p as int)).no_duplicates()
                    && share_fault(commits@[p as int].0@, revealed_shares(open@, p as int), 0) is None));
                return false;
            },
        }
        p = p + 1;
    }
    true
}

fn check_finalized<GH: GateHasher, LH: LabelCommitHasher>(
    commits: &VsssCommit<GH, LH>,
    lookups: &[(usize, InstanceWideLabelLookup)],
    index: usize,
    evidence: &Evidence,
) -> (r: bool)
    requires
        index < commits.circuit_commits@.len(),
        index < commits.garbling_table_commits@.len(),
        ciphertexts_hold(*commits, index, *evidence) ==> first_lookup(lookups@, index, 0) is Some,
    ensures
        r == finalized_holds(*commits, lookups@, index, *evidence),
{
    match evidence {
        Evidence::CiphertextHash(h) => {
            if !same_bytes(h, &commits.circuit_commits[index].ciphertext_hash) {
                return false;
            }
            match find_lookup(lookups, index) {
                Some(k) => {
                    let hash = GarbledWideLabelTable::aggregate_hash(lookups[k].1.as_slice());
                    let r = same_bytes(&hash, &commits.garbling_table_commits[index]);
                    r
                },
                None => false,
            }
        },
        _ => false,
    }
}

fn check_opened<GH: GateHasher, LH: LabelCommitHasher>(
    commits: &VsssCommit<GH, LH>,
    open: &[OpenVsssInstance],
    index: usize,
    evidence: &Evidence,
) -> (r: bool)
    requires
        index < commits.circuit_commits@.len(),
        index < commits.garbling_table_commits@.len(),
        match (first_open(open@, index, 0), *evidence) {
            (Some(k), Evidence::Regarbled(res)) => labels_match(
                open@[k].shares@,
                res.input_wire_values@,
            ),
            _ => true,
        },
    ensures
        r == opened_holds(*commits, open@, index, *evidence),
{
    let k: usize = match find_open(open, index) {
        Some(k) => k,
        None => {
            return false;
        },
    };
    match evidence {
        Evidence::Regarbled(res) => {
            let first = &commits.circuit_commits[index];
            let tables = GarbledWideLabelTable::build_all(
                open[k].shares.as_slice(),
                res.input_wire_values.as_slice(),
            );
            let hash = GarbledWideLabelTable::aggregate_hash(tables.as_slice());
            if !same_bytes(&hash, &commits.garbling_table_commits[index]) {
                return false;
            }
            let instance = GarbledInstance::<GH> {
                false_wire_constant: res.false_wire_constant,
                true_wire_constant: res.true_wire_constant,
                output_wire_values: res.output_value,
                input_wire_values: copy_wires(&res.input_wire_values),
                ciphertext_handler_result: res.ciphertext_handler_result,
                gate_hasher_seed: *first.gate_hasher_seed(),
            };
            CommitPhaseOne::<GH, LH>::from_instance(&instance).same(first)
        },
        _ => false,
    }
}

impl<I, GH: GateHasher, LH: LabelCommitHasher> Evaluator<I, GH, LH> {
    /// An evaluator for inputs of `num_inputs` bits that knows the commitments, if
    /// those to the shares follow from those to the polynomials. The instances to
    /// finalize follow from random draws, and the nonce is a random draw.
    pub fn create(
        draws: &[usize],
        nonce: u128,
        config: Config<I>,
        num_inputs: usize,
        commits: VsssCommit<GH, LH>,
    ) -> (r: Result<Self, String>)
        requires
            wide_labels(num_inputs as int) <= usize::MAX,
            commits.polynomial_commits@.len() == wide_labels(num_inputs as int),
            commits.share_commits@.len() == wide_labels(num_inputs as int),
            forall|p: int|
                0 <= p < commits.share_commits@.len() ==> (
                #[trigger] commits.share_commits@[p]).0@.len() > 0
                    && commits.polynomial_commits@[p].0.0@.len()
                    <= commits.share_commits@[p].0@.len(),
            config.finalized_count <= config.total,
            commits.circuit_commits@.len() == config.total,
            fair_draws(config.total as nat, draws@),
        ensures
            match r {
                Ok(e) => {
                    &&& forall|p: int|
                        0 <= p < commits.share_commits@.len() ==> shares_follow(
                            commits.polynomial_commits@[p].0.0@,
                            (#[trigger] commits.share_commits@[p]).0@,
                        )
                    &&& e.stage == (Stage::<GH, LH>::Vsss { commits })
                    &&& e.finalized_indexes@ == sampled(
                        config.total as nat,
                        config.finalized_count as nat,
                        draws@,
                    )
                    &&& e.config == config
                    &&& e.nonce == S(nonce)
                    &&& !e.regarbled
                },
                Err(e) => e@ == "Share commit verification failed"@ && exists|p: int|
                    0 <= p < commits.share_commits@.len() && shares_contradict(
                        commits.polynomial_commits@[p].0.0@,
                        (#[trigger] commits.share_commits@[p]).0@,
                    ),
            },
    {
        match verify_share_commits(&commits.polynomial_commits, &commits.share_commits) {
            Ok(_) => (),
            Err(e) => {
                return Err(e);
            },
        }
        let finalized_indexes = sample_indexes(config.total, config.finalized_count, draws);
        Ok(
            Evaluator {
                stage: Stage::Vsss { commits },
                finalized_indexes,
                config,
                nonce: S::from_u128(nonce),
                regarbled: false,
            },
        )
    }

    pub fn config(&self) -> (r: &Config<I>)
        ensures
            *r == self.config,
    {
        &self.config
    }

    pub fn finalized_indexes(&self) -> (r: &[usize])
        ensures
            r@ == self.finalized_indexes@,
    {
        self.finalized_indexes.as_slice()
    }

    /// What is to be done to check instance `index`, given what opened instances reveal.
    pub fn check_task(&self, index: usize, open: &[OpenVsssInstance]) -> (r: CheckTask)
        ensures
            r == open_task(self.finalized_indexes@, open@, index),
    {
        if index_among(&self.finalized_indexes, index) {
            return CheckTask::Ciphertexts;
        }
        match find_open(open, index) {
            Some(k) => CheckTask::Regarble { seed: open[k].seed },
            None => CheckTask::MissingSeed,
        }
    }

    /// What the check of instance `index` brings: the hash of its ciphertexts if it is
    /// finalized, else what garbling it from its revealed seed gives.
    pub fn evidence_for<
        R: Fn(Seed) -> StreamingResult,
        C: Fn(usize) -> Option<CiphertextCommit>,
    >(&self, index: usize, open: &[OpenVsssInstance], regarble: R, take: C) -> (r: Evidence)
        requires
            can_answer(open_task(self.finalized_indexes@, open@, index), index, regarble, take),
        ensures
            answers(open_task(self.finalized_indexes@, open@, index), index, regarble, take, r),
    {
        answer_task(self.check_task(index, open), index, regarble, take)
    }

    /// Whether instance `index` bears out the commitments.
    pub open spec fn instance_holds(
        &self,
        open: Seq<OpenVsssInstance>,
        lookups: Seq<(usize, InstanceWideLabelLookup)>,
        index: int,
        evidence: Evidence,
    ) -> bool {
        if self.finalized_indexes@.contains(index as usize) {
            finalized_holds(self.stage->commits, lookups, index as usize, evidence)
        } else {
            opened_holds(self.stage->commits, open, index as usize, evidence)
        }
    }

    /// Whether what an instance is checked with has the right shape: tables for a
    /// finalized instance, and labels that match for an opened one.
    pub open spec fn can_check(
        &self,
        open: Seq<OpenVsssInstance>,
        lookups: Seq<(usize, InstanceWideLabelLookup)>,
        index: int,
        evidence: Evidence,
    ) -> bool {
        if self.finalized_indexes@.contains(index as usize) {
            ciphertexts_hold(self.stage->commits, index as usize, evidence) ==> first_lookup(
                lookups,
                index as usize,
                0,
            ) is Some
        } else {
            match (first_open(open, index as usize, 0), evidence) {
                (Some(k), Evidence::Regarbled(res)) => labels_match(
                    open[k].shares@,
                    res.input_wire_values@,
                ),
                _ => true,
            }
        }
    }

    /// Checks the revealed shares and all instances. If all hold, the evaluator notes
    /// it.
    pub fn run_regarbling(
        &mut self,
        open_instance_data: &[OpenVsssInstance],
        wide_label_lookups: &[(usize, InstanceWideLabelLookup)],
        evidence: &Vec<Evidence>,
    ) -> (r: Result<(), ()>)
        requires
            old(self).stage is Vsss,
            evidence@.len() == old(self).stage->commits.circuit_commits@.len(),
            old(self).stage->commits.garbling_table_commits@.len() >= evidence@.len(),
            forall|k: int|
                0 <= k < open_instance_data@.len() ==> (
                #[trigger] open_instance_data@[k]).shares@.len()
                    >= old(self).stage->commits.share_commits@.len(),
            forall|i: int|
                0 <= i < evidence@.len() ==> old(self).can_check(
                    open_instance_data@,
                    wide_label_lookups@,
                    i,
                    #[trigger] evidence@[i],
                ),
        ensures
            r is Ok <==> revealed_shares_hold(
                old(self).stage->commits.share_commits@,
                open_instance_data@,
            ) && forall|i: int|
                0 <= i < evidence@.len() ==> old(self).instance_holds(
                    open_instance_data@,
                    wide_label_lookups@,
                    i,
                    #[trigger] evidence@[i],
                ),
            *final(self) == (Evaluator {
                regarbled: old(self).regarbled || r is Ok,
                ..*old(self)
            }),
    {
        let ghost before = *self;
        match &self.stage {
            Stage::Vsss { commits } => {
                if !check_revealed_shares(&commits.share_commits, open_instance_data) {
                    return Err(());
                }
                let mut i: usize = 0;
                while i < evidence.len()
                    invariant
                        i <= evidence@.len(),
                        evidence@.len() == commits.circuit_commits@.len(),
                        commits.garbling_table_commits@.len() >= evidence@.len(),
                        before.stage == (Stage::<GH, LH>::Vsss { commits: *commits }),
                        *self == before,
                        before == *old(self),
                        forall|k: int|
                            0 <= k < evidence@.len() ==> before.can_check(
                                open_instance_data@,
                                wide_label_lookups@,
                                k,
                                #[trigger] evidence@[k],
                            ),
                        forall|k: int|
                            0 <= k < i ==> before.instance_holds(
                                open_instance_data@,
                                wide_label_lookups@,
                                k,
                                #[trigger] evidence@[k],
                            ),
                    decreases evidence@.len() - i,
                {
                    assert(before.can_check(
                        open_instance_data@,
                        wide_label_lookups@,
                        i as int,
                        evidence@[i as int],
                    ));
                    let holds = if index_among(&self.finalized_indexes, i) {
                        check_finalized(commits, wide_label_lookups, i, &evidence[i])
                    } else {
                        check_opened(commits, open_instance_data, i, &evidence[i])
                    };
                    assert(holds == before.instance_holds(
                        open_instance_data@,
                        wide_label_lookups@,
                        i as int,
                        evidence@[i as int],
                    ));
                    if !holds {
                        return Err(());
                    }
                    i = i + 1;
                }
            },
            Stage::Empty => (),
        }
        self.regarbled = true;
        Ok(())
    }

    /// Evaluated instances, checked against the commitments: the outputs if every
    /// one is consistent, else why the first that is not is inconsistent.
    pub fn evaluate_from(&self, cases: &Vec<EvaluatedCase>) -> (r: Result<
        Vec<(usize, EvaluatedWire)>,
        ConsistencyError<LH>,
    >)
        requires
            self.stage.ready(self.regarbled) is Some,
            forall|i: int|
                0 <= i < cases@.len() ==> (#[trigger] cases@[i]).index
                    < self.stage.ready(self.regarbled)->0.len(),
        ensures
            outcome_of(self.stage.ready(self.regarbled)->0, cases@, r),
    {
        match self.stage.get_commit_if_ready(self.regarbled) {
            Some(commits) => check_cases(commits, cases),
            None => Ok(Vec::new()),
        }
    }
}

/// Evidence that was gathered for an instance and bears out its commitments shows what
/// the check is for: the ciphertexts that came in for a finalized instance have the
/// committed hash, and garbling an opened instance from its revealed seed gives the
/// committed labels and ciphertexts and, with the revealed shares, the committed tables.
pub proof fn gathered_evidence_shows_shared_instance<
    I,
    GH: GateHasher,
    LH: LabelCommitHasher,
    R: Fn(Seed) -> StreamingResult,
    C: Fn(usize) -> Option<CiphertextCommit>,
>(
    evaluator: Evaluator<I, GH, LH>,
    open: Seq<OpenVsssInstance>,
    lookups: Seq<(usize, InstanceWideLabelLookup)>,
    index: usize,
    regarble: R,
    take: C,
    evidence: Evidence,
)
    requires
        answers(
            open_task(evaluator.finalized_indexes@, open, index),
            index,
            regarble,
            take,
            evidence,
        ),
        evaluator.instance_holds(open, lookups, index as int, evidence),
    ensures
        evaluator.finalized_indexes@.contains(index) ==> take.ensures(
            (index,),
            Some(evaluator.stage->commits.circuit_commits@[index as int].ciphertext_hash),
        ),
        !evaluator.finalized_indexes@.contains(index) ==> {
            &&& first_open(open, index, 0) is Some
            &&& exists|res: StreamingResult| #[trigger]
                regarble.ensures((open[first_open(open, index, 0)->0].seed,), res)
                    && opened_holds(
                    evaluator.stage->commits,
                    open,
                    index,
                    Evidence::Regarbled(res),
                )
        },
{
}

/// The opened instance that counts is the first with its number, and so are the tables.
pub proof fn found_by_number_is_first(
    open: Seq<OpenVsssInstance>,
    lookups: Seq<(usize, InstanceWideLabelLookup)>,
    index: usize,
    from: int,
)
    requires
        0 <= from,
    ensures
        match first_open(open, index, from) {
            Some(p) => from <= p < open.len() && open[p].index == index && forall|k: int|
                from <= k < p ==> (#[trigger] open[k]).index != index,
            None => forall|k: int| from <= k < open.len() ==> (#[trigger] open[k]).index != index,
        },
        match first_lookup(lookups, index, from) {
            Some(p) => from <= p < lookups.len() && lookups[p].0 == index && forall|k: int|
                from <= k < p ==> (#[trigger] lookups[k]).0 != index,
            None => forall|k: int| from <= k < lookups.len() ==> (#[trigger] lookups[k]).0 != index,
        },
    decreases open.len() + lookups.len() - from,
{
    if from < open.len() || from < lookups.len() {
        found_by_number_is_first(open, lookups, index, from + 1);
    }
}

/// What is to be done with an instance: a finalized one is checked by its ciphertexts,
/// another is garbled again from the seed it was opened with, and cannot be checked
/// without.
pub proof fn shared_tasks_follow_choice(
    finalized: Seq<usize>,
    open: Seq<OpenVsssInstance>,
    index: usize,
)
    ensures
        open_task(finalized, open, index) is Ciphertexts <==> finalized.contains(index),
        open_task(finalized, open, index) is MissingSeed <==> !finalized.contains(index) && forall|
            k: int,
        |
            0 <= k < open.len() ==> (#[trigger] open[k]).index != index,
        open_task(finalized, open, index) matches CheckTask::Regarble { seed } ==> exists|k: int|
            0 <= k < open.len() && (#[trigger] open[k]).index == index && open[k].seed == seed,
{
    found_by_number_is_first(open, Seq::empty(), index, 0);
}

} // verus!
