//! The garbler's side of cut-and-choose.

use crate::cut_and_choose::commit::{
    gate_hasher_seed_of, input_commits, instance_of, phase_one, CommitPhaseOne, CommitPhaseTwo,
    Config, GarbledInstance, LabelCommitHasher, Seed, StreamingResult,
};
use crate::cut_and_choose::evaluator::{index_among, EvaluatorCaseInput};
use crate::gate::{selected, GarbledWire};
use crate::hashers::GateHasher;
use crate::modes::evaluate::EvaluatedWire;
use crate::primitives::chacha_stream;
use crate::s::S;
use crate::sorting::{ascending, ascending_keeps_elements, sort_indexes};
use vstd::prelude::*;

verus! {

/// What is opened of one instance.
pub enum OpenForInstance<CTH> {
    /// The instance is opened: its number and its seed.
    Open(usize, Seed),
    /// The instance stays closed: it is to be garbled again from its seed, and its
    /// ciphertexts go to the handler.
    Closed { index: usize, seed: Seed, handler: CTH },
}

/// The instances by what became of them, each with its seed.
#[derive(Debug)]
pub struct ChosenInstances {
    /// Opened for checking.
    pub revealed: Vec<(usize, Seed)>,
    /// Kept for evaluation.
    pub finalized: Vec<(usize, Seed)>,
}

/// How far the garbler is.
#[derive(Debug)]
pub enum GarblerStage {
    /// The instances are garbled and nothing is opened.
    Generating { seeds: Vec<Seed> },
    /// The finalized instances are chosen.
    PreparedForEval { finalized_indexes: Vec<usize> },
}

impl GarblerStage {
    /// Chooses the finalized instances and hands out the seeds.
    pub fn next_stage(&mut self, finalized_indexes: Vec<usize>) -> (r: Vec<Seed>)
        requires
            *old(self) is Generating,
        ensures
            r@ == old(self)->seeds@,
            *final(self) matches GarblerStage::PreparedForEval { finalized_indexes: f }
                && f@ == finalized_indexes@,
    {
        let mut n = GarblerStage::PreparedForEval { finalized_indexes };
        core::mem::swap(self, &mut n);
        match n {
            GarblerStage::Generating { seeds } => seeds,
            GarblerStage::PreparedForEval { .. } => Vec::new(),
        }
    }
}

/// The garbler of all instances.
pub struct Garbler<I, GH: GateHasher> {
    pub stage: GarblerStage,
    pub instances: Vec<GarbledInstance<GH>>,
    pub config: Config<I>,
    pub live_capacity: usize,
    /// The evaluator's nonce, once it is known.
    pub nonce: Option<S>,
}

/// A sequence without the elements that repeat the one before them.
pub open spec fn distinct(s: Seq<usize>) -> Seq<usize>
    decreases s.len(),
{
    if s.len() == 0 {
        seq![]
    } else {
        let rest = distinct(s.drop_last());
        if rest.len() > 0 && rest.last() == s.last() {
            rest
        } else {
            rest.push(s.last())
        }
    }
}

/// The pairs of an instance and its seed among the first `n` for which `chosen`
/// holds what is wanted.
pub open spec fn picked(seeds: Seq<Seed>, chosen: Seq<usize>, wanted: bool, n: nat) -> Seq<
    (usize, Seed),
>
    decreases n,
{
    if n == 0 {
        seq![]
    } else {
        let i = n - 1;
        let before = picked(seeds, chosen, wanted, i as nat);
        if chosen.contains(i as usize) == wanted {
            before.push((i as usize, seeds[i]))
        } else {
            before
        }
    }
}

/// The position of the first entry of `list` for instance `index`, if there is one.
pub open spec fn first_for<CTH>(list: Seq<(usize, CTH)>, index: int, from: int) -> Option<int>
    decreases list.len() - from,
{
    if from >= list.len() {
        None
    } else if list[from].0 == index {
        Some(from)
    } else {
        first_for(list, index, from + 1)
    }
}

/// What is opened of the first `n` instances, and the handlers that remain: an
/// instance that has an entry in the list stays closed and takes the first such
/// entry's handler.
pub open spec fn openings<CTH>(seeds: Seq<Seed>, list: Seq<(usize, CTH)>, n: nat) -> (
    Seq<OpenForInstance<CTH>>,
    Seq<(usize, CTH)>,
)
    decreases n,
{
    if n == 0 {
        (seq![], list)
    } else {
        let i = n - 1;
        let (before, left) = openings(seeds, list, i as nat);
        match first_for(left, i, 0) {
            Some(p) => (
                before.push(
                    OpenForInstance::Closed {
                        index: i as usize,
                        seed: seeds[i],
                        handler: left[p].1,
                    },
                ),
                left.remove(p),
            ),
            None => (before.push(OpenForInstance::Open(i as usize, seeds[i])), left),
        }
    }
}

fn position_of<CTH>(list: &Vec<(usize, CTH)>, index: usize) -> (r: Option<usize>)
    ensures
        match (r, first_for(list@, index as int, 0)) {
            (Some(p), Some(q)) => p == q && p < list@.len(),
            (None, None) => true,
            _ => false,
        },
{
    let mut p: usize = 0;
    while p < list.len()
        invariant
            p <= list@.len(),
            first_for(list@, index as int, 0) == first_for(list@, index as int, p as int),
        decreases list@.len() - p,
    {
        if list[p].0 == index {
            return Some(p);
        }
        p = p + 1;
    }
    None
}

/// Drops repeated elements that stand next to each other.
fn dedup(v: &Vec<usize>) -> (r: Vec<usize>)
    ensures
        r@ == distinct(v@),
{
    let mut r: Vec<usize> = Vec::new();
    let mut i: usize = 0;
    assert(v@.take(0) =~= Seq::<usize>::empty());
    assert(r@ =~= Seq::<usize>::empty());
    while i < v.len()
        invariant
            i <= v@.len(),
            r@ == distinct(v@.take(i as int)),
        decreases v@.len() - i,
    {
        assert(v@.take(i + 1).drop_last() =~= v@.take(i as int));
        if r.len() == 0 || r[r.len() - 1] != v[i] {
            r.push(v[i]);
        }
        i = i + 1;
    }
    assert(v@.take(v@.len() as int) =~= v@);
    r
}

/// The distinct elements of a sorted sequence are its elements.
pub proof fn distinct_keeps_elements(s: Seq<usize>, x: usize)
    ensures
        distinct(s).contains(x) <==> s.contains(x),
        s.len() > 0 ==> distinct(s).len() > 0 && distinct(s).last() == s.last(),
    decreases s.len(),
{
    if s.len() > 0 {
        distinct_keeps_elements(s.drop_last(), x);
        let rest = distinct(s.drop_last());
        let all = distinct(s);
        if s.contains(x) {
            let k = choose|k: int| 0 <= k < s.len() && s[k] == x;
            if k < s.len() - 1 {
                assert(s.drop_last()[k] == x);
                let j = choose|j: int| 0 <= j < rest.len() && rest[j] == x;
                assert(all[j] == x);
            } else {
                assert(all[all.len() - 1] == x);
            }
        }
        if all.contains(x) {
            let k = choose|k: int| 0 <= k < all.len() && all[k] == x;
            if k < rest.len() {
                assert(rest[k] == x);
                let j = choose|j: int| 0 <= j < s.drop_last().len() && s.drop_last()[j] == x;
                assert(s[j] == x);
            } else {
                assert(s[s.len() - 1] == x);
            }
        }
    }
}

/// The first commitments to all instances.
pub open spec fn phase_ones<GH: GateHasher, LH: LabelCommitHasher>(
    instances: Seq<GarbledInstance<GH>>,
    commits: Seq<CommitPhaseOne<GH, LH>>,
) -> bool {
    &&& commits.len() == instances.len()
    &&& forall|i: int|
        0 <= i < instances.len() ==> (#[trigger] commits[i])@ == phase_one::<GH, LH>(instances[i])
}

/// The second commitments to all instances.
pub open spec fn phase_twos<GH: GateHasher, LH: LabelCommitHasher>(
    instances: Seq<GarbledInstance<GH>>,
    nonce: S,
    commits: Seq<CommitPhaseTwo<LH>>,
) -> bool {
    &&& commits.len() == instances.len()
    &&& forall|i: int|
        0 <= i < instances.len() ==> (#[trigger] commits[i]).input_commitments@ == input_commits::<
            LH,
        >(instances[i].input_wire_values@, Some(nonce))
}

/// Copies garbled wires.
pub fn copy_wires(v: &Vec<GarbledWire>) -> (r: Vec<GarbledWire>)
    ensures
        r@ == v@,
{
    let mut r: Vec<GarbledWire> = Vec::new();
    let mut i: usize = 0;
    while i < v.len()
        invariant
            i <= v@.len(),
            r@ == v@.take(i as int),
        decreases v@.len() - i,
    {
        r.push(v[i]);
        i = i + 1;
        assert(r@ =~= v@.take(i as int));
    }
    assert(v@.take(v@.len() as int) =~= v@);
    r
}

impl<I, GH: GateHasher> Garbler<I, GH> {
    /// A garbler whose instances were garbled from `seeds`. Each has a
    /// gate hasher that follows from its seed.
    pub fn create(
        seeds: Vec<Seed>,
        results: Vec<StreamingResult>,
        config: Config<I>,
        live_capacity: usize,
    ) -> (r: Self)
        requires
            seeds@.len() == results@.len(),
        ensures
            r.stage matches GarblerStage::Generating { seeds: s } && s@ == seeds@,
            r.instances@.len() == results@.len(),
            forall|i: int|
                0 <= i < results@.len() ==> instance_of(
                    results@[i],
                    GH::drawn_seed(chacha_stream(seeds@[i], 0)),
                    #[trigger] r.instances@[i],
                ),
            r.config == config,
            r.live_capacity == live_capacity,
            r.nonce is None,
    {
        let n: usize = seeds.len();
        let mut left = results;
        let mut backwards: Vec<GarbledInstance<GH>> = Vec::new();
        let mut k: usize = n;
        while k > 0
            invariant
                k <= n,
                n == seeds@.len(),
                n == results@.len(),
                left@ == results@.take(k as int),
                backwards@.len() == n - k,
                forall|j: int|
                    0 <= j < n - k ==> instance_of(
                        results@[n - 1 - j],
                        GH::drawn_seed(chacha_stream(seeds@[n - 1 - j], 0)),
                        #[trigger] backwards@[j],
                    ),
            decreases k,
        {
            k = k - 1;
            match left.pop() {
                Some(res) => {
                    let seed = gate_hasher_seed_of::<GH>(seeds[k]);
                    backwards.push(GarbledInstance::<GH>::from_streaming_result(res, seed));
                },
                None => (),
            }
            assert(left@ =~= results@.take(k as int));
        }
        let mut instances: Vec<GarbledInstance<GH>> = Vec::new();
        let ghost all = backwards@;
        let mut m: usize = 0;
        assert(all.take(n as int) =~= all);
        while m < n
            invariant
                m <= n,
                n == seeds@.len(),
                n == results@.len(),
                all.len() == n,
                backwards@ == all.take(n - m),
                forall|j: int|
                    0 <= j < n ==> instance_of(
                        results@[n - 1 - j],
                        GH::drawn_seed(chacha_stream(seeds@[n - 1 - j], 0)),
                        #[trigger] all[j],
                    ),
                instances@.len() == m,
                forall|i: int|
                    0 <= i < m ==> instance_of(
                        results@[i],
                        GH::drawn_seed(chacha_stream(seeds@[i], 0)),
                        #[trigger] instances@[i],
                    ),
            decreases n - m,
        {
            match backwards.pop() {
                Some(x) => {
                    assert(x == all[n - m - 1]);
                    instances.push(x);
                },
                None => (),
            }
            assert(backwards@ =~= all.take(n - m - 1));
            m = m + 1;
        }
        Garbler {
            stage: GarblerStage::Generating { seeds },
            instances,
            config,
            live_capacity,
            nonce: None,
        }
    }

    /// The first commitment to every instance.
    pub fn commit_phase_one<LH: LabelCommitHasher>(&self) -> (r: Vec<CommitPhaseOne<GH, LH>>)
        ensures
            phase_ones(self.instances@, r@),
    {
        let mut r: Vec<CommitPhaseOne<GH, LH>> = Vec::new();
        let mut i: usize = 0;
        while i < self.instances.len()
            invariant
                i <= self.instances@.len(),
                r@.len() == i,
                forall|k: int|
                    0 <= k < i ==> (#[trigger] r@[k])@ == phase_one::<GH, LH>(self.instances@[k]),
            decreases self.instances@.len() - i,
        {
            r.push(CommitPhaseOne::<GH, LH>::from_instance(&self.instances[i]));
            i = i + 1;
        }
        r
    }

    fn second_commits<LH: LabelCommitHasher>(&self, nonce: S) -> (r: Vec<CommitPhaseTwo<LH>>)
        ensures
            phase_twos(self.instances@, nonce, r@),
    {
        let mut r: Vec<CommitPhaseTwo<LH>> = Vec::new();
        let mut i: usize = 0;
        while i < self.instances.len()
            invariant
                i <= self.instances@.len(),
                r@.len() == i,
                forall|k: int|
                    0 <= k < i ==> (#[trigger] r@[k]).input_commitments@ == input_commits::<LH>(
                        self.instances@[k].input_wire_values@,
                        Some(nonce),
                    ),
            decreases self.instances@.len() - i,
        {
            r.push(CommitPhaseTwo::<LH>::from_instance(&self.instances[i], nonce));
            i = i + 1;
        }
        r
    }

    /// The second commitment to every instance, for the evaluator's nonce, which is
    /// kept. A nonce that was given before must be the same.
    pub fn commit_phase_two<LH: LabelCommitHasher>(&mut self, nonce: S) -> (r: Vec<
        CommitPhaseTwo<LH>,
    >)
        requires
            old(self).nonce is None || old(self).nonce == Some(nonce),
        ensures
            phase_twos(old(self).instances@, nonce, r@),
            *final(self) == (Garbler { nonce: Some(nonce), ..*old(self) }),
    {
        self.nonce = Some(nonce);
        self.second_commits::<LH>(nonce)
    }

    /// Both commitments to every instance, once the nonce is known.
    pub fn get_commitment<LH: LabelCommitHasher>(&self) -> (r: Option<
        (Vec<CommitPhaseOne<GH, LH>>, Vec<CommitPhaseTwo<LH>>),
    >)
        ensures
            match (self.nonce, r) {
                (Some(nonce), Some((one, two))) => phase_ones(self.instances@, one@) && phase_twos(
                    self.instances@,
                    nonce,
                    two@,
                ),
                (None, None) => true,
                _ => false,
            },
    {
        match self.nonce {
            Some(nonce) => Some((self.commit_phase_one::<LH>(), self.second_commits::<LH>(nonce))),
            None => None,
        }
    }

    /// The finalized instances, once they are chosen.
    pub fn finalized_indexes(&self) -> (r: Option<&[usize]>)
        ensures
            match (self.stage, r) {
                (GarblerStage::PreparedForEval { finalized_indexes }, Some(f)) => f@
                    == finalized_indexes@,
                (GarblerStage::Generating { .. }, None) => true,
                _ => false,
            },
    {
        match &self.stage {
            GarblerStage::Generating { .. } => None,
            GarblerStage::PreparedForEval { finalized_indexes } => Some(
                finalized_indexes.as_slice(),
            ),
        }
    }

    /// Chooses the finalized instances and reveals the seeds of the others. The
    /// choice names as many different instances as the configuration says.
    pub fn open_commit_without_ciphertexts(&mut self, indexes_to_finalize: Vec<usize>) -> (r:
        ChosenInstances)
        requires
            old(self).stage is Generating,
            distinct(ascending(indexes_to_finalize@)).len() == old(self).config.finalized_count,
        ensures
            ({
                let seeds = old(self).stage->seeds@;
                let chosen = distinct(ascending(indexes_to_finalize@));
                &&& r.revealed@ == picked(seeds, indexes_to_finalize@, false, seeds.len())
                &&& r.finalized@ == picked(seeds, indexes_to_finalize@, true, seeds.len())
                &&& final(self).stage matches GarblerStage::PreparedForEval {
                    finalized_indexes,
                } && finalized_indexes@ == chosen
                &&& *final(self) == (Garbler { stage: final(self).stage, ..*old(self) })
            }),
    {
        let mut sorted = indexes_to_finalize;
        sort_indexes(&mut sorted);
        let chosen = dedup(&sorted);
        let mut kept: Vec<usize> = Vec::new();
        let mut j: usize = 0;
        while j < chosen.len()
            invariant
                j <= chosen@.len(),
                kept@ == chosen@.take(j as int),
            decreases chosen@.len() - j,
        {
            kept.push(chosen[j]);
            j = j + 1;
            assert(kept@ =~= chosen@.take(j as int));
        }
        assert(kept@ =~= chosen@);
        let seeds = self.stage.next_stage(kept);
        let mut revealed: Vec<(usize, Seed)> = Vec::new();
        let mut finalized: Vec<(usize, Seed)> = Vec::new();
        let mut i: usize = 0;
        while i < seeds.len()
            invariant
                i <= seeds@.len(),
                chosen@ == distinct(ascending(indexes_to_finalize@)),
                revealed@ == picked(seeds@, indexes_to_finalize@, false, i as nat),
                finalized@ == picked(seeds@, indexes_to_finalize@, true, i as nat),
            decreases seeds@.len() - i,
        {
            proof {
                distinct_keeps_elements(ascending(indexes_to_finalize@), i);
                ascending_keeps_elements(indexes_to_finalize@);
            }
            if index_among(&chosen, i) {
                finalized.push((i, seeds[i]));
            } else {
                revealed.push((i, seeds[i]));
            }
            i = i + 1;
        }
        ChosenInstances { revealed, finalized }
    }

    /// Chooses the finalized instances, opens the others, and says for each that
    /// stays closed with which handler it is to be garbled again.
    pub fn open_commit<CTH>(&mut self, indexes_to_finalize: Vec<(usize, CTH)>) -> (r: Vec<
        OpenForInstance<CTH>,
    >)
        requires
            old(self).stage is Generating,
        ensures
            ({
                let seeds = old(self).stage->seeds@;
                &&& r@ == openings(seeds, indexes_to_finalize@, seeds.len()).0
                &&& final(self).stage matches GarblerStage::PreparedForEval {
                    finalized_indexes,
                } && finalized_indexes@ == Seq::new(
                    indexes_to_finalize@.len(),
                    |i: int| indexes_to_finalize@[i].0,
                )
                &&& *final(self) == (Garbler { stage: final(self).stage, ..*old(self) })
            }),
    {
        let mut indexes: Vec<usize> = Vec::new();
        let mut j: usize = 0;
        while j < indexes_to_finalize.len()
            invariant
                j <= indexes_to_finalize@.len(),
                indexes@.len() == j,
                forall|k: int| 0 <= k < j ==> #[trigger] indexes@[k] == indexes_to_finalize@[k].0,
            decreases indexes_to_finalize@.len() - j,
        {
            indexes.push(indexes_to_finalize[j].0);
            j = j + 1;
        }
        assert(indexes@ =~= Seq::new(
            indexes_to_finalize@.len(),
            |i: int| indexes_to_finalize@[i].0,
        ));
        let seeds = self.stage.next_stage(indexes);
        let ghost list = indexes_to_finalize@;
        let mut left = indexes_to_finalize;
        let mut r: Vec<OpenForInstance<CTH>> = Vec::new();
        let mut i: usize = 0;
        while i < seeds.len()
            invariant
                i <= seeds@.len(),
                (r@, left@) == openings(seeds@, list, i as nat),
            decreases seeds@.len() - i,
        {
            match position_of(&left, i) {
                Some(p) => {
                    let (_, handler) = left.remove(p);
                    r.push(OpenForInstance::Closed { index: i, seed: seeds[i], handler });
                },
                None => {
                    r.push(OpenForInstance::Open(i, seeds[i]));
                },
            }
            i = i + 1;
        }
        r
    }

    /// The active label of the true wire of an instance.
    pub fn true_wire_constant_for(&self, index: usize) -> (r: u128)
        requires
            index < self.instances@.len(),
        ensures
            r == selected(self.instances@[index as int].true_wire_constant, true).0,
    {
        self.instances[index].true_wire_constant.select(true).to_u128()
    }

    /// The active label of the false wire of an instance.
    pub fn false_wire_constant_for(&self, index: usize) -> (r: u128)
        requires
            index < self.instances@.len(),
        ensures
            r == selected(self.instances@[index as int].false_wire_constant, false).0,
    {
        self.instances[index].false_wire_constant.select(false).to_u128()
    }

    /// The input labels of an instance.
    pub fn input_labels_for(&self, index: usize) -> (r: Vec<GarbledWire>)
        requires
            index < self.instances@.len(),
        ensures
            r@ == self.instances@[index as int].input_wire_values@,
    {
        copy_wires(&self.instances[index].input_wire_values)
    }

    pub fn config(&self) -> (r: &Config<I>)
        ensures
            *r == self.config,
    {
        &self.config
    }

    pub fn stage(&self) -> (r: &GarblerStage)
        ensures
            *r == self.stage,
    {
        &self.stage
    }

    /// The labels of the output of an instance, if there is such an instance.
    pub fn output_wire(&self, index: usize) -> (r: Option<&GarbledWire>)
        ensures
            match r {
                Some(w) => index < self.instances@.len() && *w
                    == self.instances@[index as int].output_wire_values,
                None => index >= self.instances@.len(),
            },
    {
        if index < self.instances.len() {
            Some(&self.instances[index].output_wire_values)
        } else {
            None
        }
    }

    pub fn nonce(&self) -> (r: Option<S>)
        ensures
            r == self.nonce,
    {
        self.nonce
    }

    pub fn live_capacity(&self) -> (r: usize)
        ensures
            r == self.live_capacity,
    {
        self.live_capacity
    }

    pub fn instances(&self) -> (r: &[GarbledInstance<GH>])
        ensures
            r@ == self.instances@,
    {
        self.instances.as_slice()
    }
}

/// Input wires with the values of bits and the labels for them.
pub open spec fn input_of(labels: Seq<GarbledWire>, bits: Seq<bool>) -> Seq<EvaluatedWire> {
    Seq::new(
        bits.len(),
        |i: int| EvaluatedWire { active_label: selected(labels[i], bits[i]), value: bits[i] },
    )
}

/// Input wires with the values of bits and the labels for them.
pub fn select_input(labels: &Vec<GarbledWire>, bits: &[bool]) -> (r: Vec<EvaluatedWire>)
    requires
        bits@.len() <= labels@.len(),
    ensures
        r@ == input_of(labels@, bits@),
{
    let mut r: Vec<EvaluatedWire> = Vec::new();
    let mut i: usize = 0;
    while i < bits.len()
        invariant
            i <= bits@.len(),
            bits@.len() <= labels@.len(),
            r@.len() == i,
            forall|k: int| 0 <= k < i ==> #[trigger] r@[k] == input_of(labels@, bits@)[k],
        decreases bits@.len() - i,
    {
        r.push(EvaluatedWire::new_from_garbled(&labels[i], bits[i]));
        i = i + 1;
    }
    assert(r@ =~= input_of(labels@, bits@));
    r
}

impl<I, GH: GateHasher> Garbler<I, GH> {
    /// For every finalized instance the input wires for the bits of the statement and
    /// its proof.
    pub fn prepare_input_labels(&self, bits: &[bool]) -> (r: Vec<
        EvaluatorCaseInput<Vec<EvaluatedWire>>,
    >)
        requires
            self.stage is PreparedForEval,
            forall|k: int|
                0 <= k < self.stage->finalized_indexes@.len() ==> (
                #[trigger] self.stage->finalized_indexes@[k]) < self.instances@.len()
                    && bits@.len()
                    <= self.instances@[self.stage->finalized_indexes@[k] as int].input_wire_values@.len(),
        ensures
            r@.len() == self.stage->finalized_indexes@.len(),
            forall|k: int|
                0 <= k < r@.len() ==> (#[trigger] r@[k]).index
                    == self.stage->finalized_indexes@[k] && r@[k].input@ == input_of(
                    self.instances@[r@[k].index as int].input_wire_values@,
                    bits@,
                ),
    {
        let mut r: Vec<EvaluatorCaseInput<Vec<EvaluatedWire>>> = Vec::new();
        match &self.stage {
            GarblerStage::Generating { .. } => (),
            GarblerStage::PreparedForEval { finalized_indexes } => {
                let mut k: usize = 0;
                while k < finalized_indexes.len()
                    invariant
                        k <= finalized_indexes@.len(),
                        forall|k: int|
                            0 <= k < finalized_indexes@.len() ==> (#[trigger] finalized_indexes@[k])
                                < self.instances@.len() && bits@.len()
                                <= self.instances@[finalized_indexes@[k] as int].input_wire_values@.len(),
                        r@.len() == k,
                        forall|j: int|
                            0 <= j < k ==> (#[trigger] r@[j]).index == finalized_indexes@[j]
                                && r@[j].input@ == input_of(
                                self.instances@[r@[j].index as int].input_wire_values@,
                                bits@,
                            ),
                    decreases finalized_indexes@.len() - k,
                {
                    let index: usize = finalized_indexes[k];
                    let input = select_input(&self.instances[index].input_wire_values, bits);
                    r.push(EvaluatorCaseInput { index, input });
                    k = k + 1;
                }
            },
        }
        r
    }

    /// A garbler from its parts.
    pub fn from_raw_parts(
        stage: GarblerStage,
        instances: Vec<GarbledInstance<GH>>,
        config: Config<I>,
        live_capacity: usize,
        nonce: Option<S>,
    ) -> (r: Self)
        ensures
            r == (Garbler { stage, instances, config, live_capacity, nonce }),
    {
        Garbler { stage, instances, config, live_capacity, nonce }
    }

    /// The parts of the garbler.
    pub fn into_raw_parts(self) -> (r: (
        GarblerStage,
        Vec<GarbledInstance<GH>>,
        Config<I>,
        usize,
        Option<S>,
    ))
        ensures
            r == (self.stage, self.instances, self.config, self.live_capacity, self.nonce),
    {
        (self.stage, self.instances, self.config, self.live_capacity, self.nonce)
    }
}

/// The parts of a garbler.
pub struct GarblerRawParts<I, GH: GateHasher> {
    pub stage: GarblerStage,
    pub instances: Vec<GarbledInstance<GH>>,
    pub config: Config<I>,
    pub live_capacity: usize,
    pub nonce: Option<S>,
}

impl<I, GH: GateHasher> From<GarblerRawParts<I, GH>> for Garbler<I, GH> {
    fn from(parts: GarblerRawParts<I, GH>) -> (r: Self) {
        Garbler {
            stage: parts.stage,
            instances: parts.instances,
            config: parts.config,
            live_capacity: parts.live_capacity,
            nonce: parts.nonce,
        }
    }
}

impl<I, GH: GateHasher> vstd::std_specs::convert::FromSpecImpl<GarblerRawParts<I, GH>> for Garbler<I, GH> {
    open spec fn obeys_from_spec() -> bool {
        true
    }

    open spec fn from_spec(parts: GarblerRawParts<I, GH>) -> Self {
        Garbler {
            stage: parts.stage,
            instances: parts.instances,
            config: parts.config,
            live_capacity: parts.live_capacity,
            nonce: parts.nonce,
        }
    }
}

impl<I, GH: GateHasher> From<Garbler<I, GH>> for GarblerRawParts<I, GH> {
    fn from(garbler: Garbler<I, GH>) -> (r: Self) {
        GarblerRawParts {
            stage: garbler.stage,
            instances: garbler.instances,
            config: garbler.config,
            live_capacity: garbler.live_capacity,
            nonce: garbler.nonce,
        }
    }
}

impl<I, GH: GateHasher> vstd::std_specs::convert::FromSpecImpl<Garbler<I, GH>> for GarblerRawParts<I, GH> {
    open spec fn obeys_from_spec() -> bool {
        true
    }

    open spec fn from_spec(garbler: Garbler<I, GH>) -> Self {
        GarblerRawParts {
            stage: garbler.stage,
            instances: garbler.instances,
            config: garbler.config,
            live_capacity: garbler.live_capacity,
            nonce: garbler.nonce,
        }
    }
}

/// Every instance is either revealed or finalized, never both, with its own seed.
pub proof fn every_instance_is_chosen(seeds: Seq<Seed>, chosen: Seq<usize>, n: nat, i: int)
    requires
        n <= seeds.len(),
        n <= usize::MAX,
        0 <= i < n,
    ensures
        picked(seeds, chosen, true, n).len() + picked(seeds, chosen, false, n).len() == n,
        picked(seeds, chosen, chosen.contains(i as usize), n).contains((i as usize, seeds[i])),
        !picked(seeds, chosen, !chosen.contains(i as usize), n).contains((i as usize, seeds[i])),
    decreases n,
{
    picked_shape(seeds, chosen, true, n);
    picked_shape(seeds, chosen, false, n);
    let wanted = chosen.contains(i as usize);
    let last = n - 1;
    let before = picked(seeds, chosen, wanted, last as nat);
    if i < last {
        every_instance_is_chosen(seeds, chosen, last as nat, i);
        let k = choose|k: int| 0 <= k < before.len() && before[k] == (i as usize, seeds[i]);
        assert(picked(seeds, chosen, wanted, n)[k] == (i as usize, seeds[i]));
    } else {
        let all = picked(seeds, chosen, wanted, n);
        assert(all[all.len() - 1] == (i as usize, seeds[i]));
        if last > 0 {
            every_instance_is_chosen(seeds, chosen, last as nat, 0);
        }
    }
}

proof fn picked_shape(seeds: Seq<Seed>, chosen: Seq<usize>, wanted: bool, n: nat)
    requires
        n <= seeds.len(),
        n <= usize::MAX,
    ensures
        forall|k: int|
            0 <= k < picked(seeds, chosen, wanted, n).len() ==> {
                let (i, seed) = #[trigger] picked(seeds, chosen, wanted, n)[k];
                i < n && seed == seeds[i as int] && chosen.contains(i) == wanted
            },
    decreases n,
{
    if n > 0 {
        picked_shape(seeds, chosen, wanted, (n - 1) as nat);
        let before = picked(seeds, chosen, wanted, (n - 1) as nat);
        let all = picked(seeds, chosen, wanted, n);
        assert forall|k: int| 0 <= k < all.len() implies ({
            let (i, seed) = #[trigger] all[k];
            i < n && seed == seeds[i as int] && chosen.contains(i) == wanted
        }) by {
            if k < before.len() {
                assert(all[k] == before[k]);
            }
        }
    }
}

/// The first entry for an instance is the first with its number.
pub proof fn entry_found_is_first<CTH>(list: Seq<(usize, CTH)>, index: int, from: int)
    requires
        0 <= from,
    ensures
        match first_for(list, index, from) {
            Some(p) => from <= p < list.len() && list[p].0 == index && forall|k: int|
                from <= k < p ==> (#[trigger] list[k]).0 != index,
            None => forall|k: int| from <= k < list.len() ==> (#[trigger] list[k]).0 != index,
        },
    decreases list.len() - from,
{
    if from < list.len() && list[from].0 != index {
        entry_found_is_first(list, index, from + 1);
    }
}

/// An instance stays closed exactly if a handler was given for it, and it is then handed
/// that handler; every other instance is opened. Each is opened or closed with its own
/// seed. No instance has two handlers.
pub proof fn instances_with_handlers_stay_closed<CTH>(
    seeds: Seq<Seed>,
    list: Seq<(usize, CTH)>,
    n: nat,
    i: int,
    k: int,
)
    requires
        n <= seeds.len() <= usize::MAX,
        forall|a: int, b: int|
            0 <= a < b < list.len() ==> (#[trigger] list[a]).0 != (#[trigger] list[b]).0,
        0 <= i < n,
    ensures
        openings(seeds, list, n).0.len() == n,
        0 <= k < list.len() && list[k].0 == i ==> openings(seeds, list, n).0[i]
            == (OpenForInstance::Closed { index: i as usize, seed: seeds[i], handler: list[k].1 }),
        (forall|l: int| 0 <= l < list.len() ==> (#[trigger] list[l]).0 != i) ==> openings(
            seeds,
            list,
            n,
        ).0[i] == OpenForInstance::<CTH>::Open(i as usize, seeds[i]),
{
    openings_keep(seeds, list, n);
    openings_keep(seeds, list, i as nat);
    opening_stays(seeds, list, (i + 1) as nat, n);
    let left = openings(seeds, list, i as nat).1;
    entry_found_is_first(left, i, 0);
    openings_keep(seeds, list, (i + 1) as nat);
    if 0 <= k < list.len() && list[k].0 == i {
        assert(list.contains(list[k]));
        assert(left.contains(list[k]));
        let l = choose|l: int| 0 <= l < left.len() && left[l] == list[k];
        let p = first_for(left, i, 0)->0;
        if p < l {
            assert(left[p].0 != left[l].0);
        }
    }
    if forall|l: int| 0 <= l < list.len() ==> (#[trigger] list[l]).0 != i {
        if first_for(left, i, 0) is Some {
            let p = first_for(left, i, 0)->0;
            assert(left.contains(left[p]));
            assert(list.contains(left[p]));
            let l = choose|l: int| 0 <= l < list.len() && list[l] == left[p];
            assert(list[l].0 != i);
        }
    }
}

proof fn opening_stays<CTH>(seeds: Seq<Seed>, list: Seq<(usize, CTH)>, m: nat, n: nat)
    requires
        m <= n,
    ensures
        openings(seeds, list, m).0.len() == m,
        openings(seeds, list, n).0.len() == n,
        forall|i: int|
            0 <= i < m ==> #[trigger] openings(seeds, list, n).0[i] == openings(seeds, list, m).0[i],
    decreases n,
{
    if m < n {
        opening_stays(seeds, list, m, (n - 1) as nat);
    } else if n > 0 {
        opening_stays(seeds, list, (n - 1) as nat, (n - 1) as nat);
    }
}

proof fn openings_keep<CTH>(seeds: Seq<Seed>, list: Seq<(usize, CTH)>, n: nat)
    requires
        n <= usize::MAX,
        forall|a: int, b: int|
            0 <= a < b < list.len() ==> (#[trigger] list[a]).0 != (#[trigger] list[b]).0,
    ensures
        ({
            let left = openings(seeds, list, n).1;
            &&& forall|a: int, b: int|
                0 <= a < b < left.len() ==> (#[trigger] left[a]).0 != (#[trigger] left[b]).0
            &&& forall|e: (usize, CTH)| #[trigger] left.contains(e) ==> list.contains(e)
            &&& forall|e: (usize, CTH)| #[trigger] list.contains(e) && e.0 >= n ==> left.contains(e)
        }),
    decreases n,
{
    if n > 0 {
        openings_keep(seeds, list, (n - 1) as nat);
        let before = openings(seeds, list, (n - 1) as nat).1;
        let left = openings(seeds, list, n).1;
        entry_found_is_first(before, n - 1, 0);
        match first_for(before, n - 1, 0) {
            Some(p) => {
                assert(left == before.remove(p));
                assert forall|e: (usize, CTH)| #[trigger] left.contains(e) implies list.contains(e) by {
                    let k = choose|k: int| 0 <= k < left.len() && left[k] == e;
                    if k < p {
                        assert(before[k] == e);
                    } else {
                        assert(before[k + 1] == e);
                    }
                    assert(before.contains(e));
                }
                assert forall|e: (usize, CTH)| #[trigger] list.contains(e) && e.0 >= n implies left.contains(
                    e,
                ) by {
                    assert(before.contains(e));
                    let k = choose|k: int| 0 <= k < before.len() && before[k] == e;
                    if k < p {
                        assert(left[k] == e);
                    } else {
                        assert(left[k - 1] == e);
                    }
                }
                assert forall|a: int, b: int| 0 <= a < b < left.len() implies (
                #[trigger] left[a]).0 != (#[trigger] left[b]).0 by {
                    let c = if a < p {
                        a
                    } else {
                        a + 1
                    };
                    let d = if b < p {
                        b
                    } else {
                        b + 1
                    };
                    assert(before[c].0 != before[d].0);
                }
            },
            None => (),
        }
    }
}

/// An input for bits is, wire by wire, the label of the garbler's wire for the bit with
/// that bit as its value.
pub proof fn input_selects_labels(labels: Seq<GarbledWire>, bits: Seq<bool>, i: int)
    requires
        0 <= i < bits.len(),
    ensures
        input_of(labels, bits).len() == bits.len(),
        input_of(labels, bits)[i].value == bits[i],
        bits[i] ==> input_of(labels, bits)[i].active_label == labels[i].label1,
        !bits[i] ==> input_of(labels, bits)[i].active_label == labels[i].label0,
{
}

/// A list in ascending order is left without its repetitions: every element stands once,
/// still in ascending order.
pub proof fn repetitions_are_left_out(s: Seq<usize>, a: int, b: int)
    requires
        forall|i: int, j: int| 0 <= i < j < s.len() ==> s[i] <= s[j],
        0 <= a < b < distinct(s).len(),
    ensures
        distinct(s)[a] < distinct(s)[b],
        s.contains(distinct(s)[a]),
    decreases s.len(),
{
    let less = s.drop_last();
    let rest = distinct(less);
    assert forall|i: int, j: int| 0 <= i < j < less.len() implies less[i] <= less[j] by {
        assert(s[i] <= s[j]);
    }
    distinct_keeps_elements(s, distinct(s)[a]);
    assert(distinct(s).contains(distinct(s)[a]));
    if b < rest.len() {
        repetitions_are_left_out(less, a, b);
    } else {
        assert(distinct(s) == rest.push(s.last()));
        distinct_keeps_elements(less, rest[a]);
        distinct_keeps_elements(less, rest.last());
        assert(rest.contains(rest[a]));
        let k = choose|k: int| 0 <= k < less.len() && less[k] == rest[a];
        assert(s[k] <= s.last());
        if a < rest.len() - 1 {
            repetitions_are_left_out(less, a, rest.len() - 1);
            assert(rest.contains(rest.last()));
            let l = choose|l: int| 0 <= l < less.len() && less[l] == rest.last();
            assert(s[l] <= s.last());
        }
    }
}

/// The instances that are revealed, and those that are finalized, stand in ascending order.
pub proof fn picked_instances_ascend(
    seeds: Seq<Seed>,
    chosen: Seq<usize>,
    wanted: bool,
    n: nat,
    a: int,
    b: int,
)
    requires
        n <= seeds.len(),
        n <= usize::MAX,
        0 <= a < b < picked(seeds, chosen, wanted, n).len(),
    ensures
        picked(seeds, chosen, wanted, n)[a].0 < picked(seeds, chosen, wanted, n)[b].0,
    decreases n,
{
    let last = (n - 1) as nat;
    picked_shape(seeds, chosen, wanted, last);
    let before = picked(seeds, chosen, wanted, last);
    if b < before.len() {
        picked_instances_ascend(seeds, chosen, wanted, last, a, b);
    } else {
        assert(picked(seeds, chosen, wanted, n)[a] == before[a]);
        let (i, seed) = before[a];
        assert(i < last);
    }
}

} // verus!
