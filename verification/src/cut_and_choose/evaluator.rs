//! The evaluator's side of cut-and-choose.

use crate::bytes::same_bytes;
use crate::cut_and_choose::commit::{
    commit_label_with, commit_of_value, input_commits, same_label_commits, CiphertextCommit,
    CommitPhaseOne, CommitPhaseTwo, Config, GarbledInstance, LabelCommit, LabelCommitHasher,
    PhaseOneView, Seed, StreamingResult,
};
use crate::cut_and_choose::errors::ConsistencyError;
use crate::gate::selected;
use crate::hashers::GateHasher;
use crate::modes::evaluate::EvaluatedWire;
use crate::s::S;
use crate::sorting::{ascending, ascending_keeps_elements, sort_indexes};
use vstd::prelude::*;

verus! {

/// How far the evaluator is.
pub enum Stage<GH: GateHasher, LH: LabelCommitHasher> {
    Empty,
    /// The first commitments are known.
    Created(Vec<CommitPhaseOne<GH, LH>>),
    /// Both commitments are known.
    Filled { first: Vec<CommitPhaseOne<GH, LH>>, second: Vec<CommitPhaseTwo<LH>> },
}

impl<GH: GateHasher, LH: LabelCommitHasher> Stage<GH, LH> {
    /// The first commitments, once both are known and the opened instances were
    /// checked.
    pub open spec fn ready(self, regarbled: bool) -> Option<Seq<CommitPhaseOne<GH, LH>>> {
        if regarbled && self is Filled {
            Some(self->first@)
        } else {
            None
        }
    }

    pub fn get_commit_if_ready(&self, regarbled: bool) -> (r: Option<&Vec<CommitPhaseOne<GH, LH>>>)
        ensures
            match (r, self.ready(regarbled)) {
                (Some(v), Some(s)) => v@ == s,
                (None, None) => true,
                _ => false,
            },
    {
        if !regarbled {
            return None;
        }
        match self {
            Stage::Empty => None,
            Stage::Created(_) => None,
            Stage::Filled { first, .. } => Some(first),
        }
    }
}

/// The evaluator of all instances.
pub struct Evaluator<I, GH: GateHasher, LH: LabelCommitHasher> {
    pub config: Config<I>,
    /// Blended into the labels for the second commitments.
    pub nonce: S,
    pub finalized_indexes: Vec<usize>,
    /// Whether the opened instances were garbled again and checked.
    pub regarbled: bool,
    pub stage: Stage<GH, LH>,
}

/// `s` with the elements at `i` and `j` exchanged.
pub open spec fn swapped(s: Seq<usize>, i: int, j: int) -> Seq<usize> {
    s.update(i, s[j]).update(j, s[i])
}

/// The numbers below `n` after the exchanges of a shuffle from the last position
/// down to position `i`: position `k` is exchanged with position `draws[k]`.
pub open spec fn shuffled(n: nat, draws: Seq<usize>, i: nat) -> Seq<usize>
    decreases n - i,
{
    if i >= n {
        Seq::new(n, |k: int| k as usize)
    } else {
        swapped(shuffled(n, draws, i + 1), i as int, draws[i as int] as int)
    }
}

/// Whether the draws say, for every position from one on, a position no higher.
pub open spec fn fair_draws(n: nat, draws: Seq<usize>) -> bool {
    draws.len() >= n && forall|i: int| 1 <= i < n ==> #[trigger] draws[i] <= i
}

/// The instances that are finalized: the first of the shuffled ones, in ascending
/// order.
pub open spec fn sampled(n: nat, f: nat, draws: Seq<usize>) -> Seq<usize> {
    ascending(shuffled(n, draws, 1).take(f as int))
}

/// A shuffle has every number below `n` once.
pub proof fn shuffle_is_permutation(n: nat, draws: Seq<usize>, i: nat)
    requires
        fair_draws(n, draws),
        1 <= i,
        n <= usize::MAX,
    ensures
        shuffled(n, draws, i).len() == n,
        shuffled(n, draws, i).no_duplicates(),
        forall|k: int| 0 <= k < n ==> (#[trigger] shuffled(n, draws, i)[k]) < n,
    decreases n - i,
{
    if i < n {
        shuffle_is_permutation(n, draws, i + 1);
        let s = shuffled(n, draws, i + 1);
        let t = shuffled(n, draws, i);
        let j = draws[i as int] as int;
        assert(t == swapped(s, i as int, j));
        assert forall|a: int, b: int| 0 <= a < n && 0 <= b < n && a != b implies t[a] != t[b] by {
            let sa = if a == i {
                j
            } else if a == j {
                i as int
            } else {
                a
            };
            let sb = if b == i {
                j
            } else if b == j {
                i as int
            } else {
                b
            };
            assert(t[a] == s[sa] && t[b] == s[sb]);
        }
    }
}

/// The finalized instances are as many as wanted, all different, in ascending
/// order, and instances.
pub proof fn sample_is_sound(n: nat, f: nat, draws: Seq<usize>)
    requires
        fair_draws(n, draws),
        f <= n,
        n <= usize::MAX,
    ensures
        sampled(n, f, draws).len() == f,
        forall|k: int| 0 <= k < f ==> (#[trigger] sampled(n, f, draws)[k]) < n,
        forall|a: int, b: int|
            0 <= a < b < f ==> (#[trigger] sampled(n, f, draws)[a]) < (#[trigger] sampled(
                n,
                f,
                draws,
            )[b]),
        forall|x: usize| #[trigger]
            sampled(n, f, draws).contains(x) <==> exists|k: int|
                0 <= k < f && #[trigger] shuffled(n, draws, 1)[k] == x,
{
    let s = shuffled(n, draws, 1).take(f as int);
    let t = sampled(n, f, draws);
    shuffle_is_permutation(n, draws, 1);
    ascending_keeps_elements(s);
    s.to_multiset_ensures();
    t.to_multiset_ensures();
    assert(s.no_duplicates());
    s.lemma_multiset_has_no_duplicates();
    assert forall|k: int| 0 <= k < f implies (#[trigger] t[k]) < n by {
        assert(t.contains(t[k]));
        assert(s.contains(t[k]));
        let j = choose|j: int| 0 <= j < s.len() && s[j] == t[k];
        assert(shuffled(n, draws, 1)[j] < n);
    }
    assert forall|x: usize| #[trigger] t.contains(x) <==> exists|k: int|
        0 <= k < f && #[trigger] shuffled(n, draws, 1)[k] == x by {
        if t.contains(x) {
            assert(s.contains(x));
            let k = choose|k: int| 0 <= k < s.len() && s[k] == x;
            assert(shuffled(n, draws, 1)[k] == x);
        }
        if exists|k: int| 0 <= k < f && #[trigger] shuffled(n, draws, 1)[k] == x {
            let k = choose|k: int| 0 <= k < f && #[trigger] shuffled(n, draws, 1)[k] == x;
            assert(s[k] == x);
            assert(s.contains(x));
        }
    }
    t.lemma_multiset_has_no_duplicates_conv();
    assert forall|a: int, b: int| 0 <= a < b < f implies (#[trigger] t[a]) < (#[trigger] t[b]) by {
        assert(t[a] <= t[b]);
        assert(t[a] != t[b]);
    }
}

/// The numbers below `n` all occur in a sequence of `n` of them without duplicates.
proof fn every_number_occurs(n: nat, s: Seq<usize>, x: usize) -> (k: int)
    requires
        s.len() == n,
        s.no_duplicates(),
        forall|k: int| 0 <= k < n ==> (#[trigger] s[k]) < n,
        x < n,
    ensures
        0 <= k < n,
        s[k] == x,
{
    let ints = Seq::new(n, |k: int| s[k] as int);
    assert forall|i: int, j: int| 0 <= i < n && 0 <= j < n && i != j implies ints[i] != ints[j] by {
        assert(s[i] != s[j]);
    }
    ints.unique_seq_to_set();
    vstd::set_lib::lemma_int_range(0, n as int);
    assert forall|v: int| ints.to_set().contains(v) implies vstd::set_lib::set_int_range(
        0,
        n as int,
    ).contains(v) by {
        let k = choose|k: int| 0 <= k < n && ints[k] == v;
        assert(s[k] < n);
    }
    vstd::set_lib::lemma_subset_equality(ints.to_set(), vstd::set_lib::set_int_range(0, n as int));
    assert(ints.to_set().contains(x as int));
    assert(ints.contains(x as int));
    choose|k: int| 0 <= k < n && ints[k] == x as int
}

/// The exchanges below a position leave it as it is.
proof fn later_exchanges_pass(n: nat, draws: Seq<usize>, i: nat, j: nat, k: int)
    requires
        fair_draws(n, draws),
        n <= usize::MAX,
        1 <= i <= j <= k < n,
    ensures
        shuffled(n, draws, i)[k] == shuffled(n, draws, j)[k],
    decreases j - i,
{
    if i < j {
        later_exchanges_pass(n, draws, i + 1, j, k);
        shuffle_is_permutation(n, draws, i + 1);
        assert(draws[i as int] <= i);
    }
}

/// A shuffle down to a position reads only the draws from there on.
proof fn shuffle_reads_draws(n: nat, a: Seq<usize>, b: Seq<usize>, i: nat)
    requires
        forall|k: int| i <= k < n ==> a[k] == #[trigger] b[k],
    ensures
        shuffled(n, a, i) == shuffled(n, b, i),
    decreases n - i,
{
    if i < n {
        shuffle_reads_draws(n, a, b, i + 1);
        assert(a[i as int] == b[i as int]);
    }
}

/// Different draws give different orders: no position's draw is without effect.
pub proof fn different_draws_give_different_orders(n: nat, a: Seq<usize>, b: Seq<usize>, i: int)
    requires
        fair_draws(n, a),
        fair_draws(n, b),
        n <= usize::MAX,
        1 <= i < n,
        a[i] != b[i],
    ensures
        shuffled(n, a, 1) != shuffled(n, b, 1),
{
    if shuffled(n, a, 1) == shuffled(n, b, 1) {
        order_tells_draws(n, a, b, i as nat);
    }
}

proof fn order_tells_draws(n: nat, a: Seq<usize>, b: Seq<usize>, i: nat)
    requires
        fair_draws(n, a),
        fair_draws(n, b),
        n <= usize::MAX,
        1 <= i <= n,
        shuffled(n, a, 1) == shuffled(n, b, 1),
    ensures
        shuffled(n, a, i) == shuffled(n, b, i),
        i < n ==> a[i as int] == b[i as int],
    decreases n - i,
{
    if i < n {
        order_tells_draws(n, a, b, i + 1);
        let s = shuffled(n, a, i + 1);
        shuffle_is_permutation(n, a, i + 1);
        later_exchanges_pass(n, a, 1, i, i as int);
        later_exchanges_pass(n, b, 1, i, i as int);
        assert(a[i as int] <= i && b[i as int] <= i);
        assert(shuffled(n, a, i)[i as int] == s[a[i as int] as int]);
        assert(shuffled(n, b, i)[i as int] == s[b[i as int] as int]);
    }
}

/// Every order of the numbers below `n` is that of some draws, and so can come out of a
/// shuffle.
pub proof fn every_order_can_be_drawn(n: nat, order: Seq<usize>)
    requires
        n <= usize::MAX,
        order.len() == n,
        order.no_duplicates(),
        forall|k: int| 0 <= k < n ==> (#[trigger] order[k]) < n,
    ensures
        exists|draws: Seq<usize>|
            fair_draws(n, draws) && #[trigger] shuffled(n, draws, 1) == order,
{
    if n > 0 {
        let draws = draws_for(n, order, 1);
        let s = shuffled(n, draws, 1);
        shuffle_is_permutation(n, draws, 1);
        let m = every_number_occurs(n, s, order[0]);
        if m > 0 {
            assert(s[m] == order[m]);
        }
        assert(s =~= order);
    } else {
        let draws = Seq::<usize>::empty();
        assert(shuffled(n, draws, 1) =~= order);
        assert(fair_draws(n, draws));
    }
}

proof fn draws_for(n: nat, order: Seq<usize>, i: nat) -> (draws: Seq<usize>)
    requires
        n <= usize::MAX,
        1 <= i <= n,
        order.len() == n,
        order.no_duplicates(),
        forall|k: int| 0 <= k < n ==> (#[trigger] order[k]) < n,
    ensures
        draws.len() == n,
        fair_draws(n, draws),
        forall|k: int| i <= k < n ==> shuffled(n, draws, i)[k] == #[trigger] order[k],
    decreases n - i,
{
    if i == n {
        Seq::new(n, |k: int| 0usize)
    } else {
        let later = draws_for(n, order, i + 1);
        let s = shuffled(n, later, i + 1);
        shuffle_is_permutation(n, later, i + 1);
        let m = every_number_occurs(n, s, order[i as int]);
        if m > i {
            assert(s[m] == order[m]);
            assert(order[m] != order[i as int]);
        }
        let draws = later.update(i as int, m as usize);
        assert forall|k: int| 1 <= k < n implies #[trigger] draws[k] <= k by {
            assert(later[k] <= k);
        }
        shuffle_reads_draws(n, later, draws, i + 1);
        assert forall|k: int| i <= k < n implies shuffled(n, draws, i)[k] == #[trigger] order[k] by {
            if k > i {
                assert(s[k] == order[k]);
            }
        }
        draws
    }
}

/// Every set of instances is that of some draws: whichever instances a garbler hopes are
/// opened, they can all be among the finalized ones, and the other way round.
pub proof fn every_choice_can_be_sampled(n: nat, choice: Seq<usize>)
    requires
        n <= usize::MAX,
        forall|k: int| 0 <= k < choice.len() ==> (#[trigger] choice[k]) < n,
        forall|a: int, b: int|
            0 <= a < b < choice.len() ==> (#[trigger] choice[a]) < (#[trigger] choice[b]),
    ensures
        exists|draws: Seq<usize>|
            fair_draws(n, draws) && #[trigger] sampled(n, choice.len(), draws) == choice,
{
    assert(choice.no_duplicates());
    let order = completed(n, choice);
    every_order_can_be_drawn(n, order);
    let draws = choose|draws: Seq<usize>|
        fair_draws(n, draws) && #[trigger] shuffled(n, draws, 1) == order;
    crate::sorting::sorted_is_ascending(choice, choice);
    assert(shuffled(n, draws, 1).take(choice.len() as int) =~= choice);
    assert(sampled(n, choice.len(), draws) == choice);
}

proof fn completed(n: nat, s: Seq<usize>) -> (order: Seq<usize>)
    requires
        n <= usize::MAX,
        s.no_duplicates(),
        forall|k: int| 0 <= k < s.len() ==> (#[trigger] s[k]) < n,
    ensures
        s.len() <= n,
        order.len() == n,
        order.no_duplicates(),
        forall|k: int| 0 <= k < n ==> (#[trigger] order[k]) < n,
        order.take(s.len() as int) == s,
    decreases n - s.len(),
{
    let ints = Seq::new(s.len(), |k: int| s[k] as int);
    let range = vstd::set_lib::set_int_range(0, n as int);
    vstd::set_lib::lemma_int_range(0, n as int);
    assert forall|i: int, j: int| 0 <= i < s.len() && 0 <= j < s.len() && i != j implies ints[i]
        != ints[j] by {
        assert(s[i] != s[j]);
    }
    ints.unique_seq_to_set();
    assert forall|v: int| ints.to_set().contains(v) implies range.contains(v) by {
        let k = choose|k: int| 0 <= k < s.len() && ints[k] == v;
        assert(s[k] < n);
    }
    vstd::set_lib::lemma_len_subset(ints.to_set(), range);
    if s.len() == n {
        assert(s.take(s.len() as int) =~= s);
        s
    } else {
        if forall|v: int| range.contains(v) ==> ints.to_set().contains(v) {
            vstd::set_lib::lemma_len_subset(range, ints.to_set());
        }
        let v = choose|v: int| range.contains(v) && !ints.to_set().contains(v);
        let t = s.push(v as usize);
        assert forall|i: int, j: int| 0 <= i < t.len() && 0 <= j < t.len() && i != j implies t[i]
            != t[j] by {
            if i < s.len() && j < s.len() {
                assert(s[i] != s[j]);
            } else if i < s.len() {
                assert(ints.to_set().contains(ints[i]));
            } else {
                assert(ints.to_set().contains(ints[j]));
            }
        }
        let order = completed(n, t);
        assert(order.take(s.len() as int) =~= order.take(t.len() as int).take(s.len() as int));
        assert(t.take(s.len() as int) =~= s);
        order
    }
}

/// How shuffles of one number more and one less relate: the last place gets the number
/// that its draw names, and the other places are shuffled as if there were one number
/// less, with the largest in place of the one that left.
pub proof fn shuffle_of_one_more(n: nat, draws: Seq<usize>, i: nat, k: int)
    requires
        fair_draws(n, draws),
        1 < n <= usize::MAX,
        1 <= i < n,
        0 <= k < n,
    ensures
        shuffled(n, draws, i)[n - 1] == draws[n - 1],
        k < n - 1 ==> shuffled(n, draws, i)[k] == (if shuffled((n - 1) as nat, draws, i)[k]
            == draws[n - 1] {
            (n - 1) as usize
        } else {
            shuffled((n - 1) as nat, draws, i)[k]
        }),
    decreases n - i,
{
    let m = (n - 1) as nat;
    assert(draws[n - 1] <= n - 1);
    assert(fair_draws(m, draws));
    if i == m {
        assert(shuffled(n, draws, n)[n - 1] == n - 1);
        assert(shuffled(n, draws, n)[k] == k);
    } else {
        let j = draws[i as int] as int;
        assert(j <= i);
        shuffle_is_permutation(n, draws, i + 1);
        shuffle_is_permutation(m, draws, i + 1);
        shuffle_of_one_more(n, draws, i + 1, k);
        shuffle_of_one_more(n, draws, i + 1, i as int);
        shuffle_of_one_more(n, draws, i + 1, j);
    }
}

/// What is to be done to check an instance.
#[derive(Clone, Copy, Debug, PartialEq, Eq, Structural)]
pub enum CheckTask {
    /// The instance is finalized: take in its ciphertexts and hash them.
    Ciphertexts,
    /// The instance is opened: garble it again from its seed.
    Regarble { seed: Seed },
    /// The instance is opened but its seed was not revealed.
    MissingSeed,
}

/// The seed revealed for instance `index`, if there is one: that of the first entry
/// for it.
pub open spec fn revealed_seed(seeds: Seq<(usize, Seed)>, index: int, from: int) -> Option<Seed>
    decreases seeds.len() - from,
{
    if from >= seeds.len() {
        None
    } else if seeds[from].0 == index {
        Some(seeds[from].1)
    } else {
        revealed_seed(seeds, index, from + 1)
    }
}

/// The check of instance `index`.
pub open spec fn task_of(finalized: Seq<usize>, seeds: Seq<(usize, Seed)>, index: usize) -> CheckTask {
    if finalized.contains(index) {
        CheckTask::Ciphertexts
    } else {
        match revealed_seed(seeds, index as int, 0) {
            Some(seed) => CheckTask::Regarble { seed },
            None => CheckTask::MissingSeed,
        }
    }
}

/// What the check of an instance brought.
pub enum Evidence {
    /// The hash of the ciphertexts of a finalized instance.
    CiphertextHash(CiphertextCommit),
    /// What garbling an opened instance again gave.
    Regarbled(StreamingResult),
    /// The check could not be made.
    Unavailable,
}

/// Whether the evidence is what the task on instance `index` brought: `take` gives the
/// hash of the ciphertexts of an instance, if it can, and `regarble` garbles an instance
/// from a seed.
pub open spec fn answers<
    R: Fn(Seed) -> StreamingResult,
    C: Fn(usize) -> Option<CiphertextCommit>,
>(task: CheckTask, index: usize, regarble: R, take: C, evidence: Evidence) -> bool {
    match task {
        CheckTask::Ciphertexts => match evidence {
            Evidence::CiphertextHash(h) => take.ensures((index,), Some(h)),
            Evidence::Regarbled(_) => false,
            Evidence::Unavailable => take.ensures((index,), None),
        },
        CheckTask::Regarble { seed } => evidence matches Evidence::Regarbled(res)
            && regarble.ensures((seed,), res),
        CheckTask::MissingSeed => evidence is Unavailable,
    }
}

/// Whether the task on instance `index` can be done.
pub open spec fn can_answer<
    R: Fn(Seed) -> StreamingResult,
    C: Fn(usize) -> Option<CiphertextCommit>,
>(task: CheckTask, index: usize, regarble: R, take: C) -> bool {
    match task {
        CheckTask::Ciphertexts => take.requires((index,)),
        CheckTask::Regarble { seed } => regarble.requires((seed,)),
        CheckTask::MissingSeed => true,
    }
}

/// Does the task on instance `index`.
pub fn answer_task<R: Fn(Seed) -> StreamingResult, C: Fn(usize) -> Option<CiphertextCommit>>(
    task: CheckTask,
    index: usize,
    regarble: R,
    take: C,
) -> (r: Evidence)
    requires
        can_answer(task, index, regarble, take),
    ensures
        answers(task, index, regarble, take, r),
{
    match task {
        CheckTask::Ciphertexts => match take(index) {
            Some(h) => Evidence::CiphertextHash(h),
            None => Evidence::Unavailable,
        },
        CheckTask::Regarble { seed } => Evidence::Regarbled(regarble(seed)),
        CheckTask::MissingSeed => Evidence::Unavailable,
    }
}

/// The first commitment to what garbling again gave, with the committed seed of
/// its gate hasher.
pub open spec fn regarbled_phase_one<GH: GateHasher, LH: LabelCommitHasher>(
    res: StreamingResult,
    gate_hasher_seed: GH::Seed,
) -> PhaseOneView<GH, LH> {
    PhaseOneView {
        ciphertext_hash: res.ciphertext_handler_result,
        input_commitments: input_commits::<LH>(res.input_wire_values@, None),
        output_commit_true: LH::commitment(res.output_value.label1),
        output_commit_false: LH::commitment(res.output_value.label0),
        true_constant: selected(res.true_wire_constant, true).0,
        false_constant: selected(res.false_wire_constant, false).0,
        gate_hasher_seed,
    }
}

/// Whether the evidence bears out the commitments to an opened instance: garbling
/// it again gives both.
pub open spec fn opening_holds<GH: GateHasher, LH: LabelCommitHasher>(
    first: CommitPhaseOne<GH, LH>,
    second: CommitPhaseTwo<LH>,
    nonce: S,
    evidence: Evidence,
) -> bool {
    evidence matches Evidence::Regarbled(res) && regarbled_phase_one::<GH, LH>(
        res,
        first.gate_hasher_seed,
    ) == first@ && input_commits::<LH>(res.input_wire_values@, Some(nonce))
        == second.input_commitments@
}

/// Whether the evidence bears out the commitments to an instance.
pub open spec fn check_holds<GH: GateHasher, LH: LabelCommitHasher>(
    first: CommitPhaseOne<GH, LH>,
    second: CommitPhaseTwo<LH>,
    nonce: S,
    finalized: bool,
    evidence: Evidence,
) -> bool {
    if finalized {
        evidence matches Evidence::CiphertextHash(h) && h == first.ciphertext_hash
    } else {
        opening_holds(first, second, nonce, evidence)
    }
}

fn check_opening<GH: GateHasher, LH: LabelCommitHasher>(
    first: &CommitPhaseOne<GH, LH>,
    second: &CommitPhaseTwo<LH>,
    nonce: S,
    evidence: &Evidence,
) -> (r: bool)
    ensures
        r == opening_holds(*first, *second, nonce, *evidence),
{
    match evidence {
        Evidence::Regarbled(res) => {
            let instance = GarbledInstance::<GH> {
                false_wire_constant: res.false_wire_constant,
                true_wire_constant: res.true_wire_constant,
                output_wire_values: res.output_value,
                input_wire_values: crate::cut_and_choose::garbler::copy_wires(
                    &res.input_wire_values,
                ),
                ciphertext_handler_result: res.ciphertext_handler_result,
                gate_hasher_seed: *first.gate_hasher_seed(),
            };
            let again = CommitPhaseOne::<GH, LH>::from_instance(&instance);
            if !again.same(first) {
                return false;
            }
            let again_two = CommitPhaseTwo::<LH>::from_instance(&instance, nonce);
            same_label_commits::<LH>(&again_two.input_commitments, &second.input_commitments)
        },
        _ => false,
    }
}

/// Whether an index is among others.
pub fn index_among(v: &Vec<usize>, x: usize) -> (r: bool)
    ensures
        r == v@.contains(x),
{
    let mut i: usize = 0;
    while i < v.len()
        invariant
            i <= v@.len(),
            forall|k: int| 0 <= k < i ==> v@[k] != x,
        decreases v@.len() - i,
    {
        if v[i] == x {
            assert(v@[i as int] == x);
            return true;
        }
        i = i + 1;
    }
    false
}

/// Shuffles the numbers below `n` and takes the first `f` in ascending order.
pub fn sample_indexes(n: usize, f: usize, draws: &[usize]) -> (r: Vec<usize>)
    requires
        fair_draws(n as nat, draws@),
        f <= n,
    ensures
        r@ == sampled(n as nat, f as nat, draws@),
{
    let mut idxs: Vec<usize> = Vec::new();
    let mut k: usize = 0;
    while k < n
        invariant
            k <= n,
            idxs@.len() == k,
            forall|j: int| 0 <= j < k ==> #[trigger] idxs@[j] == j,
        decreases n - k,
    {
        idxs.push(k);
        k = k + 1;
    }
    assert(idxs@ =~= shuffled(n as nat, draws@, n as nat));
    let mut i: usize = n;
    if n == 0 {
        assert(shuffled(0, draws@, 1) =~= idxs@);
    }
    while i > 1
        invariant
            i <= n,
            n == 0 || i >= 1,
            idxs@.len() == n,
            fair_draws(n as nat, draws@),
            n > 0 ==> idxs@ == shuffled(n as nat, draws@, i as nat),
        decreases i,
    {
        i = i - 1;
        let j: usize = draws[i];
        let a: usize = idxs[i];
        let b: usize = idxs[j];
        let ghost before = idxs@;
        idxs[i] = b;
        idxs[j] = a;
        assert(idxs@ =~= swapped(before, i as int, j as int));
    }
    proof {
        shuffle_is_permutation(n as nat, draws@, 1);
    }
    idxs.truncate(f);
    assert(idxs@ =~= shuffled(n as nat, draws@, 1).take(f as int));
    sort_indexes(&mut idxs);
    idxs
}

impl<I, GH: GateHasher, LH: LabelCommitHasher> Evaluator<I, GH, LH> {
    /// An evaluator that knows the first commitments. The instances to finalize
    /// follow from random draws, and the nonce is a random draw.
    pub fn create(
        draws: &[usize],
        nonce: u128,
        config: Config<I>,
        commits: Vec<CommitPhaseOne<GH, LH>>,
    ) -> (r: Self)
        requires
            config.finalized_count <= config.total,
            commits@.len() == config.total,
            fair_draws(config.total as nat, draws@),
        ensures
            r.stage == Stage::<GH, LH>::Created(commits),
            r.finalized_indexes@ == sampled(
                config.total as nat,
                config.finalized_count as nat,
                draws@,
            ),
            r.config == config,
            r.nonce == S(nonce),
            !r.regarbled,
    {
        let finalized_indexes = sample_indexes(config.total, config.finalized_count, draws);
        Evaluator {
            stage: Stage::Created(commits),
            finalized_indexes,
            config,
            nonce: S::from_u128(nonce),
            regarbled: false,
        }
    }

    /// Takes in the second commitments.
    pub fn fill_second_commit(&mut self, commits: Vec<CommitPhaseTwo<LH>>)
        requires
            old(self).stage is Created,
        ensures
            final(self).stage == (Stage::<GH, LH>::Filled {
                first: old(self).stage->Created_0,
                second: commits,
            }),
            *final(self) == (Evaluator { stage: final(self).stage, ..*old(self) }),
    {
        let mut stage: Stage<GH, LH> = Stage::Empty;
        core::mem::swap(&mut self.stage, &mut stage);
        match stage {
            Stage::Created(first) => {
                self.stage = Stage::Filled { first, second: commits };
            },
            _ => (),
        }
    }

    /// Both commitments, once they are known.
    pub fn get_commitment(&self) -> (r: Option<
        (&Vec<CommitPhaseOne<GH, LH>>, &Vec<CommitPhaseTwo<LH>>),
    >)
        ensures
            match (r, self.stage) {
                (Some((f, s)), Stage::Filled { first, second }) => *f == first && *s == second,
                (None, Stage::Filled { .. }) => false,
                (Some(_), _) => false,
                (None, _) => true,
            },
    {
        match &self.stage {
            Stage::Filled { first, second } => Some((first, second)),
            _ => None,
        }
    }

    /// What is to be done to check instance `index`, given the revealed seeds.
    pub fn check_task(&self, index: usize, seeds: &[(usize, Seed)]) -> (r: CheckTask)
        ensures
            r == task_of(self.finalized_indexes@, seeds@, index),
    {
        if index_among(&self.finalized_indexes, index) {
            return CheckTask::Ciphertexts;
        }
        let mut i: usize = 0;
        while i < seeds.len()
            invariant
                i <= seeds@.len(),
                revealed_seed(seeds@, index as int, 0) == revealed_seed(
                    seeds@,
                    index as int,
                    i as int,
                ),
                !self.finalized_indexes@.contains(index),
            decreases seeds@.len() - i,
        {
            if seeds[i].0 == index {
                return CheckTask::Regarble { seed: seeds[i].1 };
            }
            i = i + 1;
        }
        CheckTask::MissingSeed
    }

    /// What the check of instance `index` brings: the hash of its ciphertexts if it is
    /// finalized, else what garbling it from its revealed seed gives.
    pub fn evidence_for<
        R: Fn(Seed) -> StreamingResult,
        C: Fn(usize) -> Option<CiphertextCommit>,
    >(&self, index: usize, seeds: &[(usize, Seed)], regarble: R, take: C) -> (r: Evidence)
        requires
            can_answer(task_of(self.finalized_indexes@, seeds@, index), index, regarble, take),
        ensures
            answers(task_of(self.finalized_indexes@, seeds@, index), index, regarble, take, r),
    {
        answer_task(self.check_task(index, seeds), index, regarble, take)
    }

    /// Whether the evidence bears out the commitments to instance `index`.
    pub open spec fn instance_holds(&self, index: int, evidence: Evidence) -> bool {
        check_holds(
            self.stage->first@[index],
            self.stage->Filled_second@[index],
            self.nonce,
            self.finalized_indexes@.contains(index as usize),
            evidence,
        )
    }

    /// Whether the evidence bears out the commitments to instance `index` if it is
    /// opened; nothing is asked of a finalized instance.
    pub open spec fn opened_instance_holds(&self, index: int, evidence: Evidence) -> bool {
        self.finalized_indexes@.contains(index as usize) || opening_holds(
            self.stage->first@[index],
            self.stage->Filled_second@[index],
            self.nonce,
            evidence,
        )
    }

    /// Checks all instances: the ciphertexts of the finalized ones against their
    /// hashes, and the opened ones against what garbling them again gave. If all
    /// hold, the evaluator notes it.
    pub fn full_check_commit(&mut self, evidence: &Vec<Evidence>) -> (r: Result<(), ()>)
        requires
            old(self).stage is Filled,
            old(self).stage->first@.len() == old(self).stage->Filled_second@.len(),
            evidence@.len() == old(self).stage->first@.len(),
        ensures
            r is Ok <==> forall|i: int|
                0 <= i < evidence@.len() ==> #[trigger] old(self).instance_holds(i, evidence@[i]),
            *final(self) == (Evaluator {
                regarbled: old(self).regarbled || r is Ok,
                ..*old(self)
            }),
    {
        let ghost before = *self;
        match &self.stage {
            Stage::Filled { first, second } => {
                let mut i: usize = 0;
                while i < evidence.len()
                    invariant
                        i <= evidence@.len(),
                        evidence@.len() == first@.len(),
                        first@.len() == second@.len(),
                        before.stage == (Stage::<GH, LH>::Filled { first: *first, second: *second }),
                        before.nonce == self.nonce,
                        before.finalized_indexes == self.finalized_indexes,
                        *self == before,
                        before == *old(self),
                        forall|k: int|
                            0 <= k < i ==> #[trigger] before.instance_holds(k, evidence@[k]),
                    decreases evidence@.len() - i,
                {
                    let holds = if index_among(&self.finalized_indexes, i) {
                        match &evidence[i] {
                            Evidence::CiphertextHash(h) => same_bytes(
                                h,
                                &first[i].ciphertext_hash,
                            ),
                            _ => false,
                        }
                    } else {
                        check_opening(&first[i], &second[i], self.nonce, &evidence[i])
                    };
                    assert(holds == before.instance_holds(i as int, evidence@[i as int]));
                    if !holds {
                        return Err(());
                    }
                    i = i + 1;
                }
            },
            _ => (),
        }
        self.regarbled = true;
        Ok(())
    }

    /// Checks the opened instances against what garbling them again gave. If all
    /// hold, the evaluator notes it.
    pub fn run_regarbling(&mut self, evidence: &Vec<Evidence>) -> (r: Result<(), ()>)
        requires
            old(self).stage is Filled,
            old(self).stage->first@.len() == old(self).stage->Filled_second@.len(),
            evidence@.len() == old(self).stage->first@.len(),
        ensures
            r is Ok <==> forall|i: int|
                0 <= i < evidence@.len() ==> #[trigger] old(self).opened_instance_holds(
                    i,
                    evidence@[i],
                ),
            *final(self) == (Evaluator {
                regarbled: old(self).regarbled || r is Ok,
                ..*old(self)
            }),
    {
        let ghost before = *self;
        match &self.stage {
            Stage::Filled { first, second } => {
                let mut i: usize = 0;
                while i < evidence.len()
                    invariant
                        i <= evidence@.len(),
                        evidence@.len() == first@.len(),
                        first@.len() == second@.len(),
                        before.stage == (Stage::<GH, LH>::Filled { first: *first, second: *second }),
                        before.nonce == self.nonce,
                        before.finalized_indexes == self.finalized_indexes,
                        *self == before,
                        before == *old(self),
                        forall|k: int|
                            0 <= k < i ==> #[trigger] before.opened_instance_holds(k, evidence@[k]),
                    decreases evidence@.len() - i,
                {
                    let holds = index_among(&self.finalized_indexes, i) || check_opening(
                        &first[i],
                        &second[i],
                        self.nonce,
                        &evidence[i],
                    );
                    assert(holds == before.opened_instance_holds(i as int, evidence@[i as int]));
                    if !holds {
                        return Err(());
                    }
                    i = i + 1;
                }
            },
            _ => (),
        }
        self.regarbled = true;
        Ok(())
    }

    pub fn stage(&self) -> (r: &Stage<GH, LH>)
        ensures
            *r == self.stage,
    {
        &self.stage
    }

    pub fn stage_mut(&mut self) -> (r: &mut Stage<GH, LH>)
        ensures
            *r == old(self).stage,
            *final(self) == (Evaluator { stage: *final(r), ..*old(self) }),
    {
        &mut self.stage
    }

    pub fn finalized_indexes(&self) -> (r: &[usize])
        ensures
            r@ == self.finalized_indexes@,
    {
        self.finalized_indexes.as_slice()
    }

    pub fn get_nonce(&self) -> (r: S)
        ensures
            r == self.nonce,
    {
        self.nonce
    }

    /// Whether the opened instances were checked.
    pub fn is_regarbled(&self) -> (r: bool)
        ensures
            r == self.regarbled,
    {
        self.regarbled
    }

    /// Notes that the opened instances were checked.
    pub fn mark_regarbled(&mut self)
        ensures
            *final(self) == (Evaluator { regarbled: true, ..*old(self) }),
    {
        self.regarbled = true;
    }

    pub fn config(&self) -> (r: &Config<I>)
        ensures
            *r == self.config,
    {
        &self.config
    }

    /// The first commitment to an instance, if it is known.
    pub fn get_commit_phase_one(&self, index: usize) -> (r: Option<&CommitPhaseOne<GH, LH>>)
        ensures
            r == match self.stage {
                Stage::Empty => None,
                Stage::Created(first) => if index < first@.len() {
                    Some(&first@[index as int])
                } else {
                    None
                },
                Stage::Filled { first, .. } => if index < first@.len() {
                    Some(&first@[index as int])
                } else {
                    None
                },
            },
    {
        match &self.stage {
            Stage::Empty => None,
            Stage::Created(first) => if index < first.len() {
                Some(&first[index])
            } else {
                None
            },
            Stage::Filled { first, .. } => if index < first.len() {
                Some(&first[index])
            } else {
                None
            },
        }
    }

    /// An evaluator from its parts.
    pub fn from_raw_parts(
        config: Config<I>,
        nonce: u128,
        finalized_indexes: Vec<usize>,
        regarbled: bool,
        stage: Stage<GH, LH>,
    ) -> (r: Self)
        ensures
            r == (Evaluator { config, nonce: S(nonce), finalized_indexes, regarbled, stage }),
    {
        Evaluator { config, nonce: S::from_u128(nonce), finalized_indexes, regarbled, stage }
    }

    /// The parts of the evaluator.
    pub fn into_raw_parts(self) -> (r: (Config<I>, S, Vec<usize>, bool, Stage<GH, LH>))
        ensures
            r == (
                self.config,
                self.nonce,
                self.finalized_indexes,
                self.regarbled,
                self.stage,
            ),
    {
        (self.config, self.nonce, self.finalized_indexes, self.regarbled, self.stage)
    }

    /// Evaluated instances, checked against the commitments: the outputs if every
    /// one is consistent, else why the first that is not is inconsistent.
    pub fn evaluate_from(&self, cases: &Vec<EvaluatedCase>) -> (r: Result<
        Vec<(usize, EvaluatedWire)>,
        ConsistencyError<LH>,
    >)
        requires
            self.stage.ready(self.regarbled) is Some,
            forall|i: int|
                0 <= i < cases@.len() ==> (#[trigger] cases@[i]).index
                    < self.stage.ready(self.regarbled)->0.len(),
        ensures
            outcome_of(self.stage.ready(self.regarbled)->0, cases@, r),
    {
        match self.stage.get_commit_if_ready(self.regarbled) {
            Some(commits) => check_cases(commits, cases),
            None => Ok(Vec::new()),
        }
    }
}

/// The parts of an evaluator.
pub struct EvaluatorRawParts<I, GH: GateHasher, LH: LabelCommitHasher> {
    pub config: Config<I>,
    pub nonce: S,
    pub finalized_indexes: Vec<usize>,
    pub regarbled: bool,
    pub stage: Stage<GH, LH>,
}

impl<I, GH: GateHasher, LH: LabelCommitHasher> From<EvaluatorRawParts<I, GH, LH>> for Evaluator<I, GH, LH> {
    fn from(parts: EvaluatorRawParts<I, GH, LH>) -> (r: Self) {
        Evaluator {
            config: parts.config,
            nonce: parts.nonce,
            finalized_indexes: parts.finalized_indexes,
            regarbled: parts.regarbled,
            stage: parts.stage,
        }
    }
}

impl<I, GH: GateHasher, LH: LabelCommitHasher> vstd::std_specs::convert::FromSpecImpl<EvaluatorRawParts<I, GH, LH>> for Evaluator<I, GH, LH> {
    open spec fn obeys_from_spec() -> bool {
        true
    }

    open spec fn from_spec(parts: EvaluatorRawParts<I, GH, LH>) -> Self {
        Evaluator {
            config: parts.config,
            nonce: parts.nonce,
            finalized_indexes: parts.finalized_indexes,
            regarbled: parts.regarbled,
            stage: parts.stage,
        }
    }
}

impl<I, GH: GateHasher, LH: LabelCommitHasher> From<Evaluator<I, GH, LH>> for EvaluatorRawParts<I, GH, LH> {
    fn from(value: Evaluator<I, GH, LH>) -> (r: Self) {
        EvaluatorRawParts {
            config: value.config,
            nonce: value.nonce,
            finalized_indexes: value.finalized_indexes,
            regarbled: value.regarbled,
            stage: value.stage,
        }
    }
}

impl<I, GH: GateHasher, LH: LabelCommitHasher> vstd::std_specs::convert::FromSpecImpl<Evaluator<I, GH, LH>> for EvaluatorRawParts<I, GH, LH> {
    open spec fn obeys_from_spec() -> bool {
        true
    }

    open spec fn from_spec(value: Evaluator<I, GH, LH>) -> Self {
        EvaluatorRawParts {
            config: value.config,
            nonce: value.nonce,
            finalized_indexes: value.finalized_indexes,
            regarbled: value.regarbled,
            stage: value.stage,
        }
    }
}

/// What evaluating a circuit in a stream gives.
pub struct EvaluationResult {
    pub input_wire_values: Vec<EvaluatedWire>,
    pub ciphertext_handler_result: CiphertextCommit,
    pub output_value: EvaluatedWire,
}

/// An instance to be evaluated with its input.
#[derive(Debug)]
pub struct EvaluatorCaseInput<I> {
    pub index: usize,
    pub input: I,
}

/// An instance and what evaluating it gave; nothing if there were no ciphertexts
/// for it.
pub struct EvaluatedCase {
    pub index: usize,
    pub result: Option<EvaluationResult>,
}

/// Whether an active label is the committed one for its value.
pub open spec fn label_holds<LH: LabelCommitHasher>(
    commit: LabelCommit<LH::Output>,
    wire: EvaluatedWire,
) -> bool {
    LH::commitment(wire.active_label) == commit_of_value(commit, wire.value)
}

/// The position of the first input whose active label is not the committed one; the
/// number of inputs if there is none.
pub open spec fn first_bad_label<LH: LabelCommitHasher>(
    commits: Seq<LabelCommit<LH::Output>>,
    wires: Seq<EvaluatedWire>,
    from: int,
) -> int
    decreases commits.len() - from,
{
    if from >= commits.len() || !label_holds::<LH>(commits[from], wires[from]) {
        from
    } else {
        first_bad_label::<LH>(commits, wires, from + 1)
    }
}

/// The commitments of an input with that of the active label in place of the one
/// for its value.
pub open spec fn actual_commit<LH: LabelCommitHasher>(
    commit: LabelCommit<LH::Output>,
    wire: EvaluatedWire,
) -> LabelCommit<LH::Output> {
    if wire.value {
        LabelCommit { commit_true: LH::commitment(wire.active_label), ..commit }
    } else {
        LabelCommit { commit_false: LH::commitment(wire.active_label), ..commit }
    }
}

/// The committed output label for a value.
pub open spec fn output_commit<GH: GateHasher, LH: LabelCommitHasher>(
    commit: CommitPhaseOne<GH, LH>,
    value: bool,
) -> LH::Output {
    if value {
        commit.output_commit_true
    } else {
        commit.output_commit_false
    }
}

/// Why an evaluated instance is not consistent with its commitment, if it is not.
/// The number of inputs is looked at first, then the inputs in order, then the
/// ciphertexts, then the output.
pub open spec fn case_fault<GH: GateHasher, LH: LabelCommitHasher>(
    commit: CommitPhaseOne<GH, LH>,
    case: EvaluatedCase,
) -> Option<ConsistencyError<LH>> {
    let index = case.index;
    match case.result {
        None => Some(ConsistencyError::MissingCiphertextHash(index)),
        Some(res) => {
            let commits = commit.input_commitments@;
            let wires = res.input_wire_values@;
            let bad = first_bad_label::<LH>(commits, wires, 0);
            let out = res.output_value;
            if commits.len() != wires.len() {
                Some(
                    ConsistencyError::InputLabelsCountMismatch {
                        index,
                        expected: commits.len() as usize,
                        actual: wires.len() as usize,
                    },
                )
            } else if bad < commits.len() {
                Some(
                    ConsistencyError::InputLabelsMismatch {
                        index,
                        label_index: bad as usize,
                        expected: commits[bad],
                        actual: actual_commit::<LH>(commits[bad], wires[bad]),
                    },
                )
            } else if res.ciphertext_handler_result != commit.ciphertext_hash {
                Some(
                    ConsistencyError::CiphertextMismatch {
                        index,
                        expected: commit.ciphertext_hash,
                        actual: res.ciphertext_handler_result,
                    },
                )
            } else if LH::commitment(out.active_label) != output_commit(commit, out.value) {
                Some(
                    ConsistencyError::OutputLabelMismatch {
                        index,
                        expected: output_commit(commit, out.value),
                        actual: LH::commitment(out.active_label),
                    },
                )
            } else {
                None
            }
        },
    }
}

/// Whether every evaluated instance is consistent with its commitment.
pub open spec fn cases_hold<GH: GateHasher, LH: LabelCommitHasher>(
    commits: Seq<CommitPhaseOne<GH, LH>>,
    cases: Seq<EvaluatedCase>,
) -> bool {
    forall|i: int|
        0 <= i < cases.len() ==> case_fault(
            commits[(#[trigger] cases[i]).index as int],
            cases[i],
        ) is None
}

/// The instances and their outputs.
pub open spec fn case_outputs(cases: Seq<EvaluatedCase>) -> Seq<(usize, EvaluatedWire)> {
    Seq::new(cases.len(), |i: int| (cases[i].index, cases[i].result->0.output_value))
}

/// The outcome of checking evaluated instances: all outputs if every one is
/// consistent, else why the first that is not is inconsistent.
pub open spec fn outcome_of<GH: GateHasher, LH: LabelCommitHasher>(
    commits: Seq<CommitPhaseOne<GH, LH>>,
    cases: Seq<EvaluatedCase>,
    r: Result<Vec<(usize, EvaluatedWire)>, ConsistencyError<LH>>,
) -> bool {
    match r {
        Ok(outs) => cases_hold(commits, cases) && outs@ == case_outputs(cases),
        Err(e) => exists|k: int|
            0 <= k < cases.len() && cases_hold(commits, cases.take(k)) && #[trigger] case_fault(
                commits[cases[k].index as int],
                cases[k],
            ) == Some(e),
    }
}

/// Checks evaluated instances against their commitments.
pub fn check_cases<GH: GateHasher, LH: LabelCommitHasher>(
    commits: &Vec<CommitPhaseOne<GH, LH>>,
    cases: &Vec<EvaluatedCase>,
) -> (r: Result<Vec<(usize, EvaluatedWire)>, ConsistencyError<LH>>)
    requires
        forall|i: int| 0 <= i < cases@.len() ==> (#[trigger] cases@[i]).index < commits@.len(),
    ensures
        outcome_of(commits@, cases@, r),
{
    let mut outs: Vec<(usize, EvaluatedWire)> = Vec::new();
    let mut i: usize = 0;
    assert(cases@.take(0) =~= Seq::<EvaluatedCase>::empty());
    while i < cases.len()
        invariant
            i <= cases@.len(),
            forall|k: int| 0 <= k < cases@.len() ==> (#[trigger] cases@[k]).index < commits@.len(),
            cases_hold(commits@, cases@.take(i as int)),
            outs@ == case_outputs(cases@.take(i as int)),
        decreases cases@.len() - i,
    {
        let ghost before = cases@.take(i as int);
        let case = &cases[i];
        match check_case(&commits[case.index], case) {
            Ok(out) => {
                outs.push(out);
            },
            Err(e) => {
                assert(case_fault(commits@[cases@[i as int].index as int], cases@[i as int])
                    == Some(e));
                return Err(e);
            },
        }
        proof {
            assert(cases@.take(i + 1) =~= before.push(cases@[i as int]));
            assert(outs@ =~= case_outputs(cases@.take(i + 1)));
        }
        i = i + 1;
    }
    assert(cases@.take(cases@.len() as int) =~= cases@);
    Ok(outs)
}

/// Checks an evaluated instance against its commitment.
pub fn check_case<GH: GateHasher, LH: LabelCommitHasher>(
    commit: &CommitPhaseOne<GH, LH>,
    case: &EvaluatedCase,
) -> (r: Result<(usize, EvaluatedWire), ConsistencyError<LH>>)
    ensures
        match (r, case_fault(*commit, *case)) {
            (Ok(out), None) => out == (case.index, case.result->0.output_value),
            (Err(e), Some(f)) => e == f,
            _ => false,
        },
{
    let index: usize = case.index;
    match &case.result {
        None => Err(ConsistencyError::MissingCiphertextHash(index)),
        Some(res) => {
            let n: usize = commit.input_commitments.len();
            if n != res.input_wire_values.len() {
                return Err(
                    ConsistencyError::InputLabelsCountMismatch {
                        index,
                        expected: n,
                        actual: res.input_wire_values.len(),
                    },
                );
            }
            let mut i: usize = 0;
            while i < n
                invariant
                    i <= n,
                    n == commit.input_commitments@.len(),
                    n == res.input_wire_values@.len(),
                    case.result == Some(*res),
                    index == case.index,
                    first_bad_label::<LH>(
                        commit.input_commitments@,
                        res.input_wire_values@,
                        0,
                    ) == first_bad_label::<LH>(
                        commit.input_commitments@,
                        res.input_wire_values@,
                        i as int,
                    ),
                decreases n - i,
            {
                let expected = commit.input_commitments[i];
                let wire = res.input_wire_values[i];
                let actual = commit_label_with::<LH>(wire.active_label);
                if !LH::same_commit(&actual, &expected.commit_for_value(wire.value)) {
                    let actual_commit = if wire.value {
                        LabelCommit { commit_true: actual, commit_false: expected.commit_false }
                    } else {
                        LabelCommit { commit_false: actual, commit_true: expected.commit_true }
                    };
                    return Err(
                        ConsistencyError::InputLabelsMismatch {
                            index,
                            label_index: i,
                            expected,
                            actual: actual_commit,
                        },
                    );
                }
                i = i + 1;
            }
            if !same_bytes(&res.ciphertext_handler_result, &commit.ciphertext_hash) {
                return Err(
                    ConsistencyError::CiphertextMismatch {
                        index,
                        expected: commit.ciphertext_hash,
                        actual: res.ciphertext_handler_result,
                    },
                );
            }
            let actual = commit_label_with::<LH>(res.output_value.active_label);
            let expected = if res.output_value.value {
                commit.output_commit_true()
            } else {
                commit.output_commit_false()
            };
            if !LH::same_commit(&actual, &expected) {
                return Err(ConsistencyError::OutputLabelMismatch { index, expected, actual });
            }
            Ok((index, res.output_value))
        },
    }
}

/// Evidence that was gathered for an instance and bears out its commitments shows what
/// the check is for: the ciphertexts that came in for a finalized instance have the
/// committed hash, and garbling an opened instance from its revealed seed gives the
/// committed labels and ciphertexts.
pub proof fn gathered_evidence_shows_instance<
    I,
    GH: GateHasher,
    LH: LabelCommitHasher,
    R: Fn(Seed) -> StreamingResult,
    C: Fn(usize) -> Option<CiphertextCommit>,
>(
    evaluator: Evaluator<I, GH, LH>,
    seeds: Seq<(usize, Seed)>,
    index: usize,
    regarble: R,
    take: C,
    evidence: Evidence,
)
    requires
        answers(
            task_of(evaluator.finalized_indexes@, seeds, index),
            index,
            regarble,
            take,
            evidence,
        ),
        evaluator.instance_holds(index as int, evidence),
    ensures
        evaluator.finalized_indexes@.contains(index) ==> take.ensures(
            (index,),
            Some(evaluator.stage->first@[index as int].ciphertext_hash),
        ),
        !evaluator.finalized_indexes@.contains(index) ==> {
            &&& revealed_seed(seeds, index as int, 0) is Some
            &&& exists|res: StreamingResult| #[trigger]
                regarble.ensures((revealed_seed(seeds, index as int, 0)->0,), res)
                    && opening_holds(
                    evaluator.stage->first@[index as int],
                    evaluator.stage->Filled_second@[index as int],
                    evaluator.nonce,
                    Evidence::Regarbled(res),
                )
        },
{
}

/// The seed that counts for an instance is that of the first entry with its number.
pub proof fn revealed_seed_is_first(seeds: Seq<(usize, Seed)>, index: int, from: int)
    requires
        0 <= from,
    ensures
        match revealed_seed(seeds, index, from) {
            Some(seed) => exists|p: int|
                from <= p < seeds.len() && #[trigger] seeds[p] == (index as usize, seed)
                    && seeds[p].0 == index && forall|k: int|
                    from <= k < p ==> (#[trigger] seeds[k]).0 != index,
            None => forall|k: int| from <= k < seeds.len() ==> (#[trigger] seeds[k]).0 != index,
        },
    decreases seeds.len() - from,
{
    if from < seeds.len() {
        if seeds[from].0 == index {
            assert(seeds[from] == (index as usize, seeds[from].1));
        } else {
            revealed_seed_is_first(seeds, index, from + 1);
            if revealed_seed(seeds, index, from) is Some {
                let seed = revealed_seed(seeds, index, from)->0;
                let p = choose|p: int|
                    from + 1 <= p < seeds.len() && #[trigger] seeds[p] == (index as usize, seed)
                        && seeds[p].0 == index && forall|k: int|
                        from + 1 <= k < p ==> (#[trigger] seeds[k]).0 != index;
                assert(forall|k: int| from <= k < p ==> (#[trigger] seeds[k]).0 != index);
            }
        }
    }
}

/// What is to be done with an instance: a finalized one is checked by its ciphertexts,
/// another is garbled again from its revealed seed, and cannot be checked without.
pub proof fn tasks_follow_choice(finalized: Seq<usize>, seeds: Seq<(usize, Seed)>, index: usize)
    ensures
        task_of(finalized, seeds, index) is Ciphertexts <==> finalized.contains(index),
        task_of(finalized, seeds, index) is MissingSeed <==> !finalized.contains(index) && forall|
            k: int,
        |
            0 <= k < seeds.len() ==> (#[trigger] seeds[k]).0 != index,
        task_of(finalized, seeds, index) matches CheckTask::Regarble { seed } ==> seeds.contains(
            (index, seed),
        ),
{
    revealed_seed_is_first(seeds, index as int, 0);
}

} // verus!
