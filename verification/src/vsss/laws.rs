//! What cut-and-choose with shared labels promises of honest parties.

use crate::cut_and_choose::commit::{
    instance_of, phase_one, GarbledInstance, LabelCommitHasher, StreamingResult,
};
use crate::cut_and_choose::evaluator::Evidence;
use crate::cut_and_choose::laws::regarbling_matches_in_parts;
use crate::gate::{selected, GarbledWire};
use crate::hashers::GateHasher;
use crate::modes::evaluate::EvaluatedWire;
use crate::vsss::commits::{
    are_share_commits, commits_follow, honest_commits_follow, share_fault,
    share_indexes, share_scalars, value_is_unique, ShareCommits,
};
use crate::vsss::evaluator::{
    finalized_holds, first_lookup, first_open, opened_holds, revealed_shares, revealed_shares_hold,
    shares_follow, Evaluator, Stage,
};
use crate::vsss::field::{order, scalar_bounds, Scalar};
use crate::vsss::garbler::{
    are_all_shares, are_all_tables, shares_of_polynomial, InstanceWideLabelLookup,
};
use crate::vsss::interpolation::{
    are_shares, is_evaluation, scalar_values, stand_for, Linear, Polynomial,
};
use crate::vsss::points::{are_commitments, generator_multiple, Point};
use crate::vsss::polynomials::{fits, is_value_at, poly_at, same};
use crate::vsss::products::first_nodes;
use crate::vsss::protocol::{
    bits_number, bits_number_bounds, bits_of_number, OpenVsssInstance, VsssCommit,
};
use crate::vsss::wide_garbling::{
    all_rows, bit_of, decrypts, has_all_labels, lookup_gives_bits, row_wires, table_of, tables_hash,
    tables_of,
};
use vstd::arithmetic::div_mod::{lemma_mod_bound, lemma_small_mod};
use vstd::prelude::*;

verus! {

proof fn equal_values_define_the_same(nodes: Seq<int>, ys: Seq<int>, zs: Seq<int>, x: int, y: int)
    requires
        is_value_at(nodes, ys, x, y),
        nodes.len() == ys.len(),
        nodes.len() == zs.len(),
        forall|k: int| 0 <= k < nodes.len() ==> same(#[trigger] ys[k], zs[k]),
    ensures
        is_value_at(nodes, zs, x, y),
{
    assert forall|c: Seq<int>| fits(c, nodes, ys) <==> #[trigger] fits(c, nodes, zs) by {
        assert forall|k: int| 0 <= k < nodes.len() implies (same(poly_at(c, nodes[k]), ys[k])
            <==> same(poly_at(c, #[trigger] nodes[k]), zs[k])) by {
            assert(same(ys[k], zs[k]));
        }
        if fits(c, nodes, ys) {
            assert forall|k: int| 0 <= k < nodes.len() implies same(
                poly_at(c, #[trigger] nodes[k]),
                zs[k],
            ) by {
                assert(same(poly_at(c, nodes[k]), ys[k]));
            }
        }
        if fits(c, nodes, zs) {
            assert forall|k: int| 0 <= k < nodes.len() implies same(
                poly_at(c, #[trigger] nodes[k]),
                ys[k],
            ) by {
                assert(same(poly_at(c, nodes[k]), zs[k]));
            }
        }
    }
    let c = choose|c: Seq<int>| c.len() == nodes.len() && #[trigger] fits(c, nodes, ys);
    assert(fits(c, nodes, zs));
}

/// The evaluator accepts an honest garbler's commitments to the shares of a polynomial.
pub proof fn honest_commits_are_accepted(
    known: Seq<Scalar>,
    coefficients: Seq<Point>,
    commits: Seq<Point>,
)
    requires
        are_commitments(known, coefficients),
        are_share_commits(known, commits),
        known.len() <= commits.len(),
    ensures
        shares_follow(coefficients, commits),
{
    honest_commits_follow(known, coefficients, commits);
    let zs = scalar_values(known);
    assert forall|ys: Seq<int>| #[trigger] stand_for(coefficients, ys) implies commits_follow(
        ys,
        coefficients,
        commits,
    ) by {
        assert forall|k: int| 0 <= k < known.len() implies same(#[trigger] zs[k], ys[k]) by {
            assert(coefficients[k].represents(ys[k]));
            scalar_bounds(known[k]);
            lemma_small_mod(known[k]@ as nat, order() as nat);
            lemma_mod_bound(ys[k], order());
            assert(coefficients[k]@ == generator_multiple(ys[k] % order()));
        }
        assert forall|i: int| known.len() <= i < commits.len() implies is_evaluation(
            ys,
            i,
            #[trigger] commits[i],
        ) by {
            assert(is_evaluation(zs, i, commits[i]));
            let nodes = first_nodes(zs.len());
            let y = choose|y: int| #[trigger] is_value_at(nodes, zs, i, y) && commits[i].represents(
                y,
            );
            equal_values_define_the_same(nodes, zs, ys, i, y);
        }
    }
}

/// The shares of a polynomial are determined by it.
pub proof fn shares_are_unique(
    known: Seq<Scalar>,
    a: Seq<(usize, Scalar)>,
    b: Seq<(usize, Scalar)>,
    i: int,
)
    requires
        are_shares(known, a),
        are_shares(known, b),
        0 <= i < a.len(),
        i < b.len(),
    ensures
        a[i].0 == b[i].0,
        a[i].1@ == b[i].1@,
{
    if i >= known.len() {
        let nodes = first_nodes(known.len());
        let ys = scalar_values(known);
        assert(is_value_at(nodes, ys, i, a[i].1@));
        assert(is_value_at(nodes, ys, i, b[i].1@));
        value_is_unique(nodes, ys, i, a[i].1@, b[i].1@);
        scalar_bounds(a[i].1);
        scalar_bounds(b[i].1);
        lemma_small_mod(a[i].1@ as nat, order() as nat);
        lemma_small_mod(b[i].1@ as nat, order() as nat);
    }
}

/// An honest garbler's shares of a polynomial agree with its commitments, whichever are
/// asked for.
pub proof fn honest_shares_agree(
    known: Seq<Scalar>,
    all: Seq<(usize, Scalar)>,
    commits: Seq<Point>,
    shares: Seq<(usize, Scalar)>,
    i: int,
)
    requires
        are_shares(known, all),
        are_share_commits(known, commits),
        all.len() == commits.len(),
        0 <= i,
        forall|k: int| 0 <= k < shares.len() ==> all.contains(#[trigger] shares[k]),
    ensures
        share_fault(commits, shares, i) is None,
    decreases shares.len() - i,
{
    if i < shares.len() {
        let other = choose|other: Seq<(usize, Scalar)>| #[trigger]
            are_shares(known, other) && are_commitments(share_scalars(other), commits);
        assert(all.contains(shares[i]));
        let k = choose|k: int| 0 <= k < all.len() && all[k] == shares[i];
        assert(all[k].0 == k);
        shares_are_unique(known, all, other, k);
        assert(share_scalars(other)[k] == other[k].1);
        assert(commits[k]@ == generator_multiple(share_scalars(other)[k]@));
        honest_shares_agree(known, all, commits, shares, i + 1);
    }
}

/// The evaluator accepts the shares that an honest garbler reveals, whichever
/// instances are opened.
pub proof fn honest_shares_are_accepted(
    polynomials: Seq<Polynomial<Scalar>>,
    shares: Seq<Seq<Scalar>>,
    commits: Seq<ShareCommits>,
    open: Seq<OpenVsssInstance>,
)
    requires
        are_all_shares(polynomials, shares),
        shares.len() <= usize::MAX,
        commits.len() == polynomials.len(),
        forall|p: int|
            0 <= p < commits.len() ==> (#[trigger] commits[p]).0@.len() == shares.len()
                && are_share_commits(polynomials[p].0@, commits[p].0@),
        forall|k: int, l: int|
            0 <= k < l < open.len() ==> (#[trigger] open[k]).index != (#[trigger] open[l]).index,
        forall|k: int|
            0 <= k < open.len() ==> (#[trigger] open[k]).index < shares.len() && open[k].shares@
                == shares[open[k].index as int],
    ensures
        revealed_shares_hold(commits, open),
{
    assert forall|p: int| 0 <= p < commits.len() implies share_indexes(
        revealed_shares(open, p),
    ).no_duplicates() && share_fault((#[trigger] commits[p]).0@, revealed_shares(open, p), 0) is None by {
        let all = shares_of_polynomial(shares, p);
        let revealed = revealed_shares(open, p);
        let indexes = share_indexes(revealed);
        assert forall|i: int, j: int|
            0 <= i < indexes.len() && 0 <= j < indexes.len() && i != j implies indexes[i]
            != indexes[j] by {
            assert(indexes[i] == open[i].index && indexes[j] == open[j].index);
            if i < j {
                assert(open[i].index != open[j].index);
            } else {
                assert(open[j].index != open[i].index);
            }
        }
        assert forall|k: int| 0 <= k < revealed.len() implies all.contains(
            #[trigger] revealed[k],
        ) by {
            let i = open[k].index as int;
            assert(open[k].shares@ == shares[i]);
            assert(all[i] == revealed[k]);
        }
        assert(are_shares(polynomials[p].0@, all));
        honest_shares_agree(polynomials[p].0@, all, commits[p].0@, revealed, 0);
    }
}

/// An honest garbler's opened instance bears out its commitments: it is garbled again
/// from its seed, and its shares are revealed.
pub proof fn honest_opened_instance_holds<GH: GateHasher, LH: LabelCommitHasher>(
    commits: VsssCommit<GH, LH>,
    open: Seq<OpenVsssInstance>,
    index: usize,
    instance: GarbledInstance<GH>,
    res: StreamingResult,
    seed: GH::Seed,
    shares: Seq<Seq<Scalar>>,
    inputs: Seq<Seq<GarbledWire>>,
    tables: Seq<InstanceWideLabelLookup>,
)
    requires
        index < inputs.len(),
        are_all_tables(shares, inputs, tables, commits.garbling_table_commits@),
        inputs[index as int] == res.input_wire_values@,
        instance_of(res, seed, instance),
        commits.circuit_commits@[index as int]@ == phase_one::<GH, LH>(instance),
        first_open(open, index, 0) matches Some(k) && 0 <= k < open.len() && open[k].shares@
            == shares[index as int],
    ensures
        opened_holds(commits, open, index, Evidence::Regarbled(res)),
{
    let first = commits.circuit_commits@[index as int];
    assert(first@.gate_hasher_seed == first.gate_hasher_seed);
    assert(commits.garbling_table_commits@[index as int]@
        == tables_hash(all_rows(tables[index as int]@)));
}

/// An honest garbler's finalized instance bears out its commitments: its ciphertexts
/// and tables are handed over.
pub proof fn honest_finalized_instance_holds<GH: GateHasher, LH: LabelCommitHasher>(
    commits: VsssCommit<GH, LH>,
    lookups: Seq<(usize, InstanceWideLabelLookup)>,
    index: usize,
    shares: Seq<Seq<Scalar>>,
    inputs: Seq<Seq<GarbledWire>>,
    tables: Seq<InstanceWideLabelLookup>,
)
    requires
        index < inputs.len(),
        are_all_tables(shares, inputs, tables, commits.garbling_table_commits@),
        first_lookup(lookups, index, 0) matches Some(k) && all_rows(lookups[k].1@) == all_rows(
            tables[index as int]@,
        ),
    ensures
        finalized_holds(
            commits,
            lookups,
            index,
            Evidence::CiphertextHash(commits.circuit_commits@[index as int].ciphertext_hash),
        ),
{
    assert(commits.garbling_table_commits@[index as int]@
        == tables_hash(all_rows(tables[index as int]@)));
}

/// An instance with shared labels stands its check exactly if what the check brought is
/// what was committed, part by part. Of a finalized instance these are the hash of its
/// ciphertexts and the hash of the tables handed over. Of an opened one they are the
/// tables made from the revealed shares and the labels of garbling it again, and, of
/// what garbling it again gave, the hash of the ciphertexts, the commitments to both
/// labels of every input and of the output, and the active labels of the constants.
pub proof fn checked_shared_instance_is_bound<I, GH: GateHasher, LH: LabelCommitHasher>(
    evaluator: Evaluator<I, GH, LH>,
    open: Seq<OpenVsssInstance>,
    lookups: Seq<(usize, InstanceWideLabelLookup)>,
    index: usize,
    evidence: Evidence,
)
    ensures
        ({
            let commits = evaluator.stage->commits;
            let first = commits.circuit_commits@[index as int];
            let tables = commits.garbling_table_commits@[index as int];
            evaluator.instance_holds(open, lookups, index as int, evidence) <==> if evaluator.finalized_indexes@.contains(
                index,
            ) {
                &&& evidence == Evidence::CiphertextHash(first.ciphertext_hash)
                &&& tables_hash(all_rows(lookups[first_lookup(lookups, index, 0)->0].1@)) == tables@
            } else {
                &&& first_open(open, index, 0) is Some
                &&& evidence is Regarbled
                &&& ({
                    let res = evidence->Regarbled_0;
                    let inputs = res.input_wire_values@;
                    &&& tables_hash(
                        tables_of(open[first_open(open, index, 0)->0].shares@, inputs),
                    ) == tables@
                    &&& res.ciphertext_handler_result == first.ciphertext_hash
                    &&& inputs.len() == first.input_commitments@.len()
                    &&& forall|k: int|
                        0 <= k < inputs.len() ==> (
                        #[trigger] first.input_commitments@[k]).commit_false == LH::commitment(
                            inputs[k].label0,
                        ) && first.input_commitments@[k].commit_true == LH::commitment(
                            inputs[k].label1,
                        )
                    &&& first.output_commit_false == LH::commitment(res.output_value.label0)
                    &&& first.output_commit_true == LH::commitment(res.output_value.label1)
                    &&& first.false_constant == res.false_wire_constant.label0.0
                    &&& first.true_constant == res.true_wire_constant.label1.0
                })
            }
        }),
{
    let first = evaluator.stage->commits.circuit_commits@[index as int];
    match evidence {
        Evidence::Regarbled(res) => {
            regarbling_matches_in_parts(first, res);
        },
        _ => (),
    }
}

/// The evaluator takes the revealed shares exactly if no instance is opened twice and
/// every share, multiplied with the generator, is the point committed for it.
pub proof fn accepted_shares_are_the_committed_ones(
    commits: Seq<ShareCommits>,
    open: Seq<OpenVsssInstance>,
)
    ensures
        revealed_shares_hold(commits, open) <==> commits.len() == 0 || {
            &&& forall|k: int, l: int|
                0 <= k < l < open.len() ==> (#[trigger] open[k]).index != (#[trigger] open[l]).index
            &&& forall|p: int, k: int|
                0 <= p < commits.len() && 0 <= k < open.len() ==> (#[trigger] open[k]).index < (
                #[trigger] commits[p]).0@.len() && commits[p].0@[open[k].index as int]@
                    == generator_multiple(open[k].shares@[p]@)
        },
{
    assert forall|p: int| 0 <= p < commits.len() implies (share_indexes(
        revealed_shares(open, p),
    ).no_duplicates() <==> forall|k: int, l: int|
        0 <= k < l < open.len() ==> (#[trigger] open[k]).index != (#[trigger] open[l]).index) by {
        let indexes = share_indexes(revealed_shares(open, p));
        assert(forall|k: int| 0 <= k < open.len() ==> #[trigger] indexes[k] == open[k].index);
        if indexes.no_duplicates() {
            assert forall|k: int, l: int| 0 <= k < l < open.len() implies (#[trigger] open[k]).index
                != (#[trigger] open[l]).index by {
                assert(indexes[k] != indexes[l]);
            }
        }
        if forall|k: int, l: int|
            0 <= k < l < open.len() ==> (#[trigger] open[k]).index != (#[trigger] open[l]).index {
            assert forall|i: int, j: int|
                0 <= i < indexes.len() && 0 <= j < indexes.len() && i != j implies indexes[i]
                != indexes[j] by {
                if i < j {
                    assert(open[i].index != open[j].index);
                } else {
                    assert(open[j].index != open[i].index);
                }
            }
        }
    }
    assert forall|p: int| 0 <= p < commits.len() implies (share_fault(
        (#[trigger] commits[p]).0@,
        revealed_shares(open, p),
        0,
    ) is None <==> forall|k: int|
        0 <= k < open.len() ==> (#[trigger] open[k]).index < commits[p].0@.len() && commits[p].0@[
        open[k].index as int]@ == generator_multiple(open[k].shares@[p]@)) by {
        let revealed = revealed_shares(open, p);
        faultless_shares_agree(commits[p].0@, revealed, 0);
        assert(forall|k: int|
            0 <= k < open.len() ==> #[trigger] revealed[k] == (open[k].index, open[k].shares@[p]));
        if share_fault(commits[p].0@, revealed, 0) is None {
            assert forall|k: int| 0 <= k < open.len() implies (#[trigger] open[k]).index
                < commits[p].0@.len() && commits[p].0@[open[k].index as int]@ == generator_multiple(
                open[k].shares@[p]@,
            ) by {
                assert(revealed[k].0 < commits[p].0@.len());
            }
        }
    }
    if commits.len() > 0 {
        assert(commits[0].0@ == commits[0].0@);
        if revealed_shares_hold(commits, open) {
            assert(share_indexes(revealed_shares(open, 0)).no_duplicates());
            assert forall|p: int, k: int|
                0 <= p < commits.len() && 0 <= k < open.len() implies (#[trigger] open[k]).index < (
            #[trigger] commits[p]).0@.len() && commits[p].0@[open[k].index as int]@
                == generator_multiple(open[k].shares@[p]@) by {
                assert(share_fault(commits[p].0@, revealed_shares(open, p), 0) is None);
            }
        }
    }
}

/// Shares are without fault exactly if each has a commitment and agrees with it.
pub proof fn faultless_shares_agree(commits: Seq<Point>, shares: Seq<(usize, Scalar)>, i: int)
    requires
        0 <= i <= shares.len(),
    ensures
        share_fault(commits, shares, i) is None <==> forall|k: int|
            i <= k < shares.len() ==> (#[trigger] shares[k]).0 < commits.len() && commits[
            shares[k].0 as int]@ == generator_multiple(shares[k].1@),
    decreases shares.len() - i,
{
    if i < shares.len() {
        faultless_shares_agree(commits, shares, i + 1);
        assert(shares[i].0 == shares[i].0);
    }
}

/// The label of a byte for the value of its bits opens the labels of just these bits.
pub proof fn signed_label_opens_bits(
    byte_labels: Seq<Scalar>,
    wires: Seq<GarbledWire>,
    bits: Seq<bool>,
    b: int,
)
    requires
        has_all_labels(byte_labels, wires),
        bits.len() == wires.len(),
        0 <= b < bits.len(),
    ensures
        ({
            let i = bits_number(bits);
            &&& 0 <= i < byte_labels.len()
            &&& decrypts(table_of(byte_labels, wires)[i], byte_labels[i]@)
            &&& row_wires(table_of(byte_labels, wires), byte_labels[i]@, i)[b] == (EvaluatedWire {
                active_label: selected(wires[b], bits[b]),
                value: bits[b],
            })
        }),
{
    bits_number_bounds(bits);
    let i = bits_number(bits);
    lookup_gives_bits(byte_labels, wires, i);
    bits_of_number(bits, b);
    assert(row_wires(table_of(byte_labels, wires), byte_labels[i]@, i)[b] == (EvaluatedWire {
        active_label: selected(wires[b], bit_of(i, wires.len() as int, b)),
        value: bit_of(i, wires.len() as int, b),
    }));
}

/// Shares are refused for the first that has no commitment or does not agree with it, and
/// are told which of the two it is.
pub proof fn share_fault_is_first(
    commits: Seq<Point>,
    shares: Seq<(usize, Scalar)>,
    from: int,
    i: int,
)
    requires
        0 <= from <= i < shares.len(),
        forall|k: int|
            from <= k < i ==> (#[trigger] shares[k]).0 < commits.len() && commits[
            shares[k].0 as int]@ == generator_multiple(shares[k].1@),
    ensures
        shares[i].0 >= commits.len() ==> share_fault(commits, shares, from) == Some(
            "Share index out of bounds"@,
        ),
        shares[i].0 < commits.len() && commits[shares[i].0 as int]@ != generator_multiple(
            shares[i].1@,
        ) ==> share_fault(commits, shares, from) == Some("Share verification failed"@),
    decreases i - from,
{
    if from < i {
        assert(shares[from].0 < commits.len());
        share_fault_is_first(commits, shares, from + 1, i);
    }
}

/// The commitments to the instances are used only once the opened instances were checked.
pub proof fn shared_commitments_are_used_after_check<GH: GateHasher, LH: LabelCommitHasher>(
    stage: Stage<GH, LH>,
)
    ensures
        stage.ready(false) is None,
        stage is Empty ==> stage.ready(true) is None,
        stage matches Stage::Vsss { commits } ==> stage.ready(true) == Some(
            commits.circuit_commits@,
        ),
{
}

/// Commitments to shares that follow from those to a polynomial are to its values: the
/// first are the polynomial's own, and every other is to the value there of the one
/// polynomial of that length through the first.
pub proof fn following_commits_lie_on_polynomial(
    ys: Seq<int>,
    known: Seq<Point>,
    commits: Seq<Point>,
    i: int,
)
    requires
        shares_follow(known, commits),
        stand_for(known, ys),
        0 <= i < commits.len(),
    ensures
        i < known.len() ==> commits[i]@ == known[i]@ && commits[i]@ == generator_multiple(
            ys[i] % order(),
        ),
        i >= known.len() ==> exists|y: int| #[trigger]
            is_value_at(first_nodes(known.len()), ys, i, y) && commits[i]@ == generator_multiple(
                y % order(),
            ),
{
    assert(commits_follow(ys, known, commits));
    if i < known.len() {
        assert(known[i].represents(ys[i]));
        assert(commits[i]@ == known[i]@);
    } else {
        assert(is_evaluation(ys, i, commits[i]));
        let y = choose|y: int| #[trigger]
            is_value_at(first_nodes(ys.len()), ys, i, y) && commits[i].represents(y);
        assert(is_value_at(first_nodes(known.len()), ys, i, y));
    }
}

} // verus!
