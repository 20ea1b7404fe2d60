//! Honest labels of bytes open the honest labels of all bits.

use crate::cut_and_choose::garbler::input_of;
use crate::gate::GarbledWire;
use crate::modes::evaluate::EvaluatedWire;
use crate::vsss::evaluator::first_lookup;
use crate::vsss::field::Scalar;
use crate::vsss::garbler::{
    are_all_shares, are_drawn, drawn_sizes, shares_of_polynomial, sizes_match, wide_labels,
    InstanceWideLabelLookup,
};
use crate::vsss::interpolation::{nodes_of, numbers, shares_determine_share, values_of, Polynomial};
use crate::vsss::protocol::{
    bits_number, bits_number_bounds, bits_of_number, labels_for_bits, OpenVsssInstance,
};
use crate::vsss::recovery::{
    all_wires, has_value_at, instance_wires, interpolated, is_determined, known_and_missing,
    known_indexes, known_labels,
    label_values, lesser, missing_numbers, numbers_without, opened_labels, picked_shares,
    recovered, row_numbers, value_at, wires_found,
};
use crate::vsss::wide_garbling::{
    all_rows, bit_of, decrypts, first_row, has_all_labels, lookup_gives_bits, piece, pieces,
    pieces_end, row_wires, rows_of, table_count, table_of, tables_of, GarbledWideLabelTable,
};
use vstd::arithmetic::power2::lemma2_to64;
use vstd::prelude::*;

verus! {

/// The value of the `l`th byte of bits.
pub open spec fn byte_value(bits: Seq<bool>, l: int) -> int {
    bits_number(piece(bits, 8, l))
}

/// The label of the `l`th byte of bits among the labels of an instance.
pub open spec fn byte_label(shares: Seq<Scalar>, bits: Seq<bool>, l: int) -> Scalar {
    shares[256 * l + byte_value(bits, l)]
}

/// Whether, under the labels of the bytes of bits, no row before the right one decrypts
/// by accident.
pub open spec fn no_false_rows(
    shares: Seq<Scalar>,
    inputs: Seq<GarbledWire>,
    bits: Seq<bool>,
) -> bool {
    forall|l: int, r: int|
        0 <= l < pieces(bits, 8) && 0 <= r < byte_value(bits, l) ==> !decrypts(
            #[trigger] tables_of(shares, inputs)[l][r],
            byte_label(shares, bits, l)@,
        )
}

/// Where the `l`th byte lies among labels and bits that match.
proof fn byte_bounds(shares: Seq<Scalar>, inputs: Seq<GarbledWire>, bits: Seq<bool>, l: int)
    requires
        shares.len() == wide_labels(inputs.len() as int),
        bits.len() == inputs.len(),
        0 <= l < pieces(bits, 8),
    ensures
        table_count(shares, inputs) == pieces(bits, 8),
        pieces(shares, 256) == pieces(bits, 8),
        has_all_labels(piece(shares, 256, l), piece(inputs, 8, l)),
        piece(bits, 8, l).len() == piece(inputs, 8, l).len(),
        0 < piece(bits, 8, l).len() <= 8,
        0 <= byte_value(bits, l) < piece(shares, 256, l).len(),
        256 * l + piece(shares, 256, l).len() <= shares.len(),
        piece(shares, 256, l)[byte_value(bits, l)] == byte_label(shares, bits, l),
{
    sizes_match(shares, inputs);
    pieces_end(bits, 8);
    pieces_end(shares, 256);
    lemma2_to64();
    assert(has_all_labels(piece(shares, 256, l), piece(inputs, 8, l)));
    bits_number_bounds(piece(bits, 8, l));
}

/// The row that is found under the label of a byte is that of its value, and holds the
/// wires of its bits.
proof fn byte_row(shares: Seq<Scalar>, inputs: Seq<GarbledWire>, bits: Seq<bool>, l: int)
    requires
        shares.len() == wide_labels(inputs.len() as int),
        bits.len() == inputs.len(),
        0 <= l < pieces(bits, 8),
        no_false_rows(shares, inputs, bits),
    ensures
        ({
            let rows = tables_of(shares, inputs)[l];
            let key = byte_label(shares, bits, l)@;
            let v = byte_value(bits, l);
            &&& first_row(rows, key, 0) == Some(v)
            &&& row_wires(rows, key, v) == input_of(inputs, bits).subrange(
                8 * l,
                8 * l + piece(bits, 8, l).len(),
            )
        }),
{
    byte_bounds(shares, inputs, bits, l);
    let labels = piece(shares, 256, l);
    let wires = piece(inputs, 8, l);
    let some = piece(bits, 8, l);
    let v = byte_value(bits, l);
    let rows = tables_of(shares, inputs)[l];
    assert(rows == table_of(labels, wires));
    lookup_gives_bits(labels, wires, v);
    let key = byte_label(shares, bits, l)@;
    assert(labels[v]@ == key);
    assert forall|r: int| 0 <= r < v implies !decrypts(#[trigger] rows[r], key) by {
        assert(!decrypts(tables_of(shares, inputs)[l][r], byte_label(shares, bits, l)@));
    }
    let want = input_of(inputs, bits).subrange(8 * l, 8 * l + some.len());
    assert forall|b: int| 0 <= b < some.len() implies row_wires(rows, key, v)[b] == want[b] by {
        bits_of_number(some, b);
        assert(bit_of(v, wires.len() as int, b) == some[b]);
        assert(some[b] == bits[8 * l + b]);
        assert(wires[b] == inputs[8 * l + b]);
    }
    assert(row_wires(rows, key, v) =~= want);
}

/// The labels of the bytes of bits in an instance, as numbers.
pub open spec fn byte_labels_of(shares: Seq<Scalar>, bits: Seq<bool>) -> Seq<int> {
    Seq::new(pieces(bits, 8) as nat, |l: int| byte_label(shares, bits, l)@)
}

/// The values of the first `n` bytes of bits.
pub open spec fn byte_values(bits: Seq<bool>, n: nat) -> Seq<int> {
    Seq::new(n, |l: int| byte_value(bits, l))
}

proof fn rows_are_values(
    tables: Seq<GarbledWideLabelTable>,
    shares: Seq<Scalar>,
    inputs: Seq<GarbledWire>,
    bits: Seq<bool>,
    n: nat,
)
    requires
        shares.len() == wide_labels(inputs.len() as int),
        bits.len() == inputs.len(),
        no_false_rows(shares, inputs, bits),
        all_rows(tables) == tables_of(shares, inputs),
        n <= pieces(bits, 8),
    ensures
        row_numbers(tables, byte_labels_of(shares, bits), n) == Some(byte_values(bits, n)),
        wires_found(tables, byte_labels_of(shares, bits), n) == Some(
            input_of(inputs, bits).take(lesser(8 * n as int, bits.len() as int) as int),
        ),
    decreases n,
{
    let labels = byte_labels_of(shares, bits);
    let all = input_of(inputs, bits);
    if n == 0 {
        assert(byte_values(bits, 0) =~= Seq::<int>::empty());
        assert(all.take(0) =~= Seq::<EvaluatedWire>::empty());
    } else {
        let l = n - 1;
        rows_are_values(tables, shares, inputs, bits, l as nat);
        byte_bounds(shares, inputs, bits, l);
        byte_row(shares, inputs, bits, l);
        assert(all_rows(tables).len() == tables.len());
        assert(all_rows(tables)[l] == rows_of(tables[l]));
        assert(labels[l] == byte_label(shares, bits, l)@);
        assert(byte_values(bits, n) =~= byte_values(bits, l as nat).push(byte_value(bits, l)));
        pieces_end(bits, 8);
        let end = lesser(8 * n as int, bits.len() as int) as int;
        assert(8 * l < bits.len());
        assert(8 * l + piece(bits, 8, l).len() == end);
        assert(all.take(end) =~= all.take(8 * l) + all.subrange(8 * l, end));
    }
}

/// All bytes give all wires.
proof fn tables_give_input(
    lookups: Seq<(usize, InstanceWideLabelLookup)>,
    index: usize,
    shares: Seq<Scalar>,
    inputs: Seq<GarbledWire>,
    bits: Seq<bool>,
)
    requires
        shares.len() == wide_labels(inputs.len() as int),
        bits.len() == inputs.len(),
        no_false_rows(shares, inputs, bits),
        first_lookup(lookups, index, 0) matches Some(k) && all_rows(lookups[k].1@) == tables_of(
            shares,
            inputs,
        ),
    ensures
        instance_wires(lookups, index, byte_labels_of(shares, bits)) == Some(
            input_of(inputs, bits),
        ),
        first_lookup(lookups, index, 0) matches Some(k) && row_numbers(
            lookups[k].1@,
            byte_labels_of(shares, bits),
            lesser(
                byte_labels_of(shares, bits).len() as int,
                lookups[k].1@.len() as int,
            ),
        ) == Some(byte_values(bits, pieces(bits, 8) as nat)),
{
    let k = first_lookup(lookups, index, 0)->0;
    let tables = lookups[k].1@;
    let t = pieces(bits, 8);
    pieces_end(bits, 8);
    sizes_match(shares, inputs);
    assert(tables.len() == all_rows(tables).len());
    assert(tables.len() == t);
    rows_are_values(tables, shares, inputs, bits, t as nat);
    let all = input_of(inputs, bits);
    assert(lesser(8 * t, bits.len() as int) == bits.len());
    assert(all.take(bits.len() as int) =~= all);
}

/// The shares for the values of the bytes are the labels of the bytes.
proof fn picked_are_labels(
    shares: Seq<Scalar>,
    inputs: Seq<GarbledWire>,
    bits: Seq<bool>,
    n: nat,
)
    requires
        shares.len() == wide_labels(inputs.len() as int),
        bits.len() == inputs.len(),
        n <= pieces(bits, 8),
    ensures
        picked_shares(shares, 256, byte_values(bits, pieces(bits, 8) as nat), n) == Some(
            byte_labels_of(shares, bits).take(n as int),
        ),
    decreases n,
{
    let labels = byte_labels_of(shares, bits);
    if n == 0 {
        assert(labels.take(0) =~= Seq::<int>::empty());
    } else {
        let l = n - 1;
        picked_are_labels(shares, inputs, bits, l as nat);
        byte_bounds(shares, inputs, bits, l);
        assert(labels.take(n as int) =~= labels.take(l).push(labels[l]));
    }
}

/// What an honest garbler hands out: the shares of all instances are those of its
/// polynomials, an opened instance reveals its shares, and every other instance has the
/// tables for its shares and input labels.
pub open spec fn is_honest(
    polynomials: Seq<Polynomial<Scalar>>,
    shares: Seq<Seq<Scalar>>,
    inputs: Seq<Seq<GarbledWire>>,
    lookups: Seq<(usize, InstanceWideLabelLookup)>,
    open: Seq<OpenVsssInstance>,
    n_bits: int,
) -> bool {
    &&& are_all_shares(polynomials, shares)
    &&& polynomials.len() == wide_labels(n_bits)
    &&& inputs.len() == shares.len()
    &&& forall|i: int| 0 <= i < inputs.len() ==> (#[trigger] inputs[i]).len() == n_bits
    &&& forall|k: int|
        0 <= k < open.len() ==> (#[trigger] open[k]).index < shares.len() && open[k].shares@
            == shares[open[k].index as int]
    &&& forall|i: int|
        0 <= i < shares.len() && !(exists|k: int|
            0 <= k < open.len() && (#[trigger] open[k]).index == i) ==> (first_lookup(
            lookups,
            i as usize,
            0,
        ) matches Some(k) && all_rows(lookups[k].1@) == tables_of(#[trigger] shares[i], inputs[i]))
}

proof fn opened_are_labels(
    polynomials: Seq<Polynomial<Scalar>>,
    shares: Seq<Seq<Scalar>>,
    inputs: Seq<Seq<GarbledWire>>,
    lookups: Seq<(usize, InstanceWideLabelLookup)>,
    open: Seq<OpenVsssInstance>,
    bits: Seq<bool>,
    n: nat,
)
    requires
        is_honest(polynomials, shares, inputs, lookups, open, bits.len() as int),
        n <= open.len(),
    ensures
        opened_labels(open, 256, byte_values(bits, pieces(bits, 8) as nat), n) == Some(
            Seq::new(n, |k: int| byte_labels_of(shares[open[k].index as int], bits)),
        ),
    decreases n,
{
    let at = byte_values(bits, pieces(bits, 8) as nat);
    let want = |n: nat| Seq::new(n, |k: int| byte_labels_of(shares[open[k].index as int], bits));
    if n == 0 {
        assert(want(0) =~= Seq::<Seq<int>>::empty());
    } else {
        let k = n - 1;
        opened_are_labels(polynomials, shares, inputs, lookups, open, bits, k as nat);
        let i = open[k].index as int;
        let own = shares[i];
        assert(open[k].shares@ == own);
        assert(own.len() == polynomials.len());
        pieces_end(bits, 8);
        let t = pieces(bits, 8) as nat;
        if t > 0 {
            byte_bounds(own, inputs[i], bits, 0);
        } else {
            pieces_end(own, 256);
        }
        assert(lesser(pieces(own, 256), at.len() as int) == t);
        picked_are_labels(own, inputs[i], bits, t);
        assert(byte_labels_of(own, bits).take(t as int) =~= byte_labels_of(own, bits));
        assert(want(n) =~= want(k as nat).push(byte_labels_of(own, bits)));
    }
}

/// The polynomial through the known labels of a byte has the label of the byte of every
/// other instance as its value there.
proof fn interpolated_is_label(
    polynomials: Seq<Polynomial<Scalar>>,
    shares: Seq<Seq<Scalar>>,
    known: Seq<usize>,
    labels: Seq<Seq<int>>,
    bits: Seq<bool>,
    x: int,
    l: int,
    p: int,
)
    requires
        are_all_shares(polynomials, shares),
        shares.len() <= usize::MAX,
        0 <= p < polynomials.len(),
        p == 256 * l + byte_value(bits, l),
        polynomials[p].0@.len() <= known.len(),
        polynomials[p].0@.len() < shares.len(),
        forall|k: int| 0 <= k < known.len() ==> (#[trigger] known[k]) < shares.len(),
        labels.len() == known.len(),
        forall|k: int|
            0 <= k < known.len() ==> (#[trigger] labels[k])[l] == byte_label(
                shares[known[k] as int],
                bits,
                l,
            )@,
        0 <= x < shares.len(),
        has_value_at(known, labels, l, x),
    ensures
        value_at(numbers(known), Seq::new(known.len(), |k: int| labels[k][l]), x) == byte_label(
            shares[x],
            bits,
            l,
        )@,
{
    let all = shares_of_polynomial(shares, p);
    let ys = Seq::new(known.len(), |k: int| labels[k][l]);
    let chosen = Seq::new(known.len(), |k: int| (known[k], shares[known[k] as int][p]));
    assert(nodes_of(chosen) =~= numbers(known));
    assert forall|k: int| 0 <= k < known.len() implies values_of(chosen)[k] == ys[k] by {
        assert(labels[k][l] == byte_label(shares[known[k] as int], bits, l)@);
    }
    assert(values_of(chosen) =~= ys);
    assert forall|k: int| 0 <= k < chosen.len() implies all.contains(#[trigger] chosen[k]) by {
        assert(known[k] < shares.len());
        assert(all[known[k] as int] == chosen[k]);
    }
    shares_determine_share(
        polynomials[p].0@,
        all,
        chosen,
        x,
        value_at(numbers(known), ys, x),
    );
}

proof fn all_give_input(
    lookups: Seq<(usize, InstanceWideLabelLookup)>,
    indexes: Seq<usize>,
    labels: Seq<Seq<int>>,
    shares: Seq<Seq<Scalar>>,
    inputs: Seq<Seq<GarbledWire>>,
    bits: Seq<bool>,
    n: nat,
)
    requires
        n <= indexes.len(),
        labels.len() == indexes.len(),
        forall|m: int|
            0 <= m < indexes.len() ==> {
                let i = #[trigger] indexes[m] as int;
                &&& i < shares.len()
                &&& shares[i].len() == wide_labels(inputs[i].len() as int)
                &&& bits.len() == inputs[i].len()
                &&& no_false_rows(shares[i], inputs[i], bits)
                &&& first_lookup(lookups, indexes[m], 0) matches Some(k) && all_rows(
                    lookups[k].1@,
                ) == tables_of(shares[i], inputs[i])
            },
        forall|m: int|
            0 <= m < indexes.len() ==> #[trigger] labels[m] == byte_labels_of(
                shares[indexes[m] as int],
                bits,
            ),
    ensures
        all_wires(lookups, indexes, labels, n) == Some(
            Seq::new(n, |m: int| (indexes[m], input_of(inputs[indexes[m] as int], bits))),
        ),
    decreases n,
{
    let want = |n: nat|
        Seq::new(n, |m: int| (indexes[m], input_of(inputs[indexes[m] as int], bits)));
    if n == 0 {
        assert(want(0) =~= Seq::<(usize, Seq<EvaluatedWire>)>::empty());
    } else {
        let m = n - 1;
        all_give_input(lookups, indexes, labels, shares, inputs, bits, m as nat);
        let i = indexes[m] as int;
        assert(labels[m] == byte_labels_of(shares[i], bits));
        tables_give_input(lookups, indexes[m], shares[i], inputs[i], bits);
        assert(want(n) =~= want(m as nat).push((indexes[m], input_of(inputs[i], bits))));
    }
}

/// The instances that are not opened, the one whose labels are signed last.
pub open spec fn closed_indexes(open: Seq<OpenVsssInstance>, assert_index: usize, total: nat) -> Seq<
    usize,
> {
    numbers_without(known_indexes(open, assert_index), total).push(assert_index)
}

/// From the labels of the bytes of some bits in one instance of an honest garbler, the
/// labels of these bits in every instance that is not opened are recovered. Opened
/// instances and that one are as many as the polynomials have coefficients, and no row
/// of a table decrypts by accident before the right one.
pub proof fn honest_labels_recover_inputs(
    polynomials: Seq<Polynomial<Scalar>>,
    shares: Seq<Seq<Scalar>>,
    inputs: Seq<Seq<GarbledWire>>,
    lookups: Seq<(usize, InstanceWideLabelLookup)>,
    open: Seq<OpenVsssInstance>,
    assert_index: usize,
    bits: Seq<bool>,
)
    requires
        is_honest(polynomials, shares, inputs, lookups, open, bits.len() as int),
        bits.len() > 0,
        shares.len() <= usize::MAX,
        assert_index < shares.len(),
        known_indexes(open, assert_index).no_duplicates(),
        forall|p: int|
            0 <= p < polynomials.len() ==> (#[trigger] polynomials[p]).0@.len() <= open.len() + 1,
        forall|i: int|
            0 <= i < closed_indexes(open, assert_index, shares.len()).len() ==> no_false_rows(
                shares[#[trigger] closed_indexes(open, assert_index, shares.len())[i] as int],
                inputs[closed_indexes(open, assert_index, shares.len())[i] as int],
                bits,
            ),
        is_determined(
            assert_index,
            labels_for_bits(shares[assert_index as int], bits, 8),
            lookups,
            open,
            shares.len(),
            256,
        ),
    ensures
        recovered(
            assert_index,
            labels_for_bits(shares[assert_index as int], bits, 8),
            lookups,
            open,
            shares.len(),
            256,
        ) == Some(
            Seq::new(
                closed_indexes(open, assert_index, shares.len()).len(),
                |m: int|
                    (
                        closed_indexes(open, assert_index, shares.len())[m],
                        input_of(
                            inputs[closed_indexes(
                                open,
                                assert_index,
                                shares.len(),
                            )[m] as int],
                            bits,
                        ),
                    ),
            ),
        ),
{
    lemma2_to64();
    let total = shares.len();
    let a = assert_index as int;
    let own = shares[a];
    let signed = labels_for_bits(own, bits, 8);
    let t = pieces(bits, 8);
    pieces_end(bits, 8);
    byte_bounds(own, inputs[a], bits, 0);
    assert(label_values(signed) =~= byte_labels_of(own, bits)) by {
        assert(signed.len() == t);
        assert forall|l: int| 0 <= l < t implies label_values(signed)[l] == byte_labels_of(
            own,
            bits,
        )[l] by {
            byte_bounds(own, inputs[a], bits, l);
        }
    }
    let known = known_indexes(open, assert_index);
    let missing = numbers_without(known, total);
    let closed = closed_indexes(open, assert_index, total);
    missing_numbers(known, total);
    assert(closed[missing.len() as int] == assert_index);
    assert forall|m: int| 0 <= m < closed.len() implies {
        let i = #[trigger] closed[m] as int;
        &&& i < shares.len()
        &&& shares[i].len() == wide_labels(inputs[i].len() as int)
        &&& bits.len() == inputs[i].len()
        &&& no_false_rows(shares[i], inputs[i], bits)
        &&& first_lookup(lookups, closed[m], 0) matches Some(k) && all_rows(lookups[k].1@)
            == tables_of(shares[i], inputs[i])
    } by {
        let i = closed[m] as int;
        assert(i < total) by {
            if m < missing.len() {
                assert(missing[m] < total);
            }
        }
        assert(no_false_rows(shares[closed[m] as int], inputs[closed[m] as int], bits));
        assert(!(exists|k: int| 0 <= k < open.len() && (#[trigger] open[k]).index == i)) by {
            if exists|k: int| 0 <= k < open.len() && (#[trigger] open[k]).index == i {
                let k = choose|k: int| 0 <= k < open.len() && (#[trigger] open[k]).index == i;
                assert(known[k] == i);
                if m < missing.len() {
                    assert(known.contains(missing[m]));
                } else {
                    assert(known[open.len() as int] == i);
                }
            }
        }
        assert(shares[i].len() == polynomials.len());
    }
    assert(closed[missing.len() as int] as int == a);
    tables_give_input(lookups, assert_index, own, inputs[a], bits);
    opened_are_labels(polynomials, shares, inputs, lookups, open, bits, open.len());
    let opened = Seq::new(
        open.len(),
        |k: int| byte_labels_of(shares[open[k].index as int], bits),
    );
    let labels = opened.push(byte_labels_of(own, bits));
    assert(known_labels(assert_index, signed, lookups, open, 256) == Some(labels));
    assert forall|k: int| 0 <= k < labels.len() implies (#[trigger] labels[k]).len() == t by {}
    assert forall|k: int| 0 <= k < known.len() implies (#[trigger] known[k]) < total by {
        if k < open.len() {
            assert(open[k].index < shares.len());
        }
    }
    assert forall|m: int| 0 <= m < missing.len() implies #[trigger] interpolated(
        known,
        labels,
        t as nat,
        missing[m] as int,
    ) == byte_labels_of(shares[missing[m] as int], bits) by {
        let x = missing[m] as int;
        let got = interpolated(known, labels, t as nat, x);
        let want = byte_labels_of(shares[x], bits);
        assert(closed[m] == missing[m]);
        assert forall|l: int| 0 <= l < t implies got[l] == want[l] by {
            let p = 256 * l + byte_value(bits, l);
            byte_bounds(own, inputs[a], bits, l);
            assert(own.len() == polynomials.len());
            assert(polynomials[p].0@.len() <= open.len() + 1);
            known_is_smaller(known, missing, total);
            assert(has_value_at(known, labels, l, numbers_without(known, total)[m] as int));
            assert forall|k: int| 0 <= k < known.len() implies (#[trigger] labels[k])[l]
                == byte_label(shares[known[k] as int], bits, l)@ by {}
            interpolated_is_label(polynomials, shares, known, labels, bits, x, l, p);
        }
        assert(got =~= want);
    }
    let all_labels = Seq::new(
        missing.len(),
        |m: int| interpolated(known, labels, t as nat, missing[m] as int),
    ).push(label_values(signed));
    assert forall|m: int| 0 <= m < closed.len() implies #[trigger] all_labels[m] == byte_labels_of(
        shares[closed[m] as int],
        bits,
    ) by {
        if m < missing.len() {
            assert(closed[m] == missing[m]);
            assert(all_labels[m] == interpolated(known, labels, t as nat, missing[m] as int));
        }
    }
    all_give_input(lookups, closed, all_labels, shares, inputs, bits, closed.len());
}

/// Where a number is missing, fewer are known than there are.
proof fn known_is_smaller(known: Seq<usize>, missing: Seq<usize>, total: nat)
    requires
        total <= usize::MAX,
        known.no_duplicates(),
        forall|i: int| 0 <= i < known.len() ==> (#[trigger] known[i]) < total,
        missing == numbers_without(known, total),
        missing.len() > 0,
    ensures
        known.len() < total,
{
    known_and_missing(known, total);
}

/// From polynomials that were drawn for `finalized_count` finalized instances, as many
/// opened instances as there are others are enough: with the labels of the bytes of some
/// bits in one more instance of an honest garbler, the labels of these bits in every
/// instance that is not opened are recovered.
pub proof fn drawn_labels_recover_inputs(
    draws: Seq<Scalar>,
    finalized_count: int,
    polynomials: Seq<Polynomial<Scalar>>,
    shares: Seq<Seq<Scalar>>,
    inputs: Seq<Seq<GarbledWire>>,
    lookups: Seq<(usize, InstanceWideLabelLookup)>,
    open: Seq<OpenVsssInstance>,
    assert_index: usize,
    bits: Seq<bool>,
)
    requires
        are_drawn(
            polynomials,
            draws,
            bits.len() as int,
            shares.len() as int,
            finalized_count,
        ),
        finalized_count <= shares.len(),
        open.len() == shares.len() - finalized_count,
        is_honest(polynomials, shares, inputs, lookups, open, bits.len() as int),
        bits.len() > 0,
        shares.len() <= usize::MAX,
        assert_index < shares.len(),
        known_indexes(open, assert_index).no_duplicates(),
        forall|i: int|
            0 <= i < closed_indexes(open, assert_index, shares.len()).len() ==> no_false_rows(
                shares[#[trigger] closed_indexes(open, assert_index, shares.len())[i] as int],
                inputs[closed_indexes(open, assert_index, shares.len())[i] as int],
                bits,
            ),
        is_determined(
            assert_index,
            labels_for_bits(shares[assert_index as int], bits, 8),
            lookups,
            open,
            shares.len(),
            256,
        ),
    ensures
        recovered(
            assert_index,
            labels_for_bits(shares[assert_index as int], bits, 8),
            lookups,
            open,
            shares.len(),
            256,
        ) == Some(
            Seq::new(
                closed_indexes(open, assert_index, shares.len()).len(),
                |m: int|
                    (
                        closed_indexes(open, assert_index, shares.len())[m],
                        input_of(
                            inputs[closed_indexes(
                                open,
                                assert_index,
                                shares.len(),
                            )[m] as int],
                            bits,
                        ),
                    ),
            ),
        ),
{
    drawn_sizes(
        polynomials,
        draws,
        bits.len() as int,
        shares.len() as int,
        finalized_count,
    );
    honest_labels_recover_inputs(
        polynomials,
        shares,
        inputs,
        lookups,
        open,
        assert_index,
        bits,
    );
}

} // verus!
