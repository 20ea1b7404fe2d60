//! Recovery of the input labels of all finalized instances from the labels of the
//! bytes of one.

use crate::modes::evaluate::EvaluatedWire;
use crate::vsss::commits::value_is_unique;
use crate::vsss::evaluator::{find_lookup, first_lookup};
use crate::vsss::field::{order, scalar_bounds, Scalar};
use crate::vsss::garbler::{copy_scalars, InstanceWideLabelLookup};
use crate::vsss::interpolation::{
    lagrange_interpolate_whole_polynomial, nodes_of, numbers, values_of,
};
use crate::vsss::polynomials::is_value_at;
use crate::vsss::products::is_arrangement;
use crate::vsss::protocol::{EvaluatorAdaptorSigs, OpenVsssInstance};
use crate::vsss::types::{columns, transpose};
use crate::vsss::wide_garbling::{
    first_row, piece, pieces, pieces_end, row_wires, rows_of, GarbledWideLabelTable,
};
use crate::soldering_data::rows;
use vstd::arithmetic::div_mod::lemma_small_mod;
use vstd::arithmetic::power2::{lemma2_to64, lemma_pow2_pos, lemma_pow2_unfold, pow2};
use vstd::prelude::*;
use vstd::set_lib::{lemma_int_range, set_int_range};

verus! {

/// The value at `x` of the polynomial through these points.
pub open spec fn value_at(nodes: Seq<int>, ys: Seq<int>, x: int) -> int {
    choose|y: int| 0 <= y < order() && is_value_at(nodes, ys, x, y)
}

proof fn scalar_is_value(nodes: Seq<int>, ys: Seq<int>, x: int, s: Scalar)
    requires
        is_value_at(nodes, ys, x, s@),
    ensures
        s@ == value_at(nodes, ys, x),
        0 <= value_at(nodes, ys, x) < order(),
        is_value_at(nodes, ys, x, value_at(nodes, ys, x)),
{
    scalar_bounds(s);
    let y = value_at(nodes, ys, x);
    assert(0 <= y < order() && is_value_at(nodes, ys, x, y));
    value_is_unique(nodes, ys, x, s@, y);
    lemma_small_mod(s@ as nat, order() as nat);
    lemma_small_mod(y as nat, order() as nat);
}

/// The numbers of the rows that the first `n` labels find in their tables; nothing if
/// one finds none.
pub open spec fn row_numbers(tables: Seq<GarbledWideLabelTable>, labels: Seq<int>, n: nat) -> Option<
    Seq<int>,
>
    decreases n,
{
    if n == 0 {
        Some(seq![])
    } else {
        match (
            row_numbers(tables, labels, (n - 1) as nat),
            first_row(rows_of(tables[n - 1]), labels[n - 1], 0),
        ) {
            (Some(before), Some(f)) => Some(before.push(f)),
            _ => None,
        }
    }
}

/// The wires that the first `n` labels find in their tables; nothing if one finds
/// none.
pub open spec fn wires_found(tables: Seq<GarbledWideLabelTable>, labels: Seq<int>, n: nat) -> Option<
    Seq<EvaluatedWire>,
>
    decreases n,
{
    if n == 0 {
        Some(seq![])
    } else {
        match (
            wires_found(tables, labels, (n - 1) as nat),
            first_row(rows_of(tables[n - 1]), labels[n - 1], 0),
        ) {
            (Some(before), Some(f)) => Some(
                before + row_wires(rows_of(tables[n - 1]), labels[n - 1], f),
            ),
            _ => None,
        }
    }
}

/// The lesser of two numbers.
pub open spec fn lesser(a: int, b: int) -> nat {
    (if a <= b {
        a
    } else {
        b
    }) as nat
}

/// Of the first `n` pieces of shares, those with the given numbers; nothing if one is
/// not there.
pub open spec fn picked_shares(shares: Seq<Scalar>, size: int, at: Seq<int>, n: nat) -> Option<
    Seq<int>,
>
    decreases n,
{
    if n == 0 {
        Some(seq![])
    } else {
        match picked_shares(shares, size, at, (n - 1) as nat) {
            Some(before) => if at[n - 1] < piece(shares, size, n - 1).len() {
                Some(before.push(piece(shares, size, n - 1)[at[n - 1]]@))
            } else {
                None
            },
            None => None,
        }
    }
}

/// The labels of bytes that opened instances give for the values of the bytes, for
/// the first `n` of them; nothing if one gives none.
pub open spec fn opened_labels(open: Seq<OpenVsssInstance>, size: int, at: Seq<int>, n: nat) -> Option<
    Seq<Seq<int>>,
>
    decreases n,
{
    if n == 0 {
        Some(seq![])
    } else {
        let shares = open[n - 1].shares@;
        match (
            opened_labels(open, size, at, (n - 1) as nat),
            picked_shares(shares, size, at, lesser(pieces(shares, size), at.len() as int)),
        ) {
            (Some(before), Some(labels)) => Some(before.push(labels)),
            _ => None,
        }
    }
}

/// The instances whose labels are known: the opened ones and one more.
pub open spec fn known_indexes(open: Seq<OpenVsssInstance>, assert_index: usize) -> Seq<usize> {
    Seq::new(open.len(), |k: int| open[k].index).push(assert_index)
}

/// The numbers below `n` that are not among others.
pub open spec fn numbers_without(known: Seq<usize>, n: nat) -> Seq<usize>
    decreases n,
{
    if n == 0 {
        seq![]
    } else {
        let before = numbers_without(known, (n - 1) as nat);
        if known.contains((n - 1) as usize) {
            before
        } else {
            before.push((n - 1) as usize)
        }
    }
}

/// The labels of an instance that is not known: for each byte the value at its place of
/// the polynomial through the known labels.
pub open spec fn interpolated(known: Seq<usize>, labels: Seq<Seq<int>>, n: nat, x: int) -> Seq<int> {
    Seq::new(
        n,
        |l: int| value_at(numbers(known), Seq::new(known.len(), |k: int| labels[k][l]), x),
    )
}

/// Whether the polynomials through known labels have values at the missing instances.
pub open spec fn are_interpolable(known: Seq<usize>, labels: Seq<Seq<int>>, n: nat, total: nat) -> bool {
    forall|m: int, l: int|
        0 <= m < numbers_without(known, total).len() && 0 <= l < n
            ==> #[trigger] has_value_at(known, labels, l, numbers_without(known, total)[m] as int)
}

/// Whether the polynomial through the `l`th of the known labels has a value at `x`.
pub open spec fn has_value_at(known: Seq<usize>, labels: Seq<Seq<int>>, l: int, x: int) -> bool {
    let ys = Seq::new(known.len(), |k: int| labels[k][l]);
    let y = value_at(numbers(known), ys, x);
    0 <= y < order() && is_value_at(numbers(known), ys, x, y)
}

/// The wires that labels find in the tables of an instance; nothing if there are no
/// tables or one label finds nothing.
pub open spec fn instance_wires(
    lookups: Seq<(usize, InstanceWideLabelLookup)>,
    index: usize,
    labels: Seq<int>,
) -> Option<Seq<EvaluatedWire>> {
    match first_lookup(lookups, index, 0) {
        Some(k) => wires_found(
            lookups[k].1@,
            labels,
            lesser(labels.len() as int, lookups[k].1@.len() as int),
        ),
        None => None,
    }
}

/// The wires of the first `n` of some instances, each with its number; nothing if one
/// has none.
pub open spec fn all_wires(
    lookups: Seq<(usize, InstanceWideLabelLookup)>,
    indexes: Seq<usize>,
    labels: Seq<Seq<int>>,
    n: nat,
) -> Option<Seq<(usize, Seq<EvaluatedWire>)>>
    decreases n,
{
    if n == 0 {
        Some(seq![])
    } else {
        match (
            all_wires(lookups, indexes, labels, (n - 1) as nat),
            instance_wires(lookups, indexes[n - 1], labels[n - 1]),
        ) {
            (Some(before), Some(wires)) => Some(before.push((indexes[n - 1], wires))),
            _ => None,
        }
    }
}

/// The labels of scalars as numbers.
pub open spec fn label_values(v: Seq<Scalar>) -> Seq<int> {
    Seq::new(v.len(), |i: int| v[i]@)
}

/// The labels that are known of each instance in `known_indexes`; nothing if an opened
/// instance has none for a value.
pub open spec fn known_labels(
    assert_index: usize,
    wide_labels: Seq<Scalar>,
    lookups: Seq<(usize, InstanceWideLabelLookup)>,
    open: Seq<OpenVsssInstance>,
    size: int,
) -> Option<Seq<Seq<int>>> {
    match first_lookup(lookups, assert_index, 0) {
        Some(a) => match row_numbers(
            lookups[a].1@,
            label_values(wide_labels),
            lesser(wide_labels.len() as int, lookups[a].1@.len() as int),
        ) {
            Some(at) => match opened_labels(open, size, at, open.len()) {
                Some(labels) => Some(labels.push(label_values(wide_labels))),
                None => None,
            },
            None => None,
        },
        None => None,
    }
}

/// The wires of all instances that are not opened, first those that are interpolated
/// in ascending order, then the one whose labels are given. Nothing if a label finds no
/// row, an instance has no tables, an opened instance lacks a share, or there is no
/// label at all.
pub open spec fn recovered(
    assert_index: usize,
    wide_labels: Seq<Scalar>,
    lookups: Seq<(usize, InstanceWideLabelLookup)>,
    open: Seq<OpenVsssInstance>,
    total: nat,
    size: int,
) -> Option<Seq<(usize, Seq<EvaluatedWire>)>> {
    match known_labels(assert_index, wide_labels, lookups, open, size) {
        Some(labels) => {
            let known = known_indexes(open, assert_index);
            let missing = numbers_without(known, total);
            let n = labels[0].len();
            if n == 0 || exists|k: int| 0 <= k < labels.len() && (#[trigger] labels[k]).len() < n {
                None
            } else {
                all_wires(
                    lookups,
                    missing.push(assert_index),
                    Seq::new(
                        missing.len(),
                        |m: int| interpolated(known, labels, n, missing[m] as int),
                    ).push(label_values(wide_labels)),
                    missing.len() + 1,
                )
            }
        },
        None => None,
    }
}

/// Whether the labels of the missing instances are determined by the known labels: the
/// polynomials through them have values there.
pub open spec fn is_determined(
    assert_index: usize,
    wide_labels: Seq<Scalar>,
    lookups: Seq<(usize, InstanceWideLabelLookup)>,
    open: Seq<OpenVsssInstance>,
    total: nat,
    size: int,
) -> bool {
    match known_labels(assert_index, wide_labels, lookups, open, size) {
        Some(labels) => (forall|k: int|
            0 <= k < labels.len() ==> (#[trigger] labels[k]).len() >= labels[0].len())
            ==> are_interpolable(
            known_indexes(open, assert_index),
            labels,
            labels[0].len(),
            total,
        ),
        None => true,
    }
}

/// The power of two.
pub fn power_of_two(w: usize) -> (r: usize)
    requires
        pow2(w as nat) <= usize::MAX,
    ensures
        r == pow2(w as nat),
{
    let mut r: usize = 1;
    let mut i: usize = 0;
    proof {
        lemma2_to64();
    }
    while i < w
        invariant
            i <= w,
            r == pow2(i as nat),
            pow2(w as nat) <= usize::MAX,
        decreases w - i,
    {
        proof {
            lemma_pow2_unfold((i + 1) as nat);
            if i + 1 < w {
                vstd::arithmetic::power2::lemma_pow2_strictly_increases(
                    (i + 1) as nat,
                    w as nat,
                );
            }
        }
        r = r * 2;
        i = i + 1;
    }
    r
}

fn find_rows(tables: &InstanceWideLabelLookup, labels: &[Scalar]) -> (r: Option<Vec<usize>>)
    ensures
        match (
            r,
            row_numbers(
                tables@,
                label_values(labels@),
                lesser(labels@.len() as int, tables@.len() as int),
            ),
        ) {
            (Some(v), Some(s)) => numbers(v@) == s,
            (None, None) => true,
            _ => false,
        },
{
    let n: usize = if labels.len() <= tables.len() {
        labels.len()
    } else {
        tables.len()
    };
    let ghost values = label_values(labels@);
    let mut r: Vec<usize> = Vec::new();
    let mut i: usize = 0;
    assert(numbers(r@) =~= Seq::<int>::empty());
    while i < n
        invariant
            i <= n,
            n <= labels@.len(),
            n <= tables@.len(),
            n == lesser(labels@.len() as int, tables@.len() as int),
            values == label_values(labels@),
            row_numbers(tables@, values, i as nat) == Some(numbers(r@)),
        decreases n - i,
    {
        let ghost before = numbers(r@);
        assert(values[i as int] == labels@[i as int]@);
        match tables[i].find_row(&labels[i]) {
            Some(f) => {
                r.push(f);
                assert(numbers(r@) =~= before.push(f as int));
            },
            None => {
                assert(row_numbers(tables@, values, (i + 1) as nat) is None);
                proof {
                    stays_none(tables@, values, (i + 1) as nat, n as nat);
                }
                return None;
            },
        }
        i = i + 1;
    }
    Some(r)
}

proof fn stays_none(tables: Seq<GarbledWideLabelTable>, labels: Seq<int>, a: nat, b: nat)
    requires
        a <= b,
    ensures
        row_numbers(tables, labels, a) is None ==> row_numbers(tables, labels, b) is None,
        wires_found(tables, labels, a) is None ==> wires_found(tables, labels, b) is None,
    decreases b,
{
    if a < b {
        stays_none(tables, labels, a, (b - 1) as nat);
    }
}

fn find_wires(tables: &InstanceWideLabelLookup, labels: &Vec<Scalar>) -> (r: Option<
    Vec<EvaluatedWire>,
>)
    ensures
        match (
            r,
            wires_found(
                tables@,
                label_values(labels@),
                lesser(labels@.len() as int, tables@.len() as int),
            ),
        ) {
            (Some(v), Some(s)) => v@ == s,
            (None, None) => true,
            _ => false,
        },
{
    let n: usize = if labels.len() <= tables.len() {
        labels.len()
    } else {
        tables.len()
    };
    let ghost values = label_values(labels@);
    let mut r: Vec<EvaluatedWire> = Vec::new();
    let mut i: usize = 0;
    while i < n
        invariant
            i <= n,
            n <= labels@.len(),
            n <= tables@.len(),
            n == lesser(labels@.len() as int, tables@.len() as int),
            values == label_values(labels@),
            wires_found(tables@, values, i as nat) == Some(r@),
        decreases n - i,
    {
        assert(values[i as int] == labels@[i as int]@);
        match tables[i].try_lookup(&labels[i]) {
            Some((_, wires)) => {
                let ghost before = r@;
                let mut j: usize = 0;
                assert(wires@.take(0) =~= Seq::<EvaluatedWire>::empty());
                assert(r@ =~= before + wires@.take(0));
                while j < wires.len()
                    invariant
                        j <= wires@.len(),
                        r@ == before + wires@.take(j as int),
                    decreases wires@.len() - j,
                {
                    r.push(wires[j]);
                    assert(before + wires@.take(j + 1) =~= (before + wires@.take(j as int)).push(
                        wires@[j as int],
                    ));
                    j = j + 1;
                }
                assert(wires@.take(wires@.len() as int) =~= wires@);
            },
            None => {
                assert(wires_found(tables@, values, (i + 1) as nat) is None);
                proof {
                    stays_none(tables@, values, (i + 1) as nat, n as nat);
                }
                return None;
            },
        }
        i = i + 1;
    }
    Some(r)
}

fn pick_shares(shares: &Vec<Scalar>, size: usize, at: &Vec<usize>) -> (r: Option<Vec<Scalar>>)
    requires
        size > 0,
    ensures
        match (
            r,
            picked_shares(
                shares@,
                size as int,
                numbers(at@),
                lesser(pieces(shares@, size as int), at@.len() as int),
            ),
        ) {
            (Some(v), Some(s)) => label_values(v@) == s,
            (None, None) => true,
            _ => false,
        },
{
    let ghost whole = pieces(shares@, size as int);
    let ghost n = lesser(whole, at@.len() as int);
    let ghost nums = numbers(at@);
    let mut r: Vec<Scalar> = Vec::new();
    let mut i: usize = 0;
    let mut start: usize = 0;
    proof {
        assert(label_values(r@) =~= Seq::<int>::empty());
        pieces_end(shares@, size as int);
    }
    while i < at.len() && start < shares.len()
        invariant
            i <= at@.len(),
            size > 0,
            start <= shares@.len(),
            start == size * i || start == shares@.len() && i == whole,
            i <= whole,
            whole == pieces(shares@, size as int),
            n == lesser(whole, at@.len() as int),
            nums == numbers(at@),
            size * (whole - 1) < shares@.len() <= size * whole || whole == 0 && shares@.len() == 0,
            picked_shares(shares@, size as int, nums, i as nat) == Some(label_values(r@)),
        decreases at@.len() - i,
    {
        let index: usize = at[i];
        let left: usize = shares.len() - start;
        let len: usize = if left < size {
            left
        } else {
            size
        };
        proof {
            assert(nums[i as int] == index);
            assert(size * (i + 1) == size * i + size) by (nonlinear_arith);
            assert(i < whole) by {
                if i >= whole {
                    assert(size * i >= size * whole) by (nonlinear_arith)
                        requires
                            i >= whole,
                            size > 0,
                    ;
                }
            }
            assert(piece(shares@, size as int, i as int).len() == len);
            if left < size {
                assert(i + 1 == whole) by {
                    if i + 1 < whole {
                        assert(size * (whole - 1) >= size * (i + 1)) by (nonlinear_arith)
                            requires
                                whole - 1 >= i + 1,
                                size > 0,
                        ;
                    }
                }
            }
        }
        if index >= len {
            assert(picked_shares(shares@, size as int, nums, (i + 1) as nat) is None);
            proof {
                picked_stays_none(shares@, size as int, nums, (i + 1) as nat, n);
            }
            return None;
        }
        let ghost before = label_values(r@);
        let share = shares[start + index];
        assert(piece(shares@, size as int, i as int)[index as int] == share);
        r.push(share);
        assert(label_values(r@) =~= before.push(share@));
        start = start + len;
        i = i + 1;
    }
    proof {
        assert(i == n) by {
            if i < whole && start >= shares@.len() {
                assert(size * i <= size * (whole - 1)) by (nonlinear_arith)
                    requires
                        i <= whole - 1,
                        size > 0,
                ;
            }
        }
    }
    Some(r)
}

proof fn picked_stays_none(shares: Seq<Scalar>, size: int, at: Seq<int>, a: nat, b: nat)
    requires
        a <= b,
        picked_shares(shares, size, at, a) is None,
    ensures
        picked_shares(shares, size, at, b) is None,
    decreases b,
{
    if a < b {
        picked_stays_none(shares, size, at, a, (b - 1) as nat);
    }
}

/// Known labels of instances as numbers.
pub open spec fn known_values(known: Seq<(usize, Vec<Scalar>)>) -> Seq<Seq<int>> {
    Seq::new(known.len(), |k: int| label_values(known[k].1@))
}

/// The numbers of instances with known labels.
pub open spec fn known_numbers(known: Seq<(usize, Vec<Scalar>)>) -> Seq<usize> {
    Seq::new(known.len(), |k: int| known[k].0)
}

fn collect_known(
    assert_index: usize,
    wide_labels: &[Scalar],
    lookups: &[(usize, InstanceWideLabelLookup)],
    open: &[OpenVsssInstance],
    size: usize,
) -> (r: Option<Vec<(usize, Vec<Scalar>)>>)
    requires
        size > 0,
    ensures
        match (r, known_labels(assert_index, wide_labels@, lookups@, open@, size as int)) {
            (Some(v), Some(s)) => known_values(v@) == s && known_numbers(v@) == known_indexes(
                open@,
                assert_index,
            ),
            (None, None) => true,
            _ => false,
        },
{
    let a: usize = match find_lookup(lookups, assert_index) {
        Some(a) => a,
        None => {
            return None;
        },
    };
    let at = match find_rows(&lookups[a].1, wide_labels) {
        Some(at) => at,
        None => {
            return None;
        },
    };
    let ghost nums = numbers(at@);
    let mut r: Vec<(usize, Vec<Scalar>)> = Vec::new();
    let mut k: usize = 0;
    proof {
        assert(known_values(r@) =~= Seq::<Seq<int>>::empty());
    }
    while k < open.len()
        invariant
            k <= open@.len(),
            size > 0,
            nums == numbers(at@),
            first_lookup(lookups@, assert_index, 0) == Some(a as int),
            row_numbers(
                lookups@[a as int].1@,
                label_values(wide_labels@),
                lesser(wide_labels@.len() as int, lookups@[a as int].1@.len() as int),
            ) == Some(nums),
            r@.len() == k,
            opened_labels(open@, size as int, nums, k as nat) == Some(known_values(r@)),
            forall|i: int| 0 <= i < k ==> (#[trigger] r@[i]).0 == open@[i].index,
        decreases open@.len() - k,
    {
        let ghost before = known_values(r@);
        match pick_shares(&open[k].shares, size, &at) {
            Some(labels) => {
                r.push((open[k].index, labels));
                assert(known_values(r@) =~= before.push(label_values(labels@)));
            },
            None => {
                assert(opened_labels(open@, size as int, nums, (k + 1) as nat) is None);
                proof {
                    opened_stays_none(open@, size as int, nums, (k + 1) as nat, open@.len());
                }
                return None;
            },
        }
        k = k + 1;
    }
    let ghost before = known_values(r@);
    let mut own: Vec<Scalar> = Vec::new();
    let mut l: usize = 0;
    while l < wide_labels.len()
        invariant
            l <= wide_labels@.len(),
            own@ == wide_labels@.take(l as int),
        decreases wide_labels@.len() - l,
    {
        own.push(wide_labels[l]);
        assert(wide_labels@.take(l + 1) =~= wide_labels@.take(l as int).push(
            wide_labels@[l as int],
        ));
        l = l + 1;
    }
    assert(own@ =~= wide_labels@);
    r.push((assert_index, own));
    proof {
        assert(known_values(r@) =~= before.push(label_values(wide_labels@)));
        assert(known_numbers(r@) =~= known_indexes(open@, assert_index));
    }
    Some(r)
}

proof fn opened_stays_none(open: Seq<OpenVsssInstance>, size: int, at: Seq<int>, a: nat, b: nat)
    requires
        a <= b,
        opened_labels(open, size, at, a) is None,
    ensures
        opened_labels(open, size, at, b) is None,
    decreases b,
{
    if a < b {
        opened_stays_none(open, size, at, a, (b - 1) as nat);
    }
}

fn find_missing(known: &Vec<(usize, Vec<Scalar>)>, total: usize) -> (r: Vec<usize>)
    ensures
        r@ == numbers_without(known_numbers(known@), total as nat),
{
    let ghost nums = known_numbers(known@);
    let mut r: Vec<usize> = Vec::new();
    let mut i: usize = 0;
    while i < total
        invariant
            i <= total,
            nums == known_numbers(known@),
            r@ == numbers_without(nums, i as nat),
        decreases total - i,
    {
        let mut found = false;
        let mut k: usize = 0;
        while k < known.len()
            invariant
                k <= known@.len(),
                nums == known_numbers(known@),
                found == nums.take(k as int).contains(i),
            decreases known@.len() - k,
        {
            proof {
                assert(nums.take(k + 1) =~= nums.take(k as int).push(nums[k as int]));
                assert(nums[k as int] == known@[k as int].0);
                let t = nums.take(k as int).push(nums[k as int]);
                if nums.take(k as int).contains(i) {
                    let j = choose|j: int| 0 <= j < k && nums.take(k as int)[j] == i;
                    assert(t[j] == i);
                }
                if t.contains(i) && nums[k as int] != i {
                    let j = choose|j: int| 0 <= j < t.len() && t[j] == i;
                    assert(nums.take(k as int)[j] == i);
                }
                if nums[k as int] == i {
                    assert(t[k as int] == i);
                }
            }
            if known[k].0 == i {
                found = true;
            }
            k = k + 1;
        }
        assert(nums.take(nums.len() as int) =~= nums);
        if !found {
            r.push(i);
        }
        i = i + 1;
    }
    r
}

/// The numbers that are missing are below the bound, different, in ascending order,
/// and all that are not known.
pub proof fn missing_numbers(known: Seq<usize>, n: nat)
    requires
        n <= usize::MAX,
    ensures
        forall|i: int|
            0 <= i < numbers_without(known, n).len() ==> (#[trigger] numbers_without(known, n)[i])
                < n && !known.contains(numbers_without(known, n)[i]),
        forall|x: usize| #[trigger]
            numbers_without(known, n).contains(x) <==> x < n && !known.contains(x),
        numbers_without(known, n).no_duplicates(),
        numbers_without(known, n).len() <= n,
    decreases n,
{
    if n > 0 {
        let m = (n - 1) as nat;
        missing_numbers(known, m);
        let (s, t) = (numbers_without(known, n), numbers_without(known, m));
        assert forall|x: usize| #[trigger] s.contains(x) <==> x < n && !known.contains(x) by {
            if !known.contains(m as usize) {
                assert(s == t.push(m as usize));
                if t.contains(x) {
                    let j = choose|j: int| 0 <= j < t.len() && t[j] == x;
                    assert(s[j] == x);
                }
                if s.contains(x) && x != m {
                    let j = choose|j: int| 0 <= j < s.len() && s[j] == x;
                    assert(t[j] == x);
                }
                if x == m {
                    assert(s[t.len() as int] == x);
                }
            }
        }
    }
}

/// The known and the missing numbers are all numbers below the bound.
pub proof fn known_and_missing(known: Seq<usize>, n: nat)
    requires
        n <= usize::MAX,
        known.no_duplicates(),
        forall|i: int| 0 <= i < known.len() ==> (#[trigger] known[i]) < n,
    ensures
        is_arrangement(numbers(known) + numbers(numbers_without(known, n))),
        known.len() + numbers_without(known, n).len() == n,
{
    missing_numbers(known, n);
    let missing = numbers_without(known, n);
    let (a, b) = (numbers(known), numbers(missing));
    let s = a + b;
    assert forall|i: int, j: int| 0 <= i < s.len() && 0 <= j < s.len() && i != j implies s[i]
        != s[j] by {
        if i < known.len() && j >= known.len() {
            assert(known.contains(known[i]));
            assert(!known.contains(missing[j - known.len()]));
        }
        if j < known.len() && i >= known.len() {
            assert(known.contains(known[j]));
            assert(!known.contains(missing[i - known.len()]));
        }
    }
    assert(s.no_duplicates());
    s.unique_seq_to_set();
    lemma_int_range(0, n as int);
    assert(s.to_set() =~= set_int_range(0, n as int)) by {
        assert forall|v: int| #[trigger] s.to_set().contains(v) <==> 0 <= v < n by {
            if s.to_set().contains(v) {
                let i = choose|i: int| 0 <= i < s.len() && s[i] == v;
                if i < known.len() {
                    assert(known[i] < n);
                } else {
                    assert(missing[i - known.len()] < n);
                }
            }
            if 0 <= v < n {
                if known.contains(v as usize) {
                    let i = choose|i: int| 0 <= i < known.len() && known[i] == v as usize;
                    assert(s[i] == v);
                } else {
                    assert(missing.contains(v as usize));
                    let i = choose|i: int| 0 <= i < missing.len() && missing[i] == v as usize;
                    assert(s[known.len() + i] == v);
                }
            }
        }
    }
    assert(s.len() == n);
    assert forall|i: int| 0 <= i < s.len() implies 0 <= #[trigger] s[i] < s.len() by {
        assert(s.to_set().contains(s[i]));
    }
}

/// For each known instance its number and the `l`th of its labels.
spec fn known_column(known: Seq<(usize, Vec<Scalar>)>, l: int) -> Seq<(usize, Scalar)> {
    Seq::new(known.len(), |k: int| (known[k].0, known[k].1@[l]))
}

/// The labels of all missing instances, one row for each.
fn interpolate_all(known: &Vec<(usize, Vec<Scalar>)>, missing: &Vec<usize>, n: usize, total: usize)
    -> (r: Vec<Vec<Scalar>>)
    requires
        n > 0,
        known@.len() > 0,
        known_numbers(known@).no_duplicates(),
        forall|k: int| 0 <= k < known@.len() ==> (#[trigger] known@[k]).0 < total,
        forall|k: int| 0 <= k < known@.len() ==> (#[trigger] known@[k]).1@.len() >= n,
        missing@ == numbers_without(known_numbers(known@), total as nat),
    ensures
        r@.len() == missing@.len(),
        forall|m: int|
            0 <= m < r@.len() ==> label_values((#[trigger] r@[m])@) == interpolated(
                known_numbers(known@),
                known_values(known@),
                n as nat,
                missing@[m] as int,
            ),
        are_interpolable(
            known_numbers(known@),
            known_values(known@),
            n as nat,
            total as nat,
        ),
{
    let ghost nums = known_numbers(known@);
    let ghost values = known_values(known@);
    proof {
        known_and_missing(nums, total as nat);
    }
    let mut by_label: Vec<Vec<Scalar>> = Vec::new();
    let mut l: usize = 0;
    while l < n
        invariant
            l <= n,
            n > 0,
            known@.len() > 0,
            nums == known_numbers(known@),
            values == known_values(known@),
            forall|k: int| 0 <= k < known@.len() ==> (#[trigger] known@[k]).1@.len() >= n,
            known@.len() + missing@.len() == total,
            is_arrangement(numbers(nums) + numbers(missing@)),
            by_label@.len() == l,
            forall|m: int, j: int|
                0 <= m < missing@.len() && 0 <= j < l ==> #[trigger] has_value_at(
                    nums,
                    values,
                    j,
                    missing@[m] as int,
                ),
            forall|k: int|
                0 <= k < l ==> (#[trigger] by_label@[k])@.len() == missing@.len() && forall|m: int|
                    0 <= m < missing@.len() ==> (#[trigger] by_label@[k]@[m])@ == interpolated(
                        nums,
                        values,
                        n as nat,
                        missing@[m] as int,
                    )[k],
        decreases n - l,
    {
        let mut points: Vec<(usize, Scalar)> = Vec::new();
        let mut k: usize = 0;
        while k < known.len()
            invariant
                k <= known@.len(),
                l < n,
                forall|k: int| 0 <= k < known@.len() ==> (#[trigger] known@[k]).1@.len() >= n,
                points@.len() == k,
                forall|i: int|
                    0 <= i < k ==> #[trigger] points@[i] == (known@[i].0, known@[i].1@[l as int]),
            decreases known@.len() - k,
        {
            assert(known@[k as int].1@.len() >= n);
            points.push((known[k].0, known[k].1[l]));
            k = k + 1;
        }
        proof {
            assert(points@ =~= known_column(known@, l as int));
            assert(nodes_of(points@) =~= numbers(nums));
            assert(values_of(points@) =~= Seq::new(nums.len(), |k: int| values[k][l as int]));
        }
        let row = lagrange_interpolate_whole_polynomial(points.as_slice(), missing.as_slice());
        proof {
            assert forall|m: int| 0 <= m < missing@.len() implies (#[trigger] row@[m])@
                == interpolated(nums, values, n as nat, missing@[m] as int)[l as int] by {
                scalar_is_value(
                    numbers(nums),
                    values_of(points@),
                    missing@[m] as int,
                    row@[m],
                );
            }
            assert forall|m: int, j: int|
                0 <= m < missing@.len() && 0 <= j < l + 1 implies #[trigger] has_value_at(
                nums,
                values,
                j,
                missing@[m] as int,
            ) by {
                if j == l {
                    scalar_is_value(
                        numbers(nums),
                        values_of(points@),
                        missing@[m] as int,
                        row@[m],
                    );
                }
            }
        }
        by_label.push(row);
        l = l + 1;
    }
    let r = transpose(by_label.as_slice());
    proof {
        let t = columns(rows(by_label@));
        assert(by_label@[0]@.len() == missing@.len());
        assert(r@.len() == rows(r@).len());
        assert forall|m: int| 0 <= m < r@.len() implies label_values((#[trigger] r@[m])@)
            == interpolated(nums, values, n as nat, missing@[m] as int) by {
            assert(rows(r@)[m] == t[m]);
            let want = interpolated(nums, values, n as nat, missing@[m] as int);
            assert forall|l: int| 0 <= l < n implies label_values(r@[m]@)[l] == want[l] by {
                assert(r@[m]@[l] == by_label@[l]@[m]);
            }
            assert(label_values(r@[m]@) =~= want);
        }
    }
    r
}

/// The contents of wires with the numbers of their instances.
pub open spec fn wire_views(v: Seq<(usize, Vec<EvaluatedWire>)>) -> Seq<
    (usize, Seq<EvaluatedWire>),
> {
    Seq::new(v.len(), |i: int| (v[i].0, v[i].1@))
}

/// The wires of all instances that are not opened, recovered from the labels of the
/// bytes of instance `assert_index`: the labels of the opened instances for the same
/// values and these determine those of the others. `W` is the number of bits in a
/// byte.
pub fn recover_wires<const W: usize>(
    assert_index: usize,
    wide_labels: &[Scalar],
    wide_label_lookups: &[(usize, InstanceWideLabelLookup)],
    open_instance_data: &[OpenVsssInstance],
    total_instance_count: usize,
) -> (r: Option<Vec<(usize, Vec<EvaluatedWire>)>>)
    requires
        pow2(W as nat) <= usize::MAX,
        known_indexes(open_instance_data@, assert_index).no_duplicates(),
        forall|k: int|
            0 <= k < open_instance_data@.len() ==> (#[trigger] open_instance_data@[k]).index
                < total_instance_count,
        assert_index < total_instance_count,
    ensures
        is_recovered(
            r,
            recovered(
                assert_index,
                wide_labels@,
                wide_label_lookups@,
                open_instance_data@,
                total_instance_count as nat,
                pow2(W as nat) as int,
            ),
        ),
        is_determined(
            assert_index,
            wide_labels@,
            wide_label_lookups@,
            open_instance_data@,
            total_instance_count as nat,
            pow2(W as nat) as int,
        ),
{
    proof {
        lemma_pow2_pos(W as nat);
    }
    let size: usize = power_of_two(W);
    let total: usize = total_instance_count;
    let known = match collect_known(
        assert_index,
        wide_labels,
        wide_label_lookups,
        open_instance_data,
        size,
    ) {
        Some(known) => known,
        None => {
            return None;
        },
    };
    let ghost nums = known_indexes(open_instance_data@, assert_index);
    let ghost values = known_values(known@);
    let missing = find_missing(&known, total);
    proof {
        assert(known@.len() == known_numbers(known@).len());
        assert(values[0] == label_values(known@[0].1@));
    }
    let n: usize = known[0].1.len();
    if n == 0 {
        return None;
    }
    let mut k: usize = 0;
    while k < known.len()
        invariant
            k <= known@.len(),
            values == known_values(known@),
            n == values[0].len(),
            n > 0,
            known_labels(
                assert_index,
                wide_labels@,
                wide_label_lookups@,
                open_instance_data@,
                size as int,
            ) == Some(values),
            size == pow2(W as nat),
            total == total_instance_count,
            forall|i: int| 0 <= i < k ==> (#[trigger] known@[i]).1@.len() >= n,
        decreases known@.len() - k,
    {
        if known[k].1.len() < n {
            assert(values[k as int].len() < n);
            return None;
        }
        k = k + 1;
    }
    proof {
        assert forall|k: int| 0 <= k < known@.len() implies (#[trigger] known@[k]).0 < total by {
            assert(known_numbers(known@)[k] == nums[k]);
            if k < open_instance_data@.len() {
                assert(open_instance_data@[k].index < total);
            }
        }
        assert forall|k: int| 0 <= k < values.len() implies (#[trigger] values[k]).len() >= n by {
            assert(known@[k].1@.len() >= n);
        }
    }
    let mut labels = interpolate_all(&known, &missing, n, total);
    let ghost all_labels = Seq::new(
        missing@.len(),
        |m: int| interpolated(nums, values, n as nat, missing@[m] as int),
    ).push(label_values(wide_labels@));
    let ghost indexes = missing@.push(assert_index);
    let last: usize = known.len() - 1;
    let own = copy_scalars(&known[last].1);
    proof {
        assert(values[last as int] == label_values(known@[last as int].1@));
        assert(values.last() == label_values(wide_labels@));
    }
    let ghost found = labels@;
    labels.push(own);
    proof {
        assert forall|m: int| 0 <= m < labels@.len() implies label_values(
            (#[trigger] labels@[m])@,
        ) == all_labels[m] by {
            if m < found.len() {
                assert(found[m] == labels@[m]);
            }
        }
    }
    let mut r: Vec<(usize, Vec<EvaluatedWire>)> = Vec::new();
    let mut m: usize = 0;
    assert(wire_views(r@) =~= Seq::<(usize, Seq<EvaluatedWire>)>::empty());
    while m < labels.len()
        invariant
            m <= labels@.len(),
            labels@.len() == missing@.len() + 1,
            all_labels.len() == labels@.len(),
            indexes == missing@.push(assert_index),
            forall|m: int|
                0 <= m < labels@.len() ==> label_values((#[trigger] labels@[m])@) == all_labels[m],
            all_wires(wide_label_lookups@, indexes, all_labels, m as nat) == Some(wire_views(r@)),
            is_determined(
                assert_index,
                wide_labels@,
                wide_label_lookups@,
                open_instance_data@,
                total_instance_count as nat,
                pow2(W as nat) as int,
            ),
            recovered(
                assert_index,
                wide_labels@,
                wide_label_lookups@,
                open_instance_data@,
                total_instance_count as nat,
                pow2(W as nat) as int,
            ) == all_wires(wide_label_lookups@, indexes, all_labels, labels@.len()),
        decreases labels@.len() - m,
    {
        let index: usize = if m < missing.len() {
            missing[m]
        } else {
            assert_index
        };
        assert(index == indexes[m as int]);
        assert(label_values(labels@[m as int]@) == all_labels[m as int]);
        let wires = match find_lookup(wide_label_lookups, index) {
            Some(t) => find_wires(&wide_label_lookups[t].1, &labels[m]),
            None => None,
        };
        match wires {
            Some(w) => {
                let ghost before = wire_views(r@);
                r.push((index, w));
                assert(wire_views(r@) =~= before.push((index, w@)));
            },
            None => {
                assert(all_wires(wide_label_lookups@, indexes, all_labels, (m + 1) as nat) is None);
                proof {
                    all_stays_none(
                        wide_label_lookups@,
                        indexes,
                        all_labels,
                        (m + 1) as nat,
                        labels@.len(),
                    );
                }
                return None;
            },
        }
        m = m + 1;
    }
    Some(r)
}

proof fn all_stays_none(
    lookups: Seq<(usize, InstanceWideLabelLookup)>,
    indexes: Seq<usize>,
    labels: Seq<Seq<int>>,
    a: nat,
    b: nat,
)
    requires
        a <= b,
        all_wires(lookups, indexes, labels, a) is None,
    ensures
        all_wires(lookups, indexes, labels, b) is None,
    decreases b,
{
    if a < b {
        all_stays_none(lookups, indexes, labels, a, (b - 1) as nat);
    }
}

/// Whether signatures give away labels.
pub open spec fn gives_away<A, SIG, F: Fn(&A, &SIG) -> Option<Scalar>>(
    adaptor_sigs: Seq<A>,
    signatures: Seq<SIG>,
    extract: F,
    labels: Seq<Scalar>,
) -> bool {
    labels.len() == signatures.len() && forall|i: int|
        0 <= i < labels.len() ==> extract.ensures(
            (&adaptor_sigs[i], &signatures[i]),
            Some(#[trigger] labels[i]),
        )
}

/// Whether an outcome is what can be recovered.
pub open spec fn is_recovered(
    r: Option<Vec<(usize, Vec<EvaluatedWire>)>>,
    s: Option<Seq<(usize, Seq<EvaluatedWire>)>>,
) -> bool {
    match (r, s) {
        (Some(v), Some(w)) => wire_views(v@) == w,
        (None, None) => true,
        _ => false,
    }
}

impl<A> EvaluatorAdaptorSigs<A> {
    /// The wires of all instances that are not opened, recovered from the labels that
    /// signatures give away. Nothing if a signature gives none, or they cannot be
    /// recovered.
    pub fn evaluated_wires<const W: usize, SIG, F: Fn(&A, &SIG) -> Option<Scalar>>(
        &self,
        signatures: &[SIG],
        wide_label_lookups: &[(usize, InstanceWideLabelLookup)],
        open_instance_data: &[OpenVsssInstance],
        total_instance_count: usize,
        extract: F,
    ) -> (r: Option<Vec<(usize, Vec<EvaluatedWire>)>>)
        requires
            signatures@.len() == self.adaptor_sigs@.len(),
            forall|a: &A, s: &SIG| #[trigger] extract.requires((a, s)),
            pow2(W as nat) <= usize::MAX,
            known_indexes(open_instance_data@, self.assert_index).no_duplicates(),
            forall|k: int|
                0 <= k < open_instance_data@.len() ==> (#[trigger] open_instance_data@[k]).index
                    < total_instance_count,
            self.assert_index < total_instance_count,
        ensures
            (exists|labels: Seq<Scalar>|
                #[trigger] gives_away(self.adaptor_sigs@, signatures@, extract, labels)
                    && is_recovered(
                    r,
                    recovered(
                        self.assert_index,
                        labels,
                        wide_label_lookups@,
                        open_instance_data@,
                        total_instance_count as nat,
                        pow2(W as nat) as int,
                    ),
                )) || (r is None && exists|i: int|
                0 <= i < signatures@.len() && extract.ensures(
                    (#[trigger] &self.adaptor_sigs@[i], &signatures@[i]),
                    None,
                )),
    {
        match self.extract_wide_labels(signatures, extract) {
            Some(labels) => {
                let r = recover_wires::<W>(
                    self.assert_index,
                    labels.as_slice(),
                    wide_label_lookups,
                    open_instance_data,
                    total_instance_count,
                );
                assert(gives_away(self.adaptor_sigs@, signatures@, extract, labels@));
                r
            },
            None => None,
        }
    }
}

} // verus!
