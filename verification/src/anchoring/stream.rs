//! The statistics of one streaming pass are what deriving wires costs.

use crate::anchoring::bounds::{gate_walk_cost, merged_counts_drawn, planned};
use crate::anchoring::circuit::{available, in_range, well_formed, PCircuit};
use crate::anchoring::cost::{cone, cone_shape, drawn, drawn_of, expanded_of};
use crate::anchoring::derive::resolvable;
use crate::anchoring::garble::anchored_garbling;
use crate::anchoring::laws::{garbling_orders_gate, garbling_orders_wires, garbling_shape};
use crate::anchoring::plan::{produced, promoted};
use crate::anchoring::settle::gate_walk;
use crate::modes::anchor_stats::{
    anchor_ancestry, gate_ancestry, gate_anchors, gate_xors, no_ancestry, AncestryView,
};
use vstd::prelude::*;
use vstd::relations::injective_on;
use vstd::set_lib::{lemma_len_subset, lemma_map_size};

verus! {

/// The ancestry of every wire after the first `g` gates: that of an input is an anchor
/// numbered from `first_id`, that of a gate's output follows from those of its inputs.
pub open spec fn ancestries(c: PCircuit, k: nat, first_id: int, g: nat) -> Seq<AncestryView>
    decreases g,
{
    if g == 0 {
        Seq::new(
            c.n_wires as nat,
            |w: int|
                if produced(c, w) {
                    no_ancestry()
                } else {
                    anchor_ancestry((first_id + w) as u64)
                },
        )
    } else {
        let j = (g - 1) as nat;
        let s = ancestries(c, k, first_id, j);
        let gate = c.gates@[j as int];
        s.update(
            gate.c as int,
            gate_ancestry(gate.t, s[gate.a as int], s[gate.b as int], k, j as u64),
        )
    }
}

/// The number of a wire: an input is numbered from `first_id`, the output of gate `g`
/// has number `g`.
pub open spec fn wire_number(
    c: PCircuit,
    table: Seq<Option<usize>>,
    first_id: int,
    w: int,
) -> u64 {
    if w < c.n_in {
        (first_id + w) as u64
    } else {
        table[w]->0 as u64
    }
}

/// The wires that cones are made of, by their numbers, are a wire's ancestry.
pub open spec fn is_cone_ancestry(
    c: PCircuit,
    anchored: Seq<bool>,
    table: Seq<Option<usize>>,
    first_id: int,
    wires: Set<int>,
    a: AncestryView,
) -> bool {
    let f = |w: int| wire_number(c, table, first_id, w);
    a.anchors == drawn_of(c, anchored, table, wires).map(f) && a.xors == expanded_of(
        c,
        anchored,
        table,
        wires,
    ).map(f)
}

/// Whether numbers of inputs are above those of gates and fit.
pub open spec fn numbers_fit(c: PCircuit, first_id: int) -> bool {
    c.gates@.len() <= first_id && first_id + c.n_wires <= u64::MAX
}

/// The counts of ancestries joined at a gate are those of the wires in its cones.
proof fn joined_counts(
    c: PCircuit,
    seed: Seq<u8>,
    anchored: Seq<bool>,
    first_id: int,
    g: int,
    x: AncestryView,
    y: AncestryView,
)
    requires
        well_formed(c),
        numbers_fit(c, first_id),
        0 <= g < c.gates@.len(),
        ({
            let table = anchored_garbling(c, seed, anchored).gate_of_wire;
            let (ca, cb) = (
                cone(c, anchored, table, c.gates@[g].a as int),
                cone(c, anchored, table, c.gates@[g].b as int),
            );
            is_cone_ancestry(c, anchored, table, first_id, ca, x) && is_cone_ancestry(
                c,
                anchored,
                table,
                first_id,
                cb,
                y,
            )
        }),
    ensures
        ({
            let table = anchored_garbling(c, seed, anchored).gate_of_wire;
            let cones = cone(c, anchored, table, c.gates@[g].a as int).union(
                cone(c, anchored, table, c.gates@[g].b as int),
            );
            let f = |w: int| wire_number(c, table, first_id, w);
            &&& gate_anchors(x, y) == drawn_of(c, anchored, table, cones).map(f)
            &&& gate_xors(x, y) == expanded_of(c, anchored, table, cones).map(f)
            &&& gate_anchors(x, y).len() == drawn_of(c, anchored, table, cones).len()
            &&& gate_xors(x, y).len() == expanded_of(c, anchored, table, cones).len()
        }),
{
    let table = anchored_garbling(c, seed, anchored).gate_of_wire;
    let (ca, cb) = (
        cone(c, anchored, table, c.gates@[g].a as int),
        cone(c, anchored, table, c.gates@[g].b as int),
    );
    let cones = ca.union(cb);
    let f = |w: int| wire_number(c, table, first_id, w);
    assert(c.gates.len() == c.gates@.len());
    garbling_orders_gate(c, seed, anchored, g);
    garbling_orders_wires(c, seed, anchored);
    garbling_shape(c, seed, anchored, c.gates@.len());
    cone_shape(c, anchored, table, c.gates@[g].a as int);
    cone_shape(c, anchored, table, c.gates@[g].b as int);
    let (da, db) = (drawn_of(c, anchored, table, ca), drawn_of(c, anchored, table, cb));
    let (ea, eb) = (expanded_of(c, anchored, table, ca), expanded_of(c, anchored, table, cb));
    let (d, e) = (drawn_of(c, anchored, table, cones), expanded_of(c, anchored, table, cones));
    assert(d =~= da.union(db));
    assert(e =~= ea.union(eb));
    da.lemma_map_union_commute(db, f);
    ea.lemma_map_union_commute(eb, f);
    assert forall|v: int, w: int|
        cones.contains(v) && cones.contains(w) && #[trigger] f(v) == #[trigger] f(w) implies v
        == w by {
        assert(ca.contains(v) || cb.contains(v));
        assert(ca.contains(w) || cb.contains(w));
        assert(resolvable(c, table, v) && resolvable(c, table, w));
        if v >= c.n_in && w >= c.n_in {
            assert(c.gates@[table[v]->0 as int].c == v);
            assert(c.gates@[table[w]->0 as int].c == w);
        }
    }
    lemma_len_subset(d, cones);
    lemma_len_subset(e, cones);
    assert(injective_on(f, d));
    assert(injective_on(f, e));
    lemma_map_size(d, d.map(f), f);
    lemma_map_size(e, e.map(f), f);
}

/// Before every gate, the ancestry of each wire that has a value names the wires that
/// it is derived through: its anchors those that are drawn, its gates those that are
/// expanded.
pub proof fn ancestries_are_cones(
    c: PCircuit,
    seed: Seq<u8>,
    k: nat,
    anchored: Seq<bool>,
    first_id: int,
    g: nat,
    w: usize,
)
    requires
        well_formed(c),
        planned(c, k, anchored),
        numbers_fit(c, first_id),
        g <= c.gates@.len(),
        available(c, g as int, w),
        w < c.n_wires,
    ensures
        ({
            let table = anchored_garbling(c, seed, anchored).gate_of_wire;
            &&& ancestries(c, k, first_id, g).len() == c.n_wires
            &&& is_cone_ancestry(
                c,
                anchored,
                table,
                first_id,
                cone(c, anchored, table, w as int),
                ancestries(c, k, first_id, g)[w as int],
            )
        }),
    decreases g,
{
    let table = anchored_garbling(c, seed, anchored).gate_of_wire;
    let f = |w: int| wire_number(c, table, first_id, w);
    let top = cone(c, anchored, table, w as int);
    let one = set![w as int];
    assert(c.gates.len() == c.gates@.len());
    assert(one.contains(w as int));
    assert(one.map(f) =~= set![f(w as int)]);
    assert(Set::<int>::empty().map(f) =~= Set::<u64>::empty());
    lengths(c, k, first_id, g);
    if g == 0 {
        assert(!produced(c, w as int));
        assert(top == one);
        assert(drawn_of(c, anchored, table, one) =~= one);
        assert(expanded_of(c, anchored, table, one) =~= Set::<int>::empty());
    } else {
        let j = (g - 1) as nat;
        let gate = c.gates@[j as int];
        lengths(c, k, first_id, j);
        garbling_orders_gate(c, seed, anchored, j as int);
        if w == gate.c {
            assert(table[w as int] == Some(j as usize));
            assert(available(c, j as int, gate.a) && available(c, j as int, gate.b));
            ancestries_are_cones(c, seed, k, anchored, first_id, j, gate.a);
            ancestries_are_cones(c, seed, k, anchored, first_id, j, gate.b);
            let (x, y) = (
                ancestries(c, k, first_id, j)[gate.a as int],
                ancestries(c, k, first_id, j)[gate.b as int],
            );
            joined_counts(c, seed, anchored, first_id, j as int, x, y);
            assert(c.n_in <= c.n_wires);
            merged_counts_drawn(c, seed, k, anchored, j as int);
            assert(anchored[j as int] == promoted(c, k, j));
            let (ca, cb) = (
                cone(c, anchored, table, gate.a as int),
                cone(c, anchored, table, gate.b as int),
            );
            if drawn(c, anchored, table, w as int) {
                assert(top == one);
                assert(drawn_of(c, anchored, table, one) =~= one);
                assert(expanded_of(c, anchored, table, one) =~= Set::<int>::empty());
            } else {
                let cones = ca.union(cb);
                assert(top == cones.insert(w as int));
                let (d, e) = (
                    drawn_of(c, anchored, table, cones),
                    expanded_of(c, anchored, table, cones),
                );
                assert(drawn_of(c, anchored, table, top) =~= d);
                assert(expanded_of(c, anchored, table, top) =~= e.union(one));
                e.lemma_map_union_commute(one, f);
                assert(e.map(f).union(set![f(w as int)]) =~= e.map(f).insert(f(w as int)));
            }
        } else {
            assert(available(c, j as int, w)) by {
                if w >= c.n_in {
                    let i = choose|i: int| 0 <= i < g && (#[trigger] c.gates@[i]).c == w;
                    assert(i < j);
                }
            }
            ancestries_are_cones(c, seed, k, anchored, first_id, j, w);
        }
    }
}

proof fn lengths(c: PCircuit, k: nat, first_id: int, g: nat)
    requires
        in_range(c),
        g <= c.gates@.len(),
    ensures
        ancestries(c, k, first_id, g).len() == c.n_wires,
    decreases g,
{
    if g > 0 {
        lengths(c, k, first_id, (g - 1) as nat);
    }
}

/// One streaming pass finds what deriving finds: for every gate, the anchors in the
/// ancestries of its inputs are as many as deriving the inputs draws, and the gates as
/// many as it expands.
pub proof fn streaming_matches_derive(
    c: PCircuit,
    seed: Seq<u8>,
    k: nat,
    anchored: Seq<bool>,
    first_id: int,
    g: int,
)
    requires
        well_formed(c),
        planned(c, k, anchored),
        numbers_fit(c, first_id),
        0 <= g < c.gates@.len(),
    ensures
        ({
            let table = anchored_garbling(c, seed, anchored).gate_of_wire;
            let walk = gate_walk(c, seed, anchored, table, g);
            let s = ancestries(c, k, first_id, g as nat);
            let (x, y) = (s[c.gates@[g].a as int], s[c.gates@[g].b as int]);
            &&& gate_anchors(x, y).len() == walk.anchors
            &&& gate_xors(x, y).len() == walk.xors
        }),
{
    let table = anchored_garbling(c, seed, anchored).gate_of_wire;
    let gate = c.gates@[g];
    assert(available(c, g, gate.a) && available(c, g, gate.b));
    garbling_orders_gate(c, seed, anchored, g);
    garbling_orders_wires(c, seed, anchored);
    ancestries_are_cones(c, seed, k, anchored, first_id, g as nat, gate.a);
    ancestries_are_cones(c, seed, k, anchored, first_id, g as nat, gate.b);
    joined_counts(
        c,
        seed,
        anchored,
        first_id,
        g,
        ancestries(c, k, first_id, g as nat)[gate.a as int],
        ancestries(c, k, first_id, g as nat)[gate.b as int],
    );
    gate_walk_cost(c, seed, anchored, table, g);
}

} // verus!
