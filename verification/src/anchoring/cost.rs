//! What deriving the inputs of a gate costs.

use crate::anchoring::circuit::PCircuit;
use crate::anchoring::derive::{closed_wire, deepened, ordered, rank, resolvable, visited, Walk};
use crate::anchoring::garble::anchor_gate;
use crate::s::S;
use vstd::prelude::*;
use vstd::set_lib::{lemma_int_range, lemma_len_subset, set_int_range};

verus! {

/// Whether wire `w` is drawn and not expanded: it is an input or the output of an
/// anchored gate.
pub open spec fn drawn(c: PCircuit, anchored: Seq<bool>, table: Seq<Option<usize>>, w: int) -> bool {
    w < c.n_in || anchor_gate(c, anchored, table[w]->0 as int)
}

/// The wires that wire `w` is derived through, itself among them, down to the
/// drawn wires.
pub open spec fn cone(
    c: PCircuit,
    anchored: Seq<bool>,
    table: Seq<Option<usize>>,
    w: int,
) -> Set<int>
    decreases rank(c, table, w),
{
    let gate = c.gates@[table[w]->0 as int];
    if drawn(c, anchored, table, w) || rank(c, table, gate.a as int) >= rank(c, table, w) || rank(
        c,
        table,
        gate.b as int,
    ) >= rank(c, table, w) {
        set![w]
    } else {
        cone(c, anchored, table, gate.a as int).union(
            cone(c, anchored, table, gate.b as int),
        ).insert(w)
    }
}

/// The wires of `wires` that are drawn.
pub open spec fn drawn_of(
    c: PCircuit,
    anchored: Seq<bool>,
    table: Seq<Option<usize>>,
    wires: Set<int>,
) -> Set<int> {
    wires.filter(|w: int| drawn(c, anchored, table, w))
}

/// The wires of `wires` that are expanded.
pub open spec fn expanded_of(
    c: PCircuit,
    anchored: Seq<bool>,
    table: Seq<Option<usize>>,
    wires: Set<int>,
) -> Set<int> {
    wires.filter(|w: int| !drawn(c, anchored, table, w))
}

/// The wires whose label is known.
pub open spec fn known(c: PCircuit, memo: Seq<Option<S>>) -> Set<int> {
    set_int_range(0, c.n_wires as int).filter(|w: int| memo[w] is Some)
}

/// Whether every wire that a known wire is derived through is known.
pub open spec fn memo_closed(
    c: PCircuit,
    anchored: Seq<bool>,
    table: Seq<Option<usize>>,
    memo: Seq<Option<S>>,
) -> bool {
    forall|w: int| #[trigger]
        known(c, memo).contains(w) ==> cone(c, anchored, table, w).subset_of(known(c, memo))
}

/// The wires of a cone are wires of the circuit and rank no higher than its top;
/// the cone of each of them lies within it.
pub proof fn cone_shape(
    c: PCircuit,
    anchored: Seq<bool>,
    table: Seq<Option<usize>>,
    w: int,
)
    requires
        resolvable(c, table, w),
        ordered(c, anchored, table),
    ensures
        cone(c, anchored, table, w).subset_of(set_int_range(0, c.n_wires as int)),
        cone(c, anchored, table, w).finite(),
        forall|v: int| #[trigger]
            cone(c, anchored, table, w).contains(v) ==> rank(c, table, v) <= rank(c, table, w)
                && resolvable(c, table, v) && cone(c, anchored, table, v).subset_of(
                cone(c, anchored, table, w),
            ),
    decreases rank(c, table, w),
{
    lemma_int_range(0, c.n_wires as int);
    let top = cone(c, anchored, table, w);
    let gate = c.gates@[table[w]->0 as int];
    if !drawn(c, anchored, table, w) {
        cone_shape(c, anchored, table, gate.a as int);
        cone_shape(c, anchored, table, gate.b as int);
    }
    assert forall|v: int| #[trigger] top.contains(v) implies rank(c, table, v) <= rank(c, table, w)
        && resolvable(c, table, v) && cone(c, anchored, table, v).subset_of(top) by {
        if v != w {
            let a = cone(c, anchored, table, gate.a as int);
            let b = cone(c, anchored, table, gate.b as int);
            assert(a.contains(v) || b.contains(v));
        }
    }
}

/// Deriving a wire makes the wires of its cone known, draws each drawn wire among
/// them that was not known, and expands each of the others once.
#[verifier::rlimit(40)]
pub proof fn visited_cost(
    c: PCircuit,
    seed: Seq<u8>,
    anchored: Seq<bool>,
    table: Seq<Option<usize>>,
    w: int,
    below: nat,
    s: Walk,
)
    requires
        resolvable(c, table, w),
        ordered(c, anchored, table),
        s.memo.len() >= c.n_wires,
        memo_closed(c, anchored, table, s.memo),
    ensures
        ({
            let r = visited(c, seed, anchored, table, w, below, s);
            let (k0, k1) = (known(c, s.memo), known(c, r.memo));
            &&& r.memo.len() == s.memo.len()
            &&& k1 == k0.union(cone(c, anchored, table, w))
            &&& memo_closed(c, anchored, table, r.memo)
            &&& r.anchors - s.anchors == drawn_of(c, anchored, table, k1).len() - drawn_of(
                c,
                anchored,
                table,
                k0,
            ).len()
            &&& r.xors - s.xors == expanded_of(c, anchored, table, k1).len() - expanded_of(
                c,
                anchored,
                table,
                k0,
            ).len()
        }),
    decreases rank(c, table, w),
{
    let r = visited(c, seed, anchored, table, w, below, s);
    let (k0, k1) = (known(c, s.memo), known(c, r.memo));
    let top = cone(c, anchored, table, w);
    lemma_int_range(0, c.n_wires as int);
    lemma_len_subset(k0, set_int_range(0, c.n_wires as int));
    cone_shape(c, anchored, table, w);
    if s.memo[w] is Some {
        assert(k0.contains(w));
        assert(k1 =~= k0);
        assert(k0.union(top) =~= k0);
    } else if drawn(c, anchored, table, w) {
        assert(k1 =~= k0.insert(w));
        assert(k0.union(top) =~= k0.insert(w));
        assert(drawn_of(c, anchored, table, k1) =~= drawn_of(c, anchored, table, k0).insert(w));
        assert(expanded_of(c, anchored, table, k1) =~= expanded_of(c, anchored, table, k0));
        closed_after(c, anchored, table, k0, k1, w);
    } else {
        let gate = c.gates@[table[w]->0 as int];
        let (a, b) = (gate.a as int, gate.b as int);
        let d = deepened(s, below);
        let s0 = Walk { xors: d.xors + 1, ..d };
        let s1 = visited(c, seed, anchored, table, b, below + 2, s0);
        let s2 = visited(c, seed, anchored, table, a, below + 1, s1);
        visited_cost(c, seed, anchored, table, b, below + 2, s0);
        visited_cost(c, seed, anchored, table, a, below + 1, s1);
        cone_shape(c, anchored, table, a);
        cone_shape(c, anchored, table, b);
        let k = known(c, s2.memo);
        let (ca, cb) = (cone(c, anchored, table, a), cone(c, anchored, table, b));
        assert(k == k0.union(cb).union(ca));
        assert(!k.contains(w));
        assert(s2.memo[w] is None);
        assert(r == closed_wire(c, seed, table, w, below, s2));
        lemma_len_subset(k, set_int_range(0, c.n_wires as int));
        assert(k1 =~= k.insert(w));
        assert(k0.union(top) =~= k1);
        assert(expanded_of(c, anchored, table, k1) =~= expanded_of(c, anchored, table, k).insert(w));
        assert(drawn_of(c, anchored, table, k1) =~= drawn_of(c, anchored, table, k));
        closed_after(c, anchored, table, k0, k1, w);
    }
}

/// Adding a whole cone to a closed set of known wires keeps it closed.
proof fn closed_after(
    c: PCircuit,
    anchored: Seq<bool>,
    table: Seq<Option<usize>>,
    k0: Set<int>,
    k1: Set<int>,
    w: int,
)
    requires
        resolvable(c, table, w),
        ordered(c, anchored, table),
        forall|v: int| #[trigger] k0.contains(v) ==> cone(c, anchored, table, v).subset_of(k0),
        k1 == k0.union(cone(c, anchored, table, w)),
    ensures
        forall|v: int| #[trigger] k1.contains(v) ==> cone(c, anchored, table, v).subset_of(k1),
{
    cone_shape(c, anchored, table, w);
}

/// Deriving the first wire from nothing draws no more wires, and expands no more,
/// than the circuit has.
pub proof fn visited_cost_bounded(
    c: PCircuit,
    seed: Seq<u8>,
    anchored: Seq<bool>,
    table: Seq<Option<usize>>,
    w: int,
    below: nat,
    s: Walk,
)
    requires
        resolvable(c, table, w),
        ordered(c, anchored, table),
        s.memo.len() >= c.n_wires,
        forall|v: int| 0 <= v < c.n_wires ==> (#[trigger] s.memo[v]) is None,
    ensures
        visited(c, seed, anchored, table, w, below, s).anchors <= s.anchors + c.n_wires,
        visited(c, seed, anchored, table, w, below, s).xors <= s.xors + c.n_wires,
{
    let r = visited(c, seed, anchored, table, w, below, s);
    lemma_int_range(0, c.n_wires as int);
    assert(known(c, s.memo) =~= Set::empty());
    visited_cost(c, seed, anchored, table, w, below, s);
    assert(drawn_of(c, anchored, table, known(c, s.memo)) =~= Set::empty());
    assert(expanded_of(c, anchored, table, known(c, s.memo)) =~= Set::empty());
    lemma_len_subset(
        drawn_of(c, anchored, table, known(c, r.memo)),
        set_int_range(0, c.n_wires as int),
    );
    lemma_len_subset(
        expanded_of(c, anchored, table, known(c, r.memo)),
        set_int_range(0, c.n_wires as int),
    );
}

} // verus!
