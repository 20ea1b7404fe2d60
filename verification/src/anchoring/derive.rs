//! Deriving the label of any wire from the seed and the public wiring.

use crate::anchoring::circuit::PCircuit;
use crate::anchoring::garble::{anchor_gate, covers, is_anchor_gate};
use crate::anchoring::plan::AnchorPlan;
use crate::anchoring::prf::{
    anchor_label, delta_of, input_label, label0, seed_anchors, seed_delta, AnchorPrf,
};
use crate::gate::{free, Delta, GateType};
use crate::halfgates::garbled;
use crate::hashers::LabelHash;
use crate::s::{xor, S};
use vstd::prelude::*;

verus! {

/// What deriving has cost.
#[derive(Clone, Copy, Debug, PartialEq, Eq, Structural)]
pub struct DeriveStats {
    /// Input labels and anchors drawn.
    pub anchors_touched: usize,
    /// Free gates expanded.
    pub xor_nodes_visited: usize,
    /// The largest number of wires that were waiting.
    pub max_depth: usize,
}

impl Default for DeriveStats {
    fn default() -> (r: DeriveStats)
        ensures
            r == (DeriveStats { anchors_touched: 0, xor_nodes_visited: 0, max_depth: 0 }),
    {
        DeriveStats { anchors_touched: 0, xor_nodes_visited: 0, max_depth: 0 }
    }
}

/// How far a wire is from the inputs: zero for an input, else one more than the
/// number that the table gives for it.
pub open spec fn rank(c: PCircuit, table: Seq<Option<usize>>, w: int) -> nat {
    if w < c.n_in {
        0
    } else {
        match table[w] {
            Some(g) => (g + 1) as nat,
            None => 0,
        }
    }
}

/// Whether wire `w` is an input or the table gives a gate for it.
pub open spec fn resolvable(c: PCircuit, table: Seq<Option<usize>>, w: int) -> bool {
    &&& 0 <= w < c.n_wires
    &&& w < table.len()
    &&& w < c.n_in || (table[w] is Some && table[w]->0 < c.gates@.len())
}

/// Whether every free gate that is not anchored and that the table gives for a
/// wire reads wires that can be resolved and rank lower.
pub open spec fn ordered(c: PCircuit, anchored: Seq<bool>, table: Seq<Option<usize>>) -> bool {
    forall|w: int|
        c.n_in <= w && #[trigger] resolvable(c, table, w) && !anchor_gate(
            c,
            anchored,
            table[w]->0 as int,
        ) ==> {
            let gate = c.gates@[table[w]->0 as int];
            &&& resolvable(c, table, gate.a as int)
            &&& resolvable(c, table, gate.b as int)
            &&& rank(c, table, gate.a as int) < rank(c, table, w)
            &&& rank(c, table, gate.b as int) < rank(c, table, w)
        }
}

/// The output label for false of a free gate.
pub open spec fn free_output(t: GateType, a: S, b: S, delta: Delta) -> S {
    match t {
        GateType::Xor => xor(a, b),
        GateType::Xnor => xor(xor(a, b), delta.0),
        _ => xor(a, delta.0),
    }
}

/// The false label of wire `w`: that of an input, the anchor of an anchored gate,
/// or the output of a free gate on the labels of its inputs.
pub open spec fn wire_label(
    c: PCircuit,
    seed: Seq<u8>,
    anchored: Seq<bool>,
    table: Seq<Option<usize>>,
    w: int,
) -> S
    decreases rank(c, table, w),
{
    if w < c.n_in {
        input_label(seed, w)
    } else {
        let g = table[w]->0 as int;
        let gate = c.gates@[g];
        if anchor_gate(c, anchored, g) || rank(c, table, gate.a as int) >= rank(c, table, w)
            || rank(c, table, gate.b as int) >= rank(c, table, w) {
            anchor_label(seed, free(gate.t), g)
        } else {
            free_output(
                gate.t,
                wire_label(c, seed, anchored, table, gate.a as int),
                wire_label(c, seed, anchored, table, gate.b as int),
                seed_delta(seed),
            )
        }
    }
}

/// Labels found so far and the cost of finding them.
pub struct Walk {
    pub memo: Seq<Option<S>>,
    pub anchors: nat,
    pub xors: nat,
    pub depth: nat,
}

/// `s` after `below` wires were seen waiting.
pub open spec fn deepened(s: Walk, below: nat) -> Walk {
    Walk {
        depth: if s.depth < below {
            below
        } else {
            s.depth
        },
        ..s
    }
}

/// `s` after the label of free gate output `w` was put together from its inputs.
pub open spec fn closed_wire(
    c: PCircuit,
    seed: Seq<u8>,
    table: Seq<Option<usize>>,
    w: int,
    below: nat,
    s: Walk,
) -> Walk {
    let gate = c.gates@[table[w]->0 as int];
    let s = deepened(s, below);
    if s.memo[w] is Some {
        s
    } else {
        Walk {
            memo: s.memo.update(
                w,
                Some(
                    free_output(
                        gate.t,
                        s.memo[gate.a as int]->0,
                        s.memo[gate.b as int]->0,
                        seed_delta(seed),
                    ),
                ),
            ),
            ..s
        }
    }
}

/// `s` after wire `w` was derived while `below` others were waiting: a wire that
/// is known costs nothing, an input or an anchor is drawn, and a free gate is
/// expanded once, its second input first.
pub open spec fn visited(
    c: PCircuit,
    seed: Seq<u8>,
    anchored: Seq<bool>,
    table: Seq<Option<usize>>,
    w: int,
    below: nat,
    s: Walk,
) -> Walk
    decreases rank(c, table, w),
{
    let s = deepened(s, below);
    if s.memo[w] is Some {
        s
    } else if w < c.n_in {
        Walk {
            memo: s.memo.update(w, Some(input_label(seed, w))),
            anchors: s.anchors + 1,
            ..s
        }
    } else {
        let g = table[w]->0 as int;
        let gate = c.gates@[g];
        if anchor_gate(c, anchored, g) || rank(c, table, gate.a as int) >= rank(c, table, w)
            || rank(c, table, gate.b as int) >= rank(c, table, w) {
            Walk {
                memo: s.memo.update(w, Some(anchor_label(seed, free(gate.t), g))),
                anchors: s.anchors + 1,
                ..s
            }
        } else {
            let s1 = visited(
                c,
                seed,
                anchored,
                table,
                gate.b as int,
                below + 2,
                Walk { xors: s.xors + 1, ..s },
            );
            let s2 = visited(c, seed, anchored, table, gate.a as int, below + 1, s1);
            closed_wire(c, seed, table, w, below, s2)
        }
    }
}

/// Whether every label in the memo is the label of its wire.
pub open spec fn memo_agrees(
    c: PCircuit,
    seed: Seq<u8>,
    anchored: Seq<bool>,
    table: Seq<Option<usize>>,
    memo: Seq<Option<S>>,
) -> bool {
    forall|v: int|
        0 <= v < c.n_wires && (#[trigger] memo[v]) is Some ==> memo[v]->0 == wire_label(
            c,
            seed,
            anchored,
            table,
            v,
        )
}

/// `s` after the waiting wires of `stack` were worked off from its end.
spec fn finished(
    c: PCircuit,
    seed: Seq<u8>,
    anchored: Seq<bool>,
    table: Seq<Option<usize>>,
    stack: Seq<(usize, bool)>,
    s: Walk,
) -> Walk
    decreases stack.len(),
{
    if stack.len() == 0 {
        s
    } else {
        let rest = stack.drop_last();
        let (cur, expanded) = stack.last();
        finished(
            c,
            seed,
            anchored,
            table,
            rest,
            if expanded {
                closed_wire(c, seed, table, cur as int, rest.len(), s)
            } else {
                visited(c, seed, anchored, table, cur as int, rest.len(), s)
            },
        )
    }
}

/// Deriving a wire finds its label, keeps what was known, and finds only true
/// labels if it started from true labels.
pub proof fn visited_finds_label(
    c: PCircuit,
    seed: Seq<u8>,
    anchored: Seq<bool>,
    table: Seq<Option<usize>>,
    w: int,
    below: nat,
    s: Walk,
)
    requires
        resolvable(c, table, w),
        ordered(c, anchored, table),
        s.memo.len() >= c.n_wires,
    ensures
        ({
            let r = visited(c, seed, anchored, table, w, below, s);
            &&& r.memo.len() == s.memo.len()
            &&& r.memo[w] is Some
            &&& forall|v: int|
                0 <= v < s.memo.len() && (#[trigger] s.memo[v]) is Some ==> r.memo[v] == s.memo[v]
            &&& memo_agrees(c, seed, anchored, table, s.memo) ==> memo_agrees(
                c,
                seed,
                anchored,
                table,
                r.memo,
            )
            &&& memo_agrees(c, seed, anchored, table, s.memo) ==> r.memo[w] == Some(
                wire_label(c, seed, anchored, table, w),
            )
        }),
    decreases rank(c, table, w),
{
    if s.memo[w] is None && w >= c.n_in && !anchor_gate(c, anchored, table[w]->0 as int) {
        let gate = c.gates@[table[w]->0 as int];
        let d = deepened(s, below);
        let s0 = Walk { xors: d.xors + 1, ..d };
        let s1 = visited(c, seed, anchored, table, gate.b as int, below + 2, s0);
        let s2 = visited(c, seed, anchored, table, gate.a as int, below + 1, s1);
        visited_finds_label(c, seed, anchored, table, gate.b as int, below + 2, s0);
        visited_finds_label(c, seed, anchored, table, gate.a as int, below + 1, s1);
        let r = visited(c, seed, anchored, table, w, below, s);
        assert(r == closed_wire(c, seed, table, w, below, s2));
        assert(s1.memo[gate.b as int] is Some);
        assert(s2.memo[gate.b as int] == s1.memo[gate.b as int]);
        if memo_agrees(c, seed, anchored, table, s.memo) {
            assert(memo_agrees(c, seed, anchored, table, s0.memo));
            assert(memo_agrees(c, seed, anchored, table, s2.memo));
            assert(r.memo[w] == Some(wire_label(c, seed, anchored, table, w)));
        }
        assert forall|v: int| 0 <= v < s.memo.len() && (#[trigger] s.memo[v]) is Some implies
            r.memo[v] == s.memo[v] by {
            assert(s0.memo[v] is Some);
            assert(s1.memo[v] is Some);
        }
    }
}

/// Whether wire `v` stands in the stack above position `i`.
spec fn waits_above(stack: Seq<(usize, bool)>, i: int, v: usize) -> bool {
    exists|j: int| i < j < stack.len() && (#[trigger] stack[j]).0 == v
}

/// Derives the false label of wire `w`. `memo` holds the labels that are known
/// and takes those that are found; `st` counts what finding them costs.
#[verifier::rlimit(40)]
pub fn derive(
    c: &PCircuit,
    seed: &[u8; 32],
    gate_of_wire: &[Option<usize>],
    plan: &AnchorPlan,
    w: usize,
    memo: &mut Vec<Option<S>>,
    st: &mut DeriveStats,
) -> (r: S)
    requires
        resolvable(*c, gate_of_wire@, w as int),
        covers(*c, plan.anchored@),
        ordered(*c, plan.anchored@, gate_of_wire@),
        old(memo)@.len() >= c.n_wires,
        old(st).anchors_touched + c.n_wires <= usize::MAX,
        old(st).xor_nodes_visited + c.n_wires <= usize::MAX,
    ensures
        ({
            let walk = visited(
                *c,
                seed@,
                plan.anchored@,
                gate_of_wire@,
                w as int,
                0,
                Walk {
                    memo: old(memo)@,
                    anchors: old(st).anchors_touched as nat,
                    xors: old(st).xor_nodes_visited as nat,
                    depth: old(st).max_depth as nat,
                },
            );
            &&& final(memo)@ == walk.memo
            &&& final(st).anchors_touched == walk.anchors
            &&& final(st).xor_nodes_visited == walk.xors
            &&& final(st).max_depth == walk.depth
            &&& walk.memo[w as int] == Some(r)
        }),
        memo_agrees(*c, seed@, plan.anchored@, gate_of_wire@, old(memo)@) ==> r == wire_label(
            *c,
            seed@,
            plan.anchored@,
            gate_of_wire@,
            w as int,
        ) && memo_agrees(*c, seed@, plan.anchored@, gate_of_wire@, final(memo)@),
{
    let delta = delta_of(seed);
    let ap = AnchorPrf::new(seed);
    let ghost table = gate_of_wire@;
    let ghost anchored = plan.anchored@;
    let ghost start = Walk {
        memo: memo@,
        anchors: st.anchors_touched as nat,
        xors: st.xor_nodes_visited as nat,
        depth: st.max_depth as nat,
    };
    let ghost goal = visited(*c, seed@, anchored, table, w as int, 0, start);
    proof {
        visited_finds_label(*c, seed@, anchored, table, w as int, 0, start);
    }
    let mut open: Vec<bool> = Vec::new();
    let mut i: usize = 0;
    while i < c.n_wires
        invariant
            i <= c.n_wires,
            open@.len() == i,
            forall|v: int| 0 <= v < i ==> !#[trigger] open@[v],
        decreases c.n_wires - i,
    {
        open.push(false);
        i = i + 1;
    }
    let mut stack: Vec<(usize, bool)> = Vec::new();
    stack.push((w, false));
    let ghost mut opened: Set<int> = Set::empty();
    let ghost mut found: Set<int> = Set::empty();
    proof {
        assert(stack@.drop_last() =~= Seq::<(usize, bool)>::empty());
        reveal_with_fuel(finished, 3);
    }
    while stack.len() > 0
        invariant
            delta == seed_delta(seed@),
            ap == seed_anchors(seed@),
            table == gate_of_wire@,
            anchored == plan.anchored@,
            covers(*c, anchored),
            ordered(*c, anchored, table),
            open@.len() == c.n_wires,
            memo@.len() >= c.n_wires,
            goal == finished(
                *c,
                seed@,
                anchored,
                table,
                stack@,
                Walk {
                    memo: memo@,
                    anchors: st.anchors_touched as nat,
                    xors: st.xor_nodes_visited as nat,
                    depth: st.max_depth as nat,
                },
            ),
            opened.finite(),
            opened.subset_of(vstd::set_lib::set_int_range(0, c.n_wires as int)),
            forall|v: int|
                0 <= v < c.n_wires ==> (opened.contains(v) <==> #[trigger] open@[v]),
            st.xor_nodes_visited == start.xors + opened.len(),
            start.xors + c.n_wires <= usize::MAX,
            found.finite(),
            found.subset_of(vstd::set_lib::set_int_range(0, c.n_wires as int)),
            forall|v: int| found.contains(v) ==> (#[trigger] memo@[v]) is Some,
            st.anchors_touched <= start.anchors + found.len(),
            start.anchors + c.n_wires <= usize::MAX,
            forall|j: int|
                0 <= j < stack@.len() ==> resolvable(*c, table, (#[trigger] stack@[j]).0 as int),
            forall|j: int|
                0 <= j < stack@.len() && (#[trigger] stack@[j]).1 ==> stack@[j].0 >= c.n_in
                    && !anchor_gate(*c, anchored, table[stack@[j].0 as int]->0 as int),
            forall|j: int, m: int|
                0 <= j < m < stack@.len() && (#[trigger] stack@[j]).1 ==> rank(
                    *c,
                    table,
                    (#[trigger] stack@[m]).0 as int,
                ) < rank(*c, table, stack@[j].0 as int),
            forall|v: int|
                0 <= v < c.n_wires && #[trigger] open@[v] && memo@[v] is None ==> exists|j: int|
                    0 <= j < stack@.len() && #[trigger] stack@[j] == (v as usize, true),
            forall|j: int|
                0 <= j < stack@.len() && (#[trigger] stack@[j]).1 ==> {
                    let gate = c.gates@[table[stack@[j].0 as int]->0 as int];
                    &&& memo@[gate.a as int] is Some || waits_above(stack@, j, gate.a)
                    &&& memo@[gate.b as int] is Some || waits_above(stack@, j, gate.b)
                },
        decreases c.n_wires - opened.len(), stack@.len(),
    {
        let ghost stack0 = stack@;
        let ghost memo0 = memo@;
        let ghost opened0 = opened;
        let ghost walk0 = Walk {
            memo: memo@,
            anchors: st.anchors_touched as nat,
            xors: st.xor_nodes_visited as nat,
            depth: st.max_depth as nat,
        };
        proof {
            vstd::set_lib::lemma_int_range(0, c.n_wires as int);
            vstd::set_lib::lemma_len_subset(
                opened,
                vstd::set_lib::set_int_range(0, c.n_wires as int),
            );
            vstd::set_lib::lemma_len_subset(
                found,
                vstd::set_lib::set_int_range(0, c.n_wires as int),
            );
        }
        let top = match stack.pop() {
            Some(t) => t,
            None => (w, false),
        };
        let (cur, expanded) = top;
        proof {
            assert(stack0.last() == top);
            assert(stack@ =~= stack0.drop_last());
            assert(stack0[stack0.len() - 1] == top);
        }
        if st.max_depth < stack.len() {
            st.max_depth = stack.len();
        }
        if memo[cur].is_some() {
            proof {
                assert forall|v: int|
                    0 <= v < c.n_wires && #[trigger] open@[v] && memo@[v] is None implies exists|
                    j: int,
                |
                    0 <= j < stack@.len() && #[trigger] stack@[j] == (v as usize, true) by {
                    let j = choose|j: int|
                        0 <= j < stack0.len() && #[trigger] stack0[j] == (v as usize, true);
                    assert(stack@[j] == (v as usize, true));
                }
                pop_keeps_waiting(*c, table, stack0, stack@, memo@);
            }
            continue ;
        }
        proof {
            assert(!found.contains(cur as int));
            vstd::set_lib::lemma_len_subset(
                found.insert(cur as int),
                vstd::set_lib::set_int_range(0, c.n_wires as int),
            );
        }
        if cur < c.n_in {
            st.anchors_touched = st.anchors_touched + 1;
            let l = label0(seed, cur);
            memo[cur] = Some(l);
            proof {
                found = found.insert(cur as int);
                pop_keeps_open(*c, stack0, stack@, memo0, memo@, open@);
                pop_keeps_waiting(*c, table, stack0, stack@, memo@);
            }
            continue ;
        }
        let g: usize = match gate_of_wire[cur] {
            Some(g) => g,
            None => 0,
        };
        assert(table[cur as int] == Some(g));
        if is_anchor_gate(c, plan, g) {
            st.anchors_touched = st.anchors_touched + 1;
            memo[cur] = Some(ap.of(c, g));
            proof {
                found = found.insert(cur as int);
                pop_keeps_open(*c, stack0, stack@, memo0, memo@, open@);
                pop_keeps_waiting(*c, table, stack0, stack@, memo@);
            }
            continue ;
        }
        let gate = c.gates[g];
        if !expanded {
            if open[cur] {
                proof {
                    let j = choose|j: int|
                        0 <= j < stack0.len() && #[trigger] stack0[j] == (cur, true);
                    assert(j < stack0.len() - 1);
                    assert(rank(*c, table, stack0[stack0.len() - 1].0 as int) < rank(
                        *c,
                        table,
                        stack0[j].0 as int,
                    ));
                    assert(false);
                }
                continue ;
            }
            proof {
                assert(!opened.contains(cur as int));
                vstd::set_lib::lemma_len_subset(
                    opened.insert(cur as int),
                    vstd::set_lib::set_int_range(0, c.n_wires as int),
                );
            }
            open[cur] = true;
            st.xor_nodes_visited = st.xor_nodes_visited + 1;
            stack.push((cur, true));
            stack.push((gate.a, false));
            stack.push((gate.b, false));
            proof {
                opened = opened.insert(cur as int);
                let n = stack0.len() - 1;
                let s1 = stack@.drop_last();
                let s2 = s1.drop_last();
                let s3 = s2.drop_last();
                assert(s3 =~= stack0.drop_last());
                assert(stack@.last() == (gate.b, false));
                assert(s1.last() == (gate.a, false));
                assert(s2.last() == (cur, true));
                assert(resolvable(*c, table, cur as int));
                reveal_with_fuel(finished, 4);
                assert forall|j: int|
                    0 <= j < stack@.len() && (#[trigger] stack@[j]).1 implies ({
                    let gt = c.gates@[table[stack@[j].0 as int]->0 as int];
                    &&& memo@[gt.a as int] is Some || waits_above(stack@, j, gt.a)
                    &&& memo@[gt.b as int] is Some || waits_above(stack@, j, gt.b)
                }) by {
                    let gt = c.gates@[table[stack@[j].0 as int]->0 as int];
                    if j < n {
                        assert(stack0[j] == stack@[j]);
                        if memo@[gt.a as int] is None {
                            let m = choose|m: int|
                                j < m < stack0.len() && (#[trigger] stack0[m]).0 == gt.a;
                            assert(stack@[m].0 == gt.a);
                        }
                        if memo@[gt.b as int] is None {
                            let m = choose|m: int|
                                j < m < stack0.len() && (#[trigger] stack0[m]).0 == gt.b;
                            assert(stack@[m].0 == gt.b);
                        }
                    } else {
                        assert(stack@[n + 1].0 == gate.a);
                        assert(stack@[n + 2].0 == gate.b);
                    }
                }
                assert forall|v: int|
                    0 <= v < c.n_wires && #[trigger] open@[v] && memo@[v] is None implies exists|
                    j: int,
                |
                    0 <= j < stack@.len() && #[trigger] stack@[j] == (v as usize, true) by {
                    if v == cur {
                        assert(stack@[n] == (v as usize, true));
                    } else {
                        let j = choose|j: int|
                            0 <= j < stack0.len() && #[trigger] stack0[j] == (v as usize, true);
                        assert(stack@[j] == (v as usize, true));
                    }
                }
                assert forall|j: int, m: int|
                    0 <= j < m < stack@.len() && (#[trigger] stack@[j]).1 implies rank(
                    *c,
                    table,
                    (#[trigger] stack@[m]).0 as int,
                ) < rank(*c, table, stack@[j].0 as int) by {
                    if j < n {
                        assert(stack0[j] == stack@[j]);
                        assert(rank(*c, table, stack0[n].0 as int) < rank(
                            *c,
                            table,
                            stack0[j].0 as int,
                        ));
                        if m < n {
                            assert(stack0[m] == stack@[m]);
                        }
                    }
                }
            }
            continue ;
        }
        proof {
            let j = stack0.len() - 1;
            assert(stack0[j].1);
            assert(!waits_above(stack0, j, gate.a));
            assert(!waits_above(stack0, j, gate.b));
        }
        let a = match memo[gate.a] {
            Some(x) => x,
            None => S::zero(),
        };
        let b = match memo[gate.b] {
            Some(x) => x,
            None => S::zero(),
        };
        let out = match gate.t {
            GateType::Xor => S::xor(a, b),
            GateType::Xnor => S::xor(S::xor(a, b), delta.0),
            _ => S::xor(a, delta.0),
        };
        memo[cur] = Some(out);
        proof {
            pop_keeps_open(*c, stack0, stack@, memo0, memo@, open@);
            pop_keeps_waiting(*c, table, stack0, stack@, memo@);
        }
    }
    match memo[w] {
        Some(x) => x,
        None => S::zero(),
    }
}

/// Taking the top off the stack once its wire has a label keeps every opened wire
/// without a label in the stack.
proof fn pop_keeps_open(
    c: PCircuit,
    stack0: Seq<(usize, bool)>,
    stack: Seq<(usize, bool)>,
    memo0: Seq<Option<S>>,
    memo: Seq<Option<S>>,
    open: Seq<bool>,
)
    requires
        stack0.len() > 0,
        stack == stack0.drop_last(),
        0 <= stack0.last().0 < memo0.len(),
        memo == memo0.update(stack0.last().0 as int, memo[stack0.last().0 as int]),
        memo[stack0.last().0 as int] is Some,
        forall|v: int|
            0 <= v < c.n_wires && #[trigger] open[v] && memo0[v] is None ==> exists|j: int|
                0 <= j < stack0.len() && #[trigger] stack0[j] == (v as usize, true),
        memo0.len() >= c.n_wires,
    ensures
        forall|v: int|
            0 <= v < c.n_wires && #[trigger] open[v] && memo[v] is None ==> exists|j: int|
                0 <= j < stack.len() && #[trigger] stack[j] == (v as usize, true),
{
    assert forall|v: int| 0 <= v < c.n_wires && #[trigger] open[v] && memo[v] is None implies exists|
        j: int,
    |
        0 <= j < stack.len() && #[trigger] stack[j] == (v as usize, true) by {
        let j = choose|j: int| 0 <= j < stack0.len() && #[trigger] stack0[j] == (v as usize, true);
        assert(j < stack.len());
        assert(stack[j] == (v as usize, true));
    }
}

/// Taking the top off the stack once its wire has a label keeps the inputs of
/// every expanded gate known or waiting above it.
proof fn pop_keeps_waiting(
    c: PCircuit,
    table: Seq<Option<usize>>,
    stack0: Seq<(usize, bool)>,
    stack: Seq<(usize, bool)>,
    memo: Seq<Option<S>>,
)
    requires
        stack0.len() > 0,
        stack == stack0.drop_last(),
        memo[stack0.last().0 as int] is Some,
        forall|j: int|
            0 <= j < stack.len() && (#[trigger] stack0[j]).1 ==> {
                let gate = c.gates@[table[stack0[j].0 as int]->0 as int];
                &&& memo[gate.a as int] is Some || waits_above(stack0, j, gate.a)
                &&& memo[gate.b as int] is Some || waits_above(stack0, j, gate.b)
            },
    ensures
        forall|j: int|
            0 <= j < stack.len() && (#[trigger] stack[j]).1 ==> {
                let gate = c.gates@[table[stack[j].0 as int]->0 as int];
                &&& memo[gate.a as int] is Some || waits_above(stack, j, gate.a)
                &&& memo[gate.b as int] is Some || waits_above(stack, j, gate.b)
            },
{
    assert forall|j: int| 0 <= j < stack.len() && (#[trigger] stack[j]).1 implies ({
        let gate = c.gates@[table[stack[j].0 as int]->0 as int];
        &&& memo[gate.a as int] is Some || waits_above(stack, j, gate.a)
        &&& memo[gate.b as int] is Some || waits_above(stack, j, gate.b)
    }) by {
        assert(stack0[j] == stack[j]);
        let gate = c.gates@[table[stack[j].0 as int]->0 as int];
        if memo[gate.a as int] is None {
            let m = choose|m: int| j < m < stack0.len() && (#[trigger] stack0[m]).0 == gate.a;
            assert(stack[m].0 == gate.a);
        }
        if memo[gate.b as int] is None {
            let m = choose|m: int| j < m < stack0.len() && (#[trigger] stack0[m]).0 == gate.b;
            assert(stack[m].0 == gate.b);
        }
    }
}

/// How deep the stack of waiting wires gets: at least as deep as it was, two deeper to
/// expand a free gate whose label is not known, and no deeper than two for each gate that
/// can come before the wire.
pub proof fn depth_is_of_waiting_wires(
    c: PCircuit,
    seed: Seq<u8>,
    anchored: Seq<bool>,
    table: Seq<Option<usize>>,
    w: int,
    below: nat,
    s: Walk,
)
    requires
        resolvable(c, table, w),
        ordered(c, anchored, table),
        s.memo.len() >= c.n_wires,
    ensures
        ({
            let depth = visited(c, seed, anchored, table, w, below, s).depth;
            &&& depth >= s.depth
            &&& depth >= below
            &&& s.memo[w] is None && w >= c.n_in && !anchor_gate(c, anchored, table[w]->0 as int)
                ==> depth >= below + 2
            &&& depth <= s.depth || depth <= below + 2 * rank(c, table, w)
        }),
    decreases rank(c, table, w),
{
    if s.memo[w] is None && w >= c.n_in && !anchor_gate(c, anchored, table[w]->0 as int) {
        let gate = c.gates@[table[w]->0 as int];
        let t = deepened(s, below);
        let start = Walk { xors: t.xors + 1, ..t };
        depth_is_of_waiting_wires(c, seed, anchored, table, gate.b as int, below + 2, start);
        let s1 = visited(c, seed, anchored, table, gate.b as int, below + 2, start);
        visited_keeps_size(c, seed, anchored, table, gate.b as int, below + 2, start);
        depth_is_of_waiting_wires(c, seed, anchored, table, gate.a as int, below + 1, s1);
    }
}

proof fn visited_keeps_size(
    c: PCircuit,
    seed: Seq<u8>,
    anchored: Seq<bool>,
    table: Seq<Option<usize>>,
    w: int,
    below: nat,
    s: Walk,
)
    requires
        resolvable(c, table, w),
        ordered(c, anchored, table),
        s.memo.len() >= c.n_wires,
    ensures
        visited(c, seed, anchored, table, w, below, s).memo.len() == s.memo.len(),
    decreases rank(c, table, w),
{
    if s.memo[w] is None && w >= c.n_in {
        let gate = c.gates@[table[w]->0 as int];
        if !anchor_gate(c, anchored, table[w]->0 as int) {
            let t = deepened(s, below);
            let start = Walk { xors: t.xors + 1, ..t };
            visited_keeps_size(c, seed, anchored, table, gate.b as int, below + 2, start);
            let s1 = visited(c, seed, anchored, table, gate.b as int, below + 2, start);
            visited_keeps_size(c, seed, anchored, table, gate.a as int, below + 1, s1);
        }
    }
}

/// A free gate's output label that is put together from its inputs is the one that
/// garbling it gives.
pub proof fn free_output_is_garbled<H: LabelHash>(
    h: H,
    t: GateType,
    a: S,
    b: S,
    delta: Delta,
    gate_id: usize,
)
    requires
        free(t),
    ensures
        free_output(t, a, b, delta) == garbled(h, t, a, b, delta, gate_id).0,
{
}

} // verus!
