//! Circuits held as a list of gates over numbered wires.

use crate::gate::{free, GateType};
use vstd::prelude::*;

verus! {

/// A gate: wire `c` carries its function of wires `a` and `b`.
#[derive(Clone, Copy, Debug, PartialEq, Eq, Structural)]
pub struct PGate {
    pub t: GateType,
    pub a: usize,
    pub b: usize,
    pub c: usize,
}

/// A circuit whose input wires are `0..n_in`.
pub struct PCircuit {
    pub n_in: usize,
    pub n_wires: usize,
    pub gates: Vec<PGate>,
}

/// Whether every wire that the circuit names is one of its wires.
pub open spec fn in_range(c: PCircuit) -> bool {
    &&& c.n_in <= c.n_wires
    &&& forall|g: int|
        0 <= g < c.gates@.len() ==> (#[trigger] c.gates@[g]).a < c.n_wires && c.gates@[g].b
            < c.n_wires && c.gates@[g].c < c.n_wires
}

/// Whether wire `w` is an input or the output of a gate before gate `g`.
pub open spec fn available(c: PCircuit, g: int, w: usize) -> bool {
    w < c.n_in || exists|j: int| 0 <= j < g && (#[trigger] c.gates@[j]).c == w
}

/// Whether the gates are in topological order, each later wire is the output of
/// exactly one gate, and no gate writes an input wire.
pub open spec fn well_formed(c: PCircuit) -> bool {
    &&& in_range(c)
    &&& forall|g: int|
        0 <= g < c.gates@.len() ==> (#[trigger] c.gates@[g]).c >= c.n_in && available(
            c,
            g,
            c.gates@[g].a,
        ) && available(c, g, c.gates@[g].b)
    &&& forall|g: int, h: int|
        0 <= g < h < c.gates@.len() ==> (#[trigger] c.gates@[g]).c != (#[trigger] c.gates@[h]).c
}

/// The number of non-free gates among the first `n`.
pub open spec fn nonfree_count(gates: Seq<PGate>) -> nat
    decreases gates.len(),
{
    if gates.len() == 0 {
        0
    } else {
        nonfree_count(gates.drop_last()) + if free(gates.last().t) {
            0nat
        } else {
            1
        }
    }
}

/// The number of gates in one round of the synthetic circuit.
pub open spec fn round_len(xor_depth: int) -> int {
    xor_depth + 1
}

/// The output wire of the non-free gate of round `i` of the synthetic circuit.
pub open spec fn round_output(n_in: int, xor_depth: int, i: int) -> int {
    n_in + i * round_len(xor_depth) + xor_depth
}

/// Gate `d` of round `i` of the synthetic circuit: a chain of `xor_depth` XOR
/// gates that starts at the first round's output (at the first input, in the
/// first round) and takes in an earlier output and an input in turn, closed by an
/// AND gate with an earlier output.
pub open spec fn synthetic_gate(n_in: int, xor_depth: int, i: int, d: int) -> PGate {
    let c = n_in + i * round_len(xor_depth) + d;
    let a = if d > 0 {
        c - 1
    } else if i == 0 {
        0
    } else {
        round_output(n_in, xor_depth, 0)
    };
    let b = if d < xor_depth {
        if i > 0 && d % 2 == 0 {
            round_output(n_in, xor_depth, (i + d) % i)
        } else {
            (i + d + 1) % n_in
        }
    } else if i == 0 {
        3int % n_in
    } else {
        round_output(n_in, xor_depth, (i + 1) % i)
    };
    PGate {
        t: if d < xor_depth {
            GateType::Xor
        } else {
            GateType::And
        },
        a: a as usize,
        b: b as usize,
        c: c as usize,
    }
}

impl PCircuit {
    /// The number of gates that are not free.
    pub fn n_nonfree(&self) -> (r: usize)
        ensures
            r == nonfree_count(self.gates@),
    {
        let mut n: usize = 0;
        let mut i: usize = 0;
        while i < self.gates.len()
            invariant
                i <= self.gates@.len(),
                n <= i,
                n == nonfree_count(self.gates@.take(i as int)),
            decreases self.gates@.len() - i,
        {
            assert(self.gates@.take(i + 1).drop_last() =~= self.gates@.take(i as int));
            if !self.gates[i].t.is_free() {
                n = n + 1;
            }
            i = i + 1;
        }
        assert(self.gates@.take(self.gates@.len() as int) =~= self.gates@);
        n
    }

    /// `n_and` rounds, each a chain of `xor_depth` XOR gates closed by an AND gate.
    pub fn synthetic(n_in: usize, n_and: usize, xor_depth: usize) -> (r: PCircuit)
        requires
            n_and > 0 ==> n_in > 0,
            n_in + n_and * round_len(xor_depth as int) <= usize::MAX,
            n_and + xor_depth + 1 <= usize::MAX,
        ensures
            r.n_in == n_in,
            r.n_wires == n_in + n_and * round_len(xor_depth as int),
            r.gates@.len() == n_and * round_len(xor_depth as int),
            forall|i: int, d: int|
                0 <= i < n_and && 0 <= d <= xor_depth ==> #[trigger] r.gates@[i * round_len(
                    xor_depth as int,
                ) + d] == #[trigger] synthetic_gate(n_in as int, xor_depth as int, i, d),
    {
        let mut gates: Vec<PGate> = Vec::new();
        let mut next: usize = n_in;
        let mut ands: Vec<usize> = Vec::new();
        let ghost len = round_len(xor_depth as int);
        let mut i: usize = 0;
        while i < n_and
            invariant
                i <= n_and,
                n_and > 0 ==> n_in > 0,
                len == round_len(xor_depth as int),
                n_in + n_and * len <= usize::MAX,
                n_and + xor_depth + 1 <= usize::MAX,
                next == n_in + i * len,
                gates@.len() == i * len,
                ands@.len() == i,
                forall|k: int|
                    0 <= k < i ==> #[trigger] ands@[k] == round_output(
                        n_in as int,
                        xor_depth as int,
                        k,
                    ),
                forall|k: int, d: int|
                    0 <= k < i && 0 <= d <= xor_depth ==> #[trigger] gates@[k * len + d]
                        == #[trigger] synthetic_gate(n_in as int, xor_depth as int, k, d),
            decreases n_and - i,
        {
            assert(i * len + len <= n_and * len) by (nonlinear_arith)
                requires
                    i < n_and,
                    len >= 1,
            ;
            let mut cur: usize = if ands.len() == 0 {
                i % n_in
            } else {
                ands[i % ands.len()]
            };
            let ghost first = cur;
            proof {
                if i > 0 {
                    assert(i as int % i as int == 0) by (nonlinear_arith)
                        requires
                            i > 0,
                    ;
                } else {
                    assert(0int % n_in as int == 0) by (nonlinear_arith)
                        requires
                            n_in > 0,
                    ;
                }
            }
            let ghost base = gates@;
            let mut d: usize = 0;
            while d < xor_depth
                invariant
                    d <= xor_depth,
                    i < n_and,
                    n_in > 0,
                    len == round_len(xor_depth as int),
                    i * len + len <= n_and * len,
                    n_in + n_and * len <= usize::MAX,
                    n_and + xor_depth + 1 <= usize::MAX,
                    next == n_in + i * len + d,
                    base.len() == i * len,
                    gates@.len() == i * len + d,
                    ands@.len() == i,
                    forall|k: int|
                        0 <= k < i ==> #[trigger] ands@[k] == round_output(
                            n_in as int,
                            xor_depth as int,
                            k,
                        ),
                    forall|k: int| 0 <= k < base.len() ==> #[trigger] gates@[k] == base[k],
                    forall|k: int|
                        0 <= k < d ==> #[trigger] gates@[i * len + k] == synthetic_gate(
                            n_in as int,
                            xor_depth as int,
                            i as int,
                            k,
                        ),
                    first == if i == 0 {
                        0
                    } else {
                        round_output(n_in as int, xor_depth as int, 0)
                    },
                    cur == if d == 0 {
                        first as int
                    } else {
                        next - 1
                    },
                decreases xor_depth - d,
            {
                let rhs: usize = if ands.len() != 0 && d % 2 == 0 {
                    ands[(i + d) % ands.len()]
                } else {
                    (i + d + 1) % n_in
                };
                gates.push(PGate { t: GateType::Xor, a: cur, b: rhs, c: next });
                assert(gates@[i * len + d] == synthetic_gate(
                    n_in as int,
                    xor_depth as int,
                    i as int,
                    d as int,
                ));
                cur = next;
                next = next + 1;
                d = d + 1;
            }
            let rhs: usize = if ands.len() == 0 {
                (i + 3) % n_in
            } else {
                ands[(i + 1) % ands.len()]
            };
            gates.push(PGate { t: GateType::And, a: cur, b: rhs, c: next });
            assert(gates@[i * len + xor_depth] == synthetic_gate(
                n_in as int,
                xor_depth as int,
                i as int,
                xor_depth as int,
            ));
            ands.push(next);
            next = next + 1;
            proof {
                assert((i + 1) * len == i * len + len) by (nonlinear_arith);
                assert forall|k: int, e: int|
                    0 <= k < i + 1 && 0 <= e <= xor_depth implies #[trigger] gates@[k * len + e]
                    == #[trigger] synthetic_gate(n_in as int, xor_depth as int, k, e) by {
                    if k < i {
                        assert(k * len + e < i * len) by (nonlinear_arith)
                            requires
                                0 <= k < i,
                                0 <= e < len,
                        ;
                        assert(base[k * len + e] == synthetic_gate(
                            n_in as int,
                            xor_depth as int,
                            k,
                            e,
                        ));
                    }
                }
            }
            i = i + 1;
        }
        PCircuit { n_in, n_wires: next, gates }
    }
}

/// The gates that are not free are those that are left when the free ones are put aside.
pub proof fn nonfree_gates_are_counted(gates: Seq<PGate>)
    ensures
        nonfree_count(gates) == gates.filter(|g: PGate| !free(g.t)).len(),
    decreases gates.len(),
{
    reveal(Seq::filter);
    let nonfree = |g: PGate| !free(g.t);
    if gates.len() > 0 {
        nonfree_gates_are_counted(gates.drop_last());
    }
}

/// A round of the synthetic circuit is a chain: XOR gates and one AND gate at the end,
/// each after the first reads the output of the one before, outputs are numbered after
/// the inputs in order, and the other wire that a gate reads is an input of the circuit
/// or the output of an earlier round's AND gate.
pub proof fn synthetic_round_is_chain(n_in: int, xor_depth: int, i: int, d: int)
    requires
        0 < n_in,
        0 <= xor_depth,
        0 <= i,
        0 <= d <= xor_depth,
        n_in + i * (xor_depth + 1) + xor_depth <= usize::MAX,
    ensures
        ({
            let gate = synthetic_gate(n_in, xor_depth, i, d);
            &&& gate.t is Xor <==> d < xor_depth
            &&& gate.t is And <==> d == xor_depth
            &&& gate.c == n_in + i * (xor_depth + 1) + d
            &&& d > 0 ==> gate.a == synthetic_gate(n_in, xor_depth, i, d - 1).c
            &&& d == 0 && i == 0 ==> gate.a == 0
            &&& d == 0 && i > 0 ==> gate.a == synthetic_gate(n_in, xor_depth, 0, xor_depth).c
            &&& gate.b < n_in || exists|k: int|
                0 <= k < i && gate.b == (#[trigger] synthetic_gate(
                    n_in,
                    xor_depth,
                    k,
                    xor_depth,
                )).c
        }),
{
    let gate = synthetic_gate(n_in, xor_depth, i, d);
    let len = round_len(xor_depth);
    assert(0 <= i * len) by (nonlinear_arith)
        requires
            0 <= i,
            0 <= len,
    ;
    assert(0 <= (i + d + 1) % n_in < n_in && 0 <= 3int % n_in < n_in) by (nonlinear_arith)
        requires
            0 < n_in,
    ;
    if i > 0 {
        let p = (i + d) % i;
        let q = (i + 1) % i;
        assert(0 <= p < i && 0 <= q < i) by (nonlinear_arith)
            requires
                0 < i,
                p == (i + d) % i,
                q == (i + 1) % i,
        ;
        assert(0 <= p * len <= i * len && 0 <= q * len <= i * len && 0 * len == 0)
            by (nonlinear_arith)
            requires
                0 <= p < i,
                0 <= q < i,
                0 <= len,
        ;
        assert(synthetic_gate(n_in, xor_depth, p, xor_depth).c == round_output(n_in, xor_depth, p));
        assert(synthetic_gate(n_in, xor_depth, q, xor_depth).c == round_output(n_in, xor_depth, q));
        assert(synthetic_gate(n_in, xor_depth, 0, xor_depth).c == round_output(n_in, xor_depth, 0));
    }
}

} // verus!
