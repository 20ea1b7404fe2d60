//! Exporting the wiring of a circuit by gates.
//!
//! Wire numbers are used again, so a gate is described by what produces its
//! inputs: an earlier gate, or an input of the circuit. A record has twelve bytes:
//! its type and the two sources, each four bytes, least significant first. A
//! source with its highest bit set is the number of an input, one without it is
//! the number of a gate.

use crate::gate::{free, gate_code, Gate, GateType, WireId, UNREACHABLE_ID};
use crate::modes::anchor_stats::{bool_lookup, bools_after_lookup, read_bool};
use crate::modes::backend::{
    allocate_store, allocated_wire, credit_store, creditable, feedable, store_after_allocate,
    store_after_credits, store_after_feed, store_wf, write_store, CircuitMode, ComponentKey,
};
use crate::storage::{Credits, Storage};
use std::collections::HashMap;
use vstd::prelude::*;

verus! {

broadcast use vstd::std_specs::hash::group_hash_axioms;

/// Marks a source as an input of the circuit.
pub const INPUT_FLAG: u32 = 0x8000_0000;

/// The code of a gate type: its position in the list of gate types.
pub fn type_code(t: &GateType) -> (r: u32)
    ensures
        r == gate_code(*t),
{
    match t {
        GateType::And => 0,
        GateType::Nand => 1,
        GateType::Nimp => 2,
        GateType::Imp => 3,
        GateType::Ncimp => 4,
        GateType::Cimp => 5,
        GateType::Nor => 6,
        GateType::Or => 7,
        GateType::Xor => 8,
        GateType::Xnor => 9,
        GateType::Not => 10,
    }
}

/// The four bytes of `x`, least significant first.
pub open spec fn le_bytes_4(x: u32) -> Seq<u8> {
    seq![x as u8, (x >> 8) as u8, (x >> 16) as u8, (x >> 24) as u8]
}

/// The record of a gate.
pub open spec fn gate_record(t: GateType, a: u32, b: u32) -> Seq<u8> {
    le_bytes_4(gate_code(t)) + le_bytes_4(a) + le_bytes_4(b)
}

/// Figures on the export so far.
#[derive(Clone, Copy, Debug, PartialEq, Eq, Structural)]
pub struct TopoStats {
    /// Records written.
    pub gates: u64,
    pub inputs: u64,
    pub and_gates: u64,
    pub free_gates: u64,
    /// Gates that are neither free nor AND gates.
    pub nonfree_other: u64,
    /// Sources that are inputs of the circuit.
    pub input_srcs: u64,
}

/// The figures before the first gate.
pub open spec fn zero_topo() -> TopoStats {
    TopoStats { gates: 0, inputs: 0, and_gates: 0, free_gates: 0, nonfree_other: 0, input_srcs: 0 }
}

impl Default for TopoStats {
    fn default() -> (r: TopoStats)
        ensures
            r == zero_topo(),
    {
        TopoStats {
            gates: 0,
            inputs: 0,
            and_gates: 0,
            free_gates: 0,
            nonfree_other: 0,
            input_srcs: 0,
        }
    }
}

/// Runs a circuit and puts the record of every gate after the first `skip` into
/// `out`.
pub struct TopoExportMode {
    pub storage: Storage<WireId, Option<bool>>,
    /// What produces each wire.
    pub src: HashMap<usize, u32>,
    pub next_input: u32,
    pub gate_index: u64,
    pub limit: u64,
    pub skip: u64,
    pub out: Vec<u8>,
    pub stats: TopoStats,
}

/// The sources, the next input number and the number of inputs.
pub struct Sources {
    pub src: Map<usize, u32>,
    pub next_input: u32,
    pub inputs: u64,
}

/// The sources after wire `w` was asked for: a wire that nothing produces is the
/// next input.
pub open spec fn sources_after(s: Sources, w: WireId) -> Sources {
    if s.src.dom().contains(w.0) {
        s
    } else {
        Sources {
            src: s.src.insert(w.0, INPUT_FLAG | s.next_input),
            next_input: (s.next_input + 1) as u32,
            inputs: (s.inputs + 1) as u64,
        }
    }
}

/// The source of wire `w`.
pub open spec fn source_in(s: Sources, w: WireId) -> u32 {
    sources_after(s, w).src[w.0]
}

/// Whether a source is an input of the circuit.
pub open spec fn is_input(src: u32) -> bool {
    src & INPUT_FLAG != 0
}

/// Whether a source is one of the first `gates` gates or of the first `inputs` inputs
/// of the circuit.
pub open spec fn known_source(src: u32, gates: u64, inputs: u32) -> bool {
    if is_input(src) {
        src & 0x7fff_ffff < inputs
    } else {
        src < gates
    }
}

/// Whether all sources are gates and inputs before these.
pub open spec fn known_sources(src: Map<usize, u32>, gates: u64, inputs: u32) -> bool {
    forall|w: usize| #[trigger] src.dom().contains(w) ==> known_source(src[w], gates, inputs)
}

/// The sources of an input and of a gate can be told apart as long as their numbers
/// leave the highest bit free.
proof fn sources_differ(n: u32)
    requires
        n < INPUT_FLAG,
    ensures
        is_input(INPUT_FLAG | n),
        (INPUT_FLAG | n) & 0x7fff_ffff == n,
        !is_input(n),
{
    assert((0x8000_0000u32 | n) & 0x8000_0000 != 0 && (0x8000_0000u32 | n) & 0x7fff_ffff == n && n
        & 0x8000_0000 == 0) by (bit_vector)
        requires
            n < 0x8000_0000,
    ;
}

/// The figures after one more gate with these sources; `written` says if its record
/// is written.
pub open spec fn topo_after_gate(
    s: TopoStats,
    t: GateType,
    a: u32,
    b: u32,
    written: bool,
) -> TopoStats {
    TopoStats {
        gates: if written {
            (s.gates + 1) as u64
        } else {
            s.gates
        },
        inputs: s.inputs,
        and_gates: if t is And {
            (s.and_gates + 1) as u64
        } else {
            s.and_gates
        },
        free_gates: if free(t) {
            (s.free_gates + 1) as u64
        } else {
            s.free_gates
        },
        nonfree_other: if !free(t) && !(t is And) {
            (s.nonfree_other + 1) as u64
        } else {
            s.nonfree_other
        },
        input_srcs: (s.input_srcs + (if is_input(a) {
            1int
        } else {
            0
        }) + (if is_input(b) {
            1int
        } else {
            0
        })) as u64,
    }
}

impl TopoExportMode {
    /// The sources so far.
    pub open spec fn sources(self) -> Sources {
        Sources { src: self.src@, next_input: self.next_input, inputs: self.stats.inputs }
    }

    /// Whether nothing but the storage changed.
    pub open spec fn same_export(self, other: Self) -> bool {
        self.src@ == other.src@ && self.next_input == other.next_input && self.gate_index
            == other.gate_index && self.limit == other.limit && self.skip == other.skip
            && self.out@ == other.out@ && self.stats == other.stats
    }

    pub fn new(capacity: usize, limit: u64, skip: u64) -> (r: TopoExportMode)
        requires
            16 * capacity <= isize::MAX,
        ensures
            r.wf(),
            r.src@ == Map::<usize, u32>::empty(),
            r.next_input == 0,
            r.gate_index == 0,
            r.limit == limit,
            r.skip == skip,
            r.out@ == Seq::<u8>::empty(),
            r.stats == zero_topo(),
            r.storage@.entries == Map::<int, (u16, Option<bool>)>::empty(),
            r.storage@.vacant == Seq::<int>::empty(),
    {
        TopoExportMode {
            storage: Storage::new(capacity),
            src: HashMap::new(),
            next_input: 0,
            gate_index: 0,
            limit,
            skip,
            out: Vec::new(),
            stats: TopoStats::default(),
        }
    }

    /// Whether as many gates were run as are to be passed over and exported.
    pub fn limit_reached(&self) -> (r: bool)
        ensures
            r == (self.gate_index >= self.skip + self.limit),
    {
        self.gate_index >= self.skip && self.gate_index - self.skip >= self.limit
    }

    /// The source of a wire.
    fn source_of(&mut self, w: WireId) -> (r: u32)
        requires
            old(self).wf(),
            old(self).next_input < INPUT_FLAG,
            old(self).stats.inputs < u64::MAX,
        ensures
            final(self).wf(),
            final(self).storage == old(self).storage,
            final(self).gate_index == old(self).gate_index,
            final(self).limit == old(self).limit,
            final(self).skip == old(self).skip,
            final(self).out@ == old(self).out@,
            final(self).stats == (TopoStats { inputs: final(self).stats.inputs, ..old(self).stats }),
            final(self).sources() == sources_after(old(self).sources(), w),
            r == source_in(old(self).sources(), w),
    {
        match self.src.get(&w.0) {
            Some(s) => {
                return *s;
            },
            None => (),
        }
        let s: u32 = INPUT_FLAG | self.next_input;
        proof {
            sources_differ(self.next_input);
        }
        self.next_input = self.next_input + 1;
        self.stats.inputs = self.stats.inputs + 1;
        self.src.insert(w.0, s);
        s
    }
}

fn push_u32(out: &mut Vec<u8>, x: u32)
    ensures
        final(out)@ == old(out)@ + le_bytes_4(x),
{
    out.push(x as u8);
    out.push((x >> 8) as u8);
    out.push((x >> 16) as u8);
    out.push((x >> 24) as u8);
    assert(out@ =~= old(out)@ + le_bytes_4(x));
}

impl CircuitMode for TopoExportMode {
    type WireValue = bool;

    type CiphertextAcc = TopoStats;

    /// Besides the storage: as long as the numbers of gates leave the highest bit
    /// free, every source is a gate that was run or an input that was numbered.
    open spec fn wf(&self) -> bool {
        &&& store_wf(self.storage)
        &&& self.next_input <= INPUT_FLAG
        &&& self.gate_index <= INPUT_FLAG ==> known_sources(
            self.src@,
            self.gate_index,
            self.next_input,
        )
    }

    open spec fn value_of_false(&self) -> bool {
        false
    }

    open spec fn value_of_true(&self) -> bool {
        true
    }

    open spec fn may_evaluate(&self, gate: Gate) -> bool {
        let st1 = bools_after_lookup(self.storage@, gate.wire_a);
        let st2 = bools_after_lookup(st1, gate.wire_b);
        &&& self.next_input < INPUT_FLAG - 1
        &&& self.stats.inputs < u64::MAX - 1
        &&& gate.wire_c.0 != UNREACHABLE_ID ==> {
            &&& self.gate_index < u64::MAX
            &&& self.stats.gates < u64::MAX
            &&& self.stats.and_gates < u64::MAX
            &&& self.stats.free_gates < u64::MAX
            &&& self.stats.nonfree_other < u64::MAX
            &&& self.stats.input_srcs < u64::MAX - 1
            &&& feedable(st2, gate.wire_c)
        }
    }

    open spec fn evaluated(pre: Self, gate: Gate, post: Self) -> bool {
        let st1 = bools_after_lookup(pre.storage@, gate.wire_a);
        let st2 = bools_after_lookup(st1, gate.wire_b);
        let s1 = sources_after(pre.sources(), gate.wire_a);
        let s2 = sources_after(s1, gate.wire_b);
        let a = source_in(pre.sources(), gate.wire_a);
        let b = source_in(s1, gate.wire_b);
        let written = pre.gate_index >= pre.skip;
        &&& post.limit == pre.limit
        &&& post.skip == pre.skip
        &&& if gate.wire_c.0 == UNREACHABLE_ID {
            &&& post.storage@ == st2
            &&& post.sources() == s2
            &&& post.gate_index == pre.gate_index
            &&& post.out@ == pre.out@
            &&& post.stats == (TopoStats { inputs: s2.inputs, ..pre.stats })
        } else {
            &&& post.storage@ == store_after_feed(st2, gate.wire_c, false)
            &&& post.sources() == (Sources {
                src: s2.src.insert(gate.wire_c.0, pre.gate_index as u32),
                ..s2
            })
            &&& post.gate_index == pre.gate_index + 1
            &&& post.out@ == if written {
                pre.out@ + gate_record(gate.gate_type, a, b)
            } else {
                pre.out@
            }
            &&& post.stats == topo_after_gate(
                TopoStats { inputs: s2.inputs, ..pre.stats },
                gate.gate_type,
                a,
                b,
                written,
            )
        }
    }

    open spec fn may_allocate(&self, credits: Credits) -> bool {
        true
    }

    open spec fn allocated(pre: Self, credits: Credits, wire: WireId, post: Self) -> bool {
        &&& wire == allocated_wire(pre.storage@, credits)
        &&& post.storage@ == store_after_allocate(pre.storage@, credits)
        &&& post.same_export(pre)
    }

    open spec fn may_lookup(&self, wire: WireId) -> bool {
        true
    }

    open spec fn looked_up(pre: Self, wire: WireId, value: Option<bool>, post: Self) -> bool {
        &&& value == bool_lookup(pre.storage@, wire)
        &&& post.storage@ == bools_after_lookup(pre.storage@, wire)
        &&& post.same_export(pre)
    }

    open spec fn may_feed(&self, wire: WireId) -> bool {
        feedable(self.storage@, wire)
    }

    open spec fn fed(pre: Self, wire: WireId, value: bool, post: Self) -> bool {
        &&& post.storage@ == store_after_feed(pre.storage@, wire, value)
        &&& post.same_export(pre)
    }

    open spec fn may_add_credits(&self, wires: Seq<WireId>, credits: Credits) -> bool {
        creditable(self.storage@, wires, credits)
    }

    open spec fn credited(pre: Self, wires: Seq<WireId>, credits: Credits, post: Self) -> bool {
        &&& post.storage@ == store_after_credits(pre.storage@, wires, credits)
        &&& post.same_export(pre)
    }

    open spec fn may_enter(&self, key: ComponentKey) -> bool {
        true
    }

    open spec fn entered(pre: Self, key: ComponentKey, post: Self) -> bool {
        post == pre
    }

    open spec fn may_exit(&self, key: ComponentKey) -> bool {
        true
    }

    open spec fn exited(pre: Self, key: ComponentKey, post: Self) -> bool {
        post == pre
    }

    open spec fn may_finalize(&self) -> bool {
        true
    }

    open spec fn finalized(pre: Self, acc: TopoStats) -> bool {
        acc == pre.stats
    }

    fn false_value(&self) -> (r: bool) {
        false
    }

    fn true_value(&self) -> (r: bool) {
        true
    }

    fn evaluate_gate(&mut self, gate: &Gate) {
        let a: u32 = self.source_of(gate.wire_a);
        let b: u32 = self.source_of(gate.wire_b);
        let _ = self.lookup_wire(gate.wire_a);
        let _ = self.lookup_wire(gate.wire_b);
        if gate.wire_c.0 == UNREACHABLE_ID {
            return ;
        }
        let g: u64 = self.gate_index;
        self.gate_index = self.gate_index + 1;
        let ty: u32 = type_code(&gate.gate_type);
        if gate.gate_type.is_free() {
            self.stats.free_gates = self.stats.free_gates + 1;
        } else if ty == 0 {
            self.stats.and_gates = self.stats.and_gates + 1;
        } else {
            self.stats.nonfree_other = self.stats.nonfree_other + 1;
        }
        if a & INPUT_FLAG != 0 {
            self.stats.input_srcs = self.stats.input_srcs + 1;
        }
        if b & INPUT_FLAG != 0 {
            self.stats.input_srcs = self.stats.input_srcs + 1;
        }
        if g >= self.skip {
            let ghost out0 = self.out@;
            push_u32(&mut self.out, ty);
            push_u32(&mut self.out, a);
            push_u32(&mut self.out, b);
            assert(self.out@ =~= out0 + gate_record(gate.gate_type, a, b));
            self.stats.gates = self.stats.gates + 1;
        }
        self.src.insert(gate.wire_c.0, g as u32);
        proof {
            if g < INPUT_FLAG {
                sources_differ(g as u32);
            }
        }
        self.feed_wire(gate.wire_c, false);
    }

    fn allocate_wire(&mut self, credits: Credits) -> (r: WireId) {
        allocate_store(&mut self.storage, credits)
    }

    fn lookup_wire(&mut self, wire: WireId) -> (r: Option<bool>) {
        read_bool(&mut self.storage, wire)
    }

    fn feed_wire(&mut self, wire: WireId, value: bool) {
        write_store(&mut self.storage, wire, value);
    }

    fn add_credits(&mut self, wires: &[WireId], credits: Credits) {
        credit_store(&mut self.storage, wires, credits);
    }

    fn note_component_enter(&mut self, key: ComponentKey) {
    }

    fn note_component_exit(&mut self, key: ComponentKey) {
    }

    /// Hands out the figures.
    fn finalize_ciphertext_accumulator(self) -> (r: TopoStats) {
        self.stats
    }
}

/// The record of a gate refers to gates before it and to inputs that were numbered,
/// as long as the numbers of gates leave the highest bit free.
pub proof fn records_refer_back(pre: TopoExportMode, gate: Gate)
    requires
        pre.wf(),
        pre.may_evaluate(gate),
        pre.gate_index <= INPUT_FLAG,
    ensures
        ({
            let s1 = sources_after(pre.sources(), gate.wire_a);
            let s2 = sources_after(s1, gate.wire_b);
            &&& known_source(
                source_in(pre.sources(), gate.wire_a),
                pre.gate_index,
                s2.next_input,
            )
            &&& known_source(source_in(s1, gate.wire_b), pre.gate_index, s2.next_input)
        }),
{
    let s1 = sources_after(pre.sources(), gate.wire_a);
    sources_differ(pre.next_input);
    sources_differ(s1.next_input);
    if pre.src@.dom().contains(gate.wire_a.0) {
        assert(known_source(pre.src@[gate.wire_a.0], pre.gate_index, pre.next_input));
    }
    if pre.src@.dom().contains(gate.wire_b.0) {
        assert(known_source(pre.src@[gate.wire_b.0], pre.gate_index, pre.next_input));
    }
}

} // verus!
