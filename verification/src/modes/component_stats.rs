//! Statistics on the components of a circuit: which gates each instance covers,
//! how deep instances nest, and whether wire numbers are used again.

use crate::gate::{gate_fn, Gate, WireId, UNREACHABLE_ID};
use crate::modes::anchor_stats::{
    bool_lookup, bool_or_false, bools_after_lookup, read_bool,
};
use crate::modes::backend::{
    allocate_store, allocated_wire, credit_store, creditable, feedable, store_after_allocate,
    store_after_credits, store_after_feed, store_wf, write_store, CircuitMode, ComponentKey,
};
use crate::storage::{Credits, Storage};
use std::collections::HashMap;
use vstd::prelude::*;

verus! {

broadcast use vstd::std_specs::hash::group_hash_axioms;

/// The number whose bytes, least significant first, are a component's key.
pub open spec fn key_number(key: ComponentKey) -> u64 {
    ((key@[0] as u64)) | ((key@[1] as u64) << 8) | ((key@[2] as u64) << 16) | ((key@[3] as u64)
        << 24) | ((key@[4] as u64) << 32) | ((key@[5] as u64) << 40) | ((key@[6] as u64) << 48) | ((
    key@[7] as u64) << 56)
}

/// Different keys have different numbers.
pub proof fn key_number_is_injective(a: ComponentKey, b: ComponentKey)
    requires
        key_number(a) == key_number(b),
    ensures
        a == b,
{
    let (a0, a1, a2, a3) = (a@[0], a@[1], a@[2], a@[3]);
    let (a4, a5, a6, a7) = (a@[4], a@[5], a@[6], a@[7]);
    let (b0, b1, b2, b3) = (b@[0], b@[1], b@[2], b@[3]);
    let (b4, b5, b6, b7) = (b@[4], b@[5], b@[6], b@[7]);
    assert(a0 == b0 && a1 == b1 && a2 == b2 && a3 == b3 && a4 == b4 && a5 == b5 && a6 == b6 && a7
        == b7) by (bit_vector)
        requires
            ((a0 as u64)) | ((a1 as u64) << 8) | ((a2 as u64) << 16) | ((a3 as u64) << 24) | ((
            a4 as u64) << 32) | ((a5 as u64) << 40) | ((a6 as u64) << 48) | ((a7 as u64) << 56) == (
            (b0 as u64)) | ((b1 as u64) << 8) | ((b2 as u64) << 16) | ((b3 as u64) << 24) | ((
            b4 as u64) << 32) | ((b5 as u64) << 40) | ((b6 as u64) << 48) | ((b7 as u64) << 56),
    ;
    assert(a =~= b);
}

pub(crate) fn number_of(key: ComponentKey) -> (r: u64)
    ensures
        r == key_number(key),
{
    ((key[0] as u64)) | ((key[1] as u64) << 8) | ((key[2] as u64) << 16) | ((key[3] as u64) << 24)
        | ((key[4] as u64) << 32) | ((key[5] as u64) << 40) | ((key[6] as u64) << 48) | ((
    key[7] as u64) << 56)
}

/// Figures on the components and wires so far.
#[derive(Clone, Copy, Debug, PartialEq, Eq, Structural)]
pub struct ComponentCounts {
    pub gates: u64,
    /// Different components seen.
    pub distinct_templates: usize,
    /// Instances entered.
    pub instances: u64,
    /// The deepest nesting.
    pub max_depth: usize,
    /// Instances without a gate.
    pub empty_instances: u64,
    /// The fewest gates of an instance that has any.
    pub min_span: u64,
    /// The most gates of an instance.
    pub max_span: u64,
    pub sum_span: u128,
    /// Instances with a gate.
    pub n_span: u64,
    /// Outermost instances that started before the one before them ended.
    pub overlapping_top: u64,
    /// Whether the output wires of the gates have increasing numbers.
    pub wire_c_monotonic: bool,
    /// Gates whose output wire has a number no larger than the one before.
    pub wire_c_reused: u64,
    pub max_wire_id: u64,
    pub last_wire_c: u64,
    /// Gates in an instance whose two inputs were not both produced by earlier gates
    /// of that instance.
    pub cross_boundary_inputs: u64,
}

/// Figures on the components and wires so far, and how often each component was
/// entered, by the number of its key.
#[derive(Debug)]
pub struct ComponentStats {
    pub counts: ComponentCounts,
    pub per_template: HashMap<u64, u64>,
}

/// The figures before the first gate.
pub open spec fn zero_counts() -> ComponentCounts {
    ComponentCounts {
        gates: 0,
        distinct_templates: 0,
        instances: 0,
        max_depth: 0,
        empty_instances: 0,
        min_span: 0,
        max_span: 0,
        sum_span: 0,
        n_span: 0,
        overlapping_top: 0,
        wire_c_monotonic: false,
        wire_c_reused: 0,
        max_wire_id: 0,
        last_wire_c: 0,
        cross_boundary_inputs: 0,
    }
}

impl Default for ComponentStats {
    fn default() -> (r: ComponentStats)
        ensures
            r.counts == zero_counts(),
            r.per_template@ == Map::<u64, u64>::empty(),
    {
        ComponentStats {
            counts: ComponentCounts {
                gates: 0,
                distinct_templates: 0,
                instances: 0,
                max_depth: 0,
                empty_instances: 0,
                min_span: 0,
                max_span: 0,
                sum_span: 0,
                n_span: 0,
                overlapping_top: 0,
                wire_c_monotonic: false,
                wire_c_reused: 0,
                max_wire_id: 0,
                last_wire_c: 0,
                cross_boundary_inputs: 0,
            },
            per_template: HashMap::new(),
        }
    }
}

/// The numbers of the wires that gates number `start` and later produced, where
/// `produced` tells which gate produced a wire.
pub open spec fn produced_since(produced: Map<usize, u64>, start: u64) -> Set<usize> {
    Set::new(|w: usize| produced.dom().contains(w) && produced[w] >= start)
}

/// Whether `gate` is in an instance, the innermost of `open`, and reads a wire that
/// no gate since the start of that instance produced.
pub open spec fn crosses_boundary(
    open: Seq<(ComponentKey, u64)>,
    produced: Map<usize, u64>,
    gate: Gate,
) -> bool {
    open.len() > 0 && {
        let inside = produced_since(produced, open.last().1);
        !(inside.contains(gate.wire_a.0) && inside.contains(gate.wire_b.0))
    }
}

/// The figures after one more gate, with output wire number `wc`; `crosses` says if
/// it reads a wire from outside its instance.
pub open spec fn counts_after_gate(s: ComponentCounts, wc: u64, crosses: bool) -> ComponentCounts {
    let repeats = wc <= s.last_wire_c && s.gates > 0;
    ComponentCounts {
        gates: (s.gates + 1) as u64,
        wire_c_monotonic: (s.gates == 0 || s.wire_c_monotonic) && !repeats,
        wire_c_reused: if repeats {
            (s.wire_c_reused + 1) as u64
        } else {
            s.wire_c_reused
        },
        last_wire_c: wc,
        max_wire_id: if wc > s.max_wire_id {
            wc
        } else {
            s.max_wire_id
        },
        cross_boundary_inputs: if crosses {
            (s.cross_boundary_inputs + 1) as u64
        } else {
            s.cross_boundary_inputs
        },
        ..s
    }
}

/// How often each component was entered, after one more entry.
pub open spec fn templates_after(per: Map<u64, u64>, key: u64) -> Map<u64, u64> {
    per.insert(
        key,
        if per.dom().contains(key) {
            (per[key] + 1) as u64
        } else {
            1
        },
    )
}

/// The figures after an instance was entered: `distinct` components are known then,
/// `depth` instances are open, and `overlaps` says if it is an outermost instance
/// that starts before the one before it ended.
pub open spec fn counts_after_enter(
    s: ComponentCounts,
    distinct: nat,
    depth: nat,
    overlaps: bool,
) -> ComponentCounts {
    ComponentCounts {
        instances: (s.instances + 1) as u64,
        distinct_templates: distinct as usize,
        max_depth: if depth > s.max_depth {
            depth as usize
        } else {
            s.max_depth
        },
        overlapping_top: if overlaps {
            (s.overlapping_top + 1) as u64
        } else {
            s.overlapping_top
        },
        ..s
    }
}

/// The figures after an instance with `span` gates was left.
pub open spec fn counts_after_exit(s: ComponentCounts, span: u64) -> ComponentCounts {
    if span == 0 {
        ComponentCounts { empty_instances: (s.empty_instances + 1) as u64, ..s }
    } else {
        ComponentCounts {
            min_span: if s.n_span == 0 || span < s.min_span {
                span
            } else {
                s.min_span
            },
            max_span: if span > s.max_span {
                span
            } else {
                s.max_span
            },
            sum_span: (s.sum_span + span) as u128,
            n_span: (s.n_span + 1) as u64,
            ..s
        }
    }
}

/// Runs a circuit on booleans and keeps statistics on its components.
pub struct ComponentStatsMode {
    pub storage: Storage<WireId, Option<bool>>,
    pub gate_index: u64,
    /// The open instances: their keys and the number of gates before they started.
    pub open: Vec<(ComponentKey, u64)>,
    /// The number of gates when the last outermost instance ended.
    pub last_top_end: u64,
    /// Which gate, by its number, produced a wire, by the number of the wire.
    pub produced: HashMap<usize, u64>,
    pub stats: ComponentStats,
}

/// The number of gates since `start`.
pub open spec fn gates_since(now: u64, start: u64) -> u64 {
    if now >= start {
        (now - start) as u64
    } else {
        0
    }
}

impl ComponentStatsMode {
    /// Whether nothing changed but the storage and which wires were produced.
    pub open spec fn same_figures(self, other: Self) -> bool {
        self.gate_index == other.gate_index && self.open@ == other.open@ && self.last_top_end
            == other.last_top_end && self.stats == other.stats
    }

    /// The numbers of the wires that were produced since open instance number `i`
    /// was entered.
    pub open spec fn produced_in(self, i: int) -> Set<usize> {
        produced_since(self.produced@, self.open@[i].1)
    }

    /// Whether a gate since number `start` produced the wire.
    fn is_produced_since(&self, wire: WireId, start: u64) -> (r: bool)
        ensures
            r == produced_since(self.produced@, start).contains(wire.0),
    {
        match self.produced.get(&wire.0) {
            Some(at) => *at >= start,
            None => false,
        }
    }

    /// Whether this gate is in an instance and reads a wire from outside it.
    fn reads_outside(&self, gate: &Gate) -> (r: bool)
        ensures
            r == crosses_boundary(self.open@, self.produced@, *gate),
    {
        let depth: usize = self.open.len();
        if depth == 0 {
            return false;
        }
        let start: u64 = self.open[depth - 1].1;
        !(self.is_produced_since(gate.wire_a, start) && self.is_produced_since(gate.wire_b, start))
    }

    pub fn new(capacity: usize) -> (r: ComponentStatsMode)
        requires
            16 * capacity <= isize::MAX,
        ensures
            r.wf(),
            r.gate_index == 0,
            r.open@.len() == 0,
            r.last_top_end == 0,
            r.produced@ == Map::<usize, u64>::empty(),
            r.stats.counts == zero_counts(),
            r.stats.per_template@ == Map::<u64, u64>::empty(),
            r.storage@.entries == Map::<int, (u16, Option<bool>)>::empty(),
            r.storage@.vacant == Seq::<int>::empty(),
    {
        ComponentStatsMode {
            storage: Storage::new(capacity),
            gate_index: 0,
            open: Vec::new(),
            last_top_end: 0,
            produced: HashMap::new(),
            stats: ComponentStats::default(),
        }
    }
}

impl CircuitMode for ComponentStatsMode {
    type WireValue = bool;

    type CiphertextAcc = ComponentStats;

    open spec fn wf(&self) -> bool {
        &&& store_wf(self.storage)
        &&& forall|w: usize| #[trigger]
            self.produced@.dom().contains(w) ==> self.produced@[w] < self.gate_index
        &&& forall|i: int|
            0 <= i < self.open@.len() ==> (#[trigger] self.open@[i]).1 <= self.gate_index
    }

    open spec fn value_of_false(&self) -> bool {
        false
    }

    open spec fn value_of_true(&self) -> bool {
        true
    }

    open spec fn may_evaluate(&self, gate: Gate) -> bool {
        let st1 = bools_after_lookup(self.storage@, gate.wire_a);
        let st2 = bools_after_lookup(st1, gate.wire_b);
        gate.wire_c.0 != UNREACHABLE_ID ==> self.gate_index < u64::MAX && self.stats.counts.gates
            < u64::MAX && self.stats.counts.wire_c_reused < u64::MAX
            && self.stats.counts.cross_boundary_inputs < u64::MAX && feedable(st2, gate.wire_c)
    }

    open spec fn evaluated(pre: Self, gate: Gate, post: Self) -> bool {
        let st1 = bools_after_lookup(pre.storage@, gate.wire_a);
        let st2 = bools_after_lookup(st1, gate.wire_b);
        if gate.wire_c.0 == UNREACHABLE_ID {
            &&& post.storage@ == st2
            &&& post.produced@ == pre.produced@
            &&& post.same_figures(pre)
        } else {
            &&& post.storage@ == store_after_feed(
                st2,
                gate.wire_c,
                gate_fn(
                    gate.gate_type,
                    bool_or_false(pre.storage@, gate.wire_a),
                    bool_or_false(st1, gate.wire_b),
                ),
            )
            &&& post.gate_index == pre.gate_index + 1
            &&& post.open@ == pre.open@
            &&& post.last_top_end == pre.last_top_end
            &&& post.produced@ == pre.produced@.insert(gate.wire_c.0, pre.gate_index)
            &&& post.stats.counts == counts_after_gate(
                pre.stats.counts,
                gate.wire_c.0 as u64,
                crosses_boundary(pre.open@, pre.produced@, gate),
            )
            &&& post.stats.per_template == pre.stats.per_template
        }
    }

    open spec fn may_allocate(&self, credits: Credits) -> bool {
        true
    }

    open spec fn allocated(pre: Self, credits: Credits, wire: WireId, post: Self) -> bool {
        &&& wire == allocated_wire(pre.storage@, credits)
        &&& post.storage@ == store_after_allocate(pre.storage@, credits)
        &&& post.produced@ == pre.produced@.remove(wire.0)
        &&& post.same_figures(pre)
    }

    open spec fn may_lookup(&self, wire: WireId) -> bool {
        true
    }

    open spec fn looked_up(pre: Self, wire: WireId, value: Option<bool>, post: Self) -> bool {
        &&& value == bool_lookup(pre.storage@, wire)
        &&& post.storage@ == bools_after_lookup(pre.storage@, wire)
        &&& post.produced@ == pre.produced@
        &&& post.same_figures(pre)
    }

    open spec fn may_feed(&self, wire: WireId) -> bool {
        feedable(self.storage@, wire)
    }

    open spec fn fed(pre: Self, wire: WireId, value: bool, post: Self) -> bool {
        &&& post.storage@ == store_after_feed(pre.storage@, wire, value)
        &&& post.produced@ == pre.produced@
        &&& post.same_figures(pre)
    }

    open spec fn may_add_credits(&self, wires: Seq<WireId>, credits: Credits) -> bool {
        creditable(self.storage@, wires, credits)
    }

    open spec fn credited(pre: Self, wires: Seq<WireId>, credits: Credits, post: Self) -> bool {
        &&& post.storage@ == store_after_credits(pre.storage@, wires, credits)
        &&& post.produced@ == pre.produced@
        &&& post.same_figures(pre)
    }

    open spec fn may_enter(&self, key: ComponentKey) -> bool {
        let per = self.stats.per_template@;
        &&& self.stats.counts.instances < u64::MAX
        &&& self.stats.counts.overlapping_top < u64::MAX
        &&& per.dom().contains(key_number(key)) ==> per[key_number(key)] < u64::MAX
    }

    open spec fn entered(pre: Self, key: ComponentKey, post: Self) -> bool {
        let per = templates_after(pre.stats.per_template@, key_number(key));
        &&& post.storage@ == pre.storage@
        &&& post.gate_index == pre.gate_index
        &&& post.last_top_end == pre.last_top_end
        &&& post.produced@ == pre.produced@
        &&& post.open@ == pre.open@.push((key, pre.gate_index))
        &&& post.stats.per_template@ == per
        &&& post.stats.counts == counts_after_enter(
            pre.stats.counts,
            per.dom().len(),
            pre.open@.len() + 1,
            pre.open@.len() == 0 && pre.gate_index < pre.last_top_end,
        )
    }

    open spec fn may_exit(&self, key: ComponentKey) -> bool {
        &&& self.stats.counts.empty_instances < u64::MAX
        &&& self.stats.counts.n_span < u64::MAX
        &&& self.stats.counts.sum_span <= u128::MAX - u64::MAX
    }

    open spec fn exited(pre: Self, key: ComponentKey, post: Self) -> bool {
        if pre.open@.len() == 0 {
            post.storage@ == pre.storage@ && post.produced@ == pre.produced@ && post.same_figures(
                pre,
            )
        } else {
            &&& post.storage@ == pre.storage@
            &&& post.gate_index == pre.gate_index
            &&& post.produced@ == pre.produced@
            &&& post.open@ == pre.open@.drop_last()
            &&& post.last_top_end == if pre.open@.len() == 1 {
                pre.gate_index
            } else {
                pre.last_top_end
            }
            &&& post.stats.per_template == pre.stats.per_template
            &&& post.stats.counts == counts_after_exit(
                pre.stats.counts,
                gates_since(pre.gate_index, pre.open@.last().1),
            )
        }
    }

    open spec fn may_finalize(&self) -> bool {
        true
    }

    open spec fn finalized(pre: Self, acc: ComponentStats) -> bool {
        acc == pre.stats
    }

    fn false_value(&self) -> (r: bool) {
        false
    }

    fn true_value(&self) -> (r: bool) {
        true
    }

    fn evaluate_gate(&mut self, gate: &Gate) {
        let a = self.lookup_wire(gate.wire_a) == Some(true);
        let b = self.lookup_wire(gate.wire_b) == Some(true);
        if gate.wire_c.0 == UNREACHABLE_ID {
            return ;
        }
        if self.reads_outside(gate) {
            self.stats.counts.cross_boundary_inputs = self.stats.counts.cross_boundary_inputs + 1;
        }
        self.produced.insert(gate.wire_c.0, self.gate_index);
        self.gate_index = self.gate_index + 1;
        self.stats.counts.gates = self.stats.counts.gates + 1;
        let wc: u64 = gate.wire_c.0 as u64;
        if self.stats.counts.gates == 1 {
            self.stats.counts.wire_c_monotonic = true;
        }
        if wc <= self.stats.counts.last_wire_c && self.stats.counts.gates > 1 {
            self.stats.counts.wire_c_monotonic = false;
            self.stats.counts.wire_c_reused = self.stats.counts.wire_c_reused + 1;
        }
        self.stats.counts.last_wire_c = wc;
        if wc > self.stats.counts.max_wire_id {
            self.stats.counts.max_wire_id = wc;
        }
        self.feed_wire(gate.wire_c, gate.gate_type.eval(a, b));
    }

    fn allocate_wire(&mut self, credits: Credits) -> (r: WireId) {
        let wire = allocate_store(&mut self.storage, credits);
        self.produced.remove(&wire.0);
        wire
    }

    fn lookup_wire(&mut self, wire: WireId) -> (r: Option<bool>) {
        read_bool(&mut self.storage, wire)
    }

    fn feed_wire(&mut self, wire: WireId, value: bool) {
        write_store(&mut self.storage, wire, value);
    }

    fn add_credits(&mut self, wires: &[WireId], credits: Credits) {
        credit_store(&mut self.storage, wires, credits);
    }

    fn note_component_enter(&mut self, key: ComponentKey) {
        self.open.push((key, self.gate_index));
        self.stats.counts.instances = self.stats.counts.instances + 1;
        let number: u64 = number_of(key);
        let count: u64 = match self.stats.per_template.get(&number) {
            Some(n) => *n + 1,
            None => 1,
        };
        self.stats.per_template.insert(number, count);
        self.stats.counts.distinct_templates = self.stats.per_template.len();
        if self.open.len() > self.stats.counts.max_depth {
            self.stats.counts.max_depth = self.open.len();
        }
        if self.open.len() == 1 && self.gate_index < self.last_top_end {
            self.stats.counts.overlapping_top = self.stats.counts.overlapping_top + 1;
        }
    }

    fn note_component_exit(&mut self, key: ComponentKey) {
        match self.open.pop() {
            Some((_, start)) => {
                let span: u64 = if self.gate_index >= start {
                    self.gate_index - start
                } else {
                    0
                };
                if span == 0 {
                    self.stats.counts.empty_instances = self.stats.counts.empty_instances + 1;
                } else {
                    if self.stats.counts.n_span == 0 || span < self.stats.counts.min_span {
                        self.stats.counts.min_span = span;
                    }
                    if span > self.stats.counts.max_span {
                        self.stats.counts.max_span = span;
                    }
                    self.stats.counts.sum_span = self.stats.counts.sum_span + span as u128;
                    self.stats.counts.n_span = self.stats.counts.n_span + 1;
                }
                if self.open.len() == 0 {
                    self.last_top_end = self.gate_index;
                }
            },
            None => (),
        }
    }

    /// Hands out the figures.
    fn finalize_ciphertext_accumulator(self) -> (r: ComponentStats) {
        self.stats
    }
}

/// An instance that was just entered has produced no wire, so that every gate which
/// comes first in an instance crosses its boundary.
pub proof fn instance_starts_without_wires(
    pre: ComponentStatsMode,
    key: ComponentKey,
    post: ComponentStatsMode,
    gate: Gate,
)
    requires
        pre.wf(),
        ComponentStatsMode::entered(pre, key, post),
    ensures
        post.produced_in(post.open@.len() - 1) == Set::<usize>::empty(),
        crosses_boundary(post.open@, post.produced@, gate),
{
    assert(post.produced_in(post.open@.len() - 1) =~= Set::<usize>::empty());
}

/// A gate adds its output, and no other wire, to the wires produced in every open
/// instance.
pub proof fn gate_produces_in_open_instances(
    pre: ComponentStatsMode,
    gate: Gate,
    post: ComponentStatsMode,
    i: int,
)
    requires
        pre.wf(),
        ComponentStatsMode::evaluated(pre, gate, post),
        gate.wire_c.0 != UNREACHABLE_ID,
        0 <= i < pre.open@.len(),
    ensures
        post.produced_in(i) == pre.produced_in(i).insert(gate.wire_c.0),
{
    assert(post.produced_in(i) =~= pre.produced_in(i).insert(gate.wire_c.0));
}

} // verus!
