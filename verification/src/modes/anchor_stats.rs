//! Statistics on anchors for circuits too large to hold, in one streaming pass.
//!
//! For every live wire the backend keeps the anchors that the wire is derived
//! from and the free gates that deriving it expands. A non-free gate's output is
//! its own anchor; a free gate's output inherits both sets of its inputs, unless
//! it would rest on more than `k` anchors: then it becomes an anchor itself.

use crate::gate::{free, gate_fn, stored_wire, Gate, GateType, WireId, FALSE_WIRE_ID, TRUE_WIRE_ID, UNREACHABLE_ID};
use crate::modes::backend::{
    allocate_store, allocated_wire, credit_store, creditable, feedable, place_of, read_store,
    store_after_allocate, store_after_credits, store_after_feed, store_wf, write_store,
    CircuitMode, ComponentKey,
};
use crate::sets::{singleton, union, union_len};
use crate::storage::{slab_contents, Credits, Storage, StoreView};
use std::collections::{BTreeSet, HashMap};
use vstd::prelude::*;

verus! {

broadcast use {
    vstd::std_specs::btree::group_btree_axioms,
    vstd::std_specs::hash::group_hash_axioms,
};

/// What a wire is derived from: its anchors, and the free gates in between.
#[derive(Debug)]
pub struct Ancestry {
    pub anchors: BTreeSet<u64>,
    pub xors: BTreeSet<u64>,
}

/// The contents of an `Ancestry`.
pub struct AncestryView {
    pub anchors: Set<u64>,
    pub xors: Set<u64>,
}

impl View for Ancestry {
    type V = AncestryView;

    open spec fn view(&self) -> AncestryView {
        AncestryView { anchors: self.anchors@, xors: self.xors@ }
    }
}

/// The ancestry of an anchor.
pub open spec fn anchor_ancestry(id: u64) -> AncestryView {
    AncestryView { anchors: set![id], xors: Set::empty() }
}

/// The anchors that the inputs of a gate rest on.
pub open spec fn gate_anchors(a: AncestryView, b: AncestryView) -> Set<u64> {
    a.anchors.union(b.anchors)
}

/// The free gates that deriving the inputs of a gate expands.
pub open spec fn gate_xors(a: AncestryView, b: AncestryView) -> Set<u64> {
    a.xors.union(b.xors)
}

/// The ancestry of the output of gate number `g` with bound `k`.
pub open spec fn gate_ancestry(
    t: GateType,
    a: AncestryView,
    b: AncestryView,
    k: nat,
    g: u64,
) -> AncestryView {
    if free(t) && gate_anchors(a, b).len() <= k {
        AncestryView { anchors: gate_anchors(a, b), xors: gate_xors(a, b).insert(g) }
    } else {
        anchor_ancestry(g)
    }
}

impl Ancestry {
    /// The ancestry of an anchor.
    pub fn anchor(id: u64) -> (r: Ancestry)
        ensures
            r@ == anchor_ancestry(id),
    {
        let r = Ancestry { anchors: singleton(id), xors: BTreeSet::new() };
        assert(r.xors@ =~= Set::<u64>::empty());
        r
    }

    /// The ancestry without anchors and gates.
    pub fn none() -> (r: Ancestry)
        ensures
            r@ == no_ancestry(),
    {
        Ancestry { anchors: BTreeSet::new(), xors: BTreeSet::new() }
    }

    fn copied(&self) -> (r: Ancestry)
        ensures
            r@ == self@,
    {
        Ancestry { anchors: self.anchors.clone(), xors: self.xors.clone() }
    }
}

impl Default for Ancestry {
    fn default() -> (r: Ancestry)
        ensures
            r@ == no_ancestry(),
    {
        Ancestry::none()
    }
}

/// The ancestry without anchors and gates.
pub open spec fn no_ancestry() -> AncestryView {
    AncestryView { anchors: Set::empty(), xors: Set::empty() }
}

/// Figures on all gates so far.
#[derive(Clone, Copy, Debug, PartialEq, Eq, Structural)]
pub struct AnchorStats {
    pub gates: u64,
    pub free_gates: u64,
    pub nonfree_gates: u64,
    /// Free gates that became anchors because of the bound.
    pub promoted: u64,
    pub max_anchors: usize,
    pub max_reads: usize,
    pub max_xor_nodes: usize,
    pub sum_anchors: u128,
    pub sum_reads: u128,
    /// The largest number of anchors that any wire rested on while it was live.
    pub max_support: usize,
}

impl Default for AnchorStats {
    fn default() -> (r: AnchorStats)
        ensures
            r == zero_stats(),
    {
        AnchorStats {
            gates: 0,
            free_gates: 0,
            nonfree_gates: 0,
            promoted: 0,
            max_anchors: 0,
            max_reads: 0,
            max_xor_nodes: 0,
            sum_anchors: 0,
            sum_reads: 0,
            max_support: 0,
        }
    }
}

/// The figures before the first gate.
pub open spec fn zero_stats() -> AnchorStats {
    AnchorStats {
        gates: 0,
        free_gates: 0,
        nonfree_gates: 0,
        promoted: 0,
        max_anchors: 0,
        max_reads: 0,
        max_xor_nodes: 0,
        sum_anchors: 0,
        sum_reads: 0,
        max_support: 0,
    }
}

/// The larger of two numbers.
pub open spec fn larger(a: usize, b: usize) -> usize {
    if a < b {
        b
    } else {
        a
    }
}

/// The figures after a wire became live that rests on `n` anchors.
pub open spec fn stats_with_support(s: AnchorStats, n: nat) -> AnchorStats {
    AnchorStats { max_support: larger(s.max_support, n as usize), ..s }
}

/// The figures after one more gate of type `t`, without the support of its output.
/// Contesting a gate costs its anchors and the free gates before it.
pub open spec fn stats_after(
    s: AnchorStats,
    t: GateType,
    a: AncestryView,
    b: AncestryView,
    k: nat,
) -> AnchorStats {
    let anchors = gate_anchors(a, b).len();
    let xors = gate_xors(a, b).len();
    let inherits = free(t) && anchors <= k;
    AnchorStats {
        gates: (s.gates + 1) as u64,
        free_gates: if free(t) {
            (s.free_gates + 1) as u64
        } else {
            s.free_gates
        },
        nonfree_gates: if free(t) {
            s.nonfree_gates
        } else {
            (s.nonfree_gates + 1) as u64
        },
        promoted: if free(t) && !inherits {
            (s.promoted + 1) as u64
        } else {
            s.promoted
        },
        max_anchors: larger(s.max_anchors, anchors as usize),
        max_reads: larger(s.max_reads, (anchors + xors) as usize),
        max_xor_nodes: larger(s.max_xor_nodes, xors as usize),
        sum_anchors: (s.sum_anchors + anchors) as u128,
        sum_reads: (s.sum_reads + anchors + xors) as u128,
        max_support: s.max_support,
    }
}

/// Whether the wire is live: it is stored and not all of its reads are done.
pub open spec fn live(st: StoreView<Option<bool>>, w: usize) -> bool {
    stored_wire(WireId(w)) && st.holds(place_of(WireId(w)))
}

/// Whether exactly the live wires have an ancestry.
pub open spec fn tracks_live_wires(
    anc: Map<usize, AncestryView>,
    st: StoreView<Option<bool>>,
) -> bool {
    forall|w: usize|
        #![trigger anc.dom().contains(w)]
        #![trigger live(st, w)]
        anc.dom().contains(w) <==> live(st, w)
}

/// Whether every wire rests on at most `n` anchors.
pub open spec fn supports_within(anc: Map<usize, AncestryView>, n: nat) -> bool {
    forall|w: usize| #[trigger]
        anc.dom().contains(w) ==> anc[w].anchors.finite() && anc[w].anchors.len() <= n
}

/// Whether the counters have room for one more gate.
pub open spec fn stats_have_room(s: AnchorStats, a: AncestryView, b: AncestryView) -> bool {
    let reads = gate_anchors(a, b).len() + gate_xors(a, b).len();
    &&& s.gates < u64::MAX
    &&& s.free_gates < u64::MAX
    &&& s.nonfree_gates < u64::MAX
    &&& s.promoted < u64::MAX
    &&& reads <= usize::MAX
    &&& s.sum_anchors + reads <= u128::MAX
    &&& s.sum_reads + reads <= u128::MAX
}

/// Runs a circuit on booleans and keeps statistics on anchors.
pub struct AnchorStatsMode {
    pub storage: Storage<WireId, Option<bool>>,
    /// The ancestry of the live wires.
    pub anc: HashMap<usize, Ancestry>,
    pub k: usize,
    pub gate_index: u64,
    pub next_input_id: u64,
    pub stats: AnchorStats,
    /// Stop after this many gates; zero means no limit.
    pub gate_limit: u64,
}

/// What is stored after `w` was looked up.
pub open spec fn bools_after_lookup(st: StoreView<Option<bool>>, w: WireId) -> StoreView<
    Option<bool>,
> {
    if stored_wire(w) {
        st.after_get(place_of(w))
    } else {
        st
    }
}

/// The value of `w`, if it has one.
pub open spec fn bool_lookup(st: StoreView<Option<bool>>, w: WireId) -> Option<bool> {
    if w.0 == TRUE_WIRE_ID {
        Some(true)
    } else if w.0 == FALSE_WIRE_ID {
        Some(false)
    } else if stored_wire(w) && st.holds(place_of(w)) {
        st.value(place_of(w))
    } else {
        None
    }
}

/// The value of `w`, false if it has none.
pub open spec fn bool_or_false(st: StoreView<Option<bool>>, w: WireId) -> bool {
    bool_lookup(st, w) == Some(true)
}

/// Reads a boolean from a storage.
pub(crate) fn read_bool(st: &mut Storage<WireId, Option<bool>>, w: WireId) -> (r: Option<bool>)
    requires
        store_wf(*old(st)),
    ensures
        store_wf(*final(st)),
        final(st)@ == bools_after_lookup(old(st)@, w),
        r == bool_lookup(old(st)@, w),
{
    if w.0 == TRUE_WIRE_ID {
        return Some(true);
    }
    if w.0 == FALSE_WIRE_ID {
        return Some(false);
    }
    if w.0 == UNREACHABLE_ID {
        return None;
    }
    match read_store(st, w) {
        Some(v) => v,
        None => None,
    }
}

/// The ancestries after `w` was looked up and `st` is what is stored then: a wire
/// that is no longer stored has none.
pub open spec fn anc_after_lookup(
    anc: Map<usize, AncestryView>,
    st: StoreView<Option<bool>>,
    w: WireId,
) -> Map<usize, AncestryView> {
    if stored_wire(w) && !st.holds(place_of(w)) {
        anc.remove(w.0)
    } else {
        anc
    }
}

/// The ancestry of `w`, none if it is not known.
pub open spec fn ancestry_of(anc: Map<usize, AncestryView>, w: WireId) -> AncestryView {
    if anc.dom().contains(w.0) {
        anc[w.0]
    } else {
        no_ancestry()
    }
}

impl AnchorStatsMode {
    /// The ancestries by wire.
    pub open spec fn ancestries(self) -> Map<usize, AncestryView> {
        self.anc@.map_values(|a: Ancestry| a@)
    }

    /// Whether nothing but the storage and the ancestries changed.
    pub open spec fn same_counters(self, other: Self) -> bool {
        self.k == other.k && self.gate_index == other.gate_index && self.next_input_id
            == other.next_input_id && self.stats == other.stats && self.gate_limit
            == other.gate_limit
    }

    /// A backend with bound `k` and no limit. The anchors of inputs are numbered
    /// above those of gates.
    pub fn new(capacity: usize, k: usize) -> (r: AnchorStatsMode)
        requires
            16 * capacity <= isize::MAX,
        ensures
            r.wf(),
            r.k == k,
            r.gate_index == 0,
            r.next_input_id == 0x4000_0000_0000_0000,
            r.stats == zero_stats(),
            r.gate_limit == 0,
            r.ancestries() == Map::<usize, AncestryView>::empty(),
            r.storage@.entries == Map::<int, (u16, Option<bool>)>::empty(),
            r.storage@.vacant == Seq::<int>::empty(),
    {
        let r = AnchorStatsMode {
            storage: Storage::new(capacity),
            anc: HashMap::new(),
            k,
            gate_index: 0,
            next_input_id: 0x4000_0000_0000_0000,
            stats: AnchorStats::default(),
            gate_limit: 0,
        };
        assert(r.ancestries() =~= Map::<usize, AncestryView>::empty());
        r
    }

    /// Whether the limit on gates is reached.
    pub fn limit_reached(&self) -> (r: bool)
        ensures
            r == (self.gate_limit != 0 && self.gate_index >= self.gate_limit),
    {
        self.gate_limit != 0 && self.gate_index >= self.gate_limit
    }

    /// Counts a wire that rests on `n` anchors.
    fn count_support(&mut self, n: usize)
        ensures
            *final(self) == (AnchorStatsMode {
                stats: stats_with_support(old(self).stats, n as nat),
                ..*old(self)
            }),
    {
        if n > self.stats.max_support {
            self.stats.max_support = n;
        }
    }

    fn ancestry(&self, w: WireId) -> (r: Ancestry)
        ensures
            r@ == ancestry_of(self.ancestries(), w),
    {
        match self.anc.get(&w.0) {
            Some(a) => a.copied(),
            None => Ancestry::none(),
        }
    }
}

/// What two wires rest on together.
proof fn merged_support(a: AncestryView, b: AncestryView, n: nat)
    requires
        a.anchors.finite(),
        b.anchors.finite(),
        a.anchors.len() <= n,
        b.anchors.len() <= n,
    ensures
        gate_anchors(a, b).finite(),
        gate_anchors(a, b).len() <= 2 * n,
{
    vstd::set_lib::lemma_len_union(a.anchors, b.anchors);
}

/// Adding credits leaves the places in use as they are.
proof fn credits_keep_places(st: StoreView<Option<bool>>, wires: Seq<WireId>, credits: Credits)
    requires
        creditable(st, wires, credits),
    ensures
        forall|i: int| store_after_credits(st, wires, credits).holds(i) <==> #[trigger] st.holds(i),
    decreases wires.len(),
{
    if wires.len() > 0 {
        credits_keep_places(st, wires.drop_last(), credits);
    }
}

impl CircuitMode for AnchorStatsMode {
    type WireValue = bool;

    type CiphertextAcc = AnchorStats;

    /// Besides the storage: exactly the live wires have an ancestry, none rests on
    /// more than `max_support` anchors, which are at most `k`, or one if `k` is zero,
    /// and no gate ever read wires that rest on more than twice as many.
    open spec fn wf(&self) -> bool {
        &&& store_wf(self.storage)
        &&& tracks_live_wires(self.ancestries(), self.storage@)
        &&& supports_within(self.ancestries(), self.stats.max_support as nat)
        &&& self.stats.max_support <= larger(self.k, 1)
        &&& self.stats.max_anchors <= 2 * larger(self.k, 1)
    }

    open spec fn value_of_false(&self) -> bool {
        false
    }

    open spec fn value_of_true(&self) -> bool {
        true
    }

    open spec fn may_evaluate(&self, gate: Gate) -> bool {
        let st1 = bools_after_lookup(self.storage@, gate.wire_a);
        let st2 = bools_after_lookup(st1, gate.wire_b);
        gate.wire_c.0 != UNREACHABLE_ID ==> self.gate_index < u64::MAX && feedable(
            st2,
            gate.wire_c,
        ) && stats_have_room(
            self.stats,
            ancestry_of(self.ancestries(), gate.wire_a),
            ancestry_of(self.ancestries(), gate.wire_b),
        )
    }

    open spec fn evaluated(pre: Self, gate: Gate, post: Self) -> bool {
        let a = ancestry_of(pre.ancestries(), gate.wire_a);
        let b = ancestry_of(pre.ancestries(), gate.wire_b);
        let out = gate_ancestry(gate.gate_type, a, b, pre.k as nat, pre.gate_index);
        let st1 = bools_after_lookup(pre.storage@, gate.wire_a);
        let st2 = bools_after_lookup(st1, gate.wire_b);
        let anc2 = anc_after_lookup(
            anc_after_lookup(pre.ancestries(), st1, gate.wire_a),
            st2,
            gate.wire_b,
        );
        if gate.wire_c.0 == UNREACHABLE_ID {
            &&& post.storage@ == st2
            &&& post.ancestries() == anc2
            &&& post.same_counters(pre)
        } else {
            &&& post.storage@ == store_after_feed(
                st2,
                gate.wire_c,
                gate_fn(
                    gate.gate_type,
                    bool_or_false(pre.storage@, gate.wire_a),
                    bool_or_false(st1, gate.wire_b),
                ),
            )
            &&& post.ancestries() == if stored_wire(gate.wire_c) {
                anc2.insert(gate.wire_c.0, out)
            } else {
                anc2
            }
            &&& post.stats == if stored_wire(gate.wire_c) {
                stats_with_support(
                    stats_after(pre.stats, gate.gate_type, a, b, pre.k as nat),
                    out.anchors.len(),
                )
            } else {
                stats_after(pre.stats, gate.gate_type, a, b, pre.k as nat)
            }
            &&& post.gate_index == pre.gate_index + 1
            &&& post.k == pre.k
            &&& post.next_input_id == pre.next_input_id
            &&& post.gate_limit == pre.gate_limit
        }
    }

    open spec fn may_allocate(&self, credits: Credits) -> bool {
        self.next_input_id < u64::MAX
    }

    open spec fn allocated(pre: Self, credits: Credits, wire: WireId, post: Self) -> bool {
        &&& wire == allocated_wire(pre.storage@, credits)
        &&& post.storage@ == store_after_allocate(pre.storage@, credits)
        &&& post.ancestries() == if credits > 0 {
            pre.ancestries().insert(wire.0, anchor_ancestry(pre.next_input_id))
        } else {
            pre.ancestries()
        }
        &&& post.next_input_id == pre.next_input_id + 1
        &&& post.k == pre.k
        &&& post.gate_index == pre.gate_index
        &&& post.stats == if credits > 0 {
            stats_with_support(pre.stats, 1)
        } else {
            pre.stats
        }
        &&& post.gate_limit == pre.gate_limit
    }

    open spec fn may_lookup(&self, wire: WireId) -> bool {
        true
    }

    open spec fn looked_up(pre: Self, wire: WireId, value: Option<bool>, post: Self) -> bool {
        &&& value == bool_lookup(pre.storage@, wire)
        &&& post.storage@ == bools_after_lookup(pre.storage@, wire)
        &&& post.ancestries() == anc_after_lookup(pre.ancestries(), post.storage@, wire)
        &&& post.same_counters(pre)
    }

    open spec fn may_feed(&self, wire: WireId) -> bool {
        feedable(self.storage@, wire)
    }

    open spec fn fed(pre: Self, wire: WireId, value: bool, post: Self) -> bool {
        &&& post.storage@ == store_after_feed(pre.storage@, wire, value)
        &&& post.ancestries() == pre.ancestries()
        &&& post.same_counters(pre)
    }

    open spec fn may_add_credits(&self, wires: Seq<WireId>, credits: Credits) -> bool {
        creditable(self.storage@, wires, credits)
    }

    open spec fn credited(pre: Self, wires: Seq<WireId>, credits: Credits, post: Self) -> bool {
        &&& post.storage@ == store_after_credits(pre.storage@, wires, credits)
        &&& post.ancestries() == pre.ancestries()
        &&& post.same_counters(pre)
    }

    open spec fn may_enter(&self, key: ComponentKey) -> bool {
        true
    }

    open spec fn entered(pre: Self, key: ComponentKey, post: Self) -> bool {
        post == pre
    }

    open spec fn may_exit(&self, key: ComponentKey) -> bool {
        true
    }

    open spec fn exited(pre: Self, key: ComponentKey, post: Self) -> bool {
        post == pre
    }

    open spec fn may_finalize(&self) -> bool {
        true
    }

    open spec fn finalized(pre: Self, acc: AnchorStats) -> bool {
        acc == pre.stats
    }

    fn false_value(&self) -> (r: bool) {
        false
    }

    fn true_value(&self) -> (r: bool) {
        true
    }

    fn evaluate_gate(&mut self, gate: &Gate) {
        let anc_a = self.ancestry(gate.wire_a);
        let anc_b = self.ancestry(gate.wire_b);
        proof {
            merged_support(anc_a@, anc_b@, self.stats.max_support as nat);
        }
        let a = self.lookup_wire(gate.wire_a) == Some(true);
        let b = self.lookup_wire(gate.wire_b) == Some(true);
        if gate.wire_c.0 == UNREACHABLE_ID {
            return ;
        }
        let ghost mid = *self;
        let g: u64 = self.gate_index;
        self.gate_index = self.gate_index + 1;
        let merged = union(&anc_a.anchors, &anc_b.anchors);
        let anchors: usize = merged.len();
        let xors: usize = union_len(&anc_a.xors, &anc_b.xors);
        let reads: usize = anchors + xors;
        self.stats.gates = self.stats.gates + 1;
        self.stats.sum_anchors = self.stats.sum_anchors + anchors as u128;
        self.stats.sum_reads = self.stats.sum_reads + reads as u128;
        if anchors > self.stats.max_anchors {
            self.stats.max_anchors = anchors;
        }
        if xors > self.stats.max_xor_nodes {
            self.stats.max_xor_nodes = xors;
        }
        if reads > self.stats.max_reads {
            self.stats.max_reads = reads;
        }
        let out = if !gate.gate_type.is_free() {
            self.stats.nonfree_gates = self.stats.nonfree_gates + 1;
            Ancestry::anchor(g)
        } else {
            self.stats.free_gates = self.stats.free_gates + 1;
            if anchors > self.k {
                self.stats.promoted = self.stats.promoted + 1;
                Ancestry::anchor(g)
            } else {
                let mut xs = union(&anc_a.xors, &anc_b.xors);
                xs.insert(g);
                Ancestry { anchors: merged, xors: xs }
            }
        };
        assert(out@ == gate_ancestry(gate.gate_type, anc_a@, anc_b@, self.k as nat, g));
        write_store(&mut self.storage, gate.wire_c, gate.gate_type.eval(a, b));
        if gate.wire_c.is_stored() {
            assert(live(mid.storage@, gate.wire_c.0));
            self.count_support(out.anchors.len());
            self.anc.insert(gate.wire_c.0, out);
            assert(self.ancestries() =~= mid.ancestries().insert(gate.wire_c.0, out@));
        }
        assert forall|w: usize| live(self.storage@, w) <==> live(mid.storage@, w) by {}
    }

    /// A wire that no gate produces is an input, and is its own anchor.
    fn allocate_wire(&mut self, credits: Credits) -> (r: WireId) {
        let ghost before = *self;
        let id: u64 = self.next_input_id;
        self.next_input_id = self.next_input_id + 1;
        let w = allocate_store(&mut self.storage, credits);
        if credits > 0 {
            let a = Ancestry::anchor(id);
            self.count_support(1);
            self.anc.insert(w.0, a);
            proof {
                let next = before.storage@.next_place();
                assert(self.storage@.holds(next));
                assert(slab_contents(self.storage.credits).dom().contains(next));
                assert(place_of(w) == next);
                assert(self.ancestries() =~= before.ancestries().insert(w.0, a@));
            }
        }
        w
    }

    fn lookup_wire(&mut self, wire: WireId) -> (r: Option<bool>) {
        let ghost before = *self;
        let v = read_bool(&mut self.storage, wire);
        if wire.is_stored() && !self.storage.contains(wire) {
            self.anc.remove(&wire.0);
            assert(self.ancestries() =~= before.ancestries().remove(wire.0));
        }
        v
    }

    fn feed_wire(&mut self, wire: WireId, value: bool) {
        write_store(&mut self.storage, wire, value);
    }

    fn add_credits(&mut self, wires: &[WireId], credits: Credits) {
        proof {
            credits_keep_places(self.storage@, wires@, credits);
        }
        credit_store(&mut self.storage, wires, credits);
    }

    fn note_component_enter(&mut self, key: ComponentKey) {
    }

    fn note_component_exit(&mut self, key: ComponentKey) {
    }

    /// Hands out the figures.
    fn finalize_ciphertext_accumulator(self) -> (r: AnchorStats) {
        self.stats
    }
}

} // verus!
