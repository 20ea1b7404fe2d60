//! Evaluating a garbled circuit.

use crate::gate::{
    free, gate_fn, selected, GarbledWire, Gate, WireId, FALSE_WIRE_ID, TRUE_WIRE_ID, UNREACHABLE_ID,
};
use crate::halfgates::{degarble_gate, degarbled};
use crate::hashers::GateHasher;
use crate::modes::backend::{
    allocate_store, allocated_wire, credit_store, creditable, feedable, initialized, lookup_value,
    read_store, store_after_allocate, store_after_credits, store_after_feed, store_after_lookup,
    store_wf, write_store, CircuitMode, ComponentKey,
};
use crate::modes::ciphertexts::CiphertextSource;
use crate::s::S;
use crate::storage::{Credits, Storage, StoreView};
use vstd::prelude::*;

verus! {

/// A wire as the evaluator sees it: one label and the value it stands for.
#[derive(Clone, Copy, Debug, PartialEq, Eq, Structural)]
pub struct EvaluatedWire {
    pub active_label: S,
    pub value: bool,
}

impl EvaluatedWire {
    pub fn empty() -> (r: EvaluatedWire)
        ensures
            r == (EvaluatedWire { active_label: S(0), value: false }),
    {
        EvaluatedWire { active_label: S::zero(), value: false }
    }

    pub fn new(active_label: S, value: bool) -> (r: EvaluatedWire)
        ensures
            r == (EvaluatedWire { active_label, value }),
    {
        EvaluatedWire { active_label, value }
    }

    /// The label of a garbled wire that stands for `value`.
    pub fn new_from_garbled(garbled_wire: &GarbledWire, value: bool) -> (r: EvaluatedWire)
        ensures
            r == (EvaluatedWire { active_label: selected(*garbled_wire, value), value }),
    {
        EvaluatedWire { active_label: garbled_wire.select(value), value }
    }
}

impl Default for EvaluatedWire {
    fn default() -> (r: EvaluatedWire)
        ensures
            r == (EvaluatedWire { active_label: S(0), value: false }),
    {
        EvaluatedWire::empty()
    }
}

/// A place for an evaluated wire.
#[derive(Clone, Copy, Debug, PartialEq, Eq, Structural)]
pub struct OptionalEvaluatedWire {
    pub wire: Option<EvaluatedWire>,
}

impl Default for OptionalEvaluatedWire {
    fn default() -> (r: OptionalEvaluatedWire)
        ensures
            r.wire is None,
    {
        OptionalEvaluatedWire { wire: None }
    }
}

/// Evaluates gates with ciphertexts from a source. The labels of the constant
/// wires are given.
pub struct EvaluateMode<H: GateHasher, SRC: CiphertextSource> {
    pub gate_index: usize,
    pub source: SRC,
    pub storage: Storage<WireId, Option<EvaluatedWire>>,
    pub false_wire: S,
    pub true_wire: S,
    pub gate_hasher: H,
}

/// The output of a gate that the evaluator computes from its inputs.
pub open spec fn evaluated_output<H: GateHasher>(
    h: H,
    gate: Gate,
    a: EvaluatedWire,
    b: EvaluatedWire,
    ct: S,
    gate_id: usize,
) -> EvaluatedWire {
    EvaluatedWire {
        active_label: degarbled(
            h,
            gate.gate_type,
            ct,
            a.active_label,
            a.value,
            b.active_label,
            gate_id,
        ),
        value: gate_fn(gate.gate_type, a.value, b.value),
    }
}

impl<H: GateHasher, SRC: CiphertextSource> EvaluateMode<H, SRC> {
    pub fn new(gate_hasher: H, capacity: usize, true_wire: S, false_wire: S, source: SRC) -> (r:
        Self)
        requires
            16 * capacity <= isize::MAX,
            source.wf(),
        ensures
            r.wf(),
            r.gate_index == 0,
            r.source == source,
            r.false_wire == false_wire,
            r.true_wire == true_wire,
            r.gate_hasher == gate_hasher,
            r.storage@.entries == Map::<int, (u16, Option<EvaluatedWire>)>::empty(),
            r.storage@.vacant == Seq::<int>::empty(),
    {
        EvaluateMode {
            storage: Storage::new(capacity),
            gate_index: 0,
            source,
            false_wire,
            true_wire,
            gate_hasher,
        }
    }

    /// The value of a wire in a storage that holds `st`.
    pub open spec fn value_in(&self, st: StoreView<Option<EvaluatedWire>>, w: WireId) -> Option<
        EvaluatedWire,
    > {
        lookup_value(st, self.value_of_true(), self.value_of_false(), w)
    }

    /// Whether nothing but the storage, the source and the counter of gates changed.
    pub open spec fn same_setting(self, other: Self) -> bool {
        self.false_wire == other.false_wire && self.true_wire == other.true_wire
            && self.gate_hasher == other.gate_hasher
    }
}

impl<H: GateHasher, SRC: CiphertextSource> CircuitMode for EvaluateMode<H, SRC> {
    type WireValue = EvaluatedWire;

    type CiphertextAcc = SRC::Result;

    open spec fn wf(&self) -> bool {
        store_wf(self.storage) && self.source.wf()
    }

    open spec fn value_of_false(&self) -> EvaluatedWire {
        EvaluatedWire { active_label: self.false_wire, value: false }
    }

    open spec fn value_of_true(&self) -> EvaluatedWire {
        EvaluatedWire { active_label: self.true_wire, value: true }
    }

    open spec fn may_evaluate(&self, gate: Gate) -> bool {
        let st1 = store_after_lookup(self.storage@, gate.wire_a);
        let st2 = store_after_lookup(st1, gate.wire_b);
        &&& self.value_in(self.storage@, gate.wire_a) is Some
        &&& self.value_in(st1, gate.wire_b) is Some
        &&& gate.wire_c.0 != UNREACHABLE_ID ==> self.gate_index < usize::MAX && feedable(
            st2,
            gate.wire_c,
        ) && (!free(gate.gate_type) ==> self.source.upcoming().len() > 0)
    }

    open spec fn evaluated(pre: Self, gate: Gate, post: Self) -> bool {
        let st1 = store_after_lookup(pre.storage@, gate.wire_a);
        let st2 = store_after_lookup(st1, gate.wire_b);
        let a = pre.value_in(pre.storage@, gate.wire_a)->0;
        let b = pre.value_in(st1, gate.wire_b)->0;
        &&& post.same_setting(pre)
        &&& if gate.wire_c.0 == UNREACHABLE_ID {
            &&& post.storage@ == st2
            &&& post.gate_index == pre.gate_index
            &&& post.source == pre.source
        } else {
            &&& post.gate_index == pre.gate_index + 1
            &&& post.storage@ == store_after_feed(
                st2,
                gate.wire_c,
                evaluated_output(
                    pre.gate_hasher,
                    gate,
                    a,
                    b,
                    if free(gate.gate_type) {
                        S(0)
                    } else {
                        pre.source.upcoming()[0]
                    },
                    pre.gate_index,
                ),
            )
            &&& if free(gate.gate_type) {
                post.source == pre.source
            } else {
                post.source.upcoming() == pre.source.upcoming().drop_first()
            }
        }
    }

    open spec fn may_allocate(&self, credits: Credits) -> bool {
        true
    }

    open spec fn allocated(pre: Self, credits: Credits, wire: WireId, post: Self) -> bool {
        &&& post.same_setting(pre)
        &&& post.gate_index == pre.gate_index
        &&& post.source == pre.source
        &&& wire == allocated_wire(pre.storage@, credits)
        &&& post.storage@ == store_after_allocate(pre.storage@, credits)
    }

    open spec fn may_lookup(&self, wire: WireId) -> bool {
        initialized(self.storage@, wire)
    }

    open spec fn looked_up(
        pre: Self,
        wire: WireId,
        value: Option<EvaluatedWire>,
        post: Self,
    ) -> bool {
        &&& post.same_setting(pre)
        &&& post.gate_index == pre.gate_index
        &&& post.source == pre.source
        &&& value == pre.value_in(pre.storage@, wire)
        &&& post.storage@ == store_after_lookup(pre.storage@, wire)
    }

    open spec fn may_feed(&self, wire: WireId) -> bool {
        feedable(self.storage@, wire)
    }

    open spec fn fed(pre: Self, wire: WireId, value: EvaluatedWire, post: Self) -> bool {
        &&& post.same_setting(pre)
        &&& post.gate_index == pre.gate_index
        &&& post.source == pre.source
        &&& post.storage@ == store_after_feed(pre.storage@, wire, value)
    }

    open spec fn may_add_credits(&self, wires: Seq<WireId>, credits: Credits) -> bool {
        creditable(self.storage@, wires, credits)
    }

    open spec fn credited(pre: Self, wires: Seq<WireId>, credits: Credits, post: Self) -> bool {
        &&& post.same_setting(pre)
        &&& post.gate_index == pre.gate_index
        &&& post.source == pre.source
        &&& post.storage@ == store_after_credits(pre.storage@, wires, credits)
    }

    open spec fn may_enter(&self, key: ComponentKey) -> bool {
        true
    }

    open spec fn entered(pre: Self, key: ComponentKey, post: Self) -> bool {
        post == pre
    }

    open spec fn may_exit(&self, key: ComponentKey) -> bool {
        true
    }

    open spec fn exited(pre: Self, key: ComponentKey, post: Self) -> bool {
        post == pre
    }

    open spec fn may_finalize(&self) -> bool {
        true
    }

    open spec fn finalized(pre: Self, acc: SRC::Result) -> bool {
        pre.source.concluded(acc)
    }

    fn false_value(&self) -> (r: EvaluatedWire) {
        EvaluatedWire { active_label: self.false_wire, value: false }
    }

    fn true_value(&self) -> (r: EvaluatedWire) {
        EvaluatedWire { active_label: self.true_wire, value: true }
    }

    fn evaluate_gate(&mut self, gate: &Gate) {
        let ghost before = *self;
        let a = match self.lookup_wire(gate.wire_a) {
            Some(w) => w,
            None => EvaluatedWire::empty(),
        };
        let b = match self.lookup_wire(gate.wire_b) {
            Some(w) => w,
            None => EvaluatedWire::empty(),
        };
        if gate.wire_c.0 == UNREACHABLE_ID {
            return ;
        }
        let gate_id: usize = self.gate_index;
        self.gate_index = self.gate_index + 1;
        let ct = if gate.gate_type.is_free() {
            S::zero()
        } else {
            match self.source.recv() {
                Some(ct) => ct,
                None => S::zero(),
            }
        };
        let active_label = degarble_gate(
            &self.gate_hasher,
            gate.gate_type,
            || -> (r: S)
                ensures
                    r == ct
                { ct },
            a.active_label,
            a.value,
            b.active_label,
            gate_id,
        );
        assert(active_label == degarbled(
            before.gate_hasher,
            gate.gate_type,
            ct,
            a.active_label,
            a.value,
            b.active_label,
            gate_id,
        ));
        let value = gate.gate_type.eval(a.value, b.value);
        self.feed_wire(gate.wire_c, EvaluatedWire { active_label, value });
    }

    /// Allocates a wire with its credits.
    fn allocate_wire(&mut self, credits: Credits) -> (r: WireId) {
        allocate_store(&mut self.storage, credits)
    }

    fn lookup_wire(&mut self, wire: WireId) -> (r: Option<EvaluatedWire>) {
        if wire.0 == TRUE_WIRE_ID {
            return Some(self.true_value());
        }
        if wire.0 == FALSE_WIRE_ID {
            return Some(self.false_value());
        }
        match read_store(&mut self.storage, wire) {
            Some(v) => v,
            None => None,
        }
    }

    fn feed_wire(&mut self, wire: WireId, value: EvaluatedWire) {
        write_store(&mut self.storage, wire, value);
    }

    fn add_credits(&mut self, wires: &[WireId], credits: Credits) {
        credit_store(&mut self.storage, wires, credits);
    }

    fn note_component_enter(&mut self, key: ComponentKey) {
    }

    fn note_component_exit(&mut self, key: ComponentKey) {
    }

    fn finalize_ciphertext_accumulator(self) -> (r: SRC::Result) {
        self.source.finalize()
    }
}

} // verus!
