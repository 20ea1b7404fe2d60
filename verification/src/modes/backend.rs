//! The interface of an execution backend, and what backends share.

use crate::gate::{constant_wire, Gate, WireId, FALSE_WIRE_ID, TRUE_WIRE_ID};
use crate::storage::{copied, Credits, Storage, StoreView};
use vstd::prelude::*;

verus! {

/// Names a component of a circuit.
pub type ComponentKey = [u8; 8];

/// An execution backend. For every operation, one specification function says
/// when it may be called and another what it does.
pub trait CircuitMode: Sized {
    type WireValue;

    type CiphertextAcc;

    /// Whether the backend's state is sound.
    spec fn wf(&self) -> bool;

    spec fn value_of_false(&self) -> Self::WireValue;

    spec fn value_of_true(&self) -> Self::WireValue;

    spec fn may_evaluate(&self, gate: Gate) -> bool;

    spec fn evaluated(pre: Self, gate: Gate, post: Self) -> bool;

    spec fn may_allocate(&self, credits: Credits) -> bool;

    spec fn allocated(pre: Self, credits: Credits, wire: WireId, post: Self) -> bool;

    spec fn may_lookup(&self, wire: WireId) -> bool;

    spec fn looked_up(
        pre: Self,
        wire: WireId,
        value: Option<Self::WireValue>,
        post: Self,
    ) -> bool;

    spec fn may_feed(&self, wire: WireId) -> bool;

    spec fn fed(pre: Self, wire: WireId, value: Self::WireValue, post: Self) -> bool;

    spec fn may_add_credits(&self, wires: Seq<WireId>, credits: Credits) -> bool;

    spec fn credited(pre: Self, wires: Seq<WireId>, credits: Credits, post: Self) -> bool;

    spec fn may_enter(&self, key: ComponentKey) -> bool;

    spec fn entered(pre: Self, key: ComponentKey, post: Self) -> bool;

    spec fn may_exit(&self, key: ComponentKey) -> bool;

    spec fn exited(pre: Self, key: ComponentKey, post: Self) -> bool;

    spec fn may_finalize(&self) -> bool;

    spec fn finalized(pre: Self, acc: Self::CiphertextAcc) -> bool;

    fn false_value(&self) -> (r: Self::WireValue)
        requires
            self.wf(),
        ensures
            r == self.value_of_false(),
    ;

    fn true_value(&self) -> (r: Self::WireValue)
        requires
            self.wf(),
        ensures
            r == self.value_of_true(),
    ;

    /// Reads the inputs of a gate, which uses a credit of each, and stores its
    /// output. If nothing reads the output, only the credits are used: that gate is
    /// neither evaluated nor counted.
    fn evaluate_gate(&mut self, gate: &Gate)
        requires
            old(self).wf(),
            old(self).may_evaluate(*gate),
        ensures
            final(self).wf(),
            Self::evaluated(*old(self), *gate, *final(self)),
    ;

    fn allocate_wire(&mut self, credits: Credits) -> (r: WireId)
        requires
            old(self).wf(),
            old(self).may_allocate(credits),
        ensures
            final(self).wf(),
            Self::allocated(*old(self), credits, r, *final(self)),
    ;

    fn lookup_wire(&mut self, wire: WireId) -> (r: Option<Self::WireValue>)
        requires
            old(self).wf(),
            old(self).may_lookup(wire),
        ensures
            final(self).wf(),
            Self::looked_up(*old(self), wire, r, *final(self)),
    ;

    fn feed_wire(&mut self, wire: WireId, value: Self::WireValue)
        requires
            old(self).wf(),
            old(self).may_feed(wire),
        ensures
            final(self).wf(),
            Self::fed(*old(self), wire, value, *final(self)),
    ;

    fn add_credits(&mut self, wires: &[WireId], credits: Credits)
        requires
            old(self).wf(),
            old(self).may_add_credits(wires@, credits),
        ensures
            final(self).wf(),
            Self::credited(*old(self), wires@, credits, *final(self)),
    ;

    /// A component is entered.
    fn note_component_enter(&mut self, key: ComponentKey)
        requires
            old(self).wf(),
            old(self).may_enter(key),
        ensures
            final(self).wf(),
            Self::entered(*old(self), key, *final(self)),
    ;

    /// A component is left.
    fn note_component_exit(&mut self, key: ComponentKey)
        requires
            old(self).wf(),
            old(self).may_exit(key),
        ensures
            final(self).wf(),
            Self::exited(*old(self), key, *final(self)),
    ;

    fn finalize_ciphertext_accumulator(self) -> (r: Self::CiphertextAcc)
        requires
            self.wf(),
            self.may_finalize(),
        ensures
            Self::finalized(self, r),
    ;
}

/// The place of a stored wire. The first two wires are the constants.
pub open spec fn place_of(w: WireId) -> int {
    w.0 - 2
}

/// Whether the storage of a backend is sound: the first key is that of the first
/// wire that is no constant.
pub open spec fn store_wf<T>(st: Storage<WireId, T>) -> bool {
    st.wf() && st.index_offset == 2
}

/// What is stored after `w` was looked up. Looking up a constant reads nothing.
pub open spec fn store_after_lookup<T>(st: StoreView<T>, w: WireId) -> StoreView<T> {
    if constant_wire(w) {
        st
    } else {
        st.after_get(place_of(w))
    }
}

/// The value of `w`: that of the constant, or the stored one if a value was stored
/// and is not used up.
pub open spec fn lookup_value<V>(st: StoreView<Option<V>>, on: V, off: V, w: WireId) -> Option<V> {
    if w.0 == TRUE_WIRE_ID {
        Some(on)
    } else if w.0 == FALSE_WIRE_ID {
        Some(off)
    } else if st.holds(place_of(w)) {
        st.value(place_of(w))
    } else {
        None
    }
}

/// Whether `w` can be looked up: if it is stored, it was given a value.
pub open spec fn initialized<V>(st: StoreView<Option<V>>, w: WireId) -> bool {
    !constant_wire(w) && st.holds(place_of(w)) ==> st.value(place_of(w)) is Some
}

/// What is stored after `v` was fed to `w`. Feeding a constant or the unreachable
/// wire does nothing.
pub open spec fn store_after_feed<V>(st: StoreView<Option<V>>, w: WireId, v: V) -> StoreView<
    Option<V>,
> {
    if crate::gate::stored_wire(w) {
        st.after_set(place_of(w), Some(v))
    } else {
        st
    }
}

/// Whether `w` can be fed: if it is a stored wire, its place is in use.
pub open spec fn feedable<V>(st: StoreView<Option<V>>, w: WireId) -> bool {
    crate::gate::stored_wire(w) ==> st.holds(place_of(w))
}

/// The wire that is allocated with these credits: with none, the unreachable wire.
pub open spec fn allocated_wire<T>(st: StoreView<T>, credits: Credits) -> WireId {
    if credits == 0 {
        WireId(usize::MAX)
    } else {
        WireId((st.next_place() + 2) as usize)
    }
}

/// What is stored after a wire was allocated with these credits.
pub open spec fn store_after_allocate<V>(st: StoreView<Option<V>>, credits: Credits) -> StoreView<
    Option<V>,
> {
    if credits == 0 {
        st
    } else {
        st.after_allocate(None, credits)
    }
}

/// What is stored after each of `wires` got `credits` more credits.
pub open spec fn store_after_credits<T>(
    st: StoreView<T>,
    wires: Seq<WireId>,
    credits: Credits,
) -> StoreView<T>
    decreases wires.len(),
{
    if wires.len() == 0 {
        st
    } else {
        store_after_credits(st, wires.drop_last(), credits).after_add(
            place_of(wires.last()),
            credits,
        )
    }
}

/// Whether each of `wires` is stored and can take `credits` more credits.
pub open spec fn creditable<T>(st: StoreView<T>, wires: Seq<WireId>, credits: Credits) -> bool
    decreases wires.len(),
{
    wires.len() > 0 ==> {
        let before = store_after_credits(st, wires.drop_last(), credits);
        &&& creditable(st, wires.drop_last(), credits)
        &&& wires.last().0 >= 2
        &&& before.holds(place_of(wires.last()))
        &&& before.credits(place_of(wires.last())) + credits <= u16::MAX
    }
}

/// Reads a wire that is no constant.
pub(crate) fn read_store<V: Copy>(st: &mut Storage<WireId, Option<V>>, w: WireId) -> (r: Option<
    Option<V>,
>)
    requires
        store_wf(*old(st)),
        !constant_wire(w),
    ensures
        store_wf(*final(st)),
        final(st)@ == old(st)@.after_get(place_of(w)),
        r == if old(st)@.holds(place_of(w)) {
            Some(old(st)@.value(place_of(w)))
        } else {
            None
        },
{
    match st.get(w) {
        Ok(d) => Some(copied(d)),
        Err(_) => None,
    }
}

/// Stores the value of a wire whose place is in use.
pub(crate) fn write_store<V: Copy>(st: &mut Storage<WireId, Option<V>>, w: WireId, value: V)
    requires
        store_wf(*old(st)),
        feedable(old(st)@, w),
    ensures
        store_wf(*final(st)),
        final(st)@ == store_after_feed(old(st)@, w, value),
{
    if !w.is_stored() {
        return ;
    }
    let _ = st.set(
        w,
        |entry: &mut Option<V>|
            ensures
                *final(entry) == Some(value)
            { *entry = Some(value); },
    );
}

/// Adds credits to each of the wires.
pub(crate) fn credit_store<V: Copy>(
    st: &mut Storage<WireId, Option<V>>,
    wires: &[WireId],
    credits: Credits,
)
    requires
        store_wf(*old(st)),
        creditable(old(st)@, wires@, credits),
    ensures
        store_wf(*final(st)),
        final(st)@ == store_after_credits(old(st)@, wires@, credits),
{
    let ghost before = st@;
    let mut i: usize = 0;
    assert(wires@.take(0) =~= Seq::<WireId>::empty());
    while i < wires.len()
        invariant
            i <= wires@.len(),
            store_wf(*st),
            creditable(before, wires@, credits),
            st@ == store_after_credits(before, wires@.take(i as int), credits),
        decreases wires@.len() - i,
    {
        proof {
            creditable_prefix(before, wires@, credits, i + 1);
            assert(wires@.take(i + 1).drop_last() =~= wires@.take(i as int));
        }
        let _ = st.add_credits(wires[i], credits);
        i = i + 1;
    }
    assert(wires@.take(wires@.len() as int) =~= wires@);
}

proof fn creditable_prefix<T>(st: StoreView<T>, wires: Seq<WireId>, credits: Credits, n: int)
    requires
        creditable(st, wires, credits),
        0 <= n <= wires.len(),
    ensures
        creditable(st, wires.take(n), credits),
    decreases wires.len(),
{
    if n == wires.len() {
        assert(wires.take(n) =~= wires);
    } else {
        creditable_prefix(st, wires.drop_last(), credits, n);
        assert(wires.drop_last().take(n) =~= wires.take(n));
    }
}

/// Allocates a wire without a value.
pub(crate) fn allocate_store<V: Copy>(
    st: &mut Storage<WireId, Option<V>>,
    credits: Credits,
) -> (r: WireId)
    requires
        store_wf(*old(st)),
    ensures
        store_wf(*final(st)),
        r == allocated_wire(old(st)@, credits),
        final(st)@ == store_after_allocate(old(st)@, credits),
{
    st.allocate(None, credits)
}

} // verus!
