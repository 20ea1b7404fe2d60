//! Garbling one circuit in several lanes at once.

use crate::ciphertext_hasher::MultiCiphertextHandler;
use crate::gate::{
    free, stored_wire, Delta, GarbledWire, Gate, WireId, FALSE_WIRE_ID, TRUE_WIRE_ID,
    UNREACHABLE_ID,
};
use crate::halfgates::{garble_gate_batch, garbled};
use crate::hashers::{AesNiHasher, GateHasher};
use crate::modes::backend::{
    allocate_store, allocated_wire, credit_store, creditable, feedable, initialized, lookup_value,
    place_of, read_store, store_after_allocate, store_after_credits, store_after_feed,
    store_after_lookup, store_wf, write_store, CircuitMode, ComponentKey,
};
use crate::primitives::{chacha_draw, chacha_stream};
use crate::s::{xor, S};
use crate::storage::{Credits, Storage, StoreView};
use vstd::prelude::*;

verus! {

/// One lane: where its generator stands, its offset and its constant labels.
#[derive(Clone, Copy, Debug, PartialEq, Eq, Structural)]
pub struct LaneCtx {
    pub seed: u64,
    pub drawn: u64,
    pub delta: Delta,
    pub false_wire_label0: S,
    pub true_wire_label0: S,
}

/// Draw number `k` of a lane's generator.
pub open spec fn lane_draw(seed: u64, k: nat) -> S {
    S(chacha_stream(seed, (4 * k) as u128))
}

/// The first lane context of a seed: the offset, the label of the false wire and
/// that of the true wire are its first draws.
pub open spec fn lane_start(seed: u64) -> LaneCtx {
    LaneCtx {
        seed,
        drawn: 3,
        delta: Delta(lane_draw(seed, 0)),
        false_wire_label0: lane_draw(seed, 1),
        true_wire_label0: lane_draw(seed, 2),
    }
}

/// The array with the elements of `s`.
pub open spec fn array_of<T, const N: usize>(s: Seq<T>) -> [T; N] {
    choose|a: [T; N]| a@ == s
}

/// An array is the array of its elements.
pub proof fn array_of_elements<T, const N: usize>(a: [T; N])
    ensures
        array_of::<T, N>(a@) == a,
{
    let b = array_of::<T, N>(a@);
    assert(a@ == a@);
    assert(b@ == a@);
    assert(b =~= a);
}

/// An array that starts with the first `n` elements of `s` and goes on as `a`.
proof fn array_patched<T, const N: usize>(s: Seq<T>, a: [T; N], n: nat) -> (b: [T; N])
    requires
        s.len() == N,
        n <= N,
    ensures
        forall|i: int| 0 <= i < n ==> b@[i] == s[i],
        forall|i: int| n <= i < N ==> b@[i] == a@[i],
    decreases n,
{
    if n == 0 {
        a
    } else {
        let b = array_patched(s, a, (n - 1) as nat);
        vstd::array::spec_array_update(b, n - 1, s[n - 1])
    }
}

/// The array of `N` elements has these elements.
pub proof fn array_of_has_elements<T, const N: usize>(s: Seq<T>, any: [T; N])
    requires
        s.len() == N,
    ensures
        array_of::<T, N>(s)@ == s,
{
    let b = array_patched(s, any, N as nat);
    assert(b@ =~= s);
}

/// The wires whose false labels are `label0s`.
pub open spec fn wires_of<const N: usize>(label0s: Seq<S>, deltas: Seq<Delta>) -> [GarbledWire; N] {
    array_of::<GarbledWire, N>(
        Seq::new(
            N as nat,
            |k: int| GarbledWire { label0: label0s[k], label1: xor(label0s[k], deltas[k].0) },
        ),
    )
}

/// The false labels of the output of a gate in each lane.
pub open spec fn lane_outputs<const N: usize>(
    gate: Gate,
    a: [S; N],
    b: [S; N],
    deltas: [Delta; N],
    gate_id: usize,
) -> [S; N] {
    array_of::<S, N>(
        Seq::new(
            N as nat,
            |k: int| garbled(AesNiHasher, gate.gate_type, a@[k], b@[k], deltas@[k], gate_id).0,
        ),
    )
}

/// The ciphertext of a non-free gate in each lane.
pub open spec fn lane_ciphertexts<const N: usize>(
    gate: Gate,
    a: [S; N],
    b: [S; N],
    deltas: [Delta; N],
    gate_id: usize,
) -> [S; N] {
    array_of::<S, N>(
        Seq::new(
            N as nat,
            |k: int| garbled(AesNiHasher, gate.gate_type, a@[k], b@[k], deltas@[k], gate_id).1->0,
        ),
    )
}

/// Garbles gates in `N` lanes and hands the ciphertexts to a handler.
pub struct MultigarblingMode<H: GateHasher, MCTH: MultiCiphertextHandler<N>, const N: usize> {
    pub lanes: [LaneCtx; N],
    pub gate_index: usize,
    pub output_handler: MCTH,
    pub storage: Storage<WireId, Option<[S; N]>>,
    pub deltas_arr: [Delta; N],
    pub false_label0s: [S; N],
    pub true_label0s: [S; N],
    pub hasher: core::marker::PhantomData<H>,
}

impl<H: GateHasher, MCTH: MultiCiphertextHandler<N>, const N: usize> MultigarblingMode<H, MCTH, N> {
    /// The false labels of a wire in a storage that holds `st`.
    pub open spec fn labels_in(&self, st: StoreView<Option<[S; N]>>, w: WireId) -> Option<[S; N]> {
        lookup_value(st, self.true_label0s, self.false_label0s, w)
    }

    /// Whether nothing but the storage, the handler and the counter of gates changed.
    pub open spec fn same_setting(self, other: Self) -> bool {
        self.lanes == other.lanes && self.deltas_arr == other.deltas_arr && self.false_label0s
            == other.false_label0s && self.true_label0s == other.true_label0s
    }

    /// A backend whose lanes start from `seeds`.
    pub fn new(capacity: usize, seeds: [u64; N], output_handler: MCTH) -> (r: Self)
        requires
            16 * capacity <= isize::MAX,
            output_handler.ready(),
        ensures
            r.wf(),
            r.gate_index == 0,
            r.output_handler == output_handler,
            forall|k: int| 0 <= k < N ==> #[trigger] r.lanes@[k] == lane_start(seeds@[k]),
            r.storage@.entries == Map::<int, (u16, Option<[S; N]>)>::empty(),
            r.storage@.vacant == Seq::<int>::empty(),
    {
        let blank = LaneCtx {
            seed: 0,
            drawn: 0,
            delta: Delta(S(0)),
            false_wire_label0: S(0),
            true_wire_label0: S(0),
        };
        let mut lanes: [LaneCtx; N] = [blank; N];
        let mut deltas_arr: [Delta; N] = [Delta(S(0)); N];
        let mut false_label0s: [S; N] = [S(0); N];
        let mut true_label0s: [S; N] = [S(0); N];
        let mut i: usize = 0;
        while i < N
            invariant
                i <= N,
                forall|k: int| 0 <= k < i ==> #[trigger] lanes@[k] == lane_start(seeds@[k]),
                forall|k: int| 0 <= k < i ==> #[trigger] deltas_arr@[k] == lanes@[k].delta,
                forall|k: int|
                    0 <= k < i ==> #[trigger] false_label0s@[k] == lanes@[k].false_wire_label0,
                forall|k: int|
                    0 <= k < i ==> #[trigger] true_label0s@[k] == lanes@[k].true_wire_label0,
            decreases N - i,
        {
            let seed: u64 = seeds[i];
            let delta = Delta(S(chacha_draw(seed, 0)));
            let false_wire_label0 = S(chacha_draw(seed, 4));
            let true_wire_label0 = S(chacha_draw(seed, 8));
            lanes[i] = LaneCtx { seed, drawn: 3, delta, false_wire_label0, true_wire_label0 };
            deltas_arr[i] = delta;
            false_label0s[i] = false_wire_label0;
            true_label0s[i] = true_wire_label0;
            i = i + 1;
        }
        MultigarblingMode {
            storage: Storage::new(capacity),
            lanes,
            gate_index: 0,
            output_handler,
            deltas_arr,
            false_label0s,
            true_label0s,
            hasher: core::marker::PhantomData,
        }
    }

    /// A fresh wire in each lane: its false label is the lane's next draw.
    pub fn issue_garbled_wire_batch(&mut self) -> (r: [GarbledWire; N])
        requires
            old(self).wf(),
            forall|k: int| 0 <= k < N ==> (#[trigger] old(self).lanes@[k]).drawn < u64::MAX,
        ensures
            final(self).wf(),
            final(self).storage == old(self).storage,
            final(self).output_handler == old(self).output_handler,
            final(self).gate_index == old(self).gate_index,
            forall|k: int|
                0 <= k < N ==> #[trigger] final(self).lanes@[k] == (LaneCtx {
                    drawn: (old(self).lanes@[k].drawn + 1) as u64,
                    ..old(self).lanes@[k]
                }),
            forall|k: int|
                0 <= k < N ==> {
                    let l0 = lane_draw(old(self).lanes@[k].seed, old(self).lanes@[k].drawn as nat);
                    #[trigger] r@[k] == (GarbledWire {
                        label0: l0,
                        label1: xor(l0, old(self).lanes@[k].delta.0),
                    })
                },
    {
        let blank = GarbledWire { label0: S(0), label1: S(0) };
        let mut r: [GarbledWire; N] = [blank; N];
        let ghost lanes0 = self.lanes@;
        let mut i: usize = 0;
        while i < N
            invariant
                i <= N,
                self.wf(),
                self.storage == old(self).storage,
                self.output_handler == old(self).output_handler,
                self.gate_index == old(self).gate_index,
                lanes0 == old(self).lanes@,
                forall|k: int| 0 <= k < N ==> (#[trigger] lanes0[k]).drawn < u64::MAX,
                forall|k: int|
                    0 <= k < i ==> #[trigger] self.lanes@[k] == (LaneCtx {
                        drawn: (lanes0[k].drawn + 1) as u64,
                        ..lanes0[k]
                    }),
                forall|k: int| i <= k < N ==> #[trigger] self.lanes@[k] == lanes0[k],
                forall|k: int|
                    0 <= k < i ==> {
                        let l0 = lane_draw(lanes0[k].seed, lanes0[k].drawn as nat);
                        #[trigger] r@[k] == (GarbledWire {
                            label0: l0,
                            label1: xor(l0, lanes0[k].delta.0),
                        })
                    },
            decreases N - i,
        {
            let l = self.lanes[i];
            let label0 = S(chacha_draw(l.seed, 4 * (l.drawn as u128)));
            r[i] = GarbledWire { label0, label1: S::xor(label0, l.delta.0) };
            self.lanes[i] = LaneCtx {
                seed: l.seed,
                drawn: l.drawn + 1,
                delta: l.delta,
                false_wire_label0: l.false_wire_label0,
                true_wire_label0: l.true_wire_label0,
            };
            i = i + 1;
        }
        r
    }

    /// The false labels of a wire that has a value.
    fn read_label0s(&mut self, wire: WireId) -> (r: [S; N])
        requires
            old(self).wf(),
            old(self).labels_in(old(self).storage@, wire) is Some,
        ensures
            final(self).wf(),
            final(self).same_setting(*old(self)),
            final(self).output_handler == old(self).output_handler,
            final(self).gate_index == old(self).gate_index,
            Some(r) == old(self).labels_in(old(self).storage@, wire),
            final(self).storage@ == store_after_lookup(old(self).storage@, wire),
    {
        if wire.0 == FALSE_WIRE_ID {
            return self.false_label0s;
        }
        if wire.0 == TRUE_WIRE_ID {
            return self.true_label0s;
        }
        match read_store(&mut self.storage, wire) {
            Some(Some(arr)) => arr,
            _ => self.false_label0s,
        }
    }

    /// The wires with these false labels.
    fn garbled_wires(&self, label0s: [S; N]) -> (r: [GarbledWire; N])
        requires
            self.wf(),
        ensures
            r == wires_of::<N>(label0s@, self.deltas_arr@),
    {
        let blank = GarbledWire { label0: S(0), label1: S(0) };
        let mut r: [GarbledWire; N] = [blank; N];
        let mut i: usize = 0;
        while i < N
            invariant
                i <= N,
                forall|k: int|
                    0 <= k < i ==> #[trigger] r@[k] == (GarbledWire {
                        label0: label0s@[k],
                        label1: xor(label0s@[k], self.deltas_arr@[k].0),
                    }),
            decreases N - i,
        {
            r[i] = GarbledWire {
                label0: label0s[i],
                label1: S::xor(label0s[i], self.deltas_arr[i].0),
            };
            i = i + 1;
        }
        proof {
            array_of_elements::<GarbledWire, N>(r);
            assert(r@ =~= Seq::new(
                N as nat,
                |k: int|
                    GarbledWire {
                        label0: label0s@[k],
                        label1: xor(label0s@[k], self.deltas_arr@[k].0),
                    },
            ));
        }
        r
    }
}

impl<H: GateHasher, MCTH: MultiCiphertextHandler<N>, const N: usize> CircuitMode
    for MultigarblingMode<H, MCTH, N> {
    type WireValue = [GarbledWire; N];

    type CiphertextAcc = MCTH::Result;

    open spec fn wf(&self) -> bool {
        &&& store_wf(self.storage)
        &&& self.output_handler.ready()
        &&& forall|k: int|
            0 <= k < N ==> #[trigger] self.deltas_arr@[k] == self.lanes@[k].delta
                && self.false_label0s@[k] == self.lanes@[k].false_wire_label0
                && self.true_label0s@[k] == self.lanes@[k].true_wire_label0
    }

    open spec fn value_of_false(&self) -> [GarbledWire; N] {
        wires_of::<N>(self.false_label0s@, self.deltas_arr@)
    }

    open spec fn value_of_true(&self) -> [GarbledWire; N] {
        wires_of::<N>(self.true_label0s@, self.deltas_arr@)
    }

    open spec fn may_evaluate(&self, gate: Gate) -> bool {
        let st1 = store_after_lookup(self.storage@, gate.wire_a);
        let st2 = store_after_lookup(st1, gate.wire_b);
        &&& self.labels_in(self.storage@, gate.wire_a) is Some
        &&& self.labels_in(st1, gate.wire_b) is Some
        &&& gate.wire_c.0 != UNREACHABLE_ID ==> self.gate_index < usize::MAX && stored_wire(
            gate.wire_c,
        ) && st2.holds(place_of(gate.wire_c)) && self.output_handler.taken().len() < u64::MAX - 1
    }

    open spec fn evaluated(pre: Self, gate: Gate, post: Self) -> bool {
        let st1 = store_after_lookup(pre.storage@, gate.wire_a);
        let st2 = store_after_lookup(st1, gate.wire_b);
        let a = pre.labels_in(pre.storage@, gate.wire_a)->0;
        let b = pre.labels_in(st1, gate.wire_b)->0;
        &&& post.same_setting(pre)
        &&& if gate.wire_c.0 == UNREACHABLE_ID {
            &&& post.storage@ == st2
            &&& post.gate_index == pre.gate_index
            &&& post.output_handler == pre.output_handler
        } else {
            &&& post.gate_index == pre.gate_index + 1
            &&& post.storage@ == st2.after_set(
                place_of(gate.wire_c),
                Some(lane_outputs::<N>(gate, a, b, pre.deltas_arr, pre.gate_index)),
            )
            &&& if free(gate.gate_type) {
                post.output_handler == pre.output_handler
            } else {
                post.output_handler.taken() == pre.output_handler.taken().push(
                    lane_ciphertexts::<N>(gate, a, b, pre.deltas_arr, pre.gate_index),
                )
            }
        }
    }

    open spec fn may_allocate(&self, credits: Credits) -> bool {
        true
    }

    open spec fn allocated(pre: Self, credits: Credits, wire: WireId, post: Self) -> bool {
        &&& post.same_setting(pre)
        &&& post.gate_index == pre.gate_index
        &&& post.output_handler == pre.output_handler
        &&& wire == allocated_wire(pre.storage@, credits)
        &&& post.storage@ == store_after_allocate(pre.storage@, credits)
    }

    open spec fn may_lookup(&self, wire: WireId) -> bool {
        initialized(self.storage@, wire)
    }

    open spec fn looked_up(
        pre: Self,
        wire: WireId,
        value: Option<[GarbledWire; N]>,
        post: Self,
    ) -> bool {
        &&& post.same_setting(pre)
        &&& post.gate_index == pre.gate_index
        &&& post.output_handler == pre.output_handler
        &&& value == match pre.labels_in(pre.storage@, wire) {
            Some(label0s) => Some(wires_of::<N>(label0s@, pre.deltas_arr@)),
            None => None,
        }
        &&& post.storage@ == store_after_lookup(pre.storage@, wire)
    }

    open spec fn may_feed(&self, wire: WireId) -> bool {
        feedable(self.storage@, wire)
    }

    open spec fn fed(pre: Self, wire: WireId, value: [GarbledWire; N], post: Self) -> bool {
        &&& post.same_setting(pre)
        &&& post.gate_index == pre.gate_index
        &&& post.output_handler == pre.output_handler
        &&& post.storage@ == store_after_feed(
            pre.storage@,
            wire,
            array_of::<S, N>(Seq::new(N as nat, |k: int| value@[k].label0)),
        )
    }

    open spec fn may_add_credits(&self, wires: Seq<WireId>, credits: Credits) -> bool {
        creditable(self.storage@, wires, credits)
    }

    open spec fn credited(pre: Self, wires: Seq<WireId>, credits: Credits, post: Self) -> bool {
        &&& post.same_setting(pre)
        &&& post.gate_index == pre.gate_index
        &&& post.output_handler == pre.output_handler
        &&& post.storage@ == store_after_credits(pre.storage@, wires, credits)
    }

    open spec fn may_enter(&self, key: ComponentKey) -> bool {
        true
    }

    open spec fn entered(pre: Self, key: ComponentKey, post: Self) -> bool {
        post == pre
    }

    open spec fn may_exit(&self, key: ComponentKey) -> bool {
        true
    }

    open spec fn exited(pre: Self, key: ComponentKey, post: Self) -> bool {
        post == pre
    }

    open spec fn may_finalize(&self) -> bool {
        self.output_handler.taken().len() < u64::MAX
    }

    open spec fn finalized(pre: Self, acc: MCTH::Result) -> bool {
        MCTH::result_of(pre.output_handler.taken(), acc)
    }

    fn false_value(&self) -> (r: [GarbledWire; N]) {
        self.garbled_wires(self.false_label0s)
    }

    fn true_value(&self) -> (r: [GarbledWire; N]) {
        self.garbled_wires(self.true_label0s)
    }

    fn evaluate_gate(&mut self, gate: &Gate) {
        let ghost before = *self;
        let a: [S; N] = self.read_label0s(gate.wire_a);
        let b: [S; N] = self.read_label0s(gate.wire_b);
        if gate.wire_c.0 == UNREACHABLE_ID {
            return ;
        }
        let gate_id: usize = self.gate_index;
        self.gate_index = self.gate_index + 1;
        let (c_base, ciphertext) = garble_gate_batch::<N>(
            gate.gate_type,
            a,
            b,
            &self.deltas_arr,
            gate_id,
        );
        proof {
            array_of_elements::<S, N>(c_base);
            assert(c_base@ =~= Seq::new(
                N as nat,
                |k: int|
                    garbled(
                        AesNiHasher,
                        gate.gate_type,
                        a@[k],
                        b@[k],
                        before.deltas_arr@[k],
                        gate_id,
                    ).0,
            ));
        }
        match ciphertext {
            Some(cts) => {
                proof {
                    array_of_elements::<S, N>(cts);
                    assert(cts@ =~= Seq::new(
                        N as nat,
                        |k: int|
                            garbled(
                                AesNiHasher,
                                gate.gate_type,
                                a@[k],
                                b@[k],
                                before.deltas_arr@[k],
                                gate_id,
                            ).1->0,
                    ));
                }
                self.output_handler.handle(cts);
            },
            None => (),
        }
        write_store(&mut self.storage, gate.wire_c, c_base);
    }

    fn allocate_wire(&mut self, credits: Credits) -> (r: WireId) {
        allocate_store(&mut self.storage, credits)
    }

    fn lookup_wire(&mut self, wire: WireId) -> (r: Option<[GarbledWire; N]>) {
        if wire.0 == TRUE_WIRE_ID {
            return Some(self.true_value());
        }
        if wire.0 == FALSE_WIRE_ID {
            return Some(self.false_value());
        }
        match read_store(&mut self.storage, wire) {
            Some(Some(label0s)) => Some(self.garbled_wires(label0s)),
            _ => None,
        }
    }

    fn feed_wire(&mut self, wire: WireId, value: [GarbledWire; N]) {
        let mut label0s: [S; N] = [S(0); N];
        let mut i: usize = 0;
        while i < N
            invariant
                i <= N,
                forall|k: int| 0 <= k < i ==> #[trigger] label0s@[k] == value@[k].label0,
            decreases N - i,
        {
            label0s[i] = value[i].label0;
            i = i + 1;
        }
        proof {
            array_of_elements::<S, N>(label0s);
            assert(label0s@ =~= Seq::new(N as nat, |k: int| value@[k].label0));
        }
        write_store(&mut self.storage, wire, label0s);
    }

    fn add_credits(&mut self, wires: &[WireId], credits: Credits) {
        credit_store(&mut self.storage, wires, credits);
    }

    fn note_component_enter(&mut self, key: ComponentKey) {
    }

    fn note_component_exit(&mut self, key: ComponentKey) {
    }

    fn finalize_ciphertext_accumulator(self) -> (r: MCTH::Result) {
        self.output_handler.finalize()
    }
}

} // verus!
