//! Running a circuit in two passes: the first counts the reads of every wire, the
//! second executes and uses them up.

use crate::component::{
    countable, fanout_after, instantiable, occurrences, output_credits_of, wire_credits,
    wires_get_credits_for_reads, ComponentMetaBuilder, ComponentMetaInstance,
    ComponentMetaTemplate, ComponentTemplatePool, GateCount,
};
use crate::gate::{constant_wire, gate_code, stored_wire, Gate, WireId, UNREACHABLE_ID};
use crate::modes::backend::{CircuitMode, ComponentKey};
use crate::modes::component_stats::key_number;
use crate::storage::Credits;
use vstd::prelude::*;

verus! {

/// A backend with the components that are running, their templates and a count of
/// the gates.
pub struct StreamingContext<M: CircuitMode> {
    pub mode: M,
    pub stack: Vec<ComponentMetaInstance>,
    pub templates: ComponentTemplatePool,
    pub gate_count: GateCount,
}

/// The pass that a circuit is in.
pub enum StreamingMode<M: CircuitMode> {
    /// Reads are counted.
    MetadataPass(ComponentMetaBuilder),
    /// Gates are executed.
    ExecutionPass(StreamingContext<M>),
}

/// The credits that the innermost component still gives out, in order.
pub open spec fn top_credits<M: CircuitMode>(ctx: StreamingContext<M>) -> Seq<u16> {
    ctx.stack@.last().order()
}

/// Whether `post` has the stack of `pre` but for `n` credits that the innermost
/// component gave out.
pub open spec fn stack_after<M: CircuitMode>(
    pre: StreamingContext<M>,
    n: nat,
    post: StreamingContext<M>,
) -> bool {
    &&& post.stack@.len() == pre.stack@.len()
    &&& post.stack@.drop_last() == pre.stack@.drop_last()
    &&& top_credits(post) == top_credits(pre).skip(n as int)
}

/// Whether nothing but the backend changed.
pub open spec fn same_frame<M: CircuitMode>(
    pre: StreamingContext<M>,
    post: StreamingContext<M>,
) -> bool {
    post.stack == pre.stack && post.templates == pre.templates && post.gate_count
        == pre.gate_count
}

/// Whether a backend allocated `wires` with these credits, one after the other.
pub open spec fn allocated_all<M: CircuitMode>(
    pre: M,
    credits: Seq<u16>,
    wires: Seq<WireId>,
    post: M,
) -> bool
    decreases credits.len(),
{
    if credits.len() == 0 {
        wires.len() == 0 && post == pre
    } else {
        wires.len() == credits.len() && exists|mid: M|
            #[trigger] mid.wf() && allocated_all(pre, credits.drop_last(), wires.drop_last(), mid)
                && M::allocated(mid, credits.last(), wires.last(), post)
    }
}

/// Whether a backend can allocate wires with these credits, one after the other.
pub open spec fn may_allocate_all<M: CircuitMode>(pre: M, credits: Seq<u16>) -> bool
    decreases credits.len(),
{
    credits.len() > 0 ==> pre.may_allocate(credits[0]) && forall|w: WireId, post: M|
        post.wf() && #[trigger] M::allocated(pre, credits[0], w, post) ==> may_allocate_all(
            post,
            credits.drop_first(),
        )
}

/// Whether a backend was fed `values` on `wires`, one after the other.
pub open spec fn fed_all<M: CircuitMode>(
    pre: M,
    wires: Seq<WireId>,
    values: Seq<M::WireValue>,
    post: M,
) -> bool
    decreases wires.len(),
{
    if wires.len() == 0 {
        post == pre
    } else {
        exists|mid: M|
            #[trigger] mid.wf() && fed_all(pre, wires.drop_last(), values.drop_last(), mid)
                && M::fed(mid, wires.last(), values.last(), post)
    }
}

/// Whether a backend can be fed `values` on `wires`, one after the other.
pub open spec fn may_feed_all<M: CircuitMode>(
    pre: M,
    wires: Seq<WireId>,
    values: Seq<M::WireValue>,
) -> bool
    decreases wires.len(),
{
    wires.len() > 0 ==> pre.may_feed(wires[0]) && forall|post: M|
        post.wf() && #[trigger] M::fed(pre, wires[0], values[0], post) ==> may_feed_all(
            post,
            wires.drop_first(),
            values.drop_first(),
        )
}

/// Whether a wire with `c` credits from a component gets them from the backend.
pub open spec fn takes_credits(w: WireId, c: u16) -> bool {
    !constant_wire(w) && c > 0
}

/// Whether a backend added these credits to the inputs of a component, one after
/// the other.
pub open spec fn credited_all<M: CircuitMode>(
    pre: M,
    wires: Seq<WireId>,
    credits: Seq<u16>,
    post: M,
) -> bool
    decreases wires.len(),
{
    if wires.len() == 0 {
        post == pre
    } else {
        exists|mid: M|
            #[trigger] mid.wf() && credited_all(pre, wires.drop_last(), credits.drop_last(), mid)
                && if takes_credits(wires.last(), credits.last()) {
                M::credited(mid, seq![wires.last()], credits.last(), post)
            } else {
                post == mid
            }
    }
}

/// Whether a backend can add these credits to the inputs of a component, one after
/// the other.
pub open spec fn may_credit_all<M: CircuitMode>(
    pre: M,
    wires: Seq<WireId>,
    credits: Seq<u16>,
) -> bool
    decreases wires.len(),
{
    wires.len() > 0 ==> if takes_credits(wires[0], credits[0]) {
        pre.may_add_credits(seq![wires[0]], credits[0]) && forall|post: M|
            post.wf() && #[trigger] M::credited(pre, seq![wires[0]], credits[0], post)
                ==> may_credit_all(post, wires.drop_first(), credits.drop_first())
    } else {
        may_credit_all(pre, wires.drop_first(), credits.drop_first())
    }
}

/// Whether a backend used one credit of each stored wire of `wires`, one after the
/// other, and each had a value.
pub open spec fn unpinned_all<M: CircuitMode>(pre: M, wires: Seq<WireId>, post: M) -> bool
    decreases wires.len(),
{
    if wires.len() == 0 {
        post == pre
    } else {
        exists|mid: M|
            #[trigger] mid.wf() && unpinned_all(pre, wires.drop_last(), mid) && if stored_wire(
                wires.last(),
            ) {
                exists|v: Option<M::WireValue>|
                    v is Some && #[trigger] M::looked_up(mid, wires.last(), v, post)
            } else {
                post == mid
            }
    }
}

/// Whether a backend can use one credit of each stored wire of `wires`, one after
/// the other, and each has a value.
pub open spec fn may_unpin_all<M: CircuitMode>(pre: M, wires: Seq<WireId>) -> bool
    decreases wires.len(),
{
    wires.len() > 0 ==> if stored_wire(wires[0]) {
        pre.may_lookup(wires[0]) && forall|v: Option<M::WireValue>, post: M|
            post.wf() && #[trigger] M::looked_up(pre, wires[0], v, post) ==> v is Some
                && may_unpin_all(post, wires.drop_first())
    } else {
        may_unpin_all(pre, wires.drop_first())
    }
}

impl<M: CircuitMode> StreamingContext<M> {
    /// Takes the credits of the next `len` wires from the innermost component.
    pub fn pop_credits(&mut self, len: usize) -> (r: Vec<Credits>)
        requires
            old(self).stack@.len() > 0,
            top_credits(*old(self)).len() >= len,
        ensures
            r@ == top_credits(*old(self)).take(len as int),
            stack_after(*old(self), len as nat, *final(self)),
            final(self).mode == old(self).mode,
            final(self).templates == old(self).templates,
            final(self).gate_count == old(self).gate_count,
    {
        let mut r: Vec<Credits> = Vec::new();
        let top: usize = self.stack.len() - 1;
        let ghost order = top_credits(*self);
        let mut i: usize = 0;
        assert(order.skip(0) =~= order);
        while i < len
            invariant
                i <= len <= order.len(),
                order == top_credits(*old(self)),
                top == self.stack@.len() - 1,
                r@ == order.take(i as int),
                self.stack@.len() == old(self).stack@.len(),
                self.stack@.drop_last() == old(self).stack@.drop_last(),
                top_credits(*self) == order.skip(i as int),
                self.mode == old(self).mode,
                self.templates == old(self).templates,
                self.gate_count == old(self).gate_count,
            decreases len - i,
        {
            let ghost stack0 = self.stack@;
            let instance = &mut self.stack[top];
            match instance.next_credit() {
                Some(c) => {
                    r.push(c);
                },
                None => (),
            }
            assert(self.stack@.drop_last() =~= stack0.drop_last());
            assert(r@ =~= order.take(i + 1));
            assert(order.skip(i as int).drop_first() =~= order.skip(i + 1));
            i = i + 1;
        }
        r
    }

    /// Allocates a wire with the next credits of the innermost component.
    pub fn issue_wire_with_credit(&mut self) -> (r: (WireId, Credits))
        requires
            old(self).mode.wf(),
            old(self).stack@.len() > 0,
            top_credits(*old(self)).len() > 0,
            old(self).mode.may_allocate(top_credits(*old(self))[0]),
        ensures
            final(self).mode.wf(),
            r.1 == top_credits(*old(self))[0],
            M::allocated(old(self).mode, r.1, r.0, final(self).mode),
            stack_after(*old(self), 1, *final(self)),
            final(self).templates == old(self).templates,
            final(self).gate_count == old(self).gate_count,
    {
        let ghost order = top_credits(*self);
        let credits = self.pop_credits(1);
        assert(credits@[0] == order[0]);
        let credit: Credits = credits[0];
        let wire = self.mode.allocate_wire(credit);
        (wire, credit)
    }

    pub fn lookup_wire(&mut self, wire: WireId) -> (r: Option<M::WireValue>)
        requires
            old(self).mode.wf(),
            old(self).mode.may_lookup(wire),
        ensures
            final(self).mode.wf(),
            M::looked_up(old(self).mode, wire, r, final(self).mode),
            same_frame(*old(self), *final(self)),
    {
        self.mode.lookup_wire(wire)
    }

    pub fn feed_wire(&mut self, wire: WireId, value: M::WireValue)
        requires
            old(self).mode.wf(),
            old(self).mode.may_feed(wire),
        ensures
            final(self).mode.wf(),
            M::fed(old(self).mode, wire, value, final(self).mode),
            same_frame(*old(self), *final(self)),
    {
        self.mode.feed_wire(wire, value);
    }

    pub fn add_credits(&mut self, wires: &[WireId], credits: Credits)
        requires
            old(self).mode.wf(),
            old(self).mode.may_add_credits(wires@, credits),
        ensures
            final(self).mode.wf(),
            M::credited(old(self).mode, wires@, credits, final(self).mode),
            same_frame(*old(self), *final(self)),
    {
        self.mode.add_credits(wires, credits);
    }

    pub fn finalize_ciphertext_accumulator(self) -> (r: M::CiphertextAcc)
        requires
            self.mode.wf(),
            self.mode.may_finalize(),
        ensures
            M::finalized(self.mode, r),
    {
        self.mode.finalize_ciphertext_accumulator()
    }

    /// Allocates the next `n` wires of the innermost component.
    fn issue_wires(&mut self, n: usize) -> (r: Vec<WireId>)
        requires
            old(self).mode.wf(),
            old(self).stack@.len() > 0,
            top_credits(*old(self)).len() >= n,
            may_allocate_all(old(self).mode, top_credits(*old(self)).take(n as int)),
        ensures
            final(self).mode.wf(),
            allocated_all(
                old(self).mode,
                top_credits(*old(self)).take(n as int),
                r@,
                final(self).mode,
            ),
            stack_after(*old(self), n as nat, *final(self)),
            final(self).templates == old(self).templates,
            final(self).gate_count == old(self).gate_count,
    {
        let ghost order = top_credits(*self);
        let ghost credits = order.take(n as int);
        let mut wires: Vec<WireId> = Vec::new();
        let mut i: usize = 0;
        proof {
            assert(credits.take(0) =~= Seq::<u16>::empty());
            assert(wires@ =~= Seq::<WireId>::empty());
            assert(credits.skip(0) =~= credits);
            assert(order.skip(0) =~= order);
        }
        while i < n
            invariant
                i <= n <= order.len(),
                order == top_credits(*old(self)),
                credits == order.take(n as int),
                self.mode.wf(),
                self.stack@.len() > 0,
                stack_after(*old(self), i as nat, *self),
                self.templates == old(self).templates,
                self.gate_count == old(self).gate_count,
                allocated_all(old(self).mode, credits.take(i as int), wires@, self.mode),
                may_allocate_all(self.mode, credits.skip(i as int)),
            decreases n - i,
        {
            let ghost before = *self;
            let ghost wires0 = wires@;
            proof {
                assert(top_credits(*self)[0] == order[i as int]);
                assert(credits.skip(i as int)[0] == order[i as int]);
            }
            let (wire, credit) = self.issue_wire_with_credit();
            wires.push(wire);
            proof {
                allocated_one_more(
                    old(self).mode,
                    credits.take(i as int),
                    wires0,
                    before.mode,
                    credit,
                    wire,
                    self.mode,
                );
                assert(credits.take(i + 1) =~= credits.take(i as int).push(credit));
                assert(credits.skip(i as int).drop_first() =~= credits.skip(i + 1));
                assert(order.skip(i as int).skip(1) =~= order.skip(i + 1));
            }
            i = i + 1;
        }
        assert(credits.take(n as int) =~= credits);
        wires
    }

    /// Feeds each wire its value.
    fn feed_wires(&mut self, wires: &Vec<WireId>, values: Vec<M::WireValue>)
        requires
            old(self).mode.wf(),
            wires@.len() == values@.len(),
            may_feed_all(old(self).mode, wires@, values@),
        ensures
            final(self).mode.wf(),
            fed_all(old(self).mode, wires@, values@, final(self).mode),
            same_frame(*old(self), *final(self)),
    {
        let ghost all = values@;
        let n: usize = wires.len();
        let mut rest = values;
        let mut todo: Vec<M::WireValue> = Vec::new();
        let mut k: usize = 0;
        proof {
            assert(all.take(all.len() as int) =~= all);
            assert(all.skip(all.len() as int).reverse() =~= Seq::<M::WireValue>::empty());
        }
        while k < n
            invariant
                k <= n,
                n == all.len(),
                rest@ == all.take(n - k),
                todo@ == all.skip(n - k).reverse(),
            decreases n - k,
        {
            match rest.pop() {
                Some(v) => {
                    todo.push(v);
                },
                None => (),
            }
            proof {
                assert(rest@ =~= all.take(n - k - 1));
                assert(todo@ =~= all.skip(n - k - 1).reverse());
            }
            k = k + 1;
        }
        let mut i: usize = 0;
        proof {
            assert(all.skip(0) =~= all);
            assert(wires@.take(0) =~= Seq::<WireId>::empty());
            assert(wires@.skip(0) =~= wires@);
        }
        while i < n
            invariant
                i <= n,
                n == all.len(),
                n == wires@.len(),
                todo@ == all.skip(i as int).reverse(),
                self.mode.wf(),
                same_frame(*old(self), *self),
                fed_all(old(self).mode, wires@.take(i as int), all.take(i as int), self.mode),
                may_feed_all(self.mode, wires@.skip(i as int), all.skip(i as int)),
            decreases n - i,
        {
            assert(todo@.last() == all[i as int]);
            assert(wires@.skip(i as int)[0] == wires@[i as int]);
            let ghost before = self.mode;
            match todo.pop() {
                Some(v) => {
                    self.mode.feed_wire(wires[i], v);
                },
                None => (),
            }
            proof {
                fed_one_more(
                    old(self).mode,
                    wires@.take(i as int),
                    all.take(i as int),
                    before,
                    wires@[i as int],
                    all[i as int],
                    self.mode,
                );
                assert(wires@.take(i + 1) =~= wires@.take(i as int).push(wires@[i as int]));
                assert(all.take(i + 1) =~= all.take(i as int).push(all[i as int]));
                assert(wires@.skip(i as int).drop_first() =~= wires@.skip(i + 1));
                assert(all.skip(i as int).drop_first() =~= all.skip(i + 1));
                assert(todo@ =~= all.skip(i + 1).reverse());
            }
            i = i + 1;
        }
        assert(wires@.take(n as int) =~= wires@);
        assert(all.take(n as int) =~= all);
    }

    /// Gives the inputs of a component the credits that it needs of them.
    fn credit_inputs(&mut self, wires: &Vec<WireId>, credits: &Vec<Credits>)
        requires
            old(self).mode.wf(),
            wires@.len() == credits@.len(),
            may_credit_all(old(self).mode, wires@, credits@),
        ensures
            final(self).mode.wf(),
            credited_all(old(self).mode, wires@, credits@, final(self).mode),
            same_frame(*old(self), *final(self)),
    {
        let n: usize = wires.len();
        let mut i: usize = 0;
        proof {
            assert(wires@.take(0) =~= Seq::<WireId>::empty());
            assert(wires@.skip(0) =~= wires@);
            assert(credits@.skip(0) =~= credits@);
        }
        while i < n
            invariant
                i <= n,
                n == wires@.len(),
                n == credits@.len(),
                self.mode.wf(),
                same_frame(*old(self), *self),
                credited_all(
                    old(self).mode,
                    wires@.take(i as int),
                    credits@.take(i as int),
                    self.mode,
                ),
                may_credit_all(self.mode, wires@.skip(i as int), credits@.skip(i as int)),
            decreases n - i,
        {
            let w = wires[i];
            let c: Credits = credits[i];
            let ghost before = self.mode;
            proof {
                assert(wires@.skip(i as int)[0] == w);
                assert(credits@.skip(i as int)[0] == c);
                assert(wires@.skip(i as int).drop_first() =~= wires@.skip(i + 1));
                assert(credits@.skip(i as int).drop_first() =~= credits@.skip(i + 1));
                assert(wires@.take(i + 1) =~= wires@.take(i as int).push(w));
                assert(credits@.take(i + 1) =~= credits@.take(i as int).push(c));
            }
            if !w.is_constant() && c > 0 {
                let one: [WireId; 1] = [w];
                assert(one@ =~= seq![w]);
                self.mode.add_credits(one.as_slice(), c);
            }
            proof {
                credited_one_more(
                    old(self).mode,
                    wires@.take(i as int),
                    credits@.take(i as int),
                    before,
                    w,
                    c,
                    self.mode,
                );
            }
            i = i + 1;
        }
        assert(wires@.take(n as int) =~= wires@);
        assert(credits@.take(n as int) =~= credits@);
    }

    /// Uses one credit of each stored wire.
    fn unpin_inputs(&mut self, wires: &Vec<WireId>)
        requires
            old(self).mode.wf(),
            may_unpin_all(old(self).mode, wires@),
        ensures
            final(self).mode.wf(),
            unpinned_all(old(self).mode, wires@, final(self).mode),
            same_frame(*old(self), *final(self)),
    {
        let n: usize = wires.len();
        let mut i: usize = 0;
        proof {
            assert(wires@.take(0) =~= Seq::<WireId>::empty());
            assert(wires@.skip(0) =~= wires@);
        }
        while i < n
            invariant
                i <= n,
                n == wires@.len(),
                self.mode.wf(),
                same_frame(*old(self), *self),
                unpinned_all(old(self).mode, wires@.take(i as int), self.mode),
                may_unpin_all(self.mode, wires@.skip(i as int)),
            decreases n - i,
        {
            let w = wires[i];
            let ghost before = self.mode;
            proof {
                assert(wires@.skip(i as int)[0] == w);
                assert(wires@.skip(i as int).drop_first() =~= wires@.skip(i + 1));
                assert(wires@.take(i + 1) =~= wires@.take(i as int).push(w));
            }
            let v = if w.is_stored() {
                self.mode.lookup_wire(w)
            } else {
                None
            };
            proof {
                unpinned_one_more(
                    old(self).mode,
                    wires@.take(i as int),
                    before,
                    w,
                    v,
                    self.mode,
                );
            }
            i = i + 1;
        }
        assert(wires@.take(n as int) =~= wires@);
    }
}

proof fn allocated_one_more<M: CircuitMode>(
    pre: M,
    credits: Seq<u16>,
    wires: Seq<WireId>,
    mid: M,
    c: u16,
    w: WireId,
    post: M,
)
    requires
        allocated_all(pre, credits, wires, mid),
        mid.wf(),
        M::allocated(mid, c, w, post),
    ensures
        allocated_all(pre, credits.push(c), wires.push(w), post),
{
    assert(credits.push(c).drop_last() =~= credits);
    assert(wires.push(w).drop_last() =~= wires);
    assert(allocated_all(pre, credits.push(c).drop_last(), wires.push(w).drop_last(), mid));
}

proof fn fed_one_more<M: CircuitMode>(
    pre: M,
    wires: Seq<WireId>,
    values: Seq<M::WireValue>,
    mid: M,
    w: WireId,
    v: M::WireValue,
    post: M,
)
    requires
        fed_all(pre, wires, values, mid),
        mid.wf(),
        M::fed(mid, w, v, post),
    ensures
        fed_all(pre, wires.push(w), values.push(v), post),
{
    assert(wires.push(w).drop_last() =~= wires);
    assert(values.push(v).drop_last() =~= values);
    assert(fed_all(pre, wires.push(w).drop_last(), values.push(v).drop_last(), mid));
}

proof fn credited_one_more<M: CircuitMode>(
    pre: M,
    wires: Seq<WireId>,
    credits: Seq<u16>,
    mid: M,
    w: WireId,
    c: u16,
    post: M,
)
    requires
        credited_all(pre, wires, credits, mid),
        mid.wf(),
        if takes_credits(w, c) {
            M::credited(mid, seq![w], c, post)
        } else {
            post == mid
        },
    ensures
        credited_all(pre, wires.push(w), credits.push(c), post),
{
    assert(wires.push(w).drop_last() =~= wires);
    assert(credits.push(c).drop_last() =~= credits);
    assert(credited_all(pre, wires.push(w).drop_last(), credits.push(c).drop_last(), mid));
}

proof fn unpinned_one_more<M: CircuitMode>(
    pre: M,
    wires: Seq<WireId>,
    mid: M,
    w: WireId,
    v: Option<M::WireValue>,
    post: M,
)
    requires
        unpinned_all(pre, wires, mid),
        mid.wf(),
        if stored_wire(w) {
            v is Some && M::looked_up(mid, w, v, post)
        } else {
            post == mid
        },
    ensures
        unpinned_all(pre, wires.push(w), post),
{
    assert(wires.push(w).drop_last() =~= wires);
    assert(unpinned_all(pre, wires.push(w).drop_last(), mid));
}

/// The key of the whole circuit.
pub open spec fn root_key() -> ComponentKey {
    [0u8, 0, 0, 0, 0, 0, 0, 0]
}

/// `n` times one credit.
pub open spec fn ones(n: nat) -> Seq<u16> {
    Seq::new(n, |i: int| 1u16)
}

/// The credits of the wires of the whole circuit in the order in which they are
/// issued: each output can be read once from outside, and so can each input.
pub open spec fn root_credits(t: ComponentMetaTemplate) -> Seq<u16> {
    let credits = wire_credits(t, ones(t.outputs@.len()));
    Seq::new(t.input_len as nat, |i: int| (credits[i] + 1) as u16) + credits.skip(
        t.input_len as int,
    )
}

/// Whether the whole circuit can be run with these credits.
pub open spec fn root_ready(t: ComponentMetaTemplate) -> bool {
    &&& instantiable(t, ones(t.outputs@.len()))
    &&& forall|i: int|
        0 <= i < t.input_len ==> #[trigger] wire_credits(t, ones(t.outputs@.len()))[i] < u16::MAX
}

/// Whether `t` is the template of `b` with these outputs.
pub open spec fn built(
    b: ComponentMetaBuilder,
    outputs: Seq<WireId>,
    t: ComponentMetaTemplate,
) -> bool {
    t.input_len == b.input_len && t.fanout@ == b.fanout@ && t.outputs@ == outputs
}

/// The first `n` wires that a builder issues.
pub open spec fn fresh_wires(n: nat) -> Seq<WireId> {
    Seq::new(n, |i: int| WireId((i + 2) as usize))
}

/// A builder that has issued its `n` inputs.
pub open spec fn fresh_builder(b: ComponentMetaBuilder, n: nat) -> bool {
    b.input_len == n && b.fanout@ == Seq::new(n, |i: int| 0u16)
}

/// The credits that the outputs of a component get from where it is run.
pub open spec fn child_outputs<M: CircuitMode>(pre: StreamingContext<M>, arity: nat) -> Seq<u16> {
    top_credits(pre).take(arity as int)
}

/// The credits of the inputs of a component.
pub open spec fn child_inputs<M: CircuitMode>(
    pre: StreamingContext<M>,
    arity: nat,
    t: ComponentMetaTemplate,
) -> Seq<u16> {
    wire_credits(t, child_outputs(pre, arity)).take(t.input_len as int)
}

/// Whether a component with template `t` can be started.
pub open spec fn child_ready<M: CircuitMode>(
    pre: StreamingContext<M>,
    key: ComponentKey,
    inputs: Seq<WireId>,
    arity: nat,
    t: ComponentMetaTemplate,
) -> bool {
    &&& pre.mode.wf()
    &&& pre.stack@.len() > 0
    &&& top_credits(pre).len() >= arity
    &&& pre.mode.may_enter(key)
    &&& t.input_len == inputs.len()
    &&& instantiable(t, child_outputs(pre, arity))
    &&& forall|m1: M|
        m1.wf() && #[trigger] M::entered(pre.mode, key, m1) ==> may_credit_all(
            m1,
            inputs,
            child_inputs(pre, arity, t),
        ) && forall|m2: M|
            m2.wf() && #[trigger] credited_all(m1, inputs, child_inputs(pre, arity, t), m2)
                ==> may_unpin_all(m2, inputs)
}

/// Whether `post` is `pre` after a component with template `t` was started: the
/// backend was told, the inputs got the credits that the component needs of them
/// and gave up the one that held them, and the component's inner wires have their
/// credits.
pub open spec fn child_begun<M: CircuitMode>(
    pre: StreamingContext<M>,
    key: ComponentKey,
    inputs: Seq<WireId>,
    arity: nat,
    t: ComponentMetaTemplate,
    post: StreamingContext<M>,
) -> bool {
    let n = pre.stack@.len();
    &&& post.mode.wf()
    &&& exists|m1: M, m2: M| #[trigger]
        m1.wf() && #[trigger] m2.wf() && M::entered(pre.mode, key, m1) && credited_all(
            m1,
            inputs,
            child_inputs(pre, arity, t),
            m2,
        ) && unpinned_all(m2, inputs, post.mode)
    &&& post.gate_count == pre.gate_count
    &&& post.stack@.len() == n + 1
    &&& post.stack@.take(n - 1) == pre.stack@.drop_last()
    &&& post.stack@[n - 1].order() == top_credits(pre).skip(arity as int)
    &&& post.stack@.last().order() == wire_credits(t, child_outputs(pre, arity)).skip(
        t.input_len as int,
    )
}

/// Whether `post` is `pre` after the innermost component was left.
pub open spec fn child_ended<M: CircuitMode>(
    pre: StreamingContext<M>,
    key: ComponentKey,
    post: StreamingContext<M>,
) -> bool {
    &&& post.mode.wf()
    &&& M::exited(pre.mode, key, post.mode)
    &&& post.templates == pre.templates
    &&& post.gate_count == pre.gate_count
    &&& post.stack@ == if pre.stack@.len() > 0 {
        pre.stack@.drop_last()
    } else {
        pre.stack@
    }
}

impl<M: CircuitMode> StreamingContext<M> {
    /// Starts a component whose template is known.
    pub fn begin_child(&mut self, key: ComponentKey, inputs: &Vec<WireId>, arity: usize)
        requires
            old(self).templates.templates@.dom().contains(key_number(key)),
            child_ready(
                *old(self),
                key,
                inputs@,
                arity as nat,
                old(self).templates.templates@[key_number(key)],
            ),
        ensures
            final(self).templates == old(self).templates,
            child_begun(
                *old(self),
                key,
                inputs@,
                arity as nat,
                old(self).templates.templates@[key_number(key)],
                *final(self),
            ),
    {
        let ghost before = *self;
        let ghost t = self.templates.templates@[key_number(key)];
        self.mode.note_component_enter(key);
        let ghost m1 = self.mode;
        let output_credits = self.pop_credits(arity);
        let (instance, input_credits) = match self.templates.get(key) {
            Some(template) => template.to_instance(output_credits.as_slice()),
            None => (ComponentMetaInstance { credits_stack: Vec::new() }, Vec::new()),
        };
        self.credit_inputs(inputs, &input_credits);
        let ghost m2 = self.mode;
        self.unpin_inputs(inputs);
        let ghost stack0 = self.stack@;
        self.stack.push(instance);
        proof {
            let n = before.stack@.len();
            assert(m1.wf() && m2.wf());
            assert(self.stack@.take(n - 1) =~= stack0.drop_last());
            assert(self.stack@[n - 1] == stack0.last());
        }
    }

    /// Leaves the innermost component.
    pub fn end_child(&mut self, key: ComponentKey)
        requires
            old(self).mode.wf(),
            old(self).mode.may_exit(key),
        ensures
            child_ended(*old(self), key, *final(self)),
    {
        let _ = self.stack.pop();
        self.mode.note_component_exit(key);
    }
}

impl<M: CircuitMode> StreamingMode<M> {
    /// The value of a wire; nothing while reads are counted.
    pub fn lookup_wire(&mut self, wire: WireId) -> (r: Option<M::WireValue>)
        requires
            *old(self) matches StreamingMode::ExecutionPass(ctx) ==> ctx.mode.wf()
                && ctx.mode.may_lookup(wire),
        ensures
            match (*old(self), *final(self)) {
                (StreamingMode::MetadataPass(pre), StreamingMode::MetadataPass(post)) => r is None
                    && post == pre,
                (StreamingMode::ExecutionPass(pre), StreamingMode::ExecutionPass(post)) => {
                    &&& post.mode.wf()
                    &&& M::looked_up(pre.mode, wire, r, post.mode)
                    &&& same_frame(pre, post)
                },
                _ => false,
            },
    {
        match self {
            StreamingMode::MetadataPass(_) => None,
            StreamingMode::ExecutionPass(ctx) => ctx.lookup_wire(wire),
        }
    }

    /// Gives a wire its value. Nothing happens while reads are counted, or for a
    /// constant or the unreachable wire.
    pub fn feed_wire(&mut self, wire: WireId, value: M::WireValue)
        requires
            stored_wire(wire) ==> (*old(self) matches StreamingMode::ExecutionPass(ctx)
                ==> ctx.mode.wf() && ctx.mode.may_feed(wire)),
        ensures
            !stored_wire(wire) ==> *final(self) == *old(self),
            stored_wire(wire) ==> match (*old(self), *final(self)) {
                (StreamingMode::MetadataPass(pre), StreamingMode::MetadataPass(post)) => post
                    == pre,
                (StreamingMode::ExecutionPass(pre), StreamingMode::ExecutionPass(post)) => {
                    &&& post.mode.wf()
                    &&& M::fed(pre.mode, wire, value, post.mode)
                    &&& same_frame(pre, post)
                },
                _ => false,
            },
    {
        if !wire.is_stored() {
            return ;
        }
        match self {
            StreamingMode::MetadataPass(_) => (),
            StreamingMode::ExecutionPass(ctx) => ctx.feed_wire(wire, value),
        }
    }

    /// Issues a wire: the next one of the builder, or one that the backend
    /// allocates with the next credits.
    pub fn issue_wire(&mut self) -> (r: WireId)
        requires
            match *old(self) {
                StreamingMode::MetadataPass(meta) => meta.has_room(),
                StreamingMode::ExecutionPass(ctx) => {
                    &&& ctx.mode.wf()
                    &&& ctx.stack@.len() > 0
                    &&& top_credits(ctx).len() > 0
                    &&& ctx.mode.may_allocate(top_credits(ctx)[0])
                },
            },
        ensures
            match (*old(self), *final(self)) {
                (StreamingMode::MetadataPass(pre), StreamingMode::MetadataPass(post)) => {
                    &&& r == WireId((pre.fanout@.len() + 2) as usize)
                    &&& post.input_len == pre.input_len
                    &&& post.fanout@ == pre.fanout@.push(0)
                },
                (StreamingMode::ExecutionPass(pre), StreamingMode::ExecutionPass(post)) => {
                    &&& post.mode.wf()
                    &&& M::allocated(pre.mode, top_credits(pre)[0], r, post.mode)
                    &&& stack_after(pre, 1, post)
                    &&& post.templates == pre.templates
                    &&& post.gate_count == pre.gate_count
                },
                _ => false,
            },
    {
        match self {
            StreamingMode::MetadataPass(meta) => meta.issue_wire(),
            StreamingMode::ExecutionPass(ctx) => {
                let (wire_id, _) = ctx.issue_wire_with_credit();
                wire_id
            },
        }
    }

    /// The backend, if gates are executed.
    pub fn get_mode(&self) -> (r: Option<&M>)
        ensures
            match *self {
                StreamingMode::MetadataPass(_) => r is None,
                StreamingMode::ExecutionPass(ctx) => r == Some(&ctx.mode),
            },
    {
        match self {
            StreamingMode::MetadataPass(_) => None,
            StreamingMode::ExecutionPass(ctx) => Some(&ctx.mode),
        }
    }

    /// The backend, to be changed, if gates are executed.
    pub fn get_mut_mode(&mut self) -> (r: Option<&mut M>)
        ensures
            match *old(self) {
                StreamingMode::MetadataPass(_) => r is None && *final(self) == *old(self),
                StreamingMode::ExecutionPass(ctx) => r matches Some(m) && *m == ctx.mode
                    && *final(self) == StreamingMode::ExecutionPass(
                    StreamingContext { mode: *final(m), ..ctx },
                ),
            },
    {
        match self {
            StreamingMode::MetadataPass(_) => None,
            StreamingMode::ExecutionPass(ctx) => Some(&mut ctx.mode),
        }
    }

    /// Adds a gate: its reads are counted, or it is executed. The inputs of a gate
    /// that is executed are not the unreachable wire.
    pub fn add_gate(&mut self, gate: Gate)
        requires
            match *old(self) {
                StreamingMode::MetadataPass(meta) => countable(
                    meta.fanout@,
                    seq![gate.wire_a, gate.wire_b],
                ),
                StreamingMode::ExecutionPass(ctx) => {
                    &&& ctx.mode.wf()
                    &&& ctx.mode.may_evaluate(gate)
                    &&& ctx.gate_count.counts@[gate_code(gate.gate_type) as int] < u64::MAX
                    &&& gate.wire_a.0 != UNREACHABLE_ID
                    &&& gate.wire_b.0 != UNREACHABLE_ID
                },
            },
        ensures
            match (*old(self), *final(self)) {
                (StreamingMode::MetadataPass(pre), StreamingMode::MetadataPass(post)) => {
                    &&& post.input_len == pre.input_len
                    &&& post.fanout@ == fanout_after(
                        pre.fanout@,
                        seq![gate.wire_a, gate.wire_b],
                    )
                },
                (StreamingMode::ExecutionPass(pre), StreamingMode::ExecutionPass(post)) => {
                    let code = gate_code(gate.gate_type) as int;
                    &&& post.mode.wf()
                    &&& M::evaluated(pre.mode, gate, post.mode)
                    &&& post.stack == pre.stack
                    &&& post.templates == pre.templates
                    &&& post.gate_count.counts@ == pre.gate_count.counts@.update(
                        code,
                        (pre.gate_count.counts@[code] + 1) as u64,
                    )
                },
                _ => false,
            },
    {
        match self {
            StreamingMode::MetadataPass(meta) => {
                meta.add_gate(gate);
            },
            StreamingMode::ExecutionPass(ctx) => {
                ctx.gate_count.handle(gate.gate_type);
                ctx.mode.evaluate_gate(&gate);
            },
        }
    }

    /// Turns the counted reads of a whole circuit into a running circuit: allocates
    /// its inputs and gives them their values.
    pub fn to_root_ctx(
        self,
        mode: M,
        input: Vec<M::WireValue>,
        meta_output_wires: &[WireId],
    ) -> (r: (Self, Vec<WireId>))
        requires
            mode.wf(),
            self is MetadataPass,
            self->MetadataPass_0.input_len == input@.len(),
            forall|t: ComponentMetaTemplate| #[trigger]
                built(self->MetadataPass_0, meta_output_wires@, t) ==> {
                    let credits = root_credits(t).take(input@.len() as int);
                    &&& root_ready(t)
                    &&& may_allocate_all(mode, credits)
                    &&& forall|wires: Seq<WireId>, m: M|
                        m.wf() && #[trigger] allocated_all(mode, credits, wires, m)
                            ==> may_feed_all(m, wires, input@)
                },
        ensures
            exists|t: ComponentMetaTemplate, m: M|
                {
                    &&& #[trigger] m.wf()
                    &&& #[trigger] built(self->MetadataPass_0, meta_output_wires@, t)
                    &&& allocated_all(mode, root_credits(t).take(input@.len() as int), r.1@, m)
                    &&& r.0 matches StreamingMode::ExecutionPass(ctx) && {
                        &&& ctx.mode.wf()
                        &&& fed_all(m, r.1@, input@, ctx.mode)
                        &&& ctx.stack@.len() == 1
                        &&& top_credits(ctx) == root_credits(t).skip(input@.len() as int)
                        &&& ctx.templates.templates@ == Map::<
                            u64,
                            ComponentMetaTemplate,
                        >::empty().insert(key_number(root_key()), t)
                        &&& ctx.gate_count.counts@ == Seq::new(11, |i: int| 0u64)
                    }
                },
    {
        let ghost this = self;
        match self {
            StreamingMode::MetadataPass(meta) => {
                let n: usize = input.len();
                let t = meta.build(meta_output_wires);
                assert(built(meta, meta_output_wires@, t));
                let mut one: Vec<Credits> = Vec::new();
                let mut i: usize = 0;
                while i < meta_output_wires.len()
                    invariant
                        i <= meta_output_wires@.len(),
                        one@ == ones(i as nat),
                    decreases meta_output_wires@.len() - i,
                {
                    one.push(1);
                    i = i + 1;
                    assert(one@ =~= ones(i as nat));
                }
                assert(one@ =~= ones(t.outputs@.len()));
                let (mut instance, input_credits) = t.to_instance(one.as_slice());
                let ghost credits = wire_credits(t, ones(t.outputs@.len()));
                let ghost inner = instance.credits_stack@;
                let mut left: usize = n;
                while left > 0
                    invariant
                        left <= n,
                        n == t.input_len,
                        input_credits@ == credits.take(t.input_len as int),
                        credits.len() >= n,
                        forall|j: int| 0 <= j < n ==> #[trigger] credits[j] < u16::MAX,
                        instance.credits_stack@ == inner + Seq::new(
                            n as nat,
                            |j: int| (credits[j] + 1) as u16,
                        ).skip(left as int).reverse(),
                    decreases left,
                {
                    left = left - 1;
                    assert(input_credits@[left as int] == credits[left as int]);
                    instance.credits_stack.push(input_credits[left] + 1);
                    assert(instance.credits_stack@ =~= inner + Seq::new(
                        n as nat,
                        |j: int| (credits[j] + 1) as u16,
                    ).skip(left as int).reverse());
                }
                assert(instance.order() =~= root_credits(t));
                let mut stack: Vec<ComponentMetaInstance> = Vec::new();
                stack.push(instance);
                let mut templates = ComponentTemplatePool::new();
                let ghost kept = t;
                let key: ComponentKey = [0u8; 8];
                assert(key =~= root_key());
                templates.insert(key, t);
                let mut ctx = StreamingContext {
                    mode,
                    stack,
                    templates,
                    gate_count: GateCount::default(),
                };
                let wires = ctx.issue_wires(n);
                let ghost m = ctx.mode;
                ctx.feed_wires(&wires, input);
                proof {
                    assert(m.wf());
                    assert(built(meta, meta_output_wires@, kept));
                }
                (StreamingMode::ExecutionPass(ctx), wires)
            },
            StreamingMode::ExecutionPass(ctx) => {
                assert(false);
                (StreamingMode::ExecutionPass(ctx), Vec::new())
            },
        }
    }
}

/// Whether `child` is a first pass whose builder has issued `n` inputs.
pub open spec fn fresh_child<M: CircuitMode>(child: StreamingMode<M>, n: nat) -> bool {
    child is MetadataPass && fresh_builder(child->MetadataPass_0, n)
}

impl<M: CircuitMode> StreamingMode<M> {
    /// Runs a component. While reads are counted, the component reads each of its
    /// inputs once and issues its outputs. When it is executed for the first time,
    /// its body is run once to count the reads of its own wires. The body has to run
    /// on a context in which the component was started with the template in use: the
    /// known one, or else the one that counting its reads gave.
    pub fn with_named_child<F: Fn(&mut StreamingMode<M>, &Vec<WireId>) -> Vec<WireId>>(
        &mut self,
        key: ComponentKey,
        inputs: Vec<WireId>,
        f: F,
        arity: usize,
    ) -> (r: Vec<WireId>)
        requires
            match *old(self) {
                StreamingMode::MetadataPass(meta) => countable(meta.fanout@, inputs@)
                    && meta.fanout@.len() + arity <= isize::MAX,
                StreamingMode::ExecutionPass(ctx) => {
                    &&& inputs@.len() <= isize::MAX
                    &&& ctx.templates.templates@.dom().contains(key_number(key)) ==> child_ready(
                        ctx,
                        key,
                        inputs@,
                        arity as nat,
                        ctx.templates.templates@[key_number(key)],
                    )
                    &&& !ctx.templates.templates@.dom().contains(key_number(key)) ==> forall|
                        child: &mut StreamingMode<M>,
                        mock: &Vec<WireId>,
                    |
                        fresh_child(*child, inputs@.len()) && mock@ == fresh_wires(inputs@.len())
                            ==> #[trigger] call_requires(f, (child, mock))
                    &&& !ctx.templates.templates@.dom().contains(key_number(key)) ==> forall|
                        child: &mut StreamingMode<M>,
                        mock: &Vec<WireId>,
                        out: Vec<WireId>,
                    | #[trigger]
                        call_ensures(f, (child, mock), out) && fresh_child(*child, inputs@.len())
                            && mock@ == fresh_wires(inputs@.len()) ==> *final(child) is MetadataPass
                            && forall|t: ComponentMetaTemplate| #[trigger]
                            built(final(child)->MetadataPass_0, out@, t) ==> child_ready(
                                ctx,
                                key,
                                inputs@,
                                arity as nat,
                                t,
                            )
                    &&& forall|s: &mut StreamingMode<M>, t: ComponentMetaTemplate|
                        {
                            &&& *s is ExecutionPass
                            &&& #[trigger] child_begun(
                                ctx,
                                key,
                                inputs@,
                                arity as nat,
                                t,
                                s->ExecutionPass_0,
                            )
                            &&& s->ExecutionPass_0.templates.templates@
                                == ctx.templates.templates@.insert(key_number(key), t)
                            &&& ctx.templates.templates@.dom().contains(key_number(key)) ==> t
                                == ctx.templates.templates@[key_number(key)]
                            &&& !ctx.templates.templates@.dom().contains(key_number(key))
                                ==> exists|
                                child: &mut StreamingMode<M>,
                                mock: &Vec<WireId>,
                                outs: Vec<WireId>,
                            |
                                {
                                    &&& #[trigger] call_ensures(f, (child, mock), outs)
                                    &&& fresh_child(*child, inputs@.len())
                                    &&& mock@ == fresh_wires(inputs@.len())
                                    &&& *final(child) is MetadataPass
                                    &&& built(final(child)->MetadataPass_0, outs@, t)
                                }
                        } ==> call_requires(f, (s, &inputs))
                    &&& forall|
                        s: &mut StreamingMode<M>,
                        t: ComponentMetaTemplate,
                        out: Vec<WireId>,
                    |
                        {
                            &&& *s is ExecutionPass
                            &&& #[trigger] child_begun(
                                ctx,
                                key,
                                inputs@,
                                arity as nat,
                                t,
                                s->ExecutionPass_0,
                            )
                            &&& s->ExecutionPass_0.templates.templates@
                                == ctx.templates.templates@.insert(key_number(key), t)
                            &&& ctx.templates.templates@.dom().contains(key_number(key)) ==> t
                                == ctx.templates.templates@[key_number(key)]
                            &&& !ctx.templates.templates@.dom().contains(key_number(key))
                                ==> exists|
                                child: &mut StreamingMode<M>,
                                mock: &Vec<WireId>,
                                outs: Vec<WireId>,
                            |
                                {
                                    &&& #[trigger] call_ensures(f, (child, mock), outs)
                                    &&& fresh_child(*child, inputs@.len())
                                    &&& mock@ == fresh_wires(inputs@.len())
                                    &&& *final(child) is MetadataPass
                                    &&& built(final(child)->MetadataPass_0, outs@, t)
                                }
                            &&& #[trigger] call_ensures(f, (s, &inputs), out)
                        } ==> *final(s) is ExecutionPass && final(s)->ExecutionPass_0.mode.wf()
                            && final(s)->ExecutionPass_0.mode.may_exit(key)
                },
            },
        ensures
            match (*old(self), *final(self)) {
                (StreamingMode::MetadataPass(pre), StreamingMode::MetadataPass(post)) => {
                    let read = fanout_after(pre.fanout@, inputs@);
                    &&& post.input_len == pre.input_len
                    &&& post.fanout@ == read + Seq::new(arity as nat, |i: int| 0u16)
                    &&& r@ == Seq::new(
                        arity as nat,
                        |i: int| WireId((pre.fanout@.len() + i + 2) as usize),
                    )
                },
                (StreamingMode::ExecutionPass(pre), StreamingMode::ExecutionPass(post)) => exists|
                    s: &mut StreamingMode<M>,
                    t: ComponentMetaTemplate,
                |
                    {
                        &&& *s is ExecutionPass
                        &&& #[trigger] child_begun(
                            pre,
                            key,
                            inputs@,
                            arity as nat,
                            t,
                            s->ExecutionPass_0,
                        )
                        &&& s->ExecutionPass_0.templates.templates@
                            == pre.templates.templates@.insert(key_number(key), t)
                        &&& pre.templates.templates@.dom().contains(key_number(key)) ==> t
                            == pre.templates.templates@[key_number(key)]
                        &&& !pre.templates.templates@.dom().contains(key_number(key)) ==> exists|
                            child: &mut StreamingMode<M>,
                            mock: &Vec<WireId>,
                            out: Vec<WireId>,
                        |
                            {
                                &&& #[trigger] call_ensures(f, (child, mock), out)
                                &&& fresh_child(*child, inputs@.len())
                                &&& mock@ == fresh_wires(inputs@.len())
                                &&& *final(child) is MetadataPass
                                &&& built(final(child)->MetadataPass_0, out@, t)
                            }
                        &&& #[trigger] call_ensures(f, (s, &inputs), r)
                        &&& *final(s) is ExecutionPass
                        &&& child_ended(final(s)->ExecutionPass_0, key, post)
                    },
                _ => false,
            },
    {
        let ghost before = *self;
        let ghost mut t: ComponentMetaTemplate = arbitrary();
        match self {
            StreamingMode::MetadataPass(meta) => {
                meta.increment_credits(inputs.as_slice());
                let ghost read = meta.fanout@;
                let mut outputs: Vec<WireId> = Vec::new();
                let mut i: usize = 0;
                assert(meta.fanout@ =~= read + Seq::new(0, |j: int| 0u16));
                while i < arity
                    invariant
                        i <= arity,
                        read.len() + arity <= isize::MAX,
                        meta.input_len == before->MetadataPass_0.input_len,
                        meta.fanout@ == read + Seq::new(i as nat, |j: int| 0u16),
                        outputs@ == Seq::new(
                            i as nat,
                            |j: int| WireId((read.len() + j + 2) as usize),
                        ),
                    decreases arity - i,
                {
                    outputs.push(meta.issue_wire());
                    i = i + 1;
                    assert(meta.fanout@ =~= read + Seq::new(i as nat, |j: int| 0u16));
                    assert(outputs@ =~= Seq::new(
                        i as nat,
                        |j: int| WireId((read.len() + j + 2) as usize),
                    ));
                }
                return outputs;
            },
            StreamingMode::ExecutionPass(ctx) => {
                let ghost pre = *ctx;
                if ctx.templates.get(key).is_none() {
                    let n: usize = inputs.len();
                    let mut meta = ComponentMetaBuilder::new(n);
                    let mut mock: Vec<WireId> = Vec::new();
                    let mut i: usize = 0;
                    assert(meta.fanout@ =~= Seq::new(0, |j: int| 0u16));
                    while i < n
                        invariant
                            i <= n,
                            n <= isize::MAX,
                            meta.input_len == n,
                            meta.fanout@ == Seq::new(i as nat, |j: int| 0u16),
                            mock@ == fresh_wires(i as nat),
                        decreases n - i,
                    {
                        mock.push(meta.issue_wire());
                        i = i + 1;
                        assert(meta.fanout@ =~= Seq::new(i as nat, |j: int| 0u16));
                        assert(mock@ =~= fresh_wires(i as nat));
                    }
                    let mut child: StreamingMode<M> = StreamingMode::MetadataPass(meta);
                    let outs = f(&mut child, &mock);
                    match child {
                        StreamingMode::MetadataPass(counted) => {
                            let template = counted.build(outs.as_slice());
                            assert(built(counted, outs@, template));
                            proof {
                                t = template;
                            }
                            ctx.templates.insert(key, template);
                        },
                        StreamingMode::ExecutionPass(_) => {
                            assert(false);
                        },
                    }
                } else {
                    proof {
                        t = pre.templates.templates@[key_number(key)];
                        assert(pre.templates.templates@.insert(key_number(key), t)
                            =~= pre.templates.templates@);
                    }
                }
                assert(child_ready(pre, key, inputs@, arity as nat, t));
                let ghost mid = *ctx;
                assert(child_ready(mid, key, inputs@, arity as nat, t));
                ctx.begin_child(key, &inputs, arity);
                assert(child_begun(pre, key, inputs@, arity as nat, t, *ctx));
            },
        }
        assert(child_begun(
            before->ExecutionPass_0,
            key,
            inputs@,
            arity as nat,
            t,
            self->ExecutionPass_0,
        ));
        let out = f(self, &inputs);
        match self {
            StreamingMode::MetadataPass(_) => (),
            StreamingMode::ExecutionPass(ctx) => {
                ctx.end_child(key);
            },
        }
        out
    }
}

/// The credits of a whole circuit's wires: the reads inside it, one for each output that a
/// wire is, and one more for an input.
pub proof fn circuit_wires_get_credits(t: ComponentMetaTemplate, i: int)
    requires
        root_ready(t),
        0 <= i < t.fanout@.len(),
    ensures
        root_credits(t).len() == t.fanout@.len(),
        root_credits(t)[i] == t.fanout@[i] + occurrences(t.outputs@, i) + if i < t.input_len {
            1int
        } else {
            0
        },
{
    let credits = ones(t.outputs@.len());
    wires_get_credits_for_reads(t, credits, i);
    outputs_count_once(t.outputs@, credits, i);
    if i < t.input_len {
        assert(wire_credits(t, credits)[i] < u16::MAX);
    }
}

proof fn outputs_count_once(outputs: Seq<WireId>, credits: Seq<u16>, i: int)
    requires
        outputs.len() <= credits.len(),
        forall|k: int| 0 <= k < credits.len() ==> #[trigger] credits[k] == 1,
    ensures
        output_credits_of(outputs, credits, i) == occurrences(outputs, i),
    decreases outputs.len(),
{
    if outputs.len() > 0 {
        outputs_count_once(outputs.drop_last(), credits, i);
    }
}

/// A component that was entered and left has used up the credits of its outputs in the
/// frame around it, and nothing else of the frames; inside it its own wires, after its
/// inputs, get the credits of their reads and outputs. The template is the same at both
/// ends of the component.
pub proof fn component_leaves_frames<M: CircuitMode>(
    pre: StreamingContext<M>,
    key: ComponentKey,
    inputs: Seq<WireId>,
    arity: nat,
    t: ComponentMetaTemplate,
    begun: StreamingContext<M>,
    last: StreamingContext<M>,
    post: StreamingContext<M>,
    k: int,
)
    requires
        child_ready(pre, key, inputs, arity, t),
        child_begun(pre, key, inputs, arity, t, begun),
        last.stack@.len() == begun.stack@.len(),
        last.stack@.drop_last() == begun.stack@.drop_last(),
        child_ended(last, key, post),
    ensures
        post.stack@.len() == pre.stack@.len(),
        post.stack@.drop_last() == pre.stack@.drop_last(),
        top_credits(post) == top_credits(pre).skip(arity as int),
        top_credits(begun).len() == t.fanout@.len() - t.input_len,
        0 <= k < top_credits(begun).len() ==> top_credits(begun)[k] == t.fanout@[t.input_len + k]
            + output_credits_of(
            t.outputs@,
            top_credits(pre).take(arity as int),
            t.input_len + k,
        ),
        M::exited(last.mode, key, post.mode),
        exists|m: M| #[trigger] M::entered(pre.mode, key, m),
{
    let n = pre.stack@.len();
    assert(post.stack@ =~= begun.stack@.take(n as int));
    assert(post.stack@.drop_last() =~= begun.stack@.take(n - 1));
    let credits = child_outputs(pre, arity);
    if 0 <= k < top_credits(begun).len() {
        wires_get_credits_for_reads(t, credits, t.input_len + k);
    }
}

/// The wires of a new component are numbered from two on.
pub proof fn new_wires_follow_constants(n: nat, i: int)
    requires
        0 <= i < n,
        n + 2 <= usize::MAX,
    ensures
        fresh_wires(n).len() == n,
        fresh_wires(n)[i].0 == i + 2,
        stored_wire(fresh_wires(n)[i]),
{
}

/// Steps over lists of wires are the steps for each: over one wire they are that wire's
/// step, and over none there is no step.
pub proof fn steps_are_by_wire<M: CircuitMode>(
    pre: M,
    wire: WireId,
    credits: Credits,
    value: M::WireValue,
    post: M,
)
    requires
        pre.wf(),
    ensures
        allocated_all(pre, seq![credits], seq![wire], post) <==> M::allocated(
            pre,
            credits,
            wire,
            post,
        ),
        fed_all(pre, seq![wire], seq![value], post) <==> M::fed(pre, wire, value, post),
        !constant_wire(wire) && credits > 0 ==> (credited_all(pre, seq![wire], seq![credits], post)
            <==> M::credited(pre, seq![wire], credits, post)),
        constant_wire(wire) || credits == 0 ==> (credited_all(pre, seq![wire], seq![credits], post)
            <==> post == pre),
        stored_wire(wire) ==> (unpinned_all(pre, seq![wire], post) <==> exists|
            v: Option<M::WireValue>,
        |
            v is Some && #[trigger] M::looked_up(pre, wire, v, post)),
        !stored_wire(wire) ==> (unpinned_all(pre, seq![wire], post) <==> post == pre),
{
    let (no_wires, no_credits, no_values) = (
        Seq::<WireId>::empty(),
        Seq::<u16>::empty(),
        Seq::<M::WireValue>::empty(),
    );
    assert(seq![wire].drop_last() =~= no_wires);
    assert(seq![credits].drop_last() =~= no_credits);
    assert(seq![value].drop_last() =~= no_values);
    reveal_with_fuel(allocated_all, 2);
    reveal_with_fuel(fed_all, 2);
    reveal_with_fuel(credited_all, 2);
    reveal_with_fuel(unpinned_all, 2);
    assert(seq![wire].last() == wire && seq![credits].last() == credits && seq![value].last()
        == value);
}

/// A component whose children's credits are asked for gets them from the front of those
/// that are left: as many as it has outputs.
pub proof fn child_takes_credits_from_front<M: CircuitMode>(
    pre: StreamingContext<M>,
    arity: nat,
    t: ComponentMetaTemplate,
    i: int,
)
    requires
        instantiable(t, child_outputs(pre, arity)),
        arity <= top_credits(pre).len(),
        0 <= i,
    ensures
        child_outputs(pre, arity).len() == arity,
        i < arity ==> child_outputs(pre, arity)[i] == top_credits(pre)[i],
        child_inputs(pre, arity, t).len() == t.input_len,
        i < t.input_len ==> child_inputs(pre, arity, t)[i] == t.fanout@[i] + output_credits_of(
            t.outputs@,
            top_credits(pre).take(arity as int),
            i,
        ),
{
    if i < t.input_len {
        wires_get_credits_for_reads(t, child_outputs(pre, arity), i);
    }
}

} // verus!
