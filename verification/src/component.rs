//! How often each wire of a component is read.
//!
//! A first pass over a component counts the reads of every wire. When the
//! component runs, each of its wires gets these reads, and the reads of the
//! component's outputs outside it, as credits.

use crate::gate::{stored_wire, Gate, WireId};
use crate::modes::backend::ComponentKey;
use crate::modes::component_stats::key_number;
use crate::storage::Credits;
use std::collections::HashMap;
use vstd::prelude::*;

verus! {

broadcast use vstd::std_specs::hash::group_hash_axioms;

/// Counts the reads of the wires of a component. The first `input_len` wires that
/// it issues are the component's inputs.
#[derive(Debug)]
pub struct ComponentMetaBuilder {
    pub input_len: usize,
    /// The reads of each wire issued so far.
    pub fanout: Vec<Credits>,
}

/// The position of a wire among those that were issued.
pub open spec fn issue_of(w: WireId) -> int {
    w.0 - 2
}

/// Whether a wire is one of `n` issued wires, a constant or unreachable.
pub open spec fn issued(n: nat, w: WireId) -> bool {
    stored_wire(w) ==> issue_of(w) < n
}

/// How often wire number `i` occurs in `wires`.
pub open spec fn occurrences(wires: Seq<WireId>, i: int) -> nat
    decreases wires.len(),
{
    if wires.len() == 0 {
        0
    } else {
        occurrences(wires.drop_last(), i) + if stored_wire(wires.last()) && issue_of(wires.last())
            == i {
            1nat
        } else {
            0
        }
    }
}

/// The reads after each of `wires` was read once more.
pub open spec fn fanout_after(fanout: Seq<u16>, wires: Seq<WireId>) -> Seq<u16> {
    Seq::new(fanout.len(), |i: int| (fanout[i] + occurrences(wires, i)) as u16)
}

/// Whether each of `wires` was issued and the counters have room for the reads.
pub open spec fn countable(fanout: Seq<u16>, wires: Seq<WireId>) -> bool {
    &&& forall|p: int| 0 <= p < wires.len() ==> issued(fanout.len(), #[trigger] wires[p])
    &&& forall|i: int|
        0 <= i < fanout.len() ==> #[trigger] fanout[i] + occurrences(wires, i) <= u16::MAX
}

proof fn occurrences_grow(wires: Seq<WireId>, n: int, i: int)
    requires
        0 <= n <= wires.len(),
    ensures
        occurrences(wires.take(n), i) <= occurrences(wires, i),
    decreases wires.len(),
{
    if n == wires.len() {
        assert(wires.take(n) =~= wires);
    } else {
        occurrences_grow(wires.drop_last(), n, i);
        assert(wires.drop_last().take(n) =~= wires.take(n));
    }
}

impl ComponentMetaBuilder {
    /// Whether there is room for another wire.
    pub open spec fn has_room(&self) -> bool {
        self.fanout@.len() < isize::MAX
    }

    /// A builder for a component with `input_len` inputs, without wires yet.
    pub fn new(input_len: usize) -> (r: ComponentMetaBuilder)
        ensures
            r.input_len == input_len,
            r.fanout@ == Seq::<u16>::empty(),
    {
        ComponentMetaBuilder { input_len, fanout: Vec::new() }
    }

    /// Issues a wire that nothing reads yet.
    pub fn issue_wire(&mut self) -> (r: WireId)
        requires
            old(self).has_room(),
        ensures
            r == WireId((old(self).fanout@.len() + 2) as usize),
            final(self).input_len == old(self).input_len,
            final(self).fanout@ == old(self).fanout@.push(0),
    {
        let r = WireId(self.fanout.len() + 2);
        self.fanout.push(0);
        r
    }

    /// Counts one read of each wire. Constants and the unreachable wire are not
    /// counted.
    pub fn increment_credits(&mut self, wires: &[WireId])
        requires
            countable(old(self).fanout@, wires@),
        ensures
            final(self).input_len == old(self).input_len,
            final(self).fanout@ == fanout_after(old(self).fanout@, wires@),
    {
        let ghost before = self.fanout@;
        let mut p: usize = 0;
        proof {
            assert(wires@.take(0) =~= Seq::<WireId>::empty());
            assert(self.fanout@ =~= fanout_after(before, wires@.take(0)));
        }
        while p < wires.len()
            invariant
                p <= wires@.len(),
                countable(before, wires@),
                self.input_len == old(self).input_len,
                self.fanout@ == fanout_after(before, wires@.take(p as int)),
            decreases wires@.len() - p,
        {
            let w = wires[p];
            proof {
                assert(wires@.take(p + 1).drop_last() =~= wires@.take(p as int));
                assert(wires@.take(p + 1).last() == w);
                assert(issued(before.len(), wires@[p as int]));
            }
            if w.is_stored() {
                let i: usize = w.0 - 2;
                proof {
                    occurrences_grow(wires@, p + 1, i as int);
                    assert(before[i as int] + occurrences(wires@, i as int) <= u16::MAX);
                }
                self.fanout[i] = self.fanout[i] + 1;
            }
            proof {
                assert forall|j: int| 0 <= j < before.len() implies #[trigger] self.fanout@[j]
                    == fanout_after(before, wires@.take(p + 1))[j] by {
                    occurrences_grow(wires@, p as int, j);
                    assert(before[j] + occurrences(wires@, j) <= u16::MAX);
                }
                assert(self.fanout@ =~= fanout_after(before, wires@.take(p + 1)));
            }
            p = p + 1;
        }
        assert(wires@.take(wires@.len() as int) =~= wires@);
    }

    /// Counts the reads of a gate's inputs.
    pub fn add_gate(&mut self, gate: Gate)
        requires
            countable(old(self).fanout@, seq![gate.wire_a, gate.wire_b]),
        ensures
            final(self).input_len == old(self).input_len,
            final(self).fanout@ == fanout_after(
                old(self).fanout@,
                seq![gate.wire_a, gate.wire_b],
            ),
    {
        let wires: [WireId; 2] = [gate.wire_a, gate.wire_b];
        assert(wires@ =~= seq![gate.wire_a, gate.wire_b]);
        self.increment_credits(wires.as_slice());
    }

    /// The template of the component with these outputs.
    pub fn build(self, outputs: &[WireId]) -> (r: ComponentMetaTemplate)
        ensures
            r.input_len == self.input_len,
            r.fanout@ == self.fanout@,
            r.outputs@ == outputs@,
    {
        let mut outs: Vec<WireId> = Vec::new();
        let mut i: usize = 0;
        while i < outputs.len()
            invariant
                i <= outputs@.len(),
                outs@ == outputs@.take(i as int),
            decreases outputs@.len() - i,
        {
            outs.push(outputs[i]);
            i = i + 1;
            assert(outs@ =~= outputs@.take(i as int));
        }
        assert(outputs@.take(outputs@.len() as int) =~= outputs@);
        ComponentMetaTemplate { input_len: self.input_len, fanout: self.fanout, outputs: outs }
    }
}

/// The reads of the wires of a component, and its outputs.
#[derive(Debug)]
pub struct ComponentMetaTemplate {
    pub input_len: usize,
    pub fanout: Vec<Credits>,
    pub outputs: Vec<WireId>,
}

/// The credits that the outputs give wire number `i`: those of each position at
/// which it is an output.
pub open spec fn output_credits_of(outputs: Seq<WireId>, credits: Seq<u16>, i: int) -> nat
    decreases outputs.len(),
{
    if outputs.len() == 0 {
        0
    } else {
        output_credits_of(outputs.drop_last(), credits, i) + if stored_wire(outputs.last())
            && issue_of(outputs.last()) == i {
            credits[outputs.len() - 1] as nat
        } else {
            0
        }
    }
}

proof fn output_credits_grow(outputs: Seq<WireId>, credits: Seq<u16>, n: int, i: int)
    requires
        0 <= n <= outputs.len(),
    ensures
        output_credits_of(outputs.take(n), credits, i) <= output_credits_of(outputs, credits, i),
    decreases outputs.len(),
{
    if n == outputs.len() {
        assert(outputs.take(n) =~= outputs);
    } else {
        output_credits_grow(outputs.drop_last(), credits, n, i);
        assert(outputs.drop_last().take(n) =~= outputs.take(n));
    }
}

/// The credits of every wire of the component: its reads inside and those of the
/// outputs outside.
pub open spec fn wire_credits(t: ComponentMetaTemplate, credits: Seq<u16>) -> Seq<u16> {
    Seq::new(
        t.fanout@.len(),
        |i: int| (t.fanout@[i] + output_credits_of(t.outputs@, credits, i)) as u16,
    )
}

/// Whether the component can be instantiated with these credits of its outputs.
pub open spec fn instantiable(t: ComponentMetaTemplate, credits: Seq<u16>) -> bool {
    &&& t.input_len <= t.fanout@.len()
    &&& t.outputs@.len() == credits.len()
    &&& forall|p: int|
        0 <= p < t.outputs@.len() ==> issued(t.fanout@.len(), #[trigger] t.outputs@[p])
    &&& forall|i: int|
        0 <= i < t.fanout@.len() ==> #[trigger] t.fanout@[i] + output_credits_of(
            t.outputs@,
            credits,
            i,
        ) <= u16::MAX
}

/// The credits that the wires of a running component still get; the next at the
/// end.
#[derive(Debug)]
pub struct ComponentMetaInstance {
    pub credits_stack: Vec<Credits>,
}

impl ComponentMetaInstance {
    /// The credits in the order in which they are given out.
    pub open spec fn order(&self) -> Seq<u16> {
        self.credits_stack@.reverse()
    }

    /// The credits of the next wire.
    pub fn next_credit(&mut self) -> (r: Option<Credits>)
        ensures
            old(self).order().len() == 0 ==> r is None && final(self).order() == old(self).order(),
            old(self).order().len() > 0 ==> r == Some(old(self).order()[0]) && final(self).order()
                == old(self).order().drop_first(),
    {
        let r = self.credits_stack.pop();
        assert(old(self).order().len() > 0 ==> self.order() =~= old(self).order().drop_first());
        assert(old(self).order().len() == 0 ==> self.order() =~= old(self).order());
        r
    }

    pub fn is_empty(&self) -> (r: bool)
        ensures
            r == (self.order().len() == 0),
    {
        self.credits_stack.len() == 0
    }
}

impl ComponentMetaTemplate {
    pub fn get_input_len(&self) -> (r: usize)
        ensures
            r == self.input_len,
    {
        self.input_len
    }

    /// The component with `output_credits` for its outputs: what its inner wires
    /// get, in the order in which they are issued, and what each input gets more.
    pub fn to_instance(&self, output_credits: &[Credits]) -> (r: (
        ComponentMetaInstance,
        Vec<Credits>,
    ))
        requires
            instantiable(*self, output_credits@),
        ensures
            r.0.order() == wire_credits(*self, output_credits@).skip(self.input_len as int),
            r.1@ == wire_credits(*self, output_credits@).take(self.input_len as int),
    {
        let ghost all = wire_credits(*self, output_credits@);
        let n: usize = self.fanout.len();
        let mut credits: Vec<Credits> = Vec::new();
        let mut i: usize = 0;
        while i < n
            invariant
                i <= n,
                n == self.fanout@.len(),
                credits@.len() == i,
                forall|j: int| 0 <= j < i ==> #[trigger] credits@[j] == self.fanout@[j],
            decreases n - i,
        {
            credits.push(self.fanout[i]);
            i = i + 1;
        }
        let mut p: usize = 0;
        assert(self.outputs@.take(0) =~= Seq::<WireId>::empty());
        while p < self.outputs.len()
            invariant
                p <= self.outputs@.len(),
                n == self.fanout@.len(),
                credits@.len() == n,
                instantiable(*self, output_credits@),
                forall|j: int|
                    0 <= j < n ==> #[trigger] credits@[j] == self.fanout@[j] + output_credits_of(
                        self.outputs@.take(p as int),
                        output_credits@,
                        j,
                    ),
            decreases self.outputs@.len() - p,
        {
            let w = self.outputs[p];
            proof {
                assert(self.outputs@.take(p + 1).drop_last() =~= self.outputs@.take(p as int));
                assert(self.outputs@.take(p + 1).last() == w);
                assert(issued(self.fanout@.len(), self.outputs@[p as int]));
            }
            if w.is_stored() {
                let at: usize = w.0 - 2;
                proof {
                    output_credits_grow(self.outputs@, output_credits@, p + 1, at as int);
                    assert(self.fanout@[at as int] + output_credits_of(
                        self.outputs@,
                        output_credits@,
                        at as int,
                    ) <= u16::MAX);
                }
                credits[at] = credits[at] + output_credits[p];
            }
            p = p + 1;
        }
        assert(self.outputs@.take(self.outputs@.len() as int) =~= self.outputs@);
        assert(credits@ =~= all);
        let mut credits_stack: Vec<Credits> = Vec::new();
        let mut left: usize = n;
        while left > self.input_len
            invariant
                self.input_len <= left <= n,
                credits@ == all,
                all.len() == n,
                credits_stack@ == all.skip(left as int).reverse(),
            decreases left,
        {
            left = left - 1;
            credits_stack.push(credits[left]);
            assert(credits_stack@ =~= all.skip(left as int).reverse());
        }
        let mut inputs: Vec<Credits> = Vec::new();
        let mut k: usize = 0;
        while k < self.input_len
            invariant
                k <= self.input_len <= n,
                credits@ == all,
                all.len() == n,
                inputs@ == all.take(k as int),
            decreases self.input_len - k,
        {
            inputs.push(credits[k]);
            k = k + 1;
            assert(inputs@ =~= all.take(k as int));
        }
        let instance = ComponentMetaInstance { credits_stack };
        assert(instance.order() =~= all.skip(self.input_len as int));
        (instance, inputs)
    }
}

/// The templates of the components that have run, by the numbers of their keys.
#[derive(Debug)]
pub struct ComponentTemplatePool {
    pub templates: HashMap<u64, ComponentMetaTemplate>,
}

impl ComponentTemplatePool {
    pub fn new() -> (r: ComponentTemplatePool)
        ensures
            r.templates@ == Map::<u64, ComponentMetaTemplate>::empty(),
    {
        ComponentTemplatePool { templates: HashMap::new() }
    }

    /// Keeps a template under a key.
    pub fn insert(&mut self, key: ComponentKey, template: ComponentMetaTemplate)
        ensures
            final(self).templates@ == old(self).templates@.insert(key_number(key), template),
    {
        let number: u64 = crate::modes::component_stats::number_of(key);
        self.templates.insert(number, template);
    }

    /// The template under a key, if there is one.
    pub fn get(&self, key: ComponentKey) -> (r: Option<&ComponentMetaTemplate>)
        ensures
            r == (if self.templates@.dom().contains(key_number(key)) {
                Some(&self.templates@[key_number(key)])
            } else {
                None
            }),
    {
        let number: u64 = crate::modes::component_stats::number_of(key);
        self.templates.get(&number)
    }
}

/// The number of gates of each type.
#[derive(Clone, Copy, Debug, PartialEq, Eq)]
pub struct GateCount {
    pub counts: [u64; 11],
}

impl Default for GateCount {
    fn default() -> (r: GateCount)
        ensures
            r.counts@ == Seq::new(11, |i: int| 0u64),
    {
        let counts: [u64; 11] = [0u64; 11];
        assert(counts@ =~= Seq::new(11, |i: int| 0u64));
        GateCount { counts }
    }
}

impl GateCount {
    /// Counts a gate.
    pub fn handle(&mut self, t: crate::gate::GateType)
        requires
            old(self).counts@[crate::gate::gate_code(t) as int] < u64::MAX,
        ensures
            final(self).counts@ == old(self).counts@.update(
                crate::gate::gate_code(t) as int,
                (old(self).counts@[crate::gate::gate_code(t) as int] + 1) as u64,
            ),
    {
        let i: usize = crate::modes::topo_export::type_code(&t) as usize;
        self.counts[i] = self.counts[i] + 1;
    }
}

/// Counting two lists of reads one after the other counts the reads of both.
pub proof fn reads_add_up(fanout: Seq<u16>, first: Seq<WireId>, second: Seq<WireId>, i: int)
    requires
        countable(fanout, first + second),
        0 <= i < fanout.len(),
    ensures
        occurrences(first + second, i) == occurrences(first, i) + occurrences(second, i),
        fanout_after(fanout_after(fanout, first), second)[i] == fanout_after(
            fanout,
            first + second,
        )[i],
{
    occurrences_of_both(first, second, i);
    assert(fanout[i] + occurrences(first + second, i) <= u16::MAX);
}

proof fn occurrences_of_both(first: Seq<WireId>, second: Seq<WireId>, i: int)
    ensures
        occurrences(first + second, i) == occurrences(first, i) + occurrences(second, i),
    decreases second.len(),
{
    if second.len() == 0 {
        assert(first + second =~= first);
    } else {
        assert((first + second).drop_last() =~= first + second.drop_last());
        occurrences_of_both(first, second.drop_last(), i);
    }
}

/// The reads of wire number `i` are the wires in the list with that number; the wires with
/// the lowest two numbers are constants and not counted.
pub proof fn reads_are_counted(wires: Seq<WireId>, i: int)
    requires
        0 <= i < usize::MAX - 2,
    ensures
        occurrences(wires, i) == wires.filter(|w: WireId| w.0 == i + 2).len(),
    decreases wires.len(),
{
    reveal(Seq::filter);
    let named = |w: WireId| w.0 == i + 2;
    if wires.len() > 0 {
        reads_are_counted(wires.drop_last(), i);
        let w = wires.last();
        assert(stored_wire(w) && issue_of(w) == i <==> named(w));
    }
}

/// The credits of a wire are its reads inside the component and, for each output of the
/// component that it is, that output's credits.
pub proof fn output_brings_its_credits(
    outputs: Seq<WireId>,
    credits: Seq<u16>,
    output: WireId,
    credit: u16,
    i: int,
)
    requires
        outputs.len() == credits.len(),
        0 <= i < usize::MAX - 2,
    ensures
        output_credits_of(outputs.push(output), credits.push(credit), i) == output_credits_of(
            outputs,
            credits,
            i,
        ) + if output.0 == i + 2 {
            credit as nat
        } else {
            0
        },
        output_credits_of(Seq::empty(), credits, i) == 0,
{
    assert(outputs.push(output).drop_last() =~= outputs);
    more_credits_are_not_read(outputs, credits, credit, i);
    assert(stored_wire(output) && issue_of(output) == i <==> output.0 == i + 2);
}

proof fn more_credits_are_not_read(
    outputs: Seq<WireId>,
    credits: Seq<u16>,
    credit: u16,
    i: int,
)
    requires
        outputs.len() <= credits.len(),
    ensures
        output_credits_of(outputs, credits.push(credit), i) == output_credits_of(
            outputs,
            credits,
            i,
        ),
    decreases outputs.len(),
{
    if outputs.len() > 0 {
        more_credits_are_not_read(outputs.drop_last(), credits, credit, i);
    }
}

/// The credits that a component's wires get: a wire's reads inside it, and its credits as
/// an output.
pub proof fn wires_get_credits_for_reads(t: ComponentMetaTemplate, credits: Seq<u16>, i: int)
    requires
        instantiable(t, credits),
        0 <= i < t.fanout@.len(),
    ensures
        wire_credits(t, credits).len() == t.fanout@.len(),
        wire_credits(t, credits)[i] == t.fanout@[i] + output_credits_of(t.outputs@, credits, i),
{
    assert(t.fanout@[i] + output_credits_of(t.outputs@, credits, i) <= u16::MAX);
}

} // verus!
