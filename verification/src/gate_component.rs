//! A component that holds one gate.

use crate::component::{
    countable, fanout_after, instantiable, occurrences, output_credits_of, wire_credits,
    ComponentMetaTemplate,
};
use crate::gate::{
    constant_wire, gate_code, gate_fn, stored_wire, Gate, GateType, WireId, UNREACHABLE_ID,
};
use crate::modes::anchor_stats::{bool_or_false, bools_after_lookup};
use crate::modes::backend::{
    allocated_wire, creditable, place_of, store_after_allocate, store_after_credits,
    store_after_feed, CircuitMode, ComponentKey,
};
use crate::modes::component_stats::{key_number, produced_since, ComponentStatsMode};
use crate::storage::{slab_contents, Credits, StoreView};
use crate::streaming::{
    built, child_begun, child_ended, child_inputs, child_outputs, child_ready, credited_all,
    fresh_child, fresh_wires, may_credit_all, may_unpin_all, ones, stack_after, top_credits,
    unpinned_all, StreamingContext, StreamingMode,
};
use vstd::prelude::*;

verus! {

/// Whether `t` is the template of a component with one gate: each of the two inputs
/// is read once, and the output is the wire after them.
pub open spec fn gate_template(t: ComponentMetaTemplate) -> bool {
    &&& t.input_len == 2
    &&& t.fanout@ == seq![1u16, 1, 0]
    &&& t.outputs@ == seq![WireId(4)]
}

/// A component's gate on these inputs.
pub open spec fn gate_on(t: GateType, inputs: Seq<WireId>, out: WireId) -> Gate {
    Gate { wire_a: inputs[0], wire_b: inputs[1], wire_c: out, gate_type: t }
}

/// Whether a backend can allocate the output, evaluate a gate of this type and then
/// leave the component.
pub open spec fn may_run_gate<M: CircuitMode>(
    m: M,
    t: GateType,
    inputs: Seq<WireId>,
    credits: Credits,
    key: ComponentKey,
) -> bool {
    &&& m.may_allocate(credits)
    &&& forall|w: WireId, m1: M|
        m1.wf() && #[trigger] M::allocated(m, credits, w, m1) ==> m1.may_evaluate(
            gate_on(t, inputs, w),
        ) && forall|m2: M|
            m2.wf() && #[trigger] M::evaluated(m1, gate_on(t, inputs, w), m2) ==> m2.may_exit(key)
}

/// Whether the component can be run where gates are executed.
pub open spec fn may_run_component<M: CircuitMode>(
    ctx: StreamingContext<M>,
    key: ComponentKey,
    t: GateType,
    inputs: Seq<WireId>,
) -> bool {
    let credits = top_credits(ctx)[0];
    let known = ctx.templates.templates@;
    &&& ctx.mode.wf()
    &&& ctx.stack@.len() > 0
    &&& top_credits(ctx).len() > 0
    &&& known.dom().contains(key_number(key)) ==> gate_template(known[key_number(key)])
    &&& ctx.gate_count.counts@[gate_code(t) as int] < u64::MAX
    &&& inputs[0].0 != UNREACHABLE_ID
    &&& inputs[1].0 != UNREACHABLE_ID
    &&& ctx.mode.may_enter(key)
    &&& forall|m1: M|
        m1.wf() && #[trigger] M::entered(ctx.mode, key, m1) ==> may_credit_all(
            m1,
            inputs,
            ones(2),
        ) && forall|m2: M|
            m2.wf() && #[trigger] credited_all(m1, inputs, ones(2), m2) ==> may_unpin_all(
                m2,
                inputs,
            ) && forall|m3: M|
                m3.wf() && #[trigger] unpinned_all(m2, inputs, m3) ==> may_run_gate(
                    m3,
                    t,
                    inputs,
                    credits,
                    key,
                )
}

/// Whether a backend ran the component: it was told of its start, each input got a
/// credit for one read and gave up the one that held it, the output was allocated
/// with these credits, its value was computed, and the backend was told of the end.
pub open spec fn component_ran<M: CircuitMode>(
    pre: M,
    key: ComponentKey,
    t: GateType,
    inputs: Seq<WireId>,
    credits: Credits,
    out: WireId,
    post: M,
) -> bool {
    exists|m1: M, m2: M, m3: M, m4: M, m5: M|
        {
            &&& m1.wf() && m2.wf() && m3.wf() && m4.wf() && m5.wf()
            &&& #[trigger] M::entered(pre, key, m1)
            &&& #[trigger] credited_all(m1, inputs, ones(2), m2)
            &&& #[trigger] unpinned_all(m2, inputs, m3)
            &&& #[trigger] M::allocated(m3, credits, out, m4)
            &&& #[trigger] M::evaluated(m4, gate_on(t, inputs, out), m5)
            &&& M::exited(m5, key, post)
        }
}

/// Whether the body of the component can be run.
pub open spec fn body_ready<M: CircuitMode>(
    s: StreamingMode<M>,
    t: GateType,
    inputs: Seq<WireId>,
) -> bool {
    &&& inputs.len() == 2
    &&& match s {
        StreamingMode::MetadataPass(meta) => meta.has_room() && countable(
            meta.fanout@.push(0),
            inputs,
        ),
        StreamingMode::ExecutionPass(ctx) => {
            &&& ctx.mode.wf()
            &&& ctx.stack@.len() > 0
            &&& top_credits(ctx).len() > 0
            &&& ctx.mode.may_allocate(top_credits(ctx)[0])
            &&& forall|w: WireId, m: M|
                m.wf() && #[trigger] M::allocated(ctx.mode, top_credits(ctx)[0], w, m)
                    ==> m.may_evaluate(gate_on(t, inputs, w))
            &&& ctx.gate_count.counts@[gate_code(t) as int] < u64::MAX
            &&& inputs[0].0 != UNREACHABLE_ID
            &&& inputs[1].0 != UNREACHABLE_ID
        },
    }
}

/// Whether `post` is `pre` after the body of the component was run.
pub open spec fn body_done<M: CircuitMode>(
    pre: StreamingMode<M>,
    t: GateType,
    inputs: Seq<WireId>,
    out: Seq<WireId>,
    post: StreamingMode<M>,
) -> bool {
    &&& out.len() == 1
    &&& match (pre, post) {
        (StreamingMode::MetadataPass(b), StreamingMode::MetadataPass(a)) => {
            &&& out[0] == WireId((b.fanout@.len() + 2) as usize)
            &&& a.input_len == b.input_len
            &&& a.fanout@ == fanout_after(b.fanout@.push(0), inputs)
        },
        (StreamingMode::ExecutionPass(b), StreamingMode::ExecutionPass(a)) => {
            let code = gate_code(t) as int;
            &&& a.mode.wf()
            &&& exists|m: M|
                m.wf() && #[trigger] M::allocated(b.mode, top_credits(b)[0], out[0], m)
                    && M::evaluated(m, gate_on(t, inputs, out[0]), a.mode)
            &&& stack_after(b, 1, a)
            &&& a.templates == b.templates
            &&& a.gate_count.counts@ == b.gate_count.counts@.update(
                code,
                (b.gate_count.counts@[code] + 1) as u64,
            )
        },
        _ => false,
    }
}

/// Issues a wire and adds a gate that gives it its value.
fn gate_body<M: CircuitMode>(
    ctx: &mut StreamingMode<M>,
    gate_type: GateType,
    inputs: &Vec<WireId>,
) -> (r: Vec<WireId>)
    requires
        body_ready(*old(ctx), gate_type, inputs@),
    ensures
        body_done(*old(ctx), gate_type, inputs@, r@, *final(ctx)),
{
    let out = ctx.issue_wire();
    assert(inputs@ =~= seq![inputs@[0], inputs@[1]]);
    let gate = Gate { wire_a: inputs[0], wire_b: inputs[1], wire_c: out, gate_type };
    ctx.add_gate(gate);
    let mut r: Vec<WireId> = Vec::new();
    r.push(out);
    r
}

/// What a component with one gate takes from the credits of where it is run: one
/// more credit for each input, and the first of those credits for its output.
proof fn gate_template_credits<M: CircuitMode>(
    ctx: StreamingContext<M>,
    t: ComponentMetaTemplate,
)
    requires
        gate_template(t),
        top_credits(ctx).len() > 0,
    ensures
        instantiable(t, child_outputs(ctx, 1)),
        child_inputs(ctx, 1, t) == ones(2),
        wire_credits(t, child_outputs(ctx, 1)).skip(2) == seq![top_credits(ctx)[0]],
{
    let credits = child_outputs(ctx, 1);
    assert forall|i: int| 0 <= i < 3 implies output_credits_of(t.outputs@, credits, i) == if i
        == 2 {
        credits[0] as nat
    } else {
        0
    } by {
        assert(t.outputs@.drop_last() =~= Seq::<WireId>::empty());
        assert(output_credits_of(t.outputs@.drop_last(), credits, i) == 0);
    }
    assert(child_inputs(ctx, 1, t) =~= ones(2));
    assert(wire_credits(t, credits).skip(2) =~= seq![top_credits(ctx)[0]]);
}

/// Counting the reads of the body gives the template of a component with one gate.
proof fn body_counts<M: CircuitMode>(
    child: StreamingMode<M>,
    gate_type: GateType,
    mock: Seq<WireId>,
    out: Seq<WireId>,
    after: StreamingMode<M>,
    t: ComponentMetaTemplate,
)
    requires
        fresh_child(child, 2),
        mock == fresh_wires(2),
    ensures
        body_ready(child, gate_type, mock),
        body_done(child, gate_type, mock, out, after) && built(
            after->MetadataPass_0,
            out,
            t,
        ) ==> gate_template(t),
{
    let fanout = child->MetadataPass_0.fanout@.push(0);
    assert(mock =~= seq![WireId(2), WireId(3)]);
    assert(mock.drop_last() =~= seq![WireId(2)]);
    assert(mock.drop_last().drop_last() =~= Seq::<WireId>::empty());
    reveal_with_fuel(occurrences, 3);
    assert(fanout =~= seq![0u16, 0, 0]);
    assert(occurrences(mock, 0) == 1 && occurrences(mock, 1) == 1 && occurrences(mock, 2) == 0);
    assert(fanout_after(fanout, mock) =~= seq![1u16, 1, 0]);
    if body_done(child, gate_type, mock, out, after) && built(after->MetadataPass_0, out, t) {
        assert(out =~= seq![WireId(4)]);
    }
}

/// Once the component was started its body can be run, and after the body it can be
/// left.
proof fn body_runs<M: CircuitMode>(
    pre: StreamingContext<M>,
    key: ComponentKey,
    gate_type: GateType,
    inputs: Seq<WireId>,
    t: ComponentMetaTemplate,
    begun: StreamingContext<M>,
    out: Seq<WireId>,
    after: StreamingMode<M>,
)
    requires
        inputs.len() == 2,
        may_run_component(pre, key, gate_type, inputs),
        gate_template(t),
        child_begun(pre, key, inputs, 1, t, begun),
    ensures
        body_ready(StreamingMode::ExecutionPass(begun), gate_type, inputs),
        body_done(StreamingMode::ExecutionPass(begun), gate_type, inputs, out, after) ==> {
            &&& after is ExecutionPass
            &&& after->ExecutionPass_0.mode.wf()
            &&& after->ExecutionPass_0.mode.may_exit(key)
        },
{
    gate_template_credits(pre, t);
    assert(may_run_gate(begun.mode, gate_type, inputs, top_credits(pre)[0], key));
}

/// The component was run as a whole when it was started, its body was run and it was
/// left.
proof fn component_runs<M: CircuitMode>(
    pre: StreamingContext<M>,
    key: ComponentKey,
    gate_type: GateType,
    inputs: Seq<WireId>,
    t: ComponentMetaTemplate,
    begun: StreamingContext<M>,
    out: Seq<WireId>,
    after: StreamingContext<M>,
    post: StreamingContext<M>,
)
    requires
        pre.stack@.len() > 0,
        top_credits(pre).len() > 0,
        gate_template(t),
        child_begun(pre, key, inputs, 1, t, begun),
        body_done(
            StreamingMode::ExecutionPass(begun),
            gate_type,
            inputs,
            out,
            StreamingMode::ExecutionPass(after),
        ),
        child_ended(after, key, post),
    ensures
        component_ran(
            pre.mode,
            key,
            gate_type,
            inputs,
            top_credits(pre)[0],
            out[0],
            post.mode,
        ),
        stack_after(pre, 1, post),
{
    gate_template_credits(pre, t);
    let n = pre.stack@.len();
    assert(post.stack@ =~= begun.stack@.drop_last());
    assert(post.stack@.drop_last() =~= begun.stack@.take(n - 1));
    assert(post.stack@.last() == begun.stack@[n - 1]);
}

/// Runs a component that holds one gate of this type and returns its output.
pub fn run_gate_component<M: CircuitMode>(
    ctx: &mut StreamingMode<M>,
    key: ComponentKey,
    gate_type: GateType,
    a: WireId,
    b: WireId,
) -> (r: WireId)
    requires
        match *old(ctx) {
            StreamingMode::MetadataPass(meta) => meta.has_room() && countable(
                meta.fanout@,
                seq![a, b],
            ),
            StreamingMode::ExecutionPass(pre) => may_run_component(
                pre,
                key,
                gate_type,
                seq![a, b],
            ),
        },
    ensures
        match (*old(ctx), *final(ctx)) {
            (StreamingMode::MetadataPass(pre), StreamingMode::MetadataPass(post)) => {
                &&& r == WireId((pre.fanout@.len() + 2) as usize)
                &&& post.input_len == pre.input_len
                &&& post.fanout@ == fanout_after(pre.fanout@, seq![a, b]).push(0)
            },
            (StreamingMode::ExecutionPass(pre), StreamingMode::ExecutionPass(post)) => {
                let code = gate_code(gate_type) as int;
                &&& post.mode.wf()
                &&& component_ran(
                    pre.mode,
                    key,
                    gate_type,
                    seq![a, b],
                    top_credits(pre)[0],
                    r,
                    post.mode,
                )
                &&& stack_after(pre, 1, post)
                &&& post.gate_count.counts@ == pre.gate_count.counts@.update(
                    code,
                    (pre.gate_count.counts@[code] + 1) as u64,
                )
                &&& post.templates.templates@ == pre.templates.templates@.insert(
                    key_number(key),
                    post.templates.templates@[key_number(key)],
                )
                &&& gate_template(post.templates.templates@[key_number(key)])
                &&& pre.templates.templates@.dom().contains(key_number(key))
                    ==> post.templates.templates@ == pre.templates.templates@
            },
            _ => false,
        },
{
    let mut inputs: Vec<WireId> = Vec::new();
    inputs.push(a);
    inputs.push(b);
    let ghost wires = seq![a, b];
    assert(inputs@ =~= wires);
    let f = |s: &mut StreamingMode<M>, w: &Vec<WireId>| -> (out: Vec<WireId>)
        requires
            body_ready(*old(s), gate_type, w@),
        ensures
            body_done(*old(s), gate_type, w@, out@, *final(s)),
        { gate_body(s, gate_type, w) };
    proof {
        assert forall|child: &mut StreamingMode<M>, mock: &Vec<WireId>|
            fresh_child(*child, 2) && mock@ == fresh_wires(2) implies #[trigger] call_requires(
            f,
            (child, mock),
        ) by {
            body_counts(*child, gate_type, mock@, seq![], *child, arbitrary());
        }
        assert forall|
            child: &mut StreamingMode<M>,
            mock: &Vec<WireId>,
            outs: Vec<WireId>,
            t: ComponentMetaTemplate,
        |
            #![trigger
                call_ensures(f, (child, mock), outs),
                built(final(child)->MetadataPass_0, outs@, t)]
            call_ensures(f, (child, mock), outs) && fresh_child(*child, 2) && mock@ == fresh_wires(2)
            implies *final(child) is MetadataPass && (built(
            final(child)->MetadataPass_0,
            outs@,
            t,
        ) ==> gate_template(t)) by {
            body_counts(*child, gate_type, mock@, outs@, *final(child), t);
        }
        if *ctx is ExecutionPass {
            let pre = ctx->ExecutionPass_0;
            assert forall|t: ComponentMetaTemplate| #[trigger]
                gate_template(t) implies child_ready(pre, key, inputs@, 1, t) by {
                gate_template_credits(pre, t);
            }
            assert forall|s: &mut StreamingMode<M>, t: ComponentMetaTemplate|
                *s is ExecutionPass && gate_template(t) && #[trigger] child_begun(
                    pre,
                    key,
                    inputs@,
                    1,
                    t,
                    s->ExecutionPass_0,
                ) implies call_requires(f, (s, &inputs)) by {
                body_runs(
                    pre,
                    key,
                    gate_type,
                    inputs@,
                    t,
                    s->ExecutionPass_0,
                    seq![],
                    *s,
                );
            }
            assert forall|s: &mut StreamingMode<M>, t: ComponentMetaTemplate, out: Vec<WireId>|
                *s is ExecutionPass && gate_template(t) && #[trigger] child_begun(
                    pre,
                    key,
                    inputs@,
                    1,
                    t,
                    s->ExecutionPass_0,
                ) && #[trigger] call_ensures(f, (s, &inputs), out)
                implies *final(s) is ExecutionPass && final(s)->ExecutionPass_0.mode.wf()
                && final(s)->ExecutionPass_0.mode.may_exit(key) by {
                body_runs(
                    pre,
                    key,
                    gate_type,
                    inputs@,
                    t,
                    s->ExecutionPass_0,
                    out@,
                    *final(s),
                );
            }
            assert forall|
                s: &mut StreamingMode<M>,
                t: ComponentMetaTemplate,
                out: Vec<WireId>,
                post: StreamingContext<M>,
            |
                *s is ExecutionPass && gate_template(t) && #[trigger] child_begun(
                    pre,
                    key,
                    inputs@,
                    1,
                    t,
                    s->ExecutionPass_0,
                ) && #[trigger] call_ensures(f, (s, &inputs), out)
                    && *final(s) is ExecutionPass && #[trigger] child_ended(
                    final(s)->ExecutionPass_0,
                    key,
                    post,
                ) implies component_ran(
                pre.mode,
                key,
                gate_type,
                wires,
                top_credits(pre)[0],
                out@[0],
                post.mode,
            ) && stack_after(pre, 1, post) by {
                component_runs(
                    pre,
                    key,
                    gate_type,
                    inputs@,
                    t,
                    s->ExecutionPass_0,
                    out@,
                    final(s)->ExecutionPass_0,
                    post,
                );
            }
        }
    }
    let ghost before = *ctx;
    let outs = ctx.with_named_child(key, inputs, f, 1);
    proof {
        if before is MetadataPass {
            let read = fanout_after(before->MetadataPass_0.fanout@, wires);
            assert(ctx->MetadataPass_0.fanout@ =~= read.push(0));
        } else {
            let known = before->ExecutionPass_0.templates.templates@;
            let number = key_number(key);
            if known.dom().contains(number) {
                assert(known.insert(number, known[number]) =~= known);
            }
        }
    }
    outs[0]
}

/// Whether the wire has a value and room for two more credits.
pub open spec fn readable(st: StoreView<Option<bool>>, w: WireId) -> bool {
    constant_wire(w) || {
        &&& stored_wire(w)
        &&& st.holds(place_of(w))
        &&& st.credits(place_of(w)) > 0
        &&& st.credits(place_of(w)) + 2 <= u16::MAX
        &&& st.value(place_of(w)) is Some
    }
}

/// What is stored after the wire got one more credit, unless it is a constant.
spec fn raised(st: StoreView<Option<bool>>, w: WireId) -> StoreView<Option<bool>> {
    if constant_wire(w) {
        st
    } else {
        st.after_add(place_of(w), 1)
    }
}

/// The credits that two wires get, they give up again.
proof fn raised_and_lowered(st: StoreView<Option<bool>>, a: WireId, b: WireId)
    requires
        readable(st, a),
        readable(st, b),
    ensures
        bools_after_lookup(bools_after_lookup(raised(raised(st, a), b), a), b) == st,
        !constant_wire(a) ==> raised(raised(st, a), b).holds(place_of(a)) && raised(
            raised(st, a),
            b,
        ).value(place_of(a)) is Some,
        !constant_wire(b) ==> bools_after_lookup(raised(raised(st, a), b), a).holds(place_of(b))
            && bools_after_lookup(raised(raised(st, a), b), a).value(place_of(b)) is Some,
{
    let st4 = bools_after_lookup(bools_after_lookup(raised(raised(st, a), b), a), b);
    assert(st4.entries =~= st.entries);
}

/// Whether two states of the statistics differ in what is stored at most.
spec fn same_statistics(x: ComponentStatsMode, y: ComponentStatsMode) -> bool {
    x.same_figures(y) && x.produced@ == y.produced@
}

proof fn statistics_after_credits(
    m1: ComponentStatsMode,
    a: WireId,
    b: WireId,
    m2: ComponentStatsMode,
)
    requires
        credited_all(m1, seq![a, b], ones(2), m2),
    ensures
        m2.storage@ == raised(raised(m1.storage@, a), b),
        same_statistics(m2, m1),
{
    let wires = seq![a, b];
    assert(wires.drop_last() =~= seq![a]);
    assert(ones(2).drop_last() =~= ones(1));
    assert(seq![a].drop_last() =~= Seq::<WireId>::empty());
    assert(ones(1).drop_last() =~= ones(0));
    reveal_with_fuel(credited_all, 3);
    reveal_with_fuel(store_after_credits, 2);
    assert forall|st: StoreView<Option<bool>>, w: WireId| #[trigger]
        store_after_credits(st, seq![w], 1) == st.after_add(place_of(w), 1) by {
        assert(seq![w].drop_last() =~= Seq::<WireId>::empty());
    }
}

proof fn statistics_after_unpin(
    m2: ComponentStatsMode,
    a: WireId,
    b: WireId,
    m3: ComponentStatsMode,
)
    requires
        unpinned_all(m2, seq![a, b], m3),
    ensures
        m3.storage@ == bools_after_lookup(bools_after_lookup(m2.storage@, a), b),
        same_statistics(m3, m2),
{
    let wires = seq![a, b];
    assert(wires.drop_last() =~= seq![a]);
    assert(seq![a].drop_last() =~= Seq::<WireId>::empty());
    reveal_with_fuel(unpinned_all, 3);
}

/// Whether no figure of the statistics is at its limit.
pub open spec fn figures_have_room(m: ComponentStatsMode, key: ComponentKey) -> bool {
    let c = m.stats.counts;
    &&& m.gate_index < u64::MAX
    &&& c.gates < u64::MAX
    &&& c.wire_c_reused < u64::MAX
    &&& c.cross_boundary_inputs < u64::MAX
    &&& c.empty_instances < u64::MAX
    &&& c.n_span < u64::MAX
    &&& c.sum_span <= u128::MAX - u64::MAX
    &&& m.may_enter(key)
}

proof fn statistics_may_credit(m1: ComponentStatsMode, a: WireId, b: WireId)
    requires
        readable(m1.storage@, a),
        readable(m1.storage@, b),
    ensures
        may_credit_all(m1, seq![a, b], ones(2)),
{
    let wires = seq![a, b];
    assert(wires.drop_first() =~= seq![b]);
    assert(ones(2).drop_first() =~= ones(1));
    assert(seq![b].drop_first() =~= Seq::<WireId>::empty());
    assert(ones(1).drop_first() =~= ones(0));
    reveal_with_fuel(may_credit_all, 3);
    reveal_with_fuel(store_after_credits, 2);
    reveal_with_fuel(creditable, 2);
    assert(seq![a].drop_last() =~= Seq::<WireId>::empty());
    assert(seq![b].drop_last() =~= Seq::<WireId>::empty());
}

proof fn statistics_may_unpin(
    m2: ComponentStatsMode,
    st: StoreView<Option<bool>>,
    a: WireId,
    b: WireId,
)
    requires
        readable(st, a),
        readable(st, b),
        m2.storage@ == raised(raised(st, a), b),
    ensures
        may_unpin_all(m2, seq![a, b]),
{
    let wires = seq![a, b];
    assert(wires.drop_first() =~= seq![b]);
    assert(seq![b].drop_first() =~= Seq::<WireId>::empty());
    reveal_with_fuel(may_unpin_all, 3);
    raised_and_lowered(st, a, b);
}

proof fn statistics_may_run_gate(
    m3: ComponentStatsMode,
    key: ComponentKey,
    t: GateType,
    a: WireId,
    b: WireId,
    credits: Credits,
)
    requires
        m3.wf(),
        readable(m3.storage@, a),
        readable(m3.storage@, b),
        m3.gate_index < u64::MAX,
        m3.stats.counts.gates < u64::MAX,
        m3.stats.counts.wire_c_reused < u64::MAX,
        m3.stats.counts.cross_boundary_inputs < u64::MAX,
        m3.may_exit(key),
    ensures
        may_run_gate(m3, t, seq![a, b], credits, key),
{
    let next = m3.storage@.next_place();
    assert(!m3.storage@.holds(next)) by {
        let st = m3.storage@;
        if st.vacant.len() > 0 {
            assert(st.vacant.last() == st.vacant[st.vacant.len() - 1]);
        }
        assert(st.entries.dom() =~= slab_contents(m3.storage.credits).dom());
    }
    assert forall|w: WireId, m4: ComponentStatsMode|
        m4.wf() && #[trigger] ComponentStatsMode::allocated(
            m3,
            credits,
            w,
            m4,
        ) implies m4.may_evaluate(gate_on(t, seq![a, b], w)) by {
        if credits > 0 {
            assert(m4.storage@.holds(next));
            assert(slab_contents(m4.storage.credits).dom().contains(next));
            assert(place_of(w) == next);
        }
    }
}

/// A component with one gate can be run on the statistics wherever both inputs have
/// a value and no counter is at its limit.
pub proof fn statistics_can_run_gate_component(
    ctx: StreamingContext<ComponentStatsMode>,
    key: ComponentKey,
    t: GateType,
    a: WireId,
    b: WireId,
)
    requires
        ctx.mode.wf(),
        ctx.stack@.len() > 0,
        top_credits(ctx).len() > 0,
        ctx.templates.templates@.dom().contains(key_number(key)) ==> gate_template(
            ctx.templates.templates@[key_number(key)],
        ),
        ctx.gate_count.counts@[gate_code(t) as int] < u64::MAX,
        readable(ctx.mode.storage@, a),
        readable(ctx.mode.storage@, b),
        figures_have_room(ctx.mode, key),
    ensures
        may_run_component(ctx, key, t, seq![a, b]),
{
    let inputs = seq![a, b];
    let st = ctx.mode.storage@;
    raised_and_lowered(st, a, b);
    assert forall|m1: ComponentStatsMode|
        m1.wf() && #[trigger] ComponentStatsMode::entered(ctx.mode, key, m1) implies may_credit_all(
        m1,
        inputs,
        ones(2),
    ) && forall|m2: ComponentStatsMode|
        m2.wf() && #[trigger] credited_all(m1, inputs, ones(2), m2) ==> may_unpin_all(m2, inputs)
            && forall|m3: ComponentStatsMode|
            m3.wf() && #[trigger] unpinned_all(m2, inputs, m3) ==> may_run_gate(
                m3,
                t,
                inputs,
                top_credits(ctx)[0],
                key,
            ) by {
        statistics_may_credit(m1, a, b);
        assert forall|m2: ComponentStatsMode|
            m2.wf() && #[trigger] credited_all(m1, inputs, ones(2), m2) implies may_unpin_all(
            m2,
            inputs,
        ) && forall|m3: ComponentStatsMode|
            m3.wf() && #[trigger] unpinned_all(m2, inputs, m3) ==> may_run_gate(
                m3,
                t,
                inputs,
                top_credits(ctx)[0],
                key,
            ) by {
            statistics_after_credits(m1, a, b, m2);
            statistics_may_unpin(m2, st, a, b);
            assert forall|m3: ComponentStatsMode|
                m3.wf() && #[trigger] unpinned_all(m2, inputs, m3) implies may_run_gate(
                m3,
                t,
                inputs,
                top_credits(ctx)[0],
                key,
            ) by {
                statistics_after_unpin(m2, a, b, m3);
                statistics_may_run_gate(m3, key, t, a, b, top_credits(ctx)[0]);
            }
        }
    }
}

/// What a component with one gate does to the statistics: it adds one instance, and,
/// if anything reads its output, one gate, which crosses the boundary of its
/// instance since both of its inputs come from outside.
pub proof fn statistics_of_gate_component(
    pre: ComponentStatsMode,
    key: ComponentKey,
    t: GateType,
    a: WireId,
    b: WireId,
    credits: Credits,
    out: WireId,
    post: ComponentStatsMode,
)
    requires
        pre.wf(),
        pre.may_enter(key),
        readable(pre.storage@, a),
        readable(pre.storage@, b),
        pre.stats.counts.gates < u64::MAX,
        pre.stats.counts.cross_boundary_inputs < u64::MAX,
        component_ran(pre, key, t, seq![a, b], credits, out, post),
    ensures
        post.open@ == pre.open@,
        post.stats.counts.instances == pre.stats.counts.instances + 1,
        post.stats.counts.gates == pre.stats.counts.gates + if out.0 == UNREACHABLE_ID {
            0int
        } else {
            1
        },
        post.stats.counts.cross_boundary_inputs == pre.stats.counts.cross_boundary_inputs
            + if out.0 == UNREACHABLE_ID {
            0int
        } else {
            1
        },
        out == allocated_wire(pre.storage@, credits),
        out.0 != UNREACHABLE_ID ==> post.storage@ == store_after_feed(
            bools_after_lookup(
                bools_after_lookup(store_after_allocate(pre.storage@, credits), a),
                b,
            ),
            out,
            gate_fn(
                t,
                bool_or_false(store_after_allocate(pre.storage@, credits), a),
                bool_or_false(
                    bools_after_lookup(store_after_allocate(pre.storage@, credits), a),
                    b,
                ),
            ),
        ),
{
    let inputs = seq![a, b];
    let (m1, m2, m3, m4, m5) = choose|
        m1: ComponentStatsMode,
        m2: ComponentStatsMode,
        m3: ComponentStatsMode,
        m4: ComponentStatsMode,
        m5: ComponentStatsMode,
    |
        {
            &&& m1.wf() && m2.wf() && m3.wf() && m4.wf() && m5.wf()
            &&& #[trigger] ComponentStatsMode::entered(pre, key, m1)
            &&& #[trigger] credited_all(m1, inputs, ones(2), m2)
            &&& #[trigger] unpinned_all(m2, inputs, m3)
            &&& #[trigger] ComponentStatsMode::allocated(m3, credits, out, m4)
            &&& #[trigger] ComponentStatsMode::evaluated(m4, gate_on(t, inputs, out), m5)
            &&& ComponentStatsMode::exited(m5, key, post)
        };
    statistics_after_credits(m1, a, b, m2);
    statistics_after_unpin(m2, a, b, m3);
    raised_and_lowered(pre.storage@, a, b);
    assert(post.open@ =~= pre.open@);
    assert(!produced_since(m4.produced@, pre.gate_index).contains(a.0));
}

/// A gate on two inputs reads them in order and writes its output.
pub proof fn gate_reads_inputs_in_order(t: GateType, a: WireId, b: WireId, out: WireId)
    ensures
        ({
            let gate = gate_on(t, seq![a, b], out);
            &&& gate.wire_a == a
            &&& gate.wire_b == b
            &&& gate.wire_c == out
            &&& gate.gate_type == t
        }),
{
}

} // verus!
