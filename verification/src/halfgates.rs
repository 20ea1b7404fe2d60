//! Privacy-free half-gates: one ciphertext for a non-free gate, none for a free
//! one.

use crate::aes_ni::{
    aes128_encrypt16_blocks_static_xor, aes128_encrypt2_blocks_static_xor,
    aes128_encrypt4_blocks_static_xor, aes128_encrypt8_blocks_static_xor, static_block, xor_block,
};
use crate::gate::{active, alphas, free, gate_fn, Delta, GateType};
use crate::hashers::{
    aes_ni_hash, to_tweak, tweak_block, AesNiHasher, GateHasher, HashWithGate, LabelHash,
};
use crate::s::{be_bytes, xor, S};
use vstd::prelude::*;

verus! {

/// The output label for false, and the ciphertext if it is not free, of a
/// garbled gate whose input wires have the false labels `a0` and `b0`.
pub open spec fn garbled<H: LabelHash>(
    h: H,
    t: GateType,
    a0: S,
    b0: S,
    delta: Delta,
    gate_id: usize,
) -> (S, Option<S>) {
    match t {
        GateType::Xor => (xor(a0, b0), None),
        GateType::Xnor => (xor(xor(a0, b0), delta.0), None),
        GateType::Not => (xor(a0, delta.0), None),
        _ => {
            let h_sel = h.gate_hash(active(a0, delta, alphas(t).0), gate_id);
            let h_oth = h.gate_hash(active(a0, delta, !alphas(t).0), gate_id);
            (
                active(h_sel, delta, alphas(t).2),
                Some(xor(xor(h_sel, h_oth), active(b0, delta, alphas(t).1))),
            )
        },
    }
}

/// The output label an evaluator computes from the active labels `a` and `b`, the
/// value that `a` stands for, and its ciphertext.
pub open spec fn degarbled<H: LabelHash>(
    h: H,
    t: GateType,
    ct: S,
    a: S,
    a_value: bool,
    b: S,
    gate_id: usize,
) -> S {
    match t {
        GateType::Xor => xor(a, b),
        GateType::Xnor => xor(a, b),
        GateType::Not => a,
        _ => {
            let h_a = h.gate_hash(a, gate_id);
            if a_value != alphas(t).0 {
                xor(xor(ct, h_a), b)
            } else {
                h_a
            }
        },
    }
}

/// Evaluating a garbled gate on the active labels of two values gives the active
/// label of its function of those values.
pub proof fn evaluation_follows_garbling<H: LabelHash>(
    h: H,
    t: GateType,
    a0: S,
    b0: S,
    delta: Delta,
    gate_id: usize,
    a_value: bool,
    b_value: bool,
    ct: S,
)
    requires
        garbled(h, t, a0, b0, delta, gate_id).1 matches Some(c) ==> ct == c,
    ensures
        degarbled(
            h,
            t,
            ct,
            active(a0, delta, a_value),
            a_value,
            active(b0, delta, b_value),
            gate_id,
        ) == active(
            garbled(h, t, a0, b0, delta, gate_id).0,
            delta,
            gate_fn(t, a_value, b_value),
        ),
{
    let (x, y, d) = (a0.0, b0.0, delta.0.0);
    if free(t) {
        assert((x ^ d) ^ y == (x ^ y) ^ d && x ^ (y ^ d) == (x ^ y) ^ d && (x ^ d) ^ (y ^ d) == x
            ^ y && ((x ^ y) ^ d) ^ d == x ^ y && (x ^ d) ^ d == x) by (bit_vector);
    } else {
        let p = h.gate_hash(active(a0, delta, alphas(t).0), gate_id).0;
        let q = h.gate_hash(active(a0, delta, !alphas(t).0), gate_id).0;
        assert((((p ^ q) ^ y) ^ q) ^ y == p && (((p ^ q) ^ (y ^ d)) ^ q) ^ (y ^ d) == p && (((p ^ q)
            ^ (y ^ d)) ^ q) ^ y == p ^ d && (((p ^ q) ^ y) ^ q) ^ (y ^ d) == p ^ d && (p ^ d) ^ d
            == p) by (bit_vector);
    }
}

/// A gate has a ciphertext exactly when it is not free.
pub proof fn free_gates_cost_nothing<H: LabelHash>(
    h: H,
    t: GateType,
    a0: S,
    b0: S,
    delta: Delta,
    gate_id: usize,
)
    ensures
        garbled(h, t, a0, b0, delta, gate_id).1 is None <==> free(t),
{
}

/// Garbles one gate: the output label for false, and the ciphertext of a non-free
/// gate.
pub fn garble_gate<H: GateHasher>(
    gh: &H,
    gate_type: GateType,
    a_label0: S,
    b_label0: S,
    delta: &Delta,
    gate_id: usize,
) -> (r: (S, Option<S>))
    ensures
        r == garbled(*gh, gate_type, a_label0, b_label0, *delta, gate_id),
{
    match gate_type {
        GateType::Xor => (S::xor(a_label0, b_label0), None),
        GateType::Xnor => (S::xor(S::xor(a_label0, b_label0), delta.0), None),
        GateType::Not => (S::xor(a_label0, delta.0), None),
        _ => {
            let (alpha_a, alpha_b, alpha_c) = gate_type.alphas_const();
            let (selected_a, other_a) = if alpha_a {
                (S::xor(a_label0, delta.0), a_label0)
            } else {
                (a_label0, S::xor(a_label0, delta.0))
            };
            let labels: [S; 2] = [selected_a, other_a];
            let h: [S; 2] = gh.hash_with_gate(&labels, gate_id);
            let h_a0 = h[0];
            let h_a1 = h[1];
            let b_sel = if alpha_b {
                S::xor(b_label0, delta.0)
            } else {
                b_label0
            };
            let ct = S::xor(S::xor(h_a0, h_a1), b_sel);
            let w0 = if alpha_c {
                S::xor(h_a0, delta.0)
            } else {
                h_a0
            };
            (w0, Some(ct))
        },
    }
}

/// Evaluates one gate from active labels. The ciphertext is asked for only where
/// its type is not free.
pub fn degarble_gate<H: GateHasher, F: FnOnce() -> S>(
    gh: &H,
    gate_type: GateType,
    lazy_ciphertext: F,
    a_active_label: S,
    a_value: bool,
    b_active_label: S,
    gate_id: usize,
) -> (r: S)
    requires
        !free(gate_type) ==> call_requires(lazy_ciphertext, ()),
    ensures
        free(gate_type) ==> forall|ct: S|
            r == #[trigger] degarbled(
                *gh,
                gate_type,
                ct,
                a_active_label,
                a_value,
                b_active_label,
                gate_id,
            ),
        !free(gate_type) ==> exists|ct: S|
            call_ensures(lazy_ciphertext, (), ct) && r == #[trigger] degarbled(
                *gh,
                gate_type,
                ct,
                a_active_label,
                a_value,
                b_active_label,
                gate_id,
            ),
{
    match gate_type {
        GateType::Xor => S::xor(a_active_label, b_active_label),
        GateType::Xnor => S::xor(a_active_label, b_active_label),
        GateType::Not => a_active_label,
        _ => {
            let ct = lazy_ciphertext();
            let labels: [S; 1] = [a_active_label];
            let h: [S; 1] = gh.hash_with_gate(&labels, gate_id);
            let h_a = h[0];
            let (alpha_a, _alpha_b, _alpha_c) = gate_type.alphas_const();
            let r = if a_value != alpha_a {
                S::xor(S::xor(ct, h_a), b_active_label)
            } else {
                h_a
            };
            assert(r == degarbled(
                *gh,
                gate_type,
                ct,
                a_active_label,
                a_value,
                b_active_label,
                gate_id,
            ));
            r
        },
    }
}

/// The label of a lane that is hashed first, and the one that is hashed second.
fn lane_inputs(a_label0: S, delta: Delta, alpha_a: bool) -> (r: (S, S))
    ensures
        r.0 == active(a_label0, delta, alpha_a),
        r.1 == active(a_label0, delta, !alpha_a),
{
    let other = S::xor(a_label0, delta.0);
    if alpha_a {
        (other, a_label0)
    } else {
        (a_label0, other)
    }
}

/// Whether the lanes from `lo` to `hi` hold the hashes of their two labels.
#[verifier::opaque]
spec fn lanes_hashed(
    h_sel: Seq<S>,
    h_oth: Seq<S>,
    a: Seq<S>,
    deltas: Seq<Delta>,
    alpha_a: bool,
    gate_id: usize,
    lo: int,
    hi: int,
) -> bool {
    forall|k: int|
        lo <= k < hi ==> #[trigger] h_sel[k] == aes_ni_hash(
            active(a[k], deltas[k], alpha_a),
            gate_id,
        ) && h_oth[k] == aes_ni_hash(active(a[k], deltas[k], !alpha_a), gate_id)
}

/// Hashing lane `n` after the lanes before it.
proof fn one_more_lane(
    h_sel: Seq<S>,
    h_oth: Seq<S>,
    a: Seq<S>,
    deltas: Seq<Delta>,
    alpha_a: bool,
    gate_id: usize,
    n: int,
    sel: S,
    oth: S,
)
    requires
        lanes_hashed(h_sel, h_oth, a, deltas, alpha_a, gate_id, 0, n),
        0 <= n < h_sel.len(),
        h_sel.len() == h_oth.len(),
        sel == aes_ni_hash(active(a[n], deltas[n], alpha_a), gate_id),
        oth == aes_ni_hash(active(a[n], deltas[n], !alpha_a), gate_id),
    ensures
        lanes_hashed(
            h_sel.update(n, sel),
            h_oth.update(n, oth),
            a,
            deltas,
            alpha_a,
            gate_id,
            0,
            n + 1,
        ),
{
    reveal(lanes_hashed);
}

/// Block `m` of the cipher's input for the lanes from `base` on: two blocks for
/// each lane.
spec fn lane_block(a: Seq<S>, deltas: Seq<Delta>, alpha_a: bool, base: int, m: int) -> Seq<u8> {
    let k = base + m / 2;
    be_bytes(active(a[k], deltas[k], (m % 2 == 0) == alpha_a).0)
}

/// Hashes the labels of eight lanes from `base` on with one call of the cipher.
fn hash_lanes_8<const N: usize>(
    h_sel: &mut [S; N],
    h_oth: &mut [S; N],
    a_label0: &[S; N],
    deltas: &[Delta; N],
    alpha_a: bool,
    gate_id: usize,
    base: usize,
)
    requires
        base + 8 <= N,
        lanes_hashed(
            old(h_sel)@,
            old(h_oth)@,
            a_label0@,
            deltas@,
            alpha_a,
            gate_id,
            0,
            base as int,
        ),
    ensures
        lanes_hashed(
            final(h_sel)@,
            final(h_oth)@,
            a_label0@,
            deltas@,
            alpha_a,
            gate_id,
            0,
            base + 8,
        ),
{
    let mut blocks: [[u8; 16]; 16] = [[0u8; 16]; 16];
    let mut k: usize = 0;
    while k < 8
        invariant
            k <= 8,
            base + 8 <= N,
            forall|m: int|
                0 <= m < 2 * k ==> (#[trigger] blocks@[m])@ == lane_block(
                    a_label0@,
                    deltas@,
                    alpha_a,
                    base as int,
                    m,
                ),
        decreases 8 - k,
    {
        let (a, o) = lane_inputs(a_label0[base + k], deltas[base + k], alpha_a);
        blocks[2 * k] = a.to_bytes();
        blocks[2 * k + 1] = o.to_bytes();
        k = k + 1;
    }
    match aes128_encrypt16_blocks_static_xor(blocks, to_tweak(gate_id)) {
        Some(out) => {
            let mut n: usize = 0;
            while n < 8
                invariant
                    n <= 8,
                    base + 8 <= N,
                    forall|m: int|
                        0 <= m < 16 ==> (#[trigger] blocks@[m])@ == lane_block(
                            a_label0@,
                            deltas@,
                            alpha_a,
                            base as int,
                            m,
                        ),
                    forall|m: int|
                        0 <= m < 16 ==> (#[trigger] out@[m])@ == static_block(
                            xor_block(blocks@[m]@, tweak_block(gate_id)),
                        ),
                    lanes_hashed(
                        h_sel@,
                        h_oth@,
                        a_label0@,
                        deltas@,
                        alpha_a,
                        gate_id,
                        0,
                        base + n,
                    ),
                decreases 8 - n,
            {
                let ghost (sel0, oth0) = (h_sel@, h_oth@);
                h_sel[base + n] = S::from_bytes(out[2 * n]);
                h_oth[base + n] = S::from_bytes(out[2 * n + 1]);
                assert(out@[2 * n]@ == static_block(
                    xor_block(blocks@[2 * n]@, tweak_block(gate_id)),
                ));
                assert(out@[2 * n + 1]@ == static_block(
                    xor_block(blocks@[2 * n + 1]@, tweak_block(gate_id)),
                ));
                proof {
                    one_more_lane(
                        sel0,
                        oth0,
                        a_label0@,
                        deltas@,
                        alpha_a,
                        gate_id,
                        base + n,
                        h_sel@[base + n],
                        h_oth@[base + n],
                    );
                }
                n = n + 1;
            }
        },
        None => (),
    }
}

/// Hashes the labels of four lanes from `base` on with one call of the cipher.
fn hash_lanes_4<const N: usize>(
    h_sel: &mut [S; N],
    h_oth: &mut [S; N],
    a_label0: &[S; N],
    deltas: &[Delta; N],
    alpha_a: bool,
    gate_id: usize,
    base: usize,
)
    requires
        base + 4 <= N,
        lanes_hashed(
            old(h_sel)@,
            old(h_oth)@,
            a_label0@,
            deltas@,
            alpha_a,
            gate_id,
            0,
            base as int,
        ),
    ensures
        lanes_hashed(
            final(h_sel)@,
            final(h_oth)@,
            a_label0@,
            deltas@,
            alpha_a,
            gate_id,
            0,
            base + 4,
        ),
{
    let mut blocks: [[u8; 16]; 8] = [[0u8; 16]; 8];
    let mut k: usize = 0;
    while k < 4
        invariant
            k <= 4,
            base + 4 <= N,
            forall|m: int|
                0 <= m < 2 * k ==> (#[trigger] blocks@[m])@ == lane_block(
                    a_label0@,
                    deltas@,
                    alpha_a,
                    base as int,
                    m,
                ),
        decreases 4 - k,
    {
        let (a, o) = lane_inputs(a_label0[base + k], deltas[base + k], alpha_a);
        blocks[2 * k] = a.to_bytes();
        blocks[2 * k + 1] = o.to_bytes();
        k = k + 1;
    }
    match aes128_encrypt8_blocks_static_xor(blocks, to_tweak(gate_id)) {
        Some(out) => {
            let mut n: usize = 0;
            while n < 4
                invariant
                    n <= 4,
                    base + 4 <= N,
                    forall|m: int|
                        0 <= m < 8 ==> (#[trigger] blocks@[m])@ == lane_block(
                            a_label0@,
                            deltas@,
                            alpha_a,
                            base as int,
                            m,
                        ),
                    forall|m: int|
                        0 <= m < 8 ==> (#[trigger] out@[m])@ == static_block(
                            xor_block(blocks@[m]@, tweak_block(gate_id)),
                        ),
                    lanes_hashed(
                        h_sel@,
                        h_oth@,
                        a_label0@,
                        deltas@,
                        alpha_a,
                        gate_id,
                        0,
                        base + n,
                    ),
                decreases 4 - n,
            {
                let ghost (sel0, oth0) = (h_sel@, h_oth@);
                h_sel[base + n] = S::from_bytes(out[2 * n]);
                h_oth[base + n] = S::from_bytes(out[2 * n + 1]);
                assert(out@[2 * n]@ == static_block(
                    xor_block(blocks@[2 * n]@, tweak_block(gate_id)),
                ));
                assert(out@[2 * n + 1]@ == static_block(
                    xor_block(blocks@[2 * n + 1]@, tweak_block(gate_id)),
                ));
                proof {
                    one_more_lane(
                        sel0,
                        oth0,
                        a_label0@,
                        deltas@,
                        alpha_a,
                        gate_id,
                        base + n,
                        h_sel@[base + n],
                        h_oth@[base + n],
                    );
                }
                n = n + 1;
            }
        },
        None => (),
    }
}

/// Hashes the labels of two lanes from `base` on with one call of the cipher.
fn hash_lanes_2<const N: usize>(
    h_sel: &mut [S; N],
    h_oth: &mut [S; N],
    a_label0: &[S; N],
    deltas: &[Delta; N],
    alpha_a: bool,
    gate_id: usize,
    base: usize,
)
    requires
        base + 2 <= N,
        lanes_hashed(
            old(h_sel)@,
            old(h_oth)@,
            a_label0@,
            deltas@,
            alpha_a,
            gate_id,
            0,
            base as int,
        ),
    ensures
        lanes_hashed(
            final(h_sel)@,
            final(h_oth)@,
            a_label0@,
            deltas@,
            alpha_a,
            gate_id,
            0,
            base + 2,
        ),
{
    let mut blocks: [[u8; 16]; 4] = [[0u8; 16]; 4];
    let mut k: usize = 0;
    while k < 2
        invariant
            k <= 2,
            base + 2 <= N,
            forall|m: int|
                0 <= m < 2 * k ==> (#[trigger] blocks@[m])@ == lane_block(
                    a_label0@,
                    deltas@,
                    alpha_a,
                    base as int,
                    m,
                ),
        decreases 2 - k,
    {
        let (a, o) = lane_inputs(a_label0[base + k], deltas[base + k], alpha_a);
        blocks[2 * k] = a.to_bytes();
        blocks[2 * k + 1] = o.to_bytes();
        k = k + 1;
    }
    match aes128_encrypt4_blocks_static_xor(blocks, to_tweak(gate_id)) {
        Some(out) => {
            let mut n: usize = 0;
            while n < 2
                invariant
                    n <= 2,
                    base + 2 <= N,
                    forall|m: int|
                        0 <= m < 4 ==> (#[trigger] blocks@[m])@ == lane_block(
                            a_label0@,
                            deltas@,
                            alpha_a,
                            base as int,
                            m,
                        ),
                    forall|m: int|
                        0 <= m < 4 ==> (#[trigger] out@[m])@ == static_block(
                            xor_block(blocks@[m]@, tweak_block(gate_id)),
                        ),
                    lanes_hashed(
                        h_sel@,
                        h_oth@,
                        a_label0@,
                        deltas@,
                        alpha_a,
                        gate_id,
                        0,
                        base + n,
                    ),
                decreases 2 - n,
            {
                let ghost (sel0, oth0) = (h_sel@, h_oth@);
                h_sel[base + n] = S::from_bytes(out[2 * n]);
                h_oth[base + n] = S::from_bytes(out[2 * n + 1]);
                assert(out@[2 * n]@ == static_block(
                    xor_block(blocks@[2 * n]@, tweak_block(gate_id)),
                ));
                assert(out@[2 * n + 1]@ == static_block(
                    xor_block(blocks@[2 * n + 1]@, tweak_block(gate_id)),
                ));
                proof {
                    one_more_lane(
                        sel0,
                        oth0,
                        a_label0@,
                        deltas@,
                        alpha_a,
                        gate_id,
                        base + n,
                        h_sel@[base + n],
                        h_oth@[base + n],
                    );
                }
                n = n + 1;
            }
        },
        None => (),
    }
}

/// Hashes the labels of lane `base`.
fn hash_lane<const N: usize>(
    h_sel: &mut [S; N],
    h_oth: &mut [S; N],
    a_label0: &[S; N],
    deltas: &[Delta; N],
    alpha_a: bool,
    gate_id: usize,
    base: usize,
)
    requires
        base < N,
        lanes_hashed(
            old(h_sel)@,
            old(h_oth)@,
            a_label0@,
            deltas@,
            alpha_a,
            gate_id,
            0,
            base as int,
        ),
    ensures
        lanes_hashed(
            final(h_sel)@,
            final(h_oth)@,
            a_label0@,
            deltas@,
            alpha_a,
            gate_id,
            0,
            base + 1,
        ),
{
    let (a, o) = lane_inputs(a_label0[base], deltas[base], alpha_a);
    match aes128_encrypt2_blocks_static_xor(a.to_bytes(), o.to_bytes(), to_tweak(gate_id)) {
        Some((s0, t0)) => {
            let ghost (sel0, oth0) = (h_sel@, h_oth@);
            h_sel[base] = S::from_bytes(s0);
            h_oth[base] = S::from_bytes(t0);
            proof {
                one_more_lane(
                    sel0,
                    oth0,
                    a_label0@,
                    deltas@,
                    alpha_a,
                    gate_id,
                    base as int,
                    h_sel@[base as int],
                    h_oth@[base as int],
                );
            }
        },
        None => (),
    }
}

/// Garbles one gate in `N` lanes, each with its own labels and offset. Every lane
/// gets what `garble_gate` gives it with the hasher that encrypts once; the
/// cipher runs on up to sixteen blocks at a time.
#[verifier::rlimit(60)]
pub fn garble_gate_batch<const N: usize>(
    gate_type: GateType,
    a_label0: [S; N],
    b_label0: [S; N],
    deltas: &[Delta; N],
    gate_id: usize,
) -> (r: ([S; N], Option<[S; N]>))
    ensures
        r.1 is None <==> free(gate_type),
        forall|k: int|
            0 <= k < N ==> #[trigger] r.0@[k] == garbled(
                AesNiHasher,
                gate_type,
                a_label0@[k],
                b_label0@[k],
                deltas@[k],
                gate_id,
            ).0,
        r.1 matches Some(cts) ==> forall|k: int|
            0 <= k < N ==> garbled(
                AesNiHasher,
                gate_type,
                a_label0@[k],
                b_label0@[k],
                deltas@[k],
                gate_id,
            ).1 == Some(#[trigger] cts@[k]),
{
    match gate_type {
        GateType::Xor => {
            let mut c = a_label0;
            let mut i: usize = 0;
            while i < N
                invariant
                    i <= N,
                    forall|k: int| 0 <= k < i ==> #[trigger] c@[k] == xor(a_label0@[k], b_label0@[k]),
                decreases N - i,
            {
                c[i] = S::xor(a_label0[i], b_label0[i]);
                i = i + 1;
            }
            (c, None)
        },
        GateType::Xnor => {
            let mut c = a_label0;
            let mut i: usize = 0;
            while i < N
                invariant
                    i <= N,
                    forall|k: int|
                        0 <= k < i ==> #[trigger] c@[k] == xor(
                            xor(a_label0@[k], b_label0@[k]),
                            deltas@[k].0,
                        ),
                decreases N - i,
            {
                c[i] = S::xor(S::xor(a_label0[i], b_label0[i]), deltas[i].0);
                i = i + 1;
            }
            (c, None)
        },
        GateType::Not => {
            let mut c = a_label0;
            let mut i: usize = 0;
            while i < N
                invariant
                    i <= N,
                    forall|k: int| 0 <= k < i ==> #[trigger] c@[k] == xor(a_label0@[k], deltas@[k].0),
                decreases N - i,
            {
                c[i] = S::xor(a_label0[i], deltas[i].0);
                i = i + 1;
            }
            (c, None)
        },
        _ => {
            let (alpha_a, alpha_b, alpha_c) = gate_type.alphas_const();
            let mut h_sel = a_label0;
            let mut h_oth = a_label0;
            let mut i: usize = 0;
            proof {
                reveal(lanes_hashed);
            }
            while N - i >= 8
                invariant
                    i <= N,
                    lanes_hashed(
                        h_sel@,
                        h_oth@,
                        a_label0@,
                        deltas@,
                        alpha_a,
                        gate_id,
                        0,
                        i as int,
                    ),
                decreases N - i,
            {
                hash_lanes_8(&mut h_sel, &mut h_oth, &a_label0, deltas, alpha_a, gate_id, i);
                i = i + 8;
            }
            while N - i >= 4
                invariant
                    i <= N,
                    lanes_hashed(
                        h_sel@,
                        h_oth@,
                        a_label0@,
                        deltas@,
                        alpha_a,
                        gate_id,
                        0,
                        i as int,
                    ),
                decreases N - i,
            {
                hash_lanes_4(&mut h_sel, &mut h_oth, &a_label0, deltas, alpha_a, gate_id, i);
                i = i + 4;
            }
            while N - i >= 2
                invariant
                    i <= N,
                    lanes_hashed(
                        h_sel@,
                        h_oth@,
                        a_label0@,
                        deltas@,
                        alpha_a,
                        gate_id,
                        0,
                        i as int,
                    ),
                decreases N - i,
            {
                hash_lanes_2(&mut h_sel, &mut h_oth, &a_label0, deltas, alpha_a, gate_id, i);
                i = i + 2;
            }
            if i < N {
                hash_lane(&mut h_sel, &mut h_oth, &a_label0, deltas, alpha_a, gate_id, i);
            }
            assert(lanes_hashed(
                h_sel@,
                h_oth@,
                a_label0@,
                deltas@,
                alpha_a,
                gate_id,
                0,
                N as int,
            ));
            let mut w0 = a_label0;
            let mut ct = a_label0;
            let mut j: usize = 0;
            while j < N
                invariant
                    j <= N,
                    forall|k: int|
                        0 <= k < j ==> #[trigger] ct@[k] == xor(
                            xor(h_sel@[k], h_oth@[k]),
                            active(b_label0@[k], deltas@[k], alpha_b),
                        ),
                    forall|k: int|
                        0 <= k < j ==> #[trigger] w0@[k] == active(h_sel@[k], deltas@[k], alpha_c),
                decreases N - j,
            {
                let b_sel = if alpha_b {
                    S::xor(b_label0[j], deltas[j].0)
                } else {
                    b_label0[j]
                };
                ct[j] = S::xor(S::xor(h_sel[j], h_oth[j]), b_sel);
                w0[j] = if alpha_c {
                    S::xor(h_sel[j], deltas[j].0)
                } else {
                    h_sel[j]
                };
                j = j + 1;
            }
            (w0, Some(ct))
        },
    }
}

/// What a non-free gate is made of. Let `a_value` be the value of the first input that
/// alone decides the output, and `b_value` that of the second which gives the same output
/// beside the other value of the first. The output label of the decided value is the hash
/// of the first input's label for `a_value`, and the ciphertext is the exclusive or of the
/// hashes of both labels of the first input and of the second's label for `b_value`.
pub proof fn nonfree_gate_is_made_of_hashes<H: LabelHash>(
    h: H,
    t: GateType,
    a0: S,
    b0: S,
    delta: Delta,
    gate_id: usize,
    a_value: bool,
    b_value: bool,
)
    requires
        !free(t),
        gate_fn(t, a_value, true) == gate_fn(t, a_value, false),
        gate_fn(t, !a_value, b_value) == gate_fn(t, a_value, b_value),
    ensures
        active(garbled(h, t, a0, b0, delta, gate_id).0, delta, gate_fn(t, a_value, b_value))
            == h.gate_hash(active(a0, delta, a_value), gate_id),
        garbled(h, t, a0, b0, delta, gate_id).1 == Some(
            S(
                h.gate_hash(a0, gate_id).0 ^ h.gate_hash(S(a0.0 ^ delta.0.0), gate_id).0 ^ active(
                    b0,
                    delta,
                    b_value,
                ).0,
            ),
        ),
{
    let p = h.gate_hash(a0, gate_id).0;
    let q = h.gate_hash(S(a0.0 ^ delta.0.0), gate_id).0;
    let r = h.gate_hash(active(a0, delta, a_value), gate_id).0;
    let d = delta.0.0;
    assert(p ^ q == q ^ p && (r ^ d) ^ d == r) by (bit_vector);
}

/// Every non-free gate has a value of its first input that alone decides the output, and
/// only one; and beside the other value just one of the second gives the same output.
pub proof fn nonfree_gate_has_deciding_value(t: GateType)
    requires
        !free(t),
    ensures
        (gate_fn(t, true, true) == gate_fn(t, true, false)) != (gate_fn(t, false, true) == gate_fn(
            t,
            false,
            false,
        )),
{
}

/// A free gate's output label is the exclusive or of the input labels, that of an XNOR
/// gate moved by the offset, and that of a NOT gate is its input label moved by the
/// offset.
pub proof fn free_gate_is_made_of_labels<H: LabelHash>(
    h: H,
    a0: S,
    b0: S,
    delta: Delta,
    gate_id: usize,
)
    ensures
        garbled(h, GateType::Xor, a0, b0, delta, gate_id) == (S(a0.0 ^ b0.0), None::<S>),
        garbled(h, GateType::Xnor, a0, b0, delta, gate_id) == (
            S(a0.0 ^ b0.0 ^ delta.0.0),
            None::<S>,
        ),
        garbled(h, GateType::Not, a0, b0, delta, gate_id) == (S(a0.0 ^ delta.0.0), None::<S>),
{
}

} // verus!
