//! The hash tree over the published leaves.

use crate::anchoring::circuit::PCircuit;
use crate::bytes::same_bytes;
use crate::gate::free;
use crate::hashers::{le_bytes_8, number_bytes_are_digits, u64_to_le_bytes};
use crate::primitives::{blake3_digest, blake3_hash};
use crate::s::{be_bytes, bytes_round_trip, push_bytes, S};
use vstd::arithmetic::power2::{lemma2_to64, lemma_pow2_pos, lemma_pow2_unfold, pow2};
use vstd::prelude::*;

verus! {

/// First byte of what is hashed for a leaf.
pub const TAG_LEAF: u8 = 0x06;

/// Second byte of what is hashed for the leaf of a non-free gate.
pub const LEAF_AND: u8 = 0x00;

/// Second byte of what is hashed for the leaf of an anchored free gate.
pub const LEAF_X: u8 = 0x01;

/// The hash of the leaf of non-free gate `g`, which holds a ciphertext and an
/// offset.
pub open spec fn and_leaf_hash(g: usize, t: S, r: S) -> Seq<u8> {
    blake3_digest(
        seq![TAG_LEAF, LEAF_AND] + le_bytes_8(g as u64) + be_bytes(t.0) + be_bytes(r.0),
    )
}

/// The hash of the leaf of anchored free gate `g`, which holds an offset alone.
pub open spec fn x_leaf_hash(g: usize, r: S) -> Seq<u8> {
    blake3_digest(seq![TAG_LEAF, LEAF_X] + le_bytes_8(g as u64) + be_bytes(r.0))
}

/// The hash of the leaf of gate `g`, by its kind.
pub open spec fn gate_leaf_hash(c: PCircuit, g: usize, t: S, r: S) -> Seq<u8> {
    if free(c.gates@[g as int].t) {
        x_leaf_hash(g, r)
    } else {
        and_leaf_hash(g, t, r)
    }
}

/// The hash of an inner node.
pub open spec fn node_hash(a: Seq<u8>, b: Seq<u8>) -> Seq<u8> {
    blake3_digest(a + b)
}

/// The hashes as byte sequences.
pub open spec fn byte_seqs(hashes: Seq<[u8; 32]>) -> Seq<Seq<u8>> {
    Seq::new(hashes.len(), |i: int| hashes[i]@)
}

/// The level above `level`: neighbours are joined in pairs, and a last hash
/// without a neighbour is joined with itself.
pub open spec fn level_above(level: Seq<Seq<u8>>) -> Seq<Seq<u8>> {
    Seq::new(
        (level.len() + 1) / 2,
        |i: int|
            node_hash(
                level[2 * i],
                if 2 * i + 1 < level.len() {
                    level[2 * i + 1]
                } else {
                    level[2 * i]
                },
            ),
    )
}

/// The root of the tree over a level. The root over nothing is 32 zero bytes.
pub open spec fn root_of(level: Seq<Seq<u8>>) -> Seq<u8>
    decreases level.len(),
{
    if level.len() == 0 {
        Seq::new(32, |i: int| 0u8)
    } else if level.len() == 1 {
        level[0]
    } else {
        root_of(level_above(level))
    }
}

/// What `level[idx]` is joined with.
pub open spec fn sibling(level: Seq<Seq<u8>>, idx: int) -> Seq<u8> {
    if idx % 2 == 1 {
        level[idx - 1]
    } else if idx + 1 < level.len() {
        level[idx + 1]
    } else {
        level[idx]
    }
}

/// The siblings on the way from `level[idx]` to the root.
pub open spec fn path_of(level: Seq<Seq<u8>>, idx: int) -> Seq<Seq<u8>>
    decreases level.len(),
{
    if level.len() <= 1 {
        seq![]
    } else {
        seq![sibling(level, idx)] + path_of(level_above(level), idx / 2)
    }
}

/// The hash reached from `cur` at position `idx` by joining the siblings of `path`
/// in turn.
pub open spec fn climb(cur: Seq<u8>, idx: int, path: Seq<Seq<u8>>) -> Seq<u8>
    decreases path.len(),
{
    if path.len() == 0 {
        cur
    } else {
        climb(
            if idx % 2 == 0 {
                node_hash(cur, path[0])
            } else {
                node_hash(path[0], cur)
            },
            idx / 2,
            path.drop_first(),
        )
    }
}

/// The path of every leaf leads from the leaf to the root.
pub proof fn path_leads_to_root(level: Seq<Seq<u8>>, idx: int)
    requires
        0 <= idx < level.len(),
    ensures
        climb(level[idx], idx, path_of(level, idx)) == root_of(level),
    decreases level.len(),
{
    if level.len() > 1 {
        let path = path_of(level, idx);
        assert(path.drop_first() =~= path_of(level_above(level), idx / 2));
        path_leads_to_root(level_above(level), idx / 2);
    }
}

/// The hash of the leaf of a non-free gate.
pub fn leaf_hash_and(g: usize, t: S, r: S) -> (h: [u8; 32])
    ensures
        h@ == and_leaf_hash(g, t, r),
{
    let mut input: Vec<u8> = Vec::new();
    input.push(TAG_LEAF);
    input.push(LEAF_AND);
    push_bytes(&mut input, u64_to_le_bytes(g as u64).as_slice());
    push_bytes(&mut input, t.to_bytes().as_slice());
    push_bytes(&mut input, r.to_bytes().as_slice());
    assert(input@ =~= seq![TAG_LEAF, LEAF_AND] + le_bytes_8(g as u64) + be_bytes(t.0) + be_bytes(
        r.0,
    ));
    blake3_hash(input.as_slice())
}

/// The hash of the leaf of an anchored free gate.
pub fn leaf_hash_x(g: usize, r: S) -> (h: [u8; 32])
    ensures
        h@ == x_leaf_hash(g, r),
{
    let mut input: Vec<u8> = Vec::new();
    input.push(TAG_LEAF);
    input.push(LEAF_X);
    push_bytes(&mut input, u64_to_le_bytes(g as u64).as_slice());
    push_bytes(&mut input, r.to_bytes().as_slice());
    assert(input@ =~= seq![TAG_LEAF, LEAF_X] + le_bytes_8(g as u64) + be_bytes(r.0));
    blake3_hash(input.as_slice())
}

/// The hash of the leaf of gate `g`.
pub fn leaf_hash_of(c: &PCircuit, g: usize, t: S, r: S) -> (h: [u8; 32])
    requires
        g < c.gates@.len(),
    ensures
        h@ == gate_leaf_hash(*c, g, t, r),
{
    if c.gates[g].t.is_free() {
        leaf_hash_x(g, r)
    } else {
        leaf_hash_and(g, t, r)
    }
}

fn node(a: &[u8; 32], b: &[u8; 32]) -> (h: [u8; 32])
    ensures
        h@ == node_hash(a@, b@),
{
    let mut input: Vec<u8> = Vec::new();
    push_bytes(&mut input, a.as_slice());
    push_bytes(&mut input, b.as_slice());
    assert(input@ =~= a@ + b@);
    blake3_hash(input.as_slice())
}

fn next_level(level: &Vec<[u8; 32]>) -> (r: Vec<[u8; 32]>)
    ensures
        byte_seqs(r@) == level_above(byte_seqs(level@)),
{
    let n: usize = level.len();
    let half: usize = n / 2 + n % 2;
    let mut r: Vec<[u8; 32]> = Vec::new();
    let mut i: usize = 0;
    while i < half
        invariant
            i <= half,
            n == level@.len(),
            half == (n + 1) / 2,
            r@.len() == i,
            forall|k: int|
                0 <= k < i ==> (#[trigger] r@[k])@ == level_above(byte_seqs(level@))[k],
        decreases half - i,
    {
        if i * 2 + 1 < n {
            r.push(node(&level[i * 2], &level[i * 2 + 1]));
        } else {
            r.push(node(&level[i * 2], &level[i * 2]));
        }
        i = i + 1;
    }
    assert(byte_seqs(r@) =~= level_above(byte_seqs(level@)));
    r
}

fn copied(leaves: &[[u8; 32]]) -> (r: Vec<[u8; 32]>)
    ensures
        r@ == leaves@,
{
    let mut r: Vec<[u8; 32]> = Vec::new();
    let mut i: usize = 0;
    while i < leaves.len()
        invariant
            i <= leaves@.len(),
            r@ == leaves@.take(i as int),
        decreases leaves@.len() - i,
    {
        r.push(leaves[i]);
        i = i + 1;
        assert(r@ =~= leaves@.take(i as int));
    }
    assert(leaves@.take(leaves@.len() as int) =~= leaves@);
    r
}

/// The root of the tree over the leaf hashes.
pub fn merkle_root(leaves: &[[u8; 32]]) -> (r: [u8; 32])
    ensures
        r@ == root_of(byte_seqs(leaves@)),
{
    if leaves.len() == 0 {
        let zero: [u8; 32] = [0u8; 32];
        assert(zero@ =~= root_of(byte_seqs(leaves@)));
        return zero;
    }
    let mut level = copied(leaves);
    while level.len() > 1
        invariant
            level@.len() >= 1,
            root_of(byte_seqs(level@)) == root_of(byte_seqs(leaves@)),
        decreases level@.len(),
    {
        let ghost before = byte_seqs(level@);
        level = next_level(&level);
        assert(level@.len() == byte_seqs(level@).len());
    }
    level[0]
}

/// The siblings on the way from leaf `idx` to the root.
pub fn merkle_path(leaves: &[[u8; 32]], idx: usize) -> (r: Vec<[u8; 32]>)
    requires
        leaves@.len() > 1 ==> idx < leaves@.len(),
    ensures
        byte_seqs(r@) == path_of(byte_seqs(leaves@), idx as int),
{
    let mut path: Vec<[u8; 32]> = Vec::new();
    let mut level = copied(leaves);
    let mut i: usize = idx;
    let ghost goal = path_of(byte_seqs(leaves@), idx as int);
    assert(byte_seqs(path@) + goal =~= goal);
    while level.len() > 1
        invariant
            level@.len() > 1 ==> i < level@.len(),
            byte_seqs(path@) + path_of(byte_seqs(level@), i as int) == goal,
        decreases level@.len(),
    {
        let ghost above = level_above(byte_seqs(level@));
        let ghost path0 = path@;
        let sib = if i % 2 == 1 {
            level[i - 1]
        } else if i + 1 < level.len() {
            level[i + 1]
        } else {
            level[i]
        };
        path.push(sib);
        let ghost level0 = byte_seqs(level@);
        level = next_level(&level);
        proof {
            assert(level@.len() == byte_seqs(level@).len());
            assert(sib@ == sibling(level0, i as int));
            assert(byte_seqs(path@) + path_of(above, i as int / 2) =~= byte_seqs(path0) + (seq![
                sibling(level0, i as int),
            ] + path_of(above, i as int / 2)));
        }
        i = i / 2;
    }
    assert(byte_seqs(path@) + path_of(byte_seqs(level@), i as int) =~= byte_seqs(path@));
    path
}

/// Whether the path leads from a leaf at position `idx` to the root.
pub fn merkle_ok(leaf: [u8; 32], idx: usize, path: &[[u8; 32]], root: [u8; 32]) -> (r: bool)
    ensures
        r == (climb(leaf@, idx as int, byte_seqs(path@)) == root@),
{
    let mut cur = leaf;
    let mut pos: usize = idx;
    let mut i: usize = 0;
    assert(byte_seqs(path@).skip(0) =~= byte_seqs(path@));
    while i < path.len()
        invariant
            i <= path@.len(),
            climb(leaf@, idx as int, byte_seqs(path@)) == climb(
                cur@,
                pos as int,
                byte_seqs(path@).skip(i as int),
            ),
        decreases path@.len() - i,
    {
        let ghost rest = byte_seqs(path@).skip(i as int);
        assert(rest.drop_first() =~= byte_seqs(path@).skip(i + 1));
        assert(rest[0] == path@[i as int]@);
        cur = if pos % 2 == 0 {
            node(&cur, &path[i])
        } else {
            node(&path[i], &cur)
        };
        pos = pos / 2;
        i = i + 1;
    }
    same_bytes(&cur, &root)
}

/// The messages that leaves are hashed from. That of a non-free gate's leaf is the bytes 6
/// and 0, the number, the ciphertext and the offset of its gate; that of a free gate's leaf
/// is the bytes 6 and 1, the number and the offset. Leaves of different gates, ciphertexts
/// or offsets have different messages.
pub proof fn leaf_messages_are_unique(
    g: usize,
    t: S,
    r: S,
    other_g: usize,
    other_t: S,
    other_r: S,
    a: Seq<u8>,
    b: Seq<u8>,
)
    requires
        a.len() == 42,
        a[0] == 6,
        a[1] == 0,
        a.subrange(2, 10) == le_bytes_8(g as u64),
        a.subrange(10, 26) == be_bytes(t.0),
        a.subrange(26, 42) == be_bytes(r.0),
        b.len() == 26,
        b[0] == 6,
        b[1] == 1,
        b.subrange(2, 10) == le_bytes_8(g as u64),
        b.subrange(10, 26) == be_bytes(r.0),
    ensures
        and_leaf_hash(g, t, r) == blake3_digest(a),
        x_leaf_hash(g, r) == blake3_digest(b),
        a.subrange(2, 10) == le_bytes_8(other_g as u64) && a.subrange(10, 26) == be_bytes(other_t.0)
            && a.subrange(26, 42) == be_bytes(other_r.0) ==> g == other_g && t == other_t && r
            == other_r,
        b.subrange(2, 10) == le_bytes_8(other_g as u64) && b.subrange(10, 26) == be_bytes(other_r.0)
            ==> g == other_g && r == other_r,
{
    let and_message = seq![TAG_LEAF, LEAF_AND] + le_bytes_8(g as u64) + be_bytes(t.0) + be_bytes(
        r.0,
    );
    assert(and_message =~= a) by {
        assert forall|i: int| 0 <= i < 42 implies and_message[i] == #[trigger] a[i] by {
            if 2 <= i < 10 {
                assert(a.subrange(2, 10)[i - 2] == a[i]);
            } else if 10 <= i < 26 {
                assert(a.subrange(10, 26)[i - 10] == a[i]);
            } else if 26 <= i {
                assert(a.subrange(26, 42)[i - 26] == a[i]);
            }
        }
    }
    let x_message = seq![TAG_LEAF, LEAF_X] + le_bytes_8(g as u64) + be_bytes(r.0);
    assert(x_message =~= b) by {
        assert forall|i: int| 0 <= i < 26 implies x_message[i] == #[trigger] b[i] by {
            if 2 <= i < 10 {
                assert(b.subrange(2, 10)[i - 2] == b[i]);
            } else if 10 <= i < 26 {
                assert(b.subrange(10, 26)[i - 10] == b[i]);
            }
        }
    }
    number_bytes_are_digits(g as u64, other_g as u64, 0);
    bytes_round_trip(t, be_bytes(t.0));
    bytes_round_trip(other_t, be_bytes(t.0));
    bytes_round_trip(r, be_bytes(r.0));
    bytes_round_trip(other_r, be_bytes(r.0));
}

/// The leaf of a gate is hashed by its kind: the offset alone for a free gate, the
/// ciphertext too for another.
pub proof fn leaf_hash_follows_kind(c: PCircuit, g: usize, t: S, r: S)
    ensures
        free(c.gates@[g as int].t) ==> gate_leaf_hash(c, g, t, r) == x_leaf_hash(g, r),
        !free(c.gates@[g as int].t) ==> gate_leaf_hash(c, g, t, r) == and_leaf_hash(g, t, r),
{
}

/// The root over two halves of the same size, a power of two, is the hash of their
/// roots, the first before the second.
pub proof fn root_of_halves(first: Seq<Seq<u8>>, second: Seq<Seq<u8>>, n: nat)
    requires
        first.len() == pow2(n),
        second.len() == pow2(n),
    ensures
        root_of(first + second) == blake3_digest(root_of(first) + root_of(second)),
    decreases n,
{
    let all = first + second;
    if n == 0 {
        lemma2_to64();
        assert(level_above(all).len() == 1);
        assert(level_above(all)[0] == node_hash(all[0], all[1]));
        assert(root_of(all) == root_of(level_above(all)));
    } else {
        let m = (n - 1) as nat;
        lemma_pow2_unfold(n);
        lemma_pow2_pos(m);
        assert(level_above(all) =~= level_above(first) + level_above(second));
        root_of_halves(level_above(first), level_above(second), m);
    }
}

/// A level with an odd number of hashes, more than one, counts its last one twice; a
/// single hash is its own root, and no hashes have the root of zero bytes.
pub proof fn root_of_odd_level(level: Seq<Seq<u8>>)
    ensures
        level.len() % 2 == 1 && level.len() > 1 ==> root_of(level) == root_of(
            level.push(level.last()),
        ),
        level.len() == 1 ==> root_of(level) == level[0],
        level.len() == 0 ==> root_of(level) == Seq::new(32, |i: int| 0u8),
{
    if level.len() % 2 == 1 && level.len() > 1 {
        assert(level_above(level) =~= level_above(level.push(level.last())));
    }
}

/// A path from a leaf has one step for each level below the root, and so grows by one
/// where the number of leaves doubles.
pub proof fn path_has_one_step_per_level(level: Seq<Seq<u8>>, idx: int, n: nat)
    requires
        pow2(n) < 2 * level.len() <= 2 * pow2(n),
    ensures
        path_of(level, idx).len() == n,
    decreases n,
{
    lemma_pow2_pos(n);
    lemma2_to64();
    if n > 0 {
        lemma_pow2_unfold(n);
        path_has_one_step_per_level(level_above(level), idx / 2, (n - 1) as nat);
    }
}

/// A root binds its leaves: two paths of the same length that lead from the same position
/// to the same root are the same and begin at the same hash, unless two different
/// messages have the same digest.
pub proof fn root_binds_leaves(
    a: Seq<u8>,
    b: Seq<u8>,
    idx: int,
    a_path: Seq<Seq<u8>>,
    b_path: Seq<Seq<u8>>,
)
    requires
        idx >= 0,
        a_path.len() == b_path.len(),
        a.len() == 32,
        b.len() == 32,
        forall|m: Seq<u8>| (#[trigger] blake3_digest(m)).len() == 32,
        forall|i: int| 0 <= i < a_path.len() ==> (#[trigger] a_path[i]).len() == 32,
        forall|i: int| 0 <= i < b_path.len() ==> (#[trigger] b_path[i]).len() == 32,
        climb(a, idx, a_path) == climb(b, idx, b_path),
    ensures
        a == b && a_path == b_path || exists|m: Seq<u8>, n: Seq<u8>|
            m != n && #[trigger] blake3_digest(m) == #[trigger] blake3_digest(n),
    decreases a_path.len(),
{
    if a_path.len() > 0 {
        let (p, q) = (a_path[0], b_path[0]);
        let (m, n) = if idx % 2 == 0 {
            (a + p, b + q)
        } else {
            (p + a, q + b)
        };
        root_binds_leaves(
            blake3_digest(m),
            blake3_digest(n),
            idx / 2,
            a_path.drop_first(),
            b_path.drop_first(),
        );
        assert(m == n ==> m.take(32) == n.take(32) && m.skip(32) == n.skip(32));
        assert((a + p).take(32) =~= a && (b + q).take(32) =~= b);
        assert((a + p).skip(32) =~= p && (b + q).skip(32) =~= q);
        assert((p + a).take(32) =~= p && (q + b).take(32) =~= q);
        assert((p + a).skip(32) =~= a && (q + b).skip(32) =~= b);
        assert(a_path =~= seq![p] + a_path.drop_first());
        assert(b_path =~= seq![q] + b_path.drop_first());
    } else {
        assert(a_path =~= b_path);
    }
}

} // verus!
