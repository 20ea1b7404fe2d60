//! Chained hash over a stream of ciphertexts.

use crate::hashers::{le_bytes_8, u64_to_le_bytes};
use crate::primitives::{blake3_fill, blake3_output};
use crate::s::{le_bytes, push_bytes, S};
use vstd::prelude::*;

verus! {

/// The number of ciphertexts that are hashed at once.
pub const BATCH_SIZE: usize = 64;

/// The size of the hash in bytes.
pub const HASH_OUTPUT_SIZE: usize = 32;

/// The bytes of the ciphertexts, each least significant byte first.
pub open spec fn ciphertext_bytes(cts: Seq<S>) -> Seq<u8>
    decreases cts.len(),
{
    if cts.len() == 0 {
        seq![]
    } else {
        ciphertext_bytes(cts.drop_last()) + le_bytes(cts.last().0)
    }
}

/// The hash of a batch: over its number, the hash before it and its ciphertexts.
pub open spec fn batch_hash(index: u64, prev: Seq<u8>, cts: Seq<S>) -> Seq<u8> {
    blake3_output(le_bytes_8(index) + prev + ciphertext_bytes(cts), 32)
}

/// The number of full batches.
pub open spec fn full_batches(cts: Seq<S>) -> nat {
    cts.len() / 64
}

/// The chained hash after `n` full batches; it starts as 32 zero bytes.
pub open spec fn chain(cts: Seq<S>, n: nat) -> Seq<u8>
    decreases n,
{
    if n == 0 {
        Seq::new(32, |i: int| 0u8)
    } else {
        batch_hash(
            (n - 1) as u64,
            chain(cts, (n - 1) as nat),
            cts.subrange(64 * (n - 1), 64 * n as int),
        )
    }
}

/// The hash of a whole stream: the chained hash after its full batches, taken
/// once more over the ciphertexts that remain, if any do.
pub open spec fn stream_digest(cts: Seq<S>) -> Seq<u8> {
    let n = full_batches(cts);
    if cts.len() == 64 * n {
        chain(cts, n)
    } else {
        batch_hash(n as u64, chain(cts, n), cts.skip((64 * n) as int))
    }
}

/// Hashes ciphertexts as they come, a batch at a time.
pub struct Blake3AccumulatingHash {
    prev: [u8; 32],
    buffer: Vec<u8>,
    buffer_pos: usize,
    batch_index: u64,
    log: Ghost<Seq<S>>,
}

/// The chained hash of the first batches does not depend on what follows them.
proof fn chain_prefix(a: Seq<S>, b: Seq<S>, n: nat)
    requires
        64 * n <= a.len(),
        64 * n <= b.len(),
        forall|i: int| 0 <= i < 64 * n ==> a[i] == b[i],
    ensures
        chain(a, n) == chain(b, n),
    decreases n,
{
    if n > 0 {
        chain_prefix(a, b, (n - 1) as nat);
        assert(a.subrange(64 * (n - 1), 64 * n as int) =~= b.subrange(64 * (n - 1), 64 * n as int));
    }
}

impl Blake3AccumulatingHash {
    /// The ciphertexts taken so far.
    pub closed spec fn taken(&self) -> Seq<S> {
        self.log@
    }

    /// Whether the state is that of the ciphertexts taken so far.
    pub closed spec fn wf(&self) -> bool {
        let n = full_batches(self.log@);
        &&& self.batch_index == n
        &&& self.buffer_pos == self.log@.len() - 64 * n
        &&& self.prev@ == chain(self.log@, n)
        &&& self.buffer@ == ciphertext_bytes(self.log@.skip((64 * n) as int))
    }

    /// A hash that has taken nothing.
    pub fn new() -> (r: Blake3AccumulatingHash)
        ensures
            r.wf(),
            r.taken() == Seq::<S>::empty(),
    {
        let prev: [u8; 32] = [0u8; 32];
        let r = Blake3AccumulatingHash {
            prev,
            buffer: Vec::new(),
            buffer_pos: 0,
            batch_index: 0,
            log: Ghost(Seq::empty()),
        };
        assert(prev@ =~= chain(r.log@, 0));
        assert(r.log@.skip(0) =~= Seq::<S>::empty());
        r
    }

    /// The hash of one ciphertext.
    pub fn digest(input: S) -> (r: [u8; 32])
        ensures
            r@ == stream_digest(seq![input]),
    {
        let mut h = Blake3AccumulatingHash::new();
        h.update(input);
        assert(h.taken() =~= seq![input]);
        h.finalize()
    }

    /// Takes one more ciphertext.
    pub fn update(&mut self, ciphertext: S)
        requires
            old(self).wf(),
            old(self).taken().len() < u64::MAX,
        ensures
            final(self).wf(),
            final(self).taken() == old(self).taken().push(ciphertext),
    {
        let ghost cts0 = self.log@;
        let ghost cts = self.log@.push(ciphertext);
        let ghost n = full_batches(cts0);
        let bytes = ciphertext.to_le_bytes();
        push_bytes(&mut self.buffer, bytes.as_slice());
        self.buffer_pos = self.buffer_pos + 1;
        self.log = Ghost(cts);
        proof {
            chain_prefix(cts0, cts, n);
            assert(cts.skip((64 * n) as int).drop_last() =~= cts0.skip((64 * n) as int));
            assert(cts.skip((64 * n) as int).last() == ciphertext);
        }
        if self.buffer_pos == BATCH_SIZE {
            self.flush_batch();
            proof {
                assert(full_batches(cts) == n + 1);
                assert(cts.skip((64 * n) as int) =~= cts.subrange(
                    64 * n as int,
                    64 * (n as int + 1),
                ));
                assert(self.prev@ == chain(cts, n + 1));
                assert(cts.skip((64 * (n + 1)) as int) =~= Seq::<S>::empty());
            }
        } else {
            assert(full_batches(cts) == n);
        }
    }

    /// Hashes the ciphertexts in the buffer and empties it.
    fn flush_batch(&mut self)
        requires
            old(self).batch_index < u64::MAX,
        ensures
            final(self).log == old(self).log,
            old(self).buffer_pos == 0 ==> *final(self) == *old(self),
            old(self).buffer_pos > 0 ==> {
                &&& final(self).prev@ == blake3_output(
                    le_bytes_8(old(self).batch_index) + old(self).prev@ + old(self).buffer@,
                    32,
                )
                &&& final(self).buffer@ == Seq::<u8>::empty()
                &&& final(self).buffer_pos == 0
                &&& final(self).batch_index == old(self).batch_index + 1
            },
    {
        if self.buffer_pos == 0 {
            return ;
        }
        let mut input: Vec<u8> = Vec::new();
        push_bytes(&mut input, u64_to_le_bytes(self.batch_index).as_slice());
        push_bytes(&mut input, self.prev.as_slice());
        push_bytes(&mut input, self.buffer.as_slice());
        assert(input@ =~= le_bytes_8(self.batch_index) + self.prev@ + self.buffer@);
        let out = blake3_fill(input.as_slice(), HASH_OUTPUT_SIZE);
        self.prev = first_32(out.as_slice());
        self.buffer = Vec::new();
        self.batch_index = self.batch_index + 1;
        self.buffer_pos = 0;
    }

    /// The hash of all ciphertexts taken.
    pub fn finalize(self) -> (r: [u8; 32])
        requires
            self.wf(),
            self.taken().len() < u64::MAX,
        ensures
            r@ == stream_digest(self.taken()),
    {
        let mut h = self;
        let ghost cts = self.log@;
        h.flush_batch();
        h.prev
    }
}

impl Default for Blake3AccumulatingHash {
    fn default() -> (r: Blake3AccumulatingHash)
        ensures
            r.wf(),
            r.taken() == Seq::<S>::empty(),
    {
        Blake3AccumulatingHash::new()
    }
}

/// The first 32 bytes of a slice.
pub(crate) fn first_32(bytes: &[u8]) -> (r: [u8; 32])
    requires
        bytes@.len() == 32,
    ensures
        r@ == bytes@,
{
    let mut r: [u8; 32] = [0u8; 32];
    let mut i: usize = 0;
    while i < 32
        invariant
            i <= 32,
            bytes@.len() == 32,
            forall|k: int| 0 <= k < i ==> r@[k] == bytes@[k],
        decreases 32 - i,
    {
        r[i] = bytes[i];
        i = i + 1;
    }
    assert(r@ =~= bytes@);
    r
}

/// Hashes a stream of ciphertexts.
pub trait AccumulatingHash: Sized {
    type Digest;

    /// Whether the state is sound.
    spec fn ready(&self) -> bool;

    /// The ciphertexts taken so far.
    spec fn hashed(&self) -> Seq<S>;

    /// Whether `r` is the hash of `cts`.
    spec fn digest_of(cts: Seq<S>, r: Self::Digest) -> bool;

    /// Takes one more ciphertext.
    fn update(&mut self, ciphertext: S)
        requires
            old(self).ready(),
            old(self).hashed().len() < u64::MAX,
        ensures
            final(self).ready(),
            final(self).hashed() == old(self).hashed().push(ciphertext),
    ;

    /// The hash of the ciphertexts taken so far.
    fn finalize(&self) -> (r: Self::Digest)
        requires
            self.ready(),
            self.hashed().len() < u64::MAX,
        ensures
            Self::digest_of(self.hashed(), r),
    ;
}

impl AccumulatingHash for Blake3AccumulatingHash {
    type Digest = [u8; 32];

    open spec fn ready(&self) -> bool {
        self.wf()
    }

    open spec fn hashed(&self) -> Seq<S> {
        self.taken()
    }

    open spec fn digest_of(cts: Seq<S>, r: [u8; 32]) -> bool {
        r@ == stream_digest(cts)
    }

    fn update(&mut self, ciphertext: S) {
        Blake3AccumulatingHash::update(self, ciphertext);
    }

    fn finalize(&self) -> (r: [u8; 32]) {
        let mut buffer: Vec<u8> = Vec::new();
        push_bytes(&mut buffer, self.buffer.as_slice());
        assert(buffer@ =~= self.buffer@);
        let copy = Blake3AccumulatingHash {
            prev: self.prev,
            buffer,
            buffer_pos: self.buffer_pos,
            batch_index: self.batch_index,
            log: Ghost(self.log@),
        };
        Blake3AccumulatingHash::finalize(copy)
    }
}

/// Takes ciphertexts in `N` lanes at once.
pub trait MultiCiphertextHandler<const N: usize>: Sized {
    type Result;

    /// Whether the handler can take more.
    spec fn ready(&self) -> bool;

    /// The ciphertexts taken so far.
    spec fn taken(&self) -> Seq<[S; N]>;

    /// Whether `r` is the result of taking `cts`.
    spec fn result_of(cts: Seq<[S; N]>, r: Self::Result) -> bool;

    fn handle(&mut self, cts: [S; N])
        requires
            old(self).ready(),
            old(self).taken().len() < u64::MAX - 1,
        ensures
            final(self).ready(),
            final(self).taken() == old(self).taken().push(cts),
    ;

    fn finalize(self) -> (r: Self::Result)
        requires
            self.ready(),
            self.taken().len() < u64::MAX,
        ensures
            Self::result_of(self.taken(), r),
    ;
}

/// One chained hash for each of `N` lanes.
pub struct Blake3AccumulatingHashBatch<const N: usize> {
    lanes: Vec<Blake3AccumulatingHash>,
    log: Ghost<Seq<[S; N]>>,
}

/// The ciphertexts of lane `k`.
pub open spec fn lane<const N: usize>(cts: Seq<[S; N]>, k: int) -> Seq<S> {
    Seq::new(cts.len(), |i: int| cts[i]@[k])
}

impl<const N: usize> Blake3AccumulatingHashBatch<N> {
    pub closed spec fn wf(&self) -> bool {
        &&& self.lanes@.len() == N
        &&& forall|k: int|
            0 <= k < N ==> (#[trigger] self.lanes@[k]).wf() && self.lanes@[k].taken() == lane(
                self.log@,
                k,
            )
    }

    /// A hash that has taken nothing in any lane.
    pub fn new() -> (r: Self)
        ensures
            r.ready(),
            r.taken() == Seq::<[S; N]>::empty(),
    {
        let mut lanes: Vec<Blake3AccumulatingHash> = Vec::new();
        let ghost none = Seq::<[S; N]>::empty();
        let mut i: usize = 0;
        while i < N
            invariant
                i <= N,
                lanes@.len() == i,
                none == Seq::<[S; N]>::empty(),
                forall|k: int|
                    0 <= k < i ==> (#[trigger] lanes@[k]).wf() && lanes@[k].taken() == lane(none, k),
            decreases N - i,
        {
            let h = Blake3AccumulatingHash::new();
            assert(h.taken() =~= lane(none, i as int));
            lanes.push(h);
            i = i + 1;
        }
        Blake3AccumulatingHashBatch { lanes, log: Ghost(none) }
    }
}

impl<const N: usize> Default for Blake3AccumulatingHashBatch<N> {
    fn default() -> (r: Self)
        ensures
            r.ready(),
            r.taken() == Seq::<[S; N]>::empty(),
    {
        Blake3AccumulatingHashBatch::new()
    }
}

/// The hash of each lane.
pub struct Blake3HashBatchResult<const N: usize>(pub [[u8; 32]; N]);

impl<const N: usize> MultiCiphertextHandler<N> for Blake3AccumulatingHashBatch<N> {
    type Result = Blake3HashBatchResult<N>;

    closed spec fn ready(&self) -> bool {
        self.wf()
    }

    closed spec fn taken(&self) -> Seq<[S; N]> {
        self.log@
    }

    open spec fn result_of(cts: Seq<[S; N]>, r: Blake3HashBatchResult<N>) -> bool {
        forall|k: int| 0 <= k < N ==> (#[trigger] r.0@[k])@ == stream_digest(lane(cts, k))
    }

    fn handle(&mut self, cts: [S; N]) {
        let ghost log0 = self.log@;
        let ghost log1 = self.log@.push(cts);
        let mut i: usize = 0;
        while i < N
            invariant
                i <= N,
                self.lanes@.len() == N,
                self.log@ == log0,
                log1 == log0.push(cts),
                log0.len() < u64::MAX - 1,
                forall|k: int|
                    0 <= k < i ==> (#[trigger] self.lanes@[k]).wf() && self.lanes@[k].taken()
                        == lane(log1, k),
                forall|k: int|
                    i <= k < N ==> (#[trigger] self.lanes@[k]).wf() && self.lanes@[k].taken()
                        == lane(log0, k),
            decreases N - i,
        {
            let h = &mut self.lanes[i];
            h.update(cts[i]);
            assert(lane(log1, i as int) =~= lane(log0, i as int).push(cts@[i as int]));
            i = i + 1;
        }
        self.log = Ghost(log1);
    }

    fn finalize(self) -> (r: Blake3HashBatchResult<N>) {
        let mut out = [[0u8; 32]; N];
        let mut lanes = self.lanes;
        let ghost log = self.log@;
        let mut i: usize = N;
        while i > 0
            invariant
                i <= N,
                lanes@.len() == i,
                log == self.taken(),
                log.len() < u64::MAX,
                forall|k: int|
                    0 <= k < i ==> (#[trigger] lanes@[k]).wf() && lanes@[k].taken() == lane(log, k),
                forall|k: int|
                    i <= k < N ==> (#[trigger] out@[k])@ == stream_digest(lane(log, k)),
            decreases i,
        {
            i = i - 1;
            match lanes.pop() {
                Some(h) => {
                    out[i] = h.finalize();
                },
                None => (),
            }
        }
        Blake3HashBatchResult(out)
    }
}

/// The bytes of ciphertexts are theirs one after the other, sixteen for each.
pub proof fn ciphertext_bytes_are_concatenated(cts: Seq<S>, i: int, j: int)
    requires
        0 <= i < cts.len(),
        0 <= j < 16,
    ensures
        ciphertext_bytes(cts).len() == 16 * cts.len(),
        ciphertext_bytes(cts)[16 * i + j] == le_bytes(cts[i].0)[j],
    decreases cts.len(),
{
    if i < cts.len() - 1 {
        ciphertext_bytes_are_concatenated(cts.drop_last(), i, j);
    } else if cts.len() > 1 {
        ciphertext_bytes_are_concatenated(cts.drop_last(), 0, 0);
    } else {
        assert(ciphertext_bytes(cts.drop_last()) =~= Seq::<u8>::empty());
    }
}

/// How the hash of a stream grows: after full batches, up to 64 ciphertexts more are
/// hashed after the number of batches before them and the hash of what came before. The
/// hash of nothing is 32 zero bytes.
pub proof fn stream_digest_is_chained(before: Seq<S>, batch: Seq<S>)
    requires
        before.len() % 64 == 0,
        0 < batch.len() <= 64,
        before.len() + batch.len() <= u64::MAX,
    ensures
        stream_digest(before + batch) == blake3_output(
            le_bytes_8((before.len() / 64) as u64) + stream_digest(before) + ciphertext_bytes(
                batch,
            ),
            32,
        ),
        forall|i: int| 0 <= i < 32 ==> #[trigger] stream_digest(Seq::<S>::empty())[i] == 0,
        stream_digest(Seq::<S>::empty()).len() == 32,
{
    let all = before + batch;
    let n = before.len() / 64;
    chain_prefix(all, before, n);
    assert(full_batches(before) == n);
    if batch.len() == 64 {
        assert(full_batches(all) == n + 1);
        assert(all.subrange(64 * n as int, 64 * (n as int + 1)) =~= batch);
    } else {
        assert(full_batches(all) == n);
        assert(all.skip((64 * n) as int) =~= batch);
    }
}

/// The result for lanes is the hash of each lane's own ciphertexts, in the order taken.
pub proof fn lanes_are_hashed_apart<const N: usize>(
    cts: Seq<[S; N]>,
    next: [S; N],
    r: Blake3HashBatchResult<N>,
    k: int,
)
    requires
        <Blake3AccumulatingHashBatch<N> as MultiCiphertextHandler<N>>::result_of(cts, r),
        0 <= k < N,
    ensures
        r.0@[k]@ == stream_digest(lane(cts, k)),
        lane(cts.push(next), k) == lane(cts, k).push(next@[k]),
        lane(Seq::<[S; N]>::empty(), k) == Seq::<S>::empty(),
{
    assert(lane(cts.push(next), k) =~= lane(cts, k).push(next@[k]));
    assert(lane(Seq::<[S; N]>::empty(), k) =~= Seq::<S>::empty());
}

} // verus!
