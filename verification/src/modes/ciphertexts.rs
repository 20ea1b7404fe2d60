//! Where an evaluator gets ciphertexts from.

use crate::ciphertext_hasher::AccumulatingHash;
use crate::s::{be_value, S};
use vstd::prelude::*;

verus! {

/// A stream of ciphertexts.
pub trait CiphertextSource: Sized {
    type Result;

    spec fn wf(&self) -> bool;

    /// The ciphertexts that are still to come.
    spec fn upcoming(&self) -> Seq<S>;

    /// Whether `r` is the result of the stream so far.
    spec fn concluded(&self, r: Self::Result) -> bool;

    /// The next ciphertext in stream order.
    fn recv(&mut self) -> (r: Option<S>)
        requires
            old(self).wf(),
        ensures
            final(self).wf(),
            old(self).upcoming().len() == 0 ==> r is None && final(self).upcoming() == old(
                self,
            ).upcoming(),
            old(self).upcoming().len() > 0 ==> r == Some(old(self).upcoming()[0])
                && final(self).upcoming() == old(self).upcoming().drop_first(),
    ;

    fn finalize(&self) -> (r: Self::Result)
        requires
            self.wf(),
        ensures
            self.concluded(r),
    ;
}

/// A source without ciphertexts.
#[derive(Clone, Copy, Debug, PartialEq, Eq, Structural)]
pub struct DummySource;

impl CiphertextSource for DummySource {
    type Result = ();

    open spec fn wf(&self) -> bool {
        true
    }

    open spec fn upcoming(&self) -> Seq<S> {
        Seq::empty()
    }

    open spec fn concluded(&self, r: ()) -> bool {
        true
    }

    fn recv(&mut self) -> (r: Option<S>) {
        None
    }

    fn finalize(&self) -> (r: ()) {
        ()
    }
}

/// A source over ciphertexts in memory.
pub struct BufferedSource {
    pub ciphertexts: Vec<S>,
    pub next: usize,
}

impl BufferedSource {
    pub fn new(ciphertexts: Vec<S>) -> (r: BufferedSource)
        ensures
            r.wf(),
            r.upcoming() == ciphertexts@,
    {
        let r = BufferedSource { ciphertexts, next: 0 };
        assert(r.upcoming() =~= ciphertexts@);
        r
    }
}

impl CiphertextSource for BufferedSource {
    type Result = ();

    open spec fn wf(&self) -> bool {
        self.next <= self.ciphertexts@.len()
    }

    open spec fn upcoming(&self) -> Seq<S> {
        self.ciphertexts@.skip(self.next as int)
    }

    open spec fn concluded(&self, r: ()) -> bool {
        true
    }

    fn recv(&mut self) -> (r: Option<S>) {
        if self.next < self.ciphertexts.len() {
            let s = self.ciphertexts[self.next];
            self.next = self.next + 1;
            assert(self.upcoming() =~= old(self).upcoming().drop_first());
            Some(s)
        } else {
            None
        }
    }

    fn finalize(&self) -> (r: ()) {
        ()
    }
}

/// What reading a file of records needs next.
#[derive(Clone, Copy, Debug, PartialEq, Eq, Structural)]
pub enum RecordStep {
    /// More bytes of the record.
    More,
    /// A whole record was read.
    Record { label: S },
    /// There are no more records.
    End,
}

/// Puts 16-byte records, each a label with the most significant byte first,
/// together from what reads of a file return, and hashes the labels.
pub struct RecordReader<H: AccumulatingHash> {
    pub rec: Vec<u8>,
    pub eof: bool,
    pub hasher: H,
}

impl<H: AccumulatingHash> RecordReader<H> {
    /// A record that is being read is shorter than a whole one.
    pub open spec fn wf(&self) -> bool {
        self.rec@.len() < 16 && self.hasher.ready()
    }

    /// A reader that has read nothing and hashes with `hasher`.
    pub fn new(hasher: H) -> (r: Self)
        requires
            hasher.ready(),
        ensures
            r.wf(),
            r.rec@.len() == 0,
            !r.eof,
            r.hasher == hasher,
    {
        RecordReader { rec: Vec::new(), eof: false, hasher }
    }

    /// How many bytes the record still needs.
    pub fn missing(&self) -> (r: usize)
        requires
            self.wf(),
        ensures
            r == 16 - self.rec@.len(),
    {
        16 - self.rec.len()
    }

    /// Takes the bytes that a read returned. A read that returned none, or that
    /// failed and is given as none, ends the records, and a record that was begun
    /// is lost; after the end nothing is read.
    pub fn take_bytes(&mut self, bytes: &[u8]) -> (r: RecordStep)
        requires
            old(self).wf(),
            bytes@.len() <= 16 - old(self).rec@.len(),
            old(self).hasher.hashed().len() < u64::MAX,
        ensures
            final(self).wf(),
            old(self).eof || bytes@.len() == 0 ==> r == RecordStep::End && final(self).eof
                && final(self).hasher.hashed() == old(self).hasher.hashed() && final(self).rec@
                == old(self).rec@,
            !old(self).eof && bytes@.len() > 0 ==> {
                let rec = old(self).rec@ + bytes@;
                &&& !final(self).eof
                &&& rec.len() < 16 ==> r == RecordStep::More && final(self).rec@ == rec
                    && final(self).hasher.hashed() == old(self).hasher.hashed()
                &&& rec.len() == 16 ==> {
                    let label = S(be_value(rec));
                    &&& r == (RecordStep::Record { label })
                    &&& final(self).rec@.len() == 0
                    &&& final(self).hasher.hashed() == old(self).hasher.hashed().push(label)
                }
            },
    {
        if self.eof {
            return RecordStep::End;
        }
        if bytes.len() == 0 {
            self.eof = true;
            return RecordStep::End;
        }
        if self.rec.len() + bytes.len() < 16 {
            crate::s::push_bytes(&mut self.rec, bytes);
            return RecordStep::More;
        }
        let mut rec: Vec<u8> = Vec::new();
        crate::s::push_bytes(&mut rec, self.rec.as_slice());
        crate::s::push_bytes(&mut rec, bytes);
        assert(rec@ =~= old(self).rec@ + bytes@);
        let label = S::from_bytes(crate::s::first_16(rec.as_slice()));
        self.rec = Vec::new();
        self.hasher.update(label);
        RecordStep::Record { label }
    }

    /// The hash of the labels read so far.
    pub fn finalize(&self) -> (r: H::Digest)
        requires
            self.wf(),
            self.hasher.hashed().len() < u64::MAX,
        ensures
            H::digest_of(self.hasher.hashed(), r),
    {
        self.hasher.finalize()
    }
}

} // verus!
