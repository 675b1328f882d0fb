//! Decoding protocol values from a byte reader under an allocation budget.
use vstd::prelude::*;

use crate::io::{advanced_by_consumed, IoErrorKind, VecReader};
use crate::nbt::decode::NbtDecodeErr;

verus! {

/// Why a protocol value could not be decoded.
#[derive(Debug)]
pub enum ProtoDecodeErr {
    IoErr(IoErrorKind),
    InvalidSeqLen(i32),
    MemoryLimitExceeded(usize),
    VarIntTooLong,
    VarLongTooLong,
    SeqTooShort(usize, usize),
    SeqTooLong(usize, usize),
    SeqLenMismatch(usize, usize),
    MalformedString,
    InvalidEnumTag,
    InvalidEither,
    UnknownPacketId(i32),
    MalformedPacket,
    MalformedJson(String),
    InvalidIdentifier,
    NbtDecodeErr(NbtDecodeErr),
    ChunkDecodeErr,
}

/// The error of a read that ran past the end of the input.
pub open spec fn eof_err() -> ProtoDecodeErr {
    ProtoDecodeErr::IoErr(IoErrorKind::UnexpectedEof)
}

/// What a decoder yields on an input: the result, the number of bytes it
/// consumed and the allocation counter it leaves behind.
pub type DecodeOutcome<V> = (Result<V, ProtoDecodeErr>, nat, nat);

/// What an allocation of `count` bytes does to a counter at `allocated` with
/// the given limit.
pub open spec fn alloc_outcome(allocated: nat, limit: nat, count: nat) -> (Result<(), ProtoDecodeErr>, nat) {
    if allocated + count <= limit {
        (Ok(()), allocated + count)
    } else {
        (Err(ProtoDecodeErr::MemoryLimitExceeded(limit as usize)), allocated)
    }
}

/// Tracks how much memory a decoder has asked for, against a limit.
pub trait AllocTracker {
    spec fn spec_allocated(&self) -> usize;

    spec fn spec_limit(&self) -> usize;

    /// Accounts for `count` more bytes, or refuses when that passes the limit.
    fn allocate(&mut self, count: usize) -> (r: Result<(), ProtoDecodeErr>)
        ensures
            final(self).spec_limit() == old(self).spec_limit(),
            (r, final(self).spec_allocated() as nat) == alloc_outcome(
                old(self).spec_allocated() as nat,
                old(self).spec_limit() as nat,
                count as nat,
            ),
    ;

    /// Gives back `count` bytes.
    fn dealloc(&mut self, count: usize)
        requires
            count <= old(self).spec_allocated(),
        ensures
            final(self).spec_limit() == old(self).spec_limit(),
            final(self).spec_allocated() == old(self).spec_allocated() - count,
    ;

    fn allocated(&self) -> (r: usize)
        ensures
            r == self.spec_allocated(),
    ;
}

/// An allocation counter with a fixed limit.
pub struct BasicAllocTracker {
    allocated: usize,
    limit: usize,
}

impl BasicAllocTracker {
    /// A tracker with nothing allocated yet.
    pub fn new(limit: usize) -> (r: Self)
        ensures
            r.spec_allocated() == 0,
            r.spec_limit() == limit,
    {
        BasicAllocTracker { allocated: 0, limit }
    }
}

impl AllocTracker for BasicAllocTracker {
    closed spec fn spec_allocated(&self) -> usize {
        self.allocated
    }

    closed spec fn spec_limit(&self) -> usize {
        self.limit
    }

    fn allocate(&mut self, count: usize) -> (r: Result<(), ProtoDecodeErr>) {
        if count > self.limit || self.allocated > self.limit - count {
            Err(ProtoDecodeErr::MemoryLimitExceeded(self.limit))
        } else {
            self.allocated = self.allocated + count;
            Ok(())
        }
    }

    fn dealloc(&mut self, count: usize) {
        self.allocated = self.allocated - count;
    }

    fn allocated(&self) -> (r: usize) {
        self.allocated
    }
}

/// Accounts for `n` items of `unit` bytes each; a product beyond `usize` is
/// always beyond the limit.
pub fn alloc_items<A: AllocTracker>(alloc_tracker: &mut A, n: usize, unit: usize) -> (r: Result<
    (),
    ProtoDecodeErr,
>)
    ensures
        final(alloc_tracker).spec_limit() == old(alloc_tracker).spec_limit(),
        (r, final(alloc_tracker).spec_allocated() as nat) == alloc_outcome(
            old(alloc_tracker).spec_allocated() as nat,
            old(alloc_tracker).spec_limit() as nat,
            n as nat * unit as nat,
        ),
{
    match n.checked_mul(unit) {
        Some(count) => alloc_tracker.allocate(count),
        None => {
            // The product exceeds every limit a `usize` counter can have; an
            // allocation of `usize::MAX` bytes fails with the same error, except
            // on an empty tracker whose limit is `usize::MAX` itself.
            match alloc_tracker.allocate(usize::MAX) {
                Err(e) => Err(e),
                Ok(()) => {
                    alloc_tracker.dealloc(usize::MAX);
                    Err(ProtoDecodeErr::MemoryLimitExceeded(usize::MAX))
                },
            }
        },
    }
}

/// The view of a decoding result.
pub open spec fn result_view<T: DeepView>(r: Result<T, ProtoDecodeErr>) -> Result<T::V, ProtoDecodeErr> {
    match r {
        Ok(v) => Ok(v.deep_view()),
        Err(e) => Err(e),
    }
}

/// A reader that moved forward over the same source, by exactly the bytes it
/// consumed: a position at or before the end stays at or before it.
pub open spec fn reader_step(before: VecReader, after: VecReader) -> bool {
    &&& after.wf()
    &&& after.source() == before.source()
    &&& after.spec_end() == before.spec_end()
    &&& advanced_by_consumed(before, after)
}

/// A call whose result, consumption and allocation are those of `out`.
pub open spec fn decoded<V>(
    out: DecodeOutcome<V>,
    r: Result<V, ProtoDecodeErr>,
    before: Seq<u8>,
    after: Seq<u8>,
    alloc_after: nat,
) -> bool {
    &&& out.0 == r
    &&& out.1 <= before.len()
    &&& after == before.skip(out.1 as int)
    &&& alloc_after == out.2
}

/// A value that can be decoded from the protocol's byte stream.
pub trait ProtoDecode {
    type Repr: DeepView;

    /// What decoding does on `input` with the allocation counter at `allocated`.
    spec fn spec_decode(input: Seq<u8>, allocated: nat, limit: nat) -> DecodeOutcome<
        <Self::Repr as DeepView>::V,
    >;

    fn decode<A: AllocTracker>(reader: &mut VecReader, alloc_tracker: &mut A) -> (r: Result<
        Self::Repr,
        ProtoDecodeErr,
    >)
        requires
            old(reader).wf(),
        ensures
            reader_step(*old(reader), *final(reader)),
            final(alloc_tracker).spec_limit() == old(alloc_tracker).spec_limit(),
            decoded(
                Self::spec_decode(
                    old(reader).rest(),
                    old(alloc_tracker).spec_allocated() as nat,
                    old(alloc_tracker).spec_limit() as nat,
                ),
                result_view(r),
                old(reader).rest(),
                final(reader).rest(),
                final(alloc_tracker).spec_allocated() as nat,
            ),
    ;
}

/// A length-prefixed sequence: its length is decoded first, then its items.
pub trait ProtoDecodeSeq {
    type Repr: DeepView;

    spec fn spec_decode_len(input: Seq<u8>, allocated: nat, limit: nat) -> DecodeOutcome<usize>;

    spec fn spec_decode_seq(input: Seq<u8>, allocated: nat, limit: nat, len: nat) -> DecodeOutcome<
        <Self::Repr as DeepView>::V,
    >;

    fn decode_len<A: AllocTracker>(reader: &mut VecReader, alloc_tracker: &mut A) -> (r: Result<
        usize,
        ProtoDecodeErr,
    >)
        requires
            old(reader).wf(),
        ensures
            reader_step(*old(reader), *final(reader)),
            final(alloc_tracker).spec_limit() == old(alloc_tracker).spec_limit(),
            decoded(
                Self::spec_decode_len(
                    old(reader).rest(),
                    old(alloc_tracker).spec_allocated() as nat,
                    old(alloc_tracker).spec_limit() as nat,
                ),
                r,
                old(reader).rest(),
                final(reader).rest(),
                final(alloc_tracker).spec_allocated() as nat,
            ),
    ;

    fn decode_seq<A: AllocTracker>(
        reader: &mut VecReader,
        alloc_tracker: &mut A,
        len: usize,
    ) -> (r: Result<Self::Repr, ProtoDecodeErr>)
        requires
            old(reader).wf(),
        ensures
            reader_step(*old(reader), *final(reader)),
            final(alloc_tracker).spec_limit() == old(alloc_tracker).spec_limit(),
            decoded(
                Self::spec_decode_seq(
                    old(reader).rest(),
                    old(alloc_tracker).spec_allocated() as nat,
                    old(alloc_tracker).spec_limit() as nat,
                    len as nat,
                ),
                result_view(r),
                old(reader).rest(),
                final(reader).rest(),
                final(alloc_tracker).spec_allocated() as nat,
            ),
    ;
}

} // verus!
