//! In-memory byte readers and writers used by the protocol and NBT codecs.
use vstd::prelude::*;

verus! {

/// The kinds of I/O failure that the in-memory readers and writers report.
#[derive(Clone, Copy, Debug, PartialEq, Eq, Structural)]
pub enum IoErrorKind {
    UnexpectedEof,
    InvalidInput,
}

/// A seek target, relative to the start, the end or the current position.
#[derive(Clone, Copy, Debug, PartialEq, Eq, Structural)]
pub enum SeekFrom {
    Start(u64),
    End(i64),
    Current(i64),
}

/// The bytes that a reader positioned at `offset` still yields before `end`.
pub open spec fn remaining_bytes(data: Seq<u8>, offset: int, end: int) -> Seq<u8> {
    if offset <= end {
        data.subrange(offset, end)
    } else {
        Seq::empty()
    }
}

/// A reader whose position moved on by exactly the bytes it consumed.
pub open spec fn advanced_by_consumed(before: VecReader, after: VecReader) -> bool {
    after.spec_offset() == before.spec_offset() + before.rest().len() - after.rest().len()
}

/// A reader over the bytes `vec[offset..end]` of a borrowed vector.
pub struct VecReader<'a> {
    vec: &'a Vec<u8>,
    offset: usize,
    end: usize,
}

impl<'a> VecReader<'a> {
    /// The bytes this reader has not yet consumed.
    pub open spec fn rest(&self) -> Seq<u8> {
        remaining_bytes(self.source(), self.spec_offset() as int, self.spec_end() as int)
    }

    pub closed spec fn source(&self) -> Seq<u8> {
        self.vec@
    }

    pub closed spec fn spec_offset(&self) -> usize {
        self.offset
    }

    pub closed spec fn spec_end(&self) -> usize {
        self.end
    }

    pub open spec fn wf(&self) -> bool {
        self.spec_end() <= self.source().len()
    }

    /// Creates a reader over `vec[offset..end]`.
    pub fn new(vec: &'a Vec<u8>, offset: usize, end: usize) -> (r: Self)
        requires
            end <= vec.len(),
        ensures
            r.source() == vec@,
            r.spec_offset() == offset,
            r.spec_end() == end,
            r.wf(),
            r.rest() == remaining_bytes(vec@, offset as int, end as int),
    {
        VecReader { vec, offset, end }
    }

    /// The current offset into the underlying vector.
    pub fn position(&self) -> (r: u64)
        ensures
            r == self.spec_offset(),
    {
        self.offset as u64
    }

    /// The end of the readable region.
    pub fn end(&self) -> (r: usize)
        ensures
            r == self.spec_end(),
    {
        self.end
    }

    /// Reads exactly `len` bytes when they all lie before the end, and otherwise
    /// fails with `UnexpectedEof` without moving.
    pub fn read(&mut self, len: usize) -> (r: Result<Vec<u8>, IoErrorKind>)
        requires
            old(self).wf(),
        ensures
            final(self).wf(),
            final(self).source() == old(self).source(),
            final(self).spec_end() == old(self).spec_end(),
            advanced_by_consumed(*old(self), *final(self)),
            old(self).spec_offset() + len <= old(self).spec_end() ==> {
                &&& r is Ok
                &&& r->Ok_0@ == old(self).source().subrange(
                    old(self).spec_offset() as int,
                    old(self).spec_offset() + len,
                )
                &&& final(self).spec_offset() == old(self).spec_offset() + len
            },
            old(self).spec_offset() + len > old(self).spec_end() ==> {
                &&& r == Err::<Vec<u8>, IoErrorKind>(IoErrorKind::UnexpectedEof)
                &&& final(self).spec_offset() == old(self).spec_offset()
            },
    {
        if self.offset <= self.end && len <= self.end - self.offset {
            let mut out: Vec<u8> = Vec::with_capacity(len);
            let start = self.offset;
            let mut i: usize = 0;
            while i < len
                invariant
                    i <= len,
                    start + len <= self.end,
                    self.end <= self.vec.len(),
                    out@ == self.vec@.subrange(start as int, start + i),
                decreases len - i,
            {
                out.push(self.vec[start + i]);
                i = i + 1;
                assert(out@ =~= self.vec@.subrange(start as int, start + i));
            }
            self.offset = start + len;
            Ok(out)
        } else {
            Err(IoErrorKind::UnexpectedEof)
        }
    }

    /// Fills a buffer of `len` bytes completely, as `Read::read_exact` does: an
    /// empty read always succeeds, and a short read fails with `UnexpectedEof`.
    pub fn read_exact(&mut self, len: usize) -> (r: Result<Vec<u8>, IoErrorKind>)
        requires
            old(self).wf(),
        ensures
            final(self).wf(),
            final(self).source() == old(self).source(),
            final(self).spec_end() == old(self).spec_end(),
            advanced_by_consumed(*old(self), *final(self)),
            len <= old(self).rest().len() ==> {
                &&& r is Ok
                &&& r->Ok_0@ == old(self).rest().take(len as int)
                &&& final(self).rest() == old(self).rest().skip(len as int)
            },
            len > old(self).rest().len() ==> {
                &&& r == Err::<Vec<u8>, IoErrorKind>(IoErrorKind::UnexpectedEof)
                &&& final(self).rest() == old(self).rest()
            },
    {
        if len == 0 {
            let out: Vec<u8> = Vec::new();
            assert(out@ =~= self.rest().take(0));
            assert(self.rest() =~= self.rest().skip(0));
            return Ok(out);
        }
        let ghost old_offset = self.offset;
        let r = self.read(len);
        proof {
            let v = self.vec@;
            let e = self.end as int;
            let o = old_offset as int;
            if o + len <= e {
                assert(r->Ok_0@ =~= remaining_bytes(v, o, e).take(len as int));
                assert(remaining_bytes(v, o + len, e) =~= remaining_bytes(v, o, e).skip(len as int));
            }
        }
        r
    }

    /// Reads a single byte.
    pub fn read_u8(&mut self) -> (r: Result<u8, IoErrorKind>)
        requires
            old(self).wf(),
        ensures
            final(self).wf(),
            final(self).source() == old(self).source(),
            final(self).spec_end() == old(self).spec_end(),
            advanced_by_consumed(*old(self), *final(self)),
            old(self).rest().len() >= 1 ==> {
                &&& r == Ok::<u8, IoErrorKind>(old(self).rest()[0])
                &&& final(self).rest() == old(self).rest().skip(1)
            },
            old(self).rest().len() == 0 ==> {
                &&& r == Err::<u8, IoErrorKind>(IoErrorKind::UnexpectedEof)
                &&& final(self).rest() == old(self).rest()
            },
    {
        if self.offset < self.end {
            let b = self.vec[self.offset];
            let ghost o = self.offset as int;
            self.offset = self.offset + 1;
            proof {
                let v = self.vec@;
                let e = self.end as int;
                assert(remaining_bytes(v, o + 1, e) =~= remaining_bytes(v, o, e).skip(1));
            }
            Ok(b)
        } else {
            Err(IoErrorKind::UnexpectedEof)
        }
    }

    /// Moves the read position; a position before the start is refused with
    /// `InvalidInput`, a position past the end is accepted.
    pub fn seek(&mut self, pos: SeekFrom) -> (r: Result<u64, IoErrorKind>)
        requires
            old(self).wf(),
        ensures
            final(self).wf(),
            final(self).source() == old(self).source(),
            final(self).spec_end() == old(self).spec_end(),
            ({
                let target: int = match pos {
                    SeekFrom::Start(o) => o as int,
                    SeekFrom::End(o) => old(self).spec_end() + o,
                    SeekFrom::Current(o) => old(self).spec_offset() + o,
                };
                if 0 <= target <= usize::MAX {
                    &&& r == Ok::<u64, IoErrorKind>(target as u64)
                    &&& final(self).spec_offset() == target
                } else {
                    &&& r == Err::<u64, IoErrorKind>(IoErrorKind::InvalidInput)
                    &&& final(self).spec_offset() == old(self).spec_offset()
                }
            }),
    {
        let target: i128 = match pos {
            SeekFrom::Start(o) => o as i128,
            SeekFrom::End(o) => self.end as i128 + o as i128,
            SeekFrom::Current(o) => self.offset as i128 + o as i128,
        };
        if target < 0 || target > usize::MAX as i128 {
            Err(IoErrorKind::InvalidInput)
        } else {
            self.offset = target as usize;
            Ok(target as u64)
        }
    }
}

/// What a write of `buf` at `offset` leaves in `data`: the vector is first
/// padded with zeros up to `offset + buf.len()`, then the range is overwritten.
pub open spec fn written(data: Seq<u8>, offset: int, buf: Seq<u8>) -> Seq<u8> {
    let end = offset + buf.len();
    let padded = if end > data.len() {
        data + Seq::new((end - data.len()) as nat, |i: int| 0u8)
    } else {
        data
    };
    padded.take(offset) + buf + padded.skip(end)
}

/// A writer into an owned vector that never lets the write position pass `limit`.
pub struct VecWriter {
    vec: Vec<u8>,
    offset: usize,
    limit: usize,
}

impl VecWriter {
    pub closed spec fn spec_vec(&self) -> Seq<u8> {
        self.vec@
    }

    pub closed spec fn spec_offset(&self) -> usize {
        self.offset
    }

    pub closed spec fn spec_limit(&self) -> usize {
        self.limit
    }

    /// A writer that starts writing at `offset` into `vec`.
    pub fn new(vec: Vec<u8>, offset: usize, limit: usize) -> (r: Self)
        ensures
            r.spec_vec() == vec@,
            r.spec_offset() == offset,
            r.spec_limit() == limit,
    {
        VecWriter { vec, offset, limit }
    }

    pub fn offset(&self) -> (r: usize)
        ensures
            r == self.spec_offset(),
    {
        self.offset
    }

    pub fn as_slice(&self) -> (r: &[u8])
        ensures
            r@ == self.spec_vec(),
    {
        self.vec.as_slice()
    }

    pub fn into_inner(self) -> (r: Vec<u8>)
        ensures
            r@ == self.spec_vec(),
    {
        self.vec
    }

    /// Writes all of `buf` at the current position, or fails with
    /// `UnexpectedEof` without changing anything when that would pass the limit.
    pub fn write(&mut self, buf: &[u8]) -> (r: Result<usize, IoErrorKind>)
        ensures
            final(self).spec_limit() == old(self).spec_limit(),
            old(self).spec_offset() + buf@.len() > old(self).spec_limit() ==> {
                &&& r == Err::<usize, IoErrorKind>(IoErrorKind::UnexpectedEof)
                &&& *final(self) == *old(self)
            },
            old(self).spec_offset() + buf@.len() <= old(self).spec_limit() ==> {
                &&& r == Ok::<usize, IoErrorKind>(buf@.len() as usize)
                &&& final(self).spec_vec() == written(
                    old(self).spec_vec(),
                    old(self).spec_offset() as int,
                    buf@,
                )
                &&& final(self).spec_offset() == old(self).spec_offset() + buf@.len()
            },
    {
        let len = buf.len();
        if self.offset > self.limit || len > self.limit - self.offset {
            return Err(IoErrorKind::UnexpectedEof);
        }
        let start = self.offset;
        let end = start + len;
        let ghost old_vec = self.vec@;
        if end > self.vec.len() {
            let old_len = self.vec.len();
            let mut k = old_len;
            while k < end
                invariant
                    old_len <= k <= end,
                    old_len == old_vec.len(),
                    self.limit == old(self).limit,
                    self.vec@ == old_vec + Seq::new((k - old_len) as nat, |i: int| 0u8),
                decreases end - k,
            {
                self.vec.push(0u8);
                k = k + 1;
                assert(self.vec@ =~= old_vec + Seq::new((k - old_len) as nat, |i: int| 0u8));
            }
        }
        let ghost padded = self.vec@;
        assert(padded.len() >= end);
        let mut i: usize = 0;
        while i < len
            invariant
                i <= len,
                len == buf@.len(),
                end == start + len,
                self.limit == old(self).limit,
                self.vec@.len() == padded.len(),
                padded.len() >= end,
                self.vec@ == padded.take(start as int) + buf@.take(i as int) + padded.skip(
                    start + i,
                ),
            decreases len - i,
        {
            self.vec.set(start + i, buf[i]);
            i = i + 1;
            assert(self.vec@ =~= padded.take(start as int) + buf@.take(i as int) + padded.skip(
                start + i,
            ));
        }
        assert(buf@.take(len as int) =~= buf@);
        assert(self.vec@ =~= written(old_vec, start as int, buf@));
        self.offset = end;
        Ok(len)
    }

    /// Moves the write position; the vector grows with zeros towards the new
    /// position, but never beyond the limit.
    pub fn seek(&mut self, pos: SeekFrom) -> (r: Result<u64, IoErrorKind>)
        ensures
            final(self).spec_limit() == old(self).spec_limit(),
            ({
                let target: int = match pos {
                    SeekFrom::Start(o) => o as int,
                    SeekFrom::End(o) => old(self).spec_limit() + o,
                    SeekFrom::Current(o) => old(self).spec_offset() + o,
                };
                if 0 <= target <= usize::MAX {
                    &&& r == Ok::<u64, IoErrorKind>(target as u64)
                    &&& final(self).spec_offset() == target
                    &&& (target > old(self).spec_vec().len() ==> {
                        let new_len = if target < old(self).spec_limit() {
                            target
                        } else {
                            old(self).spec_limit() as int
                        };
                        final(self).spec_vec() == if new_len <= old(self).spec_vec().len() {
                            old(self).spec_vec().take(new_len)
                        } else {
                            old(self).spec_vec() + Seq::new(
                                (new_len - old(self).spec_vec().len()) as nat,
                                |i: int| 0u8,
                            )
                        }
                    })
                    &&& (target <= old(self).spec_vec().len() ==> final(self).spec_vec()
                        == old(self).spec_vec())
                } else {
                    &&& r == Err::<u64, IoErrorKind>(IoErrorKind::InvalidInput)
                    &&& *final(self) == *old(self)
                }
            }),
    {
        let target: i128 = match pos {
            SeekFrom::Start(o) => o as i128,
            SeekFrom::End(o) => self.limit as i128 + o as i128,
            SeekFrom::Current(o) => self.offset as i128 + o as i128,
        };
        if target < 0 || target > usize::MAX as i128 {
            return Err(IoErrorKind::InvalidInput);
        }
        let new_offset = target as usize;
        if new_offset > self.vec.len() {
            let new_len = if new_offset < self.limit {
                new_offset
            } else {
                self.limit
            };
            self.vec.resize(new_len, 0u8);
            let ghost v = self.vec@;
            proof {
                if new_len > old(self).vec@.len() {
                    assert(v =~= old(self).vec@ + Seq::new(
                        (new_len - old(self).vec@.len()) as nat,
                        |i: int| 0u8,
                    ));
                }
            }
        }
        self.offset = new_offset;
        Ok(new_offset as u64)
    }
}

} // verus!
