//! Packet framing: a variable-length size in front of each packet, under a
//! size limit. Moving the bytes is left to the caller; what is sent and what
//! is decided about what arrives is here.
use vstd::prelude::*;

use crate::io::{IoErrorKind, VecReader};
use crate::protocol::decode::{AllocTracker, BasicAllocTracker, ProtoDecodeErr};
use crate::protocol::encode::ProtoEncodeErr;
use crate::protocol::packet::{ConnectionState, PacketDirection};
use crate::protocol::v765::{
    clientbound_decoded, clientbound_encoded, ClientBoundPacket, PacketDecoderImpl,
    PacketEncoderImpl,
};
use crate::protocol::varint::{
    decode_var_int, encode_var_int, lemma_var_int_len, lemma_var_int_roundtrip, varint_bytes,
    varint_decode, VarInt,
};

verus! {

/// The largest packet, in bytes, that is read or written.
pub const DEFAULT_PACKET_LIMIT: usize = 1 << 21 - 1;

/// The memory a decoded packet may account for.
pub const DEFAULT_ALLOC_LIMIT: usize = 1 << 23;

/// The room left in front of a packet for its size.
pub const MAX_VAR_INT_LEN: usize = 5;

/// Why a packet could not be written.
#[derive(Debug)]
pub enum PacketWriteErr {
    IoErr(IoErrorKind),
    EncodeErr(ProtoEncodeErr),
    EncryptionErr,
    PacketTooLong(usize, usize),
    Unknown,
}

/// Why a packet could not be read.
#[derive(Debug)]
pub enum PacketReadErr {
    IoErr(IoErrorKind),
    DecodeErr(ProtoDecodeErr),
    DecryptionErr,
    PacketTooLong(usize, usize),
    MalformedPacketHeader,
}

/// What reading a frame's size has come to after some bytes.
#[derive(Debug, PartialEq, Eq, Structural)]
pub enum FrameSizeStep {
    NeedByte,
    Done(usize),
    Malformed,
}

/// What the bytes of a frame's size, read so far, amount to: a complete
/// non-negative size, a header that is too long or negative, or a header that
/// needs more bytes.
pub open spec fn frame_size_of(bytes: Seq<u8>) -> FrameSizeStep {
    let d = varint_decode(bytes);
    match d.0 {
        Ok(v) => if v >= 0 {
            FrameSizeStep::Done(v as usize)
        } else {
            FrameSizeStep::Malformed
        },
        Err(ProtoDecodeErr::VarIntTooLong) => FrameSizeStep::Malformed,
        Err(_) => FrameSizeStep::NeedByte,
    }
}

/// Reads the size in front of a frame, one byte at a time.
pub struct FrameSizeReader {
    size: u32,
    count: usize,
    seen: Ghost<Seq<u8>>,
}

impl FrameSizeReader {
    /// The bytes read so far.
    pub closed spec fn spec_bytes(&self) -> Seq<u8> {
        self.seen@
    }

    /// The reader still needs bytes.
    pub closed spec fn wf(&self) -> bool {
        &&& self.count == self.seen@.len()
        &&& self.count < 5
        &&& decoding_at(self.seen@, self.count as nat, self.size)
    }

    /// A reader that has read nothing.
    pub fn new() -> (r: Self)
        ensures
            r.wf(),
            r.spec_bytes() == Seq::<u8>::empty(),
    {
        let r = FrameSizeReader { size: 0, count: 0, seen: Ghost(Seq::empty()) };
        assert forall|ext: Seq<u8>| #[trigger] varint_decode(Seq::<u8>::empty() + ext)
            == crate::protocol::varint::varint_decode_from(Seq::<u8>::empty() + ext, 0, 0) by {
        }
        r
    }

    /// Takes the next byte of the size and says what the bytes so far amount to.
    pub fn push(&mut self, byte: u8) -> (r: FrameSizeStep)
        requires
            old(self).wf(),
        ensures
            final(self).spec_bytes() == old(self).spec_bytes().push(byte),
            r == frame_size_of(final(self).spec_bytes()),
            r == FrameSizeStep::NeedByte ==> final(self).wf(),
    {
        let ghost before = self.seen@;
        let ghost bytes = before.push(byte);
        let ghost acc = self.size;
        let ghost next = acc | (((byte & 0x7f) as u32) << ((7 * self.count) as u32));
        proof {
            assert(before + seq![byte] =~= bytes);
            assert(bytes + Seq::<u8>::empty() =~= bytes);
            assert(varint_decode(before + seq![byte]) == crate::protocol::varint::varint_decode_from(
                before + seq![byte],
                self.count as nat,
                acc,
            ));
            assert forall|ext: Seq<u8>| #[trigger] varint_decode(bytes + ext)
                == crate::protocol::varint::varint_decode_from(bytes + ext, self.count as nat, acc) by {
                assert(before + (seq![byte] + ext) =~= bytes + ext);
                assert(varint_decode(before + (seq![byte] + ext)) == crate::protocol::varint::varint_decode_from(
                    before + (seq![byte] + ext),
                    self.count as nat,
                    acc,
                ));
            }
            assert forall|ext: Seq<u8>| (byte >> 7u8 != 0) implies #[trigger] varint_decode(bytes + ext)
                == crate::protocol::varint::varint_decode_from(bytes + ext, (self.count + 1) as nat, next) by {
                assert((bytes + ext)[self.count as int] == byte);
            }
        }
        let i = self.count;
        self.size = self.size | (((byte & 0x7f) as u32) << ((7 * i) as u32));
        self.count = self.count + 1;
        self.seen = Ghost(bytes);
        if (byte >> 7) == 0 {
            let v = self.size as i32;
            if v < 0 {
                FrameSizeStep::Malformed
            } else {
                FrameSizeStep::Done(v as usize)
            }
        } else if self.count >= 5 {
            FrameSizeStep::Malformed
        } else {
            FrameSizeStep::NeedByte
        }
    }
}

/// Decoding any continuation of `prefix` reaches byte `i` with the bits `acc`
/// gathered.
pub open spec fn decoding_at(prefix: Seq<u8>, i: nat, acc: u32) -> bool {
    forall|ext: Seq<u8>| #[trigger] varint_decode(prefix + ext) == crate::protocol::varint::varint_decode_from(
        prefix + ext,
        i,
        acc,
    )
}

/// The header written in front of a frame of `len` bytes decodes, byte after
/// byte, to `len`.
pub proof fn lemma_frame_header_roundtrip(len: usize)
    requires
        len <= i32::MAX,
    ensures
        frame_size_of(varint_bytes(len as i32 as u32)) == FrameSizeStep::Done(len),
        1 <= varint_bytes(len as i32 as u32).len() <= 5,
{
    let x = len as i32;
    lemma_var_int_roundtrip(x, Seq::empty());
    assert(varint_bytes(x as u32) + Seq::<u8>::empty() =~= varint_bytes(x as u32));
}

/// The packet, or the decoding error, of a result of reading a frame.
pub open spec fn decode_result(r: Result<ClientBoundPacket, PacketReadErr>) -> Result<ClientBoundPacket, ProtoDecodeErr> {
    match r {
        Ok(p) => Ok(p),
        Err(PacketReadErr::DecodeErr(e)) => Err(e),
        Err(_) => Err(ProtoDecodeErr::MalformedPacket),
    }
}

/// What decoding a frame does: the packet id, then the payload of the
/// packet type that the id names in the given state, against a fresh
/// allocation limit. Bytes that the packet leaves unread are ignored.
pub open spec fn frame_decoded(
    direction: PacketDirection,
    state: ConnectionState,
    input: Seq<u8>,
    r: Result<ClientBoundPacket, PacketReadErr>,
) -> bool {
    let d = varint_decode(input);
    match d.0 {
        Err(e) => r matches Err(PacketReadErr::DecodeErr(e2)) && e2 == e,
        Ok(id) => {
            &&& (r is Ok || r is Err && r->Err_0 is DecodeErr)
            &&& direction == PacketDirection::ServerBound ==> (r matches Err(
                PacketReadErr::DecodeErr(ProtoDecodeErr::UnknownPacketId(i)),
            ) && i == id)
            &&& direction == PacketDirection::ClientBound ==> exists|after: Seq<u8>, a1: nat|
                #[trigger] clientbound_decoded(
                    state,
                    id,
                    decode_result(r),
                    input.skip(d.1 as int),
                    after,
                    0,
                    a1,
                    DEFAULT_ALLOC_LIMIT as nat,
                )
        },
    }
}

/// Reads packets: it keeps the bytes of the current frame.
pub struct AsyncPacketReader {
    packet_buf: Vec<u8>,
    packet_limit: usize,
}

impl AsyncPacketReader {
    pub closed spec fn spec_buf(&self) -> Seq<u8> {
        self.packet_buf@
    }

    pub closed spec fn spec_limit(&self) -> usize {
        self.packet_limit
    }

    /// A reader with an empty buffer and the default limit.
    pub fn new() -> (r: Self)
        ensures
            r.spec_buf() == Seq::<u8>::empty(),
            r.spec_limit() == DEFAULT_PACKET_LIMIT,
    {
        AsyncPacketReader { packet_buf: Vec::new(), packet_limit: DEFAULT_PACKET_LIMIT }
    }

    /// Makes room for a frame of `frame_size` bytes, unless it passes the limit.
    pub fn prepare_frame(&mut self, frame_size: usize) -> (r: Result<usize, PacketReadErr>)
        ensures
            final(self).spec_limit() == old(self).spec_limit(),
            frame_size > old(self).spec_limit() ==> (r matches Err(PacketReadErr::PacketTooLong(a, b))
                && a == frame_size && b == old(self).spec_limit()) && final(self).spec_buf() == old(
                self,
            ).spec_buf(),
            frame_size <= old(self).spec_limit() ==> r == Ok::<usize, PacketReadErr>(frame_size)
                && final(self).spec_buf().len() >= frame_size && final(self).spec_buf().len() >= old(
                self,
            ).spec_buf().len(),
    {
        if frame_size > self.packet_limit {
            return Err(PacketReadErr::PacketTooLong(frame_size, self.packet_limit));
        }
        while self.packet_buf.len() < frame_size
            invariant
                self.packet_limit == old(self).packet_limit,
                self.packet_buf@.len() >= old(self).packet_buf@.len(),
            decreases frame_size - self.packet_buf.len(),
        {
            self.packet_buf.push(0u8);
        }
        Ok(frame_size)
    }

    /// The buffer, for the bytes of the frame to be read into.
    pub fn packet_buf_mut(&mut self) -> (r: &mut Vec<u8>)
        ensures
            r@ == old(self).spec_buf(),
            final(self).spec_buf() == final(r)@,
            final(self).spec_limit() == old(self).spec_limit(),
    {
        &mut self.packet_buf
    }

    /// Decodes the first `frame_size` bytes of the buffer as a packet.
    pub fn decode_frame(&self, frame_size: usize, direction: PacketDirection, state: ConnectionState) -> (r:
        Result<ClientBoundPacket, PacketReadErr>)
        requires
            frame_size <= self.spec_buf().len(),
        ensures
            frame_decoded(direction, state, self.spec_buf().subrange(0, frame_size as int), r),
    {
        let mut vec_reader = VecReader::new(&self.packet_buf, 0, frame_size);
        let mut alloc_tracker = BasicAllocTracker::new(DEFAULT_ALLOC_LIMIT);
        let ghost input = vec_reader.rest();
        assert(input == self.packet_buf@.subrange(0, frame_size as int));
        let packet_id = match decode_var_int(&mut vec_reader) {
            Ok(id) => id,
            Err(e) => return Err(PacketReadErr::DecodeErr(e)),
        };
        let ghost mid = vec_reader.rest();
        let r = PacketDecoderImpl::decode_packet(packet_id, direction, state, &mut vec_reader, &mut alloc_tracker);
        proof {
            if direction == PacketDirection::ClientBound {
                assert(clientbound_decoded(
                    state,
                    packet_id,
                    r,
                    input.skip(varint_decode(input).1 as int),
                    vec_reader.rest(),
                    0,
                    alloc_tracker.spec_allocated() as nat,
                    DEFAULT_ALLOC_LIMIT as nat,
                ));
            }
        }
        match r {
            Ok(p) => Ok(p),
            Err(e) => Err(PacketReadErr::DecodeErr(e)),
        }
    }
}

/// Writes packets: it lays each frame out in its buffer, with room for the
/// size in front.
pub struct AsyncPacketWriter {
    packet_buf: Vec<u8>,
    packet_limit: usize,
}

impl AsyncPacketWriter {
    /// The limit is one whose sizes a `VarInt` can carry.
    #[verifier::type_invariant]
    closed spec fn limit_fits(&self) -> bool {
        self.packet_limit <= i32::MAX
    }

    pub closed spec fn spec_buf(&self) -> Seq<u8> {
        self.packet_buf@
    }

    pub closed spec fn spec_limit(&self) -> usize {
        self.packet_limit
    }

    /// A writer with an empty buffer and the default limit.
    pub fn new() -> (r: Self)
        ensures
            r.spec_buf() == Seq::<u8>::empty(),
            r.spec_limit() == DEFAULT_PACKET_LIMIT,
    {
        assert(DEFAULT_PACKET_LIMIT <= 0x7fff_ffffusize) by (bit_vector);
        AsyncPacketWriter { packet_buf: Vec::new(), packet_limit: DEFAULT_PACKET_LIMIT }
    }

    /// The buffer that frames are laid out in.
    pub fn packet_buf(&self) -> (r: &Vec<u8>)
        ensures
            r@ == self.spec_buf(),
    {
        &self.packet_buf
    }

    /// Puts the packet's id and payload in the buffer, after the room for the
    /// size, and returns their length. Bytes that would pass the limit, with
    /// the room for the size, are refused as an end of the buffer, before any
    /// error of the payload that comes after them.
    pub fn encode(&mut self, packet: &ClientBoundPacket) -> (r: Result<usize, PacketWriteErr>)
        requires
            !(*packet is RegistryData),
        ensures
            final(self).spec_limit() == old(self).spec_limit(),
            r is Ok || r is Err && r->Err_0 is EncodeErr,
            exists|body: Seq<u8>, payload_r: Result<(), ProtoEncodeErr>|
                {
                    &&& #[trigger] clientbound_encoded(*packet, payload_r, varint_bytes(packet.spec_id() as u32), body)
                    &&& match payload_r {
                        Err(e) => if MAX_VAR_INT_LEN + body.len() > old(self).spec_limit() {
                            r matches Err(PacketWriteErr::EncodeErr(ProtoEncodeErr::IoErr(k)))
                                && k == IoErrorKind::UnexpectedEof
                        } else {
                            r matches Err(PacketWriteErr::EncodeErr(e2)) && e2 == e
                        },
                        Ok(()) => if MAX_VAR_INT_LEN + body.len() > old(self).spec_limit() {
                            r matches Err(PacketWriteErr::EncodeErr(ProtoEncodeErr::IoErr(k)))
                                && k == IoErrorKind::UnexpectedEof
                        } else {
                            &&& r == Ok::<usize, PacketWriteErr>(body.len() as usize)
                            &&& final(self).spec_buf().len() == MAX_VAR_INT_LEN + body.len()
                            &&& final(self).spec_buf().subrange(
                                MAX_VAR_INT_LEN as int,
                                MAX_VAR_INT_LEN + body.len(),
                            ) == body
                        },
                    }
                },
    {
        proof {
            use_type_invariant(&*self);
        }
        let mut body: Vec<u8> = Vec::new();
        encode_var_int(packet.id(), &mut body);
        let ghost header = body@;
        assert(header =~= Seq::<u8>::empty() + varint_bytes(packet.spec_id() as u32));
        let payload_r = PacketEncoderImpl::encode_packet(packet, &mut body);
        if body.len() > self.packet_limit || MAX_VAR_INT_LEN > self.packet_limit - body.len() {
            return Err(PacketWriteErr::EncodeErr(ProtoEncodeErr::IoErr(IoErrorKind::UnexpectedEof)));
        }
        match payload_r {
            Err(e) => {
                return Err(PacketWriteErr::EncodeErr(e));
            },
            Ok(()) => {},
        }
        let mut buf: Vec<u8> = Vec::new();
        let mut k: usize = 0;
        while k < MAX_VAR_INT_LEN
            invariant
                k <= MAX_VAR_INT_LEN,
                buf@.len() == k,
            decreases MAX_VAR_INT_LEN - k,
        {
            buf.push(0u8);
            k = k + 1;
        }
        let len = body.len();
        let ghost body_view = body@;
        buf.append(&mut body);
        assert(buf@.subrange(MAX_VAR_INT_LEN as int, MAX_VAR_INT_LEN + body_view.len()) =~= body_view);
        self.packet_buf = buf;
        Ok(len)
    }

    /// Writes the size of a frame of `len` bytes in front of them and returns
    /// the range of the buffer to send.
    pub fn frame(&mut self, len: usize) -> (r: Result<(usize, usize), PacketWriteErr>)
        ensures
            final(self).spec_limit() == old(self).spec_limit(),
            len > old(self).spec_limit() ==> (r matches Err(PacketWriteErr::PacketTooLong(a, b)) && a
                == len && b == old(self).spec_limit()),
            len <= old(self).spec_limit() && len > old(self).spec_buf().len() ==> r matches Err(
                PacketWriteErr::Unknown,
            ),
            len <= old(self).spec_limit() && len <= old(self).spec_buf().len() && MAX_VAR_INT_LEN + len > old(
                self,
            ).spec_buf().len() ==> r matches Err(PacketWriteErr::Unknown),
            len <= old(self).spec_limit() && MAX_VAR_INT_LEN + len <= old(self).spec_buf().len() ==> {
                let header = varint_bytes(len as i32 as u32);
                &&& r == Ok::<(usize, usize), PacketWriteErr>(
                    ((MAX_VAR_INT_LEN - header.len()) as usize, (MAX_VAR_INT_LEN + len) as usize),
                )
                &&& final(self).spec_buf().subrange(
                    MAX_VAR_INT_LEN - header.len(),
                    MAX_VAR_INT_LEN + len,
                ) == header + old(self).spec_buf().subrange(
                    MAX_VAR_INT_LEN as int,
                    MAX_VAR_INT_LEN + len,
                )
            },
    {
        proof {
            use_type_invariant(&*self);
        }
        if len > self.packet_limit {
            return Err(PacketWriteErr::PacketTooLong(len, self.packet_limit));
        }
        if len > self.packet_buf.len() {
            return Err(PacketWriteErr::Unknown);
        }
        let mut header: Vec<u8> = Vec::new();
        encode_var_int(len as i32, &mut header);
        proof {
            lemma_var_int_len(len as i32 as u32);
            assert(header@ =~= varint_bytes(len as i32 as u32));
        }
        let p = header.len();
        let start = MAX_VAR_INT_LEN - p;
        if MAX_VAR_INT_LEN > self.packet_buf.len() {
            return Err(PacketWriteErr::Unknown);
        }
        let mut buf: Vec<u8> = Vec::new();
        std::mem::swap(&mut buf, &mut self.packet_buf);
        let mut k: usize = 0;
        while k < p
            invariant
                p == header@.len(),
                p <= MAX_VAR_INT_LEN,
                start == MAX_VAR_INT_LEN - p,
                MAX_VAR_INT_LEN <= buf@.len(),
                buf@.len() == old(self).packet_buf@.len(),
                k <= p,
                forall|i: int| 0 <= i < k ==> buf@[start + i] == header@[i],
                forall|i: int|
                    0 <= i < buf@.len() && !(start <= i < start + k) ==> buf@[i] == old(self).packet_buf@[i],
            decreases p - k,
        {
            buf.set(start + k, header[k]);
            k = k + 1;
        }
        let fits = len <= buf.len() - MAX_VAR_INT_LEN;
        self.packet_buf = buf;
        if !fits {
            return Err(PacketWriteErr::Unknown);
        }
        assert(self.packet_buf@.subrange(start as int, MAX_VAR_INT_LEN + len) =~= header@
            + old(self).packet_buf@.subrange(MAX_VAR_INT_LEN as int, MAX_VAR_INT_LEN + len));
        Ok((start, MAX_VAR_INT_LEN + len))
    }
}

} // verus!
