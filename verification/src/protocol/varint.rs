//! Variable-length integers: seven bits per byte, least significant group
//! first, with the high bit of each byte marking that another byte follows.
use vstd::prelude::*;

use crate::io::VecReader;
use crate::protocol::decode::{
    eof_err, reader_step, AllocTracker, DecodeOutcome, ProtoDecode, ProtoDecodeErr,
};
use crate::protocol::encode::{ProtoEncode, ProtoEncodeErr};

verus! {

/// The 32-bit variable-length integer.
pub struct VarInt;

/// The 64-bit variable-length integer.
pub struct VarLong;

impl VarInt {
    pub const MAX_BYTES: usize = 5;
}

impl VarLong {
    pub const MAX_BYTES: usize = 10;
}

/// The bits below position `s` of a 32-bit word.
pub open spec fn low_mask32(s: u32) -> u32 {
    !(0xffff_ffffu32 << s)
}

/// The bits below position `s` of a 64-bit word.
pub open spec fn low_mask64(s: u64) -> u64 {
    !(0xffff_ffff_ffff_ffffu64 << s)
}

/// The encoding of the bits of `x`: one byte while fewer than eight bits are
/// left, otherwise the low seven bits with the continuation bit set, followed
/// by the encoding of the remaining bits.
pub open spec fn varint_bytes(x: u32) -> Seq<u8>
    decreases x,
{
    if x & !0x7fu32 == 0 {
        seq![x as u8]
    } else {
        proof {
            assert(x & !0x7fu32 != 0 ==> x >> 7u32 < x) by (bit_vector);
        }
        seq![((x & 0x7f) | 0x80) as u8] + varint_bytes(x >> 7u32)
    }
}

/// The encoding of the bits of `x`, as for `varint_bytes`, over 64 bits.
pub open spec fn varlong_bytes(x: u64) -> Seq<u8>
    decreases x,
{
    if x & !0x7fu64 == 0 {
        seq![x as u8]
    } else {
        proof {
            assert(x & !0x7fu64 != 0 ==> x >> 7u64 < x) by (bit_vector);
        }
        seq![((x & 0x7f) | 0x80) as u8] + varlong_bytes(x >> 7u64)
    }
}

/// Decoding a 32-bit variable-length integer from byte `i` on, with the bits
/// gathered so far in `acc`: at most five bytes are read, and the result is
/// the bytes consumed with the value, or with the error met.
pub open spec fn varint_decode_from(input: Seq<u8>, i: nat, acc: u32) -> (Result<i32, ProtoDecodeErr>, nat)
    decreases 5 - i,
{
    if i >= 5 {
        (Err(ProtoDecodeErr::VarIntTooLong), i)
    } else if i >= input.len() {
        (Err(eof_err()), i)
    } else {
        let b = input[i as int];
        let next = acc | (((b & 0x7f) as u32) << ((7 * i) as u32));
        if b >> 7u8 == 0 {
            (Ok(next as i32), i + 1)
        } else {
            varint_decode_from(input, i + 1, next)
        }
    }
}

/// Decoding a 64-bit variable-length integer from byte `i` on: at most ten
/// bytes are read. A value that does not end within ten bytes is reported
/// with the 32-bit error, `VarIntTooLong`.
pub open spec fn varlong_decode_from(input: Seq<u8>, i: nat, acc: u64) -> (Result<i64, ProtoDecodeErr>, nat)
    decreases 10 - i,
{
    if i >= 10 {
        (Err(ProtoDecodeErr::VarIntTooLong), i)
    } else if i >= input.len() {
        (Err(eof_err()), i)
    } else {
        let b = input[i as int];
        let next = acc | (((b & 0x7f) as u64) << ((7 * i) as u64));
        if b >> 7u8 == 0 {
            (Ok(next as i64), i + 1)
        } else {
            varlong_decode_from(input, i + 1, next)
        }
    }
}

pub open spec fn varint_decode(input: Seq<u8>) -> (Result<i32, ProtoDecodeErr>, nat) {
    varint_decode_from(input, 0, 0)
}

pub open spec fn varlong_decode(input: Seq<u8>) -> (Result<i64, ProtoDecodeErr>, nat) {
    varlong_decode_from(input, 0, 0)
}

/// Decodes a 32-bit variable-length integer.
pub fn decode_var_int(reader: &mut VecReader) -> (r: Result<i32, ProtoDecodeErr>)
    requires
        old(reader).wf(),
    ensures
        reader_step(*old(reader), *final(reader)),
        r == varint_decode(old(reader).rest()).0,
        varint_decode(old(reader).rest()).1 <= old(reader).rest().len(),
        final(reader).rest() == old(reader).rest().skip(varint_decode(old(reader).rest()).1 as int),
{
    let ghost input = reader.rest();
    let mut result: u32 = 0;
    let mut i: usize = 0;
    assert(input =~= input.skip(0));
    while i < VarInt::MAX_BYTES
        invariant
            reader_step(*old(reader), *reader),
            input == old(reader).rest(),
            i <= 5,
            i <= input.len(),
            reader.rest() == input.skip(i as int),
            varint_decode_from(input, i as nat, result) == varint_decode(input),
        ensures
            reader_step(*old(reader), *reader),
            i == 5,
            reader.rest() == input.skip(5),
            varint_decode_from(input, 5, result) == varint_decode(input),
        decreases 5 - i,
    {
        let b = match reader.read_u8() {
            Ok(b) => b,
            Err(e) => {
                assert(input.skip(i as int).len() == 0);
                return Err(ProtoDecodeErr::IoErr(e));
            },
        };
        assert(b == input[i as int]);
        assert(input.skip(i as int).skip(1) =~= input.skip(i + 1));
        result = result | (((b & 0x7f) as u32) << ((7 * i) as u32));
        i = i + 1;
        if (b >> 7) == 0 {
            return Ok(result as i32);
        }
    }
    Err(ProtoDecodeErr::VarIntTooLong)
}

/// Decodes a 64-bit variable-length integer.
pub fn decode_var_long(reader: &mut VecReader) -> (r: Result<i64, ProtoDecodeErr>)
    requires
        old(reader).wf(),
    ensures
        reader_step(*old(reader), *final(reader)),
        r == varlong_decode(old(reader).rest()).0,
        varlong_decode(old(reader).rest()).1 <= old(reader).rest().len(),
        final(reader).rest() == old(reader).rest().skip(varlong_decode(old(reader).rest()).1 as int),
{
    let ghost input = reader.rest();
    let mut result: u64 = 0;
    let mut i: usize = 0;
    assert(input =~= input.skip(0));
    while i < VarLong::MAX_BYTES
        invariant
            reader_step(*old(reader), *reader),
            input == old(reader).rest(),
            i <= 10,
            i <= input.len(),
            reader.rest() == input.skip(i as int),
            varlong_decode_from(input, i as nat, result) == varlong_decode(input),
        ensures
            reader_step(*old(reader), *reader),
            i == 10,
            reader.rest() == input.skip(10),
            varlong_decode_from(input, 10, result) == varlong_decode(input),
        decreases 10 - i,
    {
        let b = match reader.read_u8() {
            Ok(b) => b,
            Err(e) => {
                assert(input.skip(i as int).len() == 0);
                return Err(ProtoDecodeErr::IoErr(e));
            },
        };
        assert(b == input[i as int]);
        assert(input.skip(i as int).skip(1) =~= input.skip(i + 1));
        result = result | (((b & 0x7f) as u64) << ((7 * i) as u64));
        i = i + 1;
        if (b >> 7) == 0 {
            return Ok(result as i64);
        }
    }
    Err(ProtoDecodeErr::VarIntTooLong)
}

proof fn lemma_var_int_last_byte(x: u32, s: u32)
    requires
        s <= 28,
        (x >> s) & !0x7fu32 == 0,
    ensures
        ((x >> s) as u8) >> 7u8 == 0,
        (x & low_mask32(s)) | (((((x >> s) as u8) & 0x7f) as u32) << s) == x,
{
    assert(((x >> s) as u8) >> 7u8 == 0) by (bit_vector)
        requires
            s <= 28,
            (x >> s) & !0x7fu32 == 0,
    ;
    assert((x & !(0xffff_ffffu32 << s)) | (((((x >> s) as u8) & 0x7f) as u32) << s) == x)
        by (bit_vector)
        requires
            s <= 28,
            (x >> s) & !0x7fu32 == 0,
    ;
}

proof fn lemma_var_int_more_byte(x: u32, s: u32)
    requires
        s <= 21,
        (x >> s) & !0x7fu32 != 0,
    ensures
        ((((x >> s) & 0x7f) | 0x80) as u8) >> 7u8 != 0,
        (x & low_mask32(s)) | ((((((x >> s) & 0x7f) | 0x80) as u8 & 0x7f) as u32) << s) == x
            & low_mask32((s + 7) as u32),
        (x >> s) >> 7u32 == x >> ((s + 7) as u32),
{
    assert(((((x >> s) & 0x7f) | 0x80) as u8) >> 7u8 != 0) by (bit_vector);
    assert((x & !(0xffff_ffffu32 << s)) | ((((((x >> s) & 0x7f) | 0x80) as u8 & 0x7f) as u32)
        << s) == x & !(0xffff_ffffu32 << ((s + 7) as u32))) by (bit_vector)
        requires
            s <= 21,
    ;
    assert((x >> s) >> 7u32 == x >> ((s + 7) as u32)) by (bit_vector)
        requires
            s <= 21,
    ;
}

proof fn lemma_varint_decode_from(x: u32, i: nat, input: Seq<u8>)
    requires
        i <= 4,
        i + varint_bytes(x >> ((7 * i) as u32)).len() <= input.len(),
        input.subrange(i as int, (i + varint_bytes(x >> ((7 * i) as u32)).len()) as int) == varint_bytes(
            x >> ((7 * i) as u32),
        ),
    ensures
        varint_decode_from(input, i, x & low_mask32((7 * i) as u32)) == (
            Ok::<i32, ProtoDecodeErr>(x as i32),
            i + varint_bytes(x >> ((7 * i) as u32)).len(),
        ),
    decreases 4 - i,
{
    let s = (7 * i) as u32;
    let y = x >> s;
    let enc = varint_bytes(y);
    assert(input[i as int] == input.subrange(i as int, (i + enc.len()) as int)[0]);
    if y & !0x7fu32 == 0 {
        lemma_var_int_last_byte(x, s);
        assert(enc == seq![y as u8]);
    } else {
        assert(x >> 28u32 & !0x7fu32 == 0) by (bit_vector);
        assert(i <= 3);
        lemma_var_int_more_byte(x, s);
        let b = (((y & 0x7f) | 0x80) as u8);
        let tail = varint_bytes(y >> 7u32);
        assert(enc == seq![b] + tail);
        assert((7 * (i + 1)) as u32 == (s + 7) as u32);
        assert(input.subrange((i + 1) as int, (i + 1 + tail.len()) as int) =~= tail) by {
            assert(input.subrange((i + 1) as int, (i + 1 + tail.len()) as int) =~= input.subrange(
                i as int,
                (i + enc.len()) as int,
            ).skip(1));
        }
        lemma_varint_decode_from(x, i + 1, input);
    }
}

/// Decoding the encoding of a 32-bit integer gives the integer back and
/// consumes exactly the encoding, whatever follows it.
pub proof fn lemma_var_int_roundtrip(x: i32, rest: Seq<u8>)
    ensures
        varint_decode(varint_bytes(x as u32) + rest) == (
            Ok::<i32, ProtoDecodeErr>(x),
            varint_bytes(x as u32).len(),
        ),
        1 <= varint_bytes(x as u32).len() <= 5,
{
    let u = x as u32;
    let input = varint_bytes(u) + rest;
    assert(u >> 0u32 == u) by (bit_vector);
    assert(u & low_mask32(0) == 0) by (bit_vector);
    assert(input.subrange(0, varint_bytes(u).len() as int) =~= varint_bytes(u));
    lemma_varint_decode_from(u, 0, input);
    assert((x as u32) as i32 == x) by (bit_vector);
    lemma_var_int_len(u);
}

/// An encoding takes between one and five bytes.
pub proof fn lemma_var_int_len(x: u32)
    ensures
        1 <= varint_bytes(x).len() <= 5,
{
    assert(x >> 0u32 == x) by (bit_vector);
    lemma_var_int_len_from(x, 0);
}

proof fn lemma_var_int_len_from(x: u32, i: nat)
    requires
        i <= 4,
    ensures
        1 <= varint_bytes(x >> ((7 * i) as u32)).len() <= 5 - i,
    decreases 4 - i,
{
    let s = (7 * i) as u32;
    let y = x >> s;
    if y & !0x7fu32 != 0 {
        assert(x >> 28u32 & !0x7fu32 == 0) by (bit_vector);
        assert(i <= 3);
        lemma_var_int_more_byte(x, s);
        assert((7 * (i + 1)) as u32 == (s + 7) as u32);
        lemma_var_int_len_from(x, i + 1);
    }
}

proof fn lemma_var_long_last_byte(x: u64, s: u64)
    requires
        s <= 63,
        (x >> s) & !0x7fu64 == 0,
    ensures
        ((x >> s) as u8) >> 7u8 == 0,
        (x & low_mask64(s)) | (((((x >> s) as u8) & 0x7f) as u64) << s) == x,
{
    assert(((x >> s) as u8) >> 7u8 == 0) by (bit_vector)
        requires
            s <= 63,
            (x >> s) & !0x7fu64 == 0,
    ;
    assert((x & !(0xffff_ffff_ffff_ffffu64 << s)) | (((((x >> s) as u8) & 0x7f) as u64) << s) == x)
        by (bit_vector)
        requires
            s <= 63,
            (x >> s) & !0x7fu64 == 0,
    ;
}

proof fn lemma_var_long_more_byte(x: u64, s: u64)
    requires
        s <= 106,
        (x >> s) & !0x7fu64 != 0,
    ensures
        ((((x >> s) & 0x7f) | 0x80) as u8) >> 7u8 != 0,
        (x & low_mask64(s)) | ((((((x >> s) & 0x7f) | 0x80) as u8 & 0x7f) as u64) << s) == x
            & low_mask64((s + 7) as u64),
        (x >> s) >> 7u64 == x >> ((s + 7) as u64),
{
    assert(((((x >> s) & 0x7f) | 0x80) as u8) >> 7u8 != 0) by (bit_vector);
    assert((x & !(0xffff_ffff_ffff_ffffu64 << s)) | ((((((x >> s) & 0x7f) | 0x80) as u8 & 0x7f) as u64)
        << s) == x & !(0xffff_ffff_ffff_ffffu64 << ((s + 7) as u64))) by (bit_vector)
        requires
            s <= 106,
    ;
    assert((x >> s) >> 7u64 == x >> ((s + 7) as u64)) by (bit_vector)
        requires
            s <= 106,
    ;
}

proof fn lemma_varlong_decode_from(x: u64, i: nat, input: Seq<u8>)
    requires
        i <= 9,
        i + varlong_bytes(x >> ((7 * i) as u64)).len() <= input.len(),
        input.subrange(i as int, (i + varlong_bytes(x >> ((7 * i) as u64)).len()) as int) == varlong_bytes(
            x >> ((7 * i) as u64),
        ),
    ensures
        varlong_decode_from(input, i, x & low_mask64((7 * i) as u64)) == (
            Ok::<i64, ProtoDecodeErr>(x as i64),
            i + varlong_bytes(x >> ((7 * i) as u64)).len(),
        ),
    decreases 9 - i,
{
    let s = (7 * i) as u64;
    let y = x >> s;
    let enc = varlong_bytes(y);
    assert(input[i as int] == input.subrange(i as int, (i + enc.len()) as int)[0]);
    if y & !0x7fu64 == 0 {
        lemma_var_long_last_byte(x, s);
        assert(enc == seq![y as u8]);
    } else {
        assert(x >> 63u64 & !0x7fu64 == 0) by (bit_vector);
        assert(i <= 8);
        lemma_var_long_more_byte(x, s);
        let b = (((y & 0x7f) | 0x80) as u8);
        let tail = varlong_bytes(y >> 7u64);
        assert(enc == seq![b] + tail);
        assert((7 * (i + 1)) as u64 == (s + 7) as u64);
        assert(input.subrange((i + 1) as int, (i + 1 + tail.len()) as int) =~= tail) by {
            assert(input.subrange((i + 1) as int, (i + 1 + tail.len()) as int) =~= input.subrange(
                i as int,
                (i + enc.len()) as int,
            ).skip(1));
        }
        lemma_varlong_decode_from(x, i + 1, input);
    }
}

/// Decoding the encoding of a 64-bit integer gives the integer back and
/// consumes exactly the encoding, whatever follows it.
pub proof fn lemma_var_long_roundtrip(x: i64, rest: Seq<u8>)
    ensures
        varlong_decode(varlong_bytes(x as u64) + rest) == (
            Ok::<i64, ProtoDecodeErr>(x),
            varlong_bytes(x as u64).len(),
        ),
        1 <= varlong_bytes(x as u64).len() <= 10,
{
    let u = x as u64;
    let input = varlong_bytes(u) + rest;
    assert(u >> 0u64 == u) by (bit_vector);
    assert(u & low_mask64(0) == 0) by (bit_vector);
    assert(input.subrange(0, varlong_bytes(u).len() as int) =~= varlong_bytes(u));
    lemma_varlong_decode_from(u, 0, input);
    assert((x as u64) as i64 == x) by (bit_vector);
    lemma_var_long_len(u);
}

/// An encoding takes between one and ten bytes.
pub proof fn lemma_var_long_len(x: u64)
    ensures
        1 <= varlong_bytes(x).len() <= 10,
{
    assert(x >> 0u64 == x) by (bit_vector);
    lemma_var_long_len_from(x, 0);
}

proof fn lemma_var_long_len_from(x: u64, i: nat)
    requires
        i <= 9,
    ensures
        1 <= varlong_bytes(x >> ((7 * i) as u64)).len() <= 10 - i,
    decreases 9 - i,
{
    let s = (7 * i) as u64;
    let y = x >> s;
    if y & !0x7fu64 != 0 {
        assert(x >> 63u64 & !0x7fu64 == 0) by (bit_vector);
        assert(i <= 8);
        lemma_var_long_more_byte(x, s);
        assert((7 * (i + 1)) as u64 == (s + 7) as u64);
        lemma_var_long_len_from(x, i + 1);
    }
}

/// Appends the encoding of the bits of `x`.
pub fn encode_var_int(x: i32, writer: &mut Vec<u8>)
    ensures
        final(writer)@ == old(writer)@ + varint_bytes(x as u32),
{
    let mut v: u32 = x as u32;
    let ghost start = writer@;
    while (v & !0x7f) != 0
        invariant
            start + varint_bytes(x as u32) == writer@ + varint_bytes(v),
        decreases v,
    {
        proof {
            assert(v & !0x7fu32 != 0 ==> v >> 7u32 < v) by (bit_vector);
        }
        let ghost before = writer@;
        writer.push(((v & 0x7f) | 0x80) as u8);
        assert(before + varint_bytes(v) =~= writer@ + varint_bytes(v >> 7u32));
        v = v >> 7;
    }
    let ghost before = writer@;
    writer.push(v as u8);
    assert(before + varint_bytes(v) =~= writer@);
}

/// Appends the encoding of the bits of `x`, over 64 bits.
pub fn encode_var_long(x: i64, writer: &mut Vec<u8>)
    ensures
        final(writer)@ == old(writer)@ + varlong_bytes(x as u64),
{
    let mut v: u64 = x as u64;
    let ghost start = writer@;
    while (v & !0x7f) != 0
        invariant
            start + varlong_bytes(x as u64) == writer@ + varlong_bytes(v),
        decreases v,
    {
        proof {
            assert(v & !0x7fu64 != 0 ==> v >> 7u64 < v) by (bit_vector);
        }
        let ghost before = writer@;
        writer.push(((v & 0x7f) | 0x80) as u8);
        assert(before + varlong_bytes(v) =~= writer@ + varlong_bytes(v >> 7u64));
        v = v >> 7;
    }
    let ghost before = writer@;
    writer.push(v as u8);
    assert(before + varlong_bytes(v) =~= writer@);
}

} // verus!

verus! {

impl ProtoDecode for VarInt {
    type Repr = i32;

    open spec fn spec_decode(input: Seq<u8>, allocated: nat, limit: nat) -> DecodeOutcome<i32> {
        (varint_decode(input).0, varint_decode(input).1, allocated)
    }

    fn decode<A: AllocTracker>(reader: &mut VecReader, alloc_tracker: &mut A) -> (r: Result<
        i32,
        ProtoDecodeErr,
    >) {
        decode_var_int(reader)
    }
}

impl ProtoEncode for VarInt {
    type Repr = i32;

    open spec fn spec_encode(data: i32) -> Result<Seq<u8>, ProtoEncodeErr> {
        Ok(varint_bytes(data as u32))
    }

    fn encode(data: &i32, writer: &mut Vec<u8>) -> (r: Result<(), ProtoEncodeErr>) {
        encode_var_int(*data, writer);
        Ok(())
    }
}

impl ProtoDecode for VarLong {
    type Repr = i64;

    open spec fn spec_decode(input: Seq<u8>, allocated: nat, limit: nat) -> DecodeOutcome<i64> {
        (varlong_decode(input).0, varlong_decode(input).1, allocated)
    }

    fn decode<A: AllocTracker>(reader: &mut VecReader, alloc_tracker: &mut A) -> (r: Result<
        i64,
        ProtoDecodeErr,
    >) {
        decode_var_long(reader)
    }
}

impl ProtoEncode for VarLong {
    type Repr = i64;

    open spec fn spec_encode(data: i64) -> Result<Seq<u8>, ProtoEncodeErr> {
        Ok(varlong_bytes(data as u64))
    }

    fn encode(data: &i64, writer: &mut Vec<u8>) -> (r: Result<(), ProtoEncodeErr>) {
        encode_var_long(*data, writer);
        Ok(())
    }
}

} // verus!
