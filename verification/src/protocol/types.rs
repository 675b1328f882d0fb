//! Codecs of the protocol's primitive types: fixed-width integers and booleans.
use vstd::prelude::*;

use std::sync::Arc;

use crate::bytes::{
    be_bytes, be_value, lemma_be_bytes_len, lemma_be_roundtrip,
    lemma_be_value_bound, lemma_pow256_positive, pow256,
};
use crate::io::VecReader;
use crate::protocol::decode::{
    eof_err, reader_step, AllocTracker, DecodeOutcome, ProtoDecode, ProtoDecodeErr,
};
use crate::protocol::encode::{ProtoEncode, ProtoEncodeErr};
use crate::nbt::decode::{decode_tag, lemma_tag_decode_len, tag_decode, BasicResourceTracker, NbtDecodeErr};
use crate::nbt::tag::{Tag, TagRoot, TagType, TagView, MAX_RECURSION_DEPTH, MAX_TAG_SIZE};
use crate::protocol::decode::alloc_outcome;

verus! {

/// Decoding `n` big-endian bytes without allocating.
pub open spec fn be_decode(input: Seq<u8>, n: nat, allocated: nat) -> DecodeOutcome<nat> {
    if n <= input.len() {
        (Ok(be_value(input.take(n as int))), n, allocated)
    } else {
        (Err(eof_err()), 0, allocated)
    }
}

/// An outcome whose value is transformed by `f`.
pub open spec fn map_outcome<V, W>(o: DecodeOutcome<V>, f: spec_fn(V) -> W) -> DecodeOutcome<W> {
    (
        match o.0 {
            Ok(v) => Ok(f(v)),
            Err(e) => Err(e),
        },
        o.1,
        o.2,
    )
}

proof fn lemma_pow256_mono(i: nat, j: nat)
    requires
        i <= j,
    ensures
        pow256(i) <= pow256(j),
    decreases j,
{
    if i < j {
        lemma_pow256_mono(i, (j - 1) as nat);
        lemma_pow256_positive((j - 1) as nat);
    }
}

/// Reads `n` bytes as a big-endian number.
pub fn read_be(reader: &mut VecReader, n: usize) -> (r: Result<u128, ProtoDecodeErr>)
    requires
        old(reader).wf(),
        n <= 16,
    ensures
        reader_step(*old(reader), *final(reader)),
        n <= old(reader).rest().len() ==> {
            &&& r matches Ok(v) && v == be_value(old(reader).rest().take(n as int))
            &&& final(reader).rest() == old(reader).rest().skip(n as int)
        },
        n > old(reader).rest().len() ==> {
            &&& r == Err::<u128, ProtoDecodeErr>(eof_err())
            &&& final(reader).rest() == old(reader).rest()
            &&& final(reader).rest() == old(reader).rest().skip(0)
        },
{
    assert(reader.rest() =~= reader.rest().skip(0));
    let bytes = match reader.read_exact(n) {
        Ok(b) => b,
        Err(e) => return Err(ProtoDecodeErr::IoErr(e)),
    };
    let mut acc: u128 = 0;
    let mut i: usize = 0;
    assert(pow256(16) == 0x1_0000_0000_0000_0000_0000_0000_0000_0000) by {
        reveal_with_fuel(pow256, 17);
    }
    while i < n
        invariant
            i <= n,
            n <= 16,
            bytes@.len() == n,
            acc as nat == be_value(bytes@.take(i as int)),
            pow256(16) == 0x1_0000_0000_0000_0000_0000_0000_0000_0000,
        decreases n - i,
    {
        proof {
            lemma_be_value_bound(bytes@.take(i as int));
            lemma_pow256_mono((i + 1) as nat, 16);
            let p = pow256(i as nat);
            assert(acc * 256 + bytes@[i as int] < p * 256) by (nonlinear_arith)
                requires
                    acc < p,
                    bytes@[i as int] < 256,
            ;
            assert(bytes@.take(i + 1).drop_last() =~= bytes@.take(i as int));
        }
        acc = acc * 256 + bytes[i] as u128;
        i = i + 1;
    }
    assert(bytes@.take(n as int) =~= bytes@);
    Ok(acc)
}

/// Appends the `n` least significant bytes of `v`, most significant first.
pub fn write_be(writer: &mut Vec<u8>, v: u128, n: usize)
    requires
        n <= 16,
    ensures
        final(writer)@ == old(writer)@ + be_bytes(v as nat, n as nat),
    decreases n,
{
    if n == 0 {
        assert(old(writer)@ + be_bytes(v as nat, 0) =~= old(writer)@);
        return ;
    }
    write_be(writer, v / 256, n - 1);
    writer.push((v % 256) as u8);
    assert(final(writer)@ =~= old(writer)@ + be_bytes(v as nat, n as nat));
}

impl ProtoDecode for u8 {
    type Repr = u8;

    open spec fn spec_decode(input: Seq<u8>, allocated: nat, limit: nat) -> DecodeOutcome<u8> {
        map_outcome(be_decode(input, 1, allocated), |x: nat| x as u8)
    }

    fn decode<A: AllocTracker>(reader: &mut VecReader, alloc_tracker: &mut A) -> (r: Result<
        u8,
        ProtoDecodeErr,
    >) {
        let v = match read_be(reader, 1) {
            Ok(v) => v,
            Err(e) => return Err(e),
        };
        Ok(v as u8)
    }
}

impl ProtoDecode for i8 {
    type Repr = i8;

    open spec fn spec_decode(input: Seq<u8>, allocated: nat, limit: nat) -> DecodeOutcome<i8> {
        map_outcome(be_decode(input, 1, allocated), |x: nat| x as i8)
    }

    fn decode<A: AllocTracker>(reader: &mut VecReader, alloc_tracker: &mut A) -> (r: Result<
        i8,
        ProtoDecodeErr,
    >) {
        let v = match read_be(reader, 1) {
            Ok(v) => v,
            Err(e) => return Err(e),
        };
        Ok(v as i8)
    }
}

impl ProtoDecode for u16 {
    type Repr = u16;

    open spec fn spec_decode(input: Seq<u8>, allocated: nat, limit: nat) -> DecodeOutcome<u16> {
        map_outcome(be_decode(input, 2, allocated), |x: nat| x as u16)
    }

    fn decode<A: AllocTracker>(reader: &mut VecReader, alloc_tracker: &mut A) -> (r: Result<
        u16,
        ProtoDecodeErr,
    >) {
        let v = match read_be(reader, 2) {
            Ok(v) => v,
            Err(e) => return Err(e),
        };
        Ok(v as u16)
    }
}

impl ProtoDecode for i16 {
    type Repr = i16;

    open spec fn spec_decode(input: Seq<u8>, allocated: nat, limit: nat) -> DecodeOutcome<i16> {
        map_outcome(be_decode(input, 2, allocated), |x: nat| x as i16)
    }

    fn decode<A: AllocTracker>(reader: &mut VecReader, alloc_tracker: &mut A) -> (r: Result<
        i16,
        ProtoDecodeErr,
    >) {
        let v = match read_be(reader, 2) {
            Ok(v) => v,
            Err(e) => return Err(e),
        };
        Ok(v as i16)
    }
}

impl ProtoDecode for u32 {
    type Repr = u32;

    open spec fn spec_decode(input: Seq<u8>, allocated: nat, limit: nat) -> DecodeOutcome<u32> {
        map_outcome(be_decode(input, 4, allocated), |x: nat| x as u32)
    }

    fn decode<A: AllocTracker>(reader: &mut VecReader, alloc_tracker: &mut A) -> (r: Result<
        u32,
        ProtoDecodeErr,
    >) {
        let v = match read_be(reader, 4) {
            Ok(v) => v,
            Err(e) => return Err(e),
        };
        Ok(v as u32)
    }
}

impl ProtoDecode for i32 {
    type Repr = i32;

    open spec fn spec_decode(input: Seq<u8>, allocated: nat, limit: nat) -> DecodeOutcome<i32> {
        map_outcome(be_decode(input, 4, allocated), |x: nat| x as i32)
    }

    fn decode<A: AllocTracker>(reader: &mut VecReader, alloc_tracker: &mut A) -> (r: Result<
        i32,
        ProtoDecodeErr,
    >) {
        let v = match read_be(reader, 4) {
            Ok(v) => v,
            Err(e) => return Err(e),
        };
        Ok(v as i32)
    }
}

impl ProtoDecode for u64 {
    type Repr = u64;

    open spec fn spec_decode(input: Seq<u8>, allocated: nat, limit: nat) -> DecodeOutcome<u64> {
        map_outcome(be_decode(input, 8, allocated), |x: nat| x as u64)
    }

    fn decode<A: AllocTracker>(reader: &mut VecReader, alloc_tracker: &mut A) -> (r: Result<
        u64,
        ProtoDecodeErr,
    >) {
        let v = match read_be(reader, 8) {
            Ok(v) => v,
            Err(e) => return Err(e),
        };
        Ok(v as u64)
    }
}

impl ProtoDecode for i64 {
    type Repr = i64;

    open spec fn spec_decode(input: Seq<u8>, allocated: nat, limit: nat) -> DecodeOutcome<i64> {
        map_outcome(be_decode(input, 8, allocated), |x: nat| x as i64)
    }

    fn decode<A: AllocTracker>(reader: &mut VecReader, alloc_tracker: &mut A) -> (r: Result<
        i64,
        ProtoDecodeErr,
    >) {
        let v = match read_be(reader, 8) {
            Ok(v) => v,
            Err(e) => return Err(e),
        };
        Ok(v as i64)
    }
}

impl ProtoDecode for u128 {
    type Repr = u128;

    open spec fn spec_decode(input: Seq<u8>, allocated: nat, limit: nat) -> DecodeOutcome<u128> {
        map_outcome(be_decode(input, 16, allocated), |x: nat| x as u128)
    }

    fn decode<A: AllocTracker>(reader: &mut VecReader, alloc_tracker: &mut A) -> (r: Result<
        u128,
        ProtoDecodeErr,
    >) {
        read_be(reader, 16)
    }
}

impl ProtoDecode for i128 {
    type Repr = i128;

    open spec fn spec_decode(input: Seq<u8>, allocated: nat, limit: nat) -> DecodeOutcome<i128> {
        map_outcome(be_decode(input, 16, allocated), |x: nat| x as i128)
    }

    fn decode<A: AllocTracker>(reader: &mut VecReader, alloc_tracker: &mut A) -> (r: Result<
        i128,
        ProtoDecodeErr,
    >) {
        let v = match read_be(reader, 16) {
            Ok(v) => v,
            Err(e) => return Err(e),
        };
        Ok(v as i128)
    }
}

/// A boolean is one byte; every non-zero byte reads as `true`.
impl ProtoDecode for bool {
    type Repr = bool;

    open spec fn spec_decode(input: Seq<u8>, allocated: nat, limit: nat) -> DecodeOutcome<bool> {
        map_outcome(be_decode(input, 1, allocated), |x: nat| x != 0)
    }

    fn decode<A: AllocTracker>(reader: &mut VecReader, alloc_tracker: &mut A) -> (r: Result<
        bool,
        ProtoDecodeErr,
    >) {
        let v = match read_be(reader, 1) {
            Ok(v) => v,
            Err(e) => return Err(e),
        };
        Ok(v != 0)
    }
}

impl ProtoEncode for u8 {
    type Repr = u8;

    open spec fn spec_encode(data: u8) -> Result<Seq<u8>, ProtoEncodeErr> {
        Ok(be_bytes(data as nat, 1))
    }

    fn encode(data: &u8, writer: &mut Vec<u8>) -> (r: Result<(), ProtoEncodeErr>) {
        write_be(writer, *data as u128, 1);
        Ok(())
    }
}

impl ProtoEncode for i8 {
    type Repr = i8;

    open spec fn spec_encode(data: i8) -> Result<Seq<u8>, ProtoEncodeErr> {
        Ok(be_bytes((data as u8) as nat, 1))
    }

    fn encode(data: &i8, writer: &mut Vec<u8>) -> (r: Result<(), ProtoEncodeErr>) {
        write_be(writer, (*data as u8) as u128, 1);
        Ok(())
    }
}

impl ProtoEncode for u16 {
    type Repr = u16;

    open spec fn spec_encode(data: u16) -> Result<Seq<u8>, ProtoEncodeErr> {
        Ok(be_bytes(data as nat, 2))
    }

    fn encode(data: &u16, writer: &mut Vec<u8>) -> (r: Result<(), ProtoEncodeErr>) {
        write_be(writer, *data as u128, 2);
        Ok(())
    }
}

impl ProtoEncode for i16 {
    type Repr = i16;

    open spec fn spec_encode(data: i16) -> Result<Seq<u8>, ProtoEncodeErr> {
        Ok(be_bytes((data as u16) as nat, 2))
    }

    fn encode(data: &i16, writer: &mut Vec<u8>) -> (r: Result<(), ProtoEncodeErr>) {
        write_be(writer, (*data as u16) as u128, 2);
        Ok(())
    }
}

impl ProtoEncode for u32 {
    type Repr = u32;

    open spec fn spec_encode(data: u32) -> Result<Seq<u8>, ProtoEncodeErr> {
        Ok(be_bytes(data as nat, 4))
    }

    fn encode(data: &u32, writer: &mut Vec<u8>) -> (r: Result<(), ProtoEncodeErr>) {
        write_be(writer, *data as u128, 4);
        Ok(())
    }
}

impl ProtoEncode for i32 {
    type Repr = i32;

    open spec fn spec_encode(data: i32) -> Result<Seq<u8>, ProtoEncodeErr> {
        Ok(be_bytes((data as u32) as nat, 4))
    }

    fn encode(data: &i32, writer: &mut Vec<u8>) -> (r: Result<(), ProtoEncodeErr>) {
        write_be(writer, (*data as u32) as u128, 4);
        Ok(())
    }
}

impl ProtoEncode for u64 {
    type Repr = u64;

    open spec fn spec_encode(data: u64) -> Result<Seq<u8>, ProtoEncodeErr> {
        Ok(be_bytes(data as nat, 8))
    }

    fn encode(data: &u64, writer: &mut Vec<u8>) -> (r: Result<(), ProtoEncodeErr>) {
        write_be(writer, *data as u128, 8);
        assert(Self::spec_encode(*data) == Ok::<Seq<u8>, ProtoEncodeErr>(be_bytes(*data as nat, 8)));
        Ok(())
    }
}

impl ProtoEncode for i64 {
    type Repr = i64;

    open spec fn spec_encode(data: i64) -> Result<Seq<u8>, ProtoEncodeErr> {
        Ok(be_bytes((data as u64) as nat, 8))
    }

    fn encode(data: &i64, writer: &mut Vec<u8>) -> (r: Result<(), ProtoEncodeErr>) {
        write_be(writer, (*data as u64) as u128, 8);
        Ok(())
    }
}

impl ProtoEncode for u128 {
    type Repr = u128;

    open spec fn spec_encode(data: u128) -> Result<Seq<u8>, ProtoEncodeErr> {
        Ok(be_bytes(data as nat, 16))
    }

    fn encode(data: &u128, writer: &mut Vec<u8>) -> (r: Result<(), ProtoEncodeErr>) {
        write_be(writer, *data, 16);
        Ok(())
    }
}

impl ProtoEncode for i128 {
    type Repr = i128;

    open spec fn spec_encode(data: i128) -> Result<Seq<u8>, ProtoEncodeErr> {
        Ok(be_bytes((data as u128) as nat, 16))
    }

    fn encode(data: &i128, writer: &mut Vec<u8>) -> (r: Result<(), ProtoEncodeErr>) {
        write_be(writer, *data as u128, 16);
        Ok(())
    }
}

/// A boolean is written as the byte `1` or `0`.
impl ProtoEncode for bool {
    type Repr = bool;

    open spec fn spec_encode(data: bool) -> Result<Seq<u8>, ProtoEncodeErr> {
        Ok(be_bytes(if data { 1 } else { 0 }, 1))
    }

    fn encode(data: &bool, writer: &mut Vec<u8>) -> (r: Result<(), ProtoEncodeErr>) {
        let b: u8 = if *data { 1 } else { 0 };
        write_be(writer, b as u128, 1);
        Ok(())
    }
}

/// A rotation sent as one byte: the number of 256ths of a full turn. The
/// conversion from and to degrees is floating point and is left to callers;
/// on the wire the angle is exactly this byte.
pub struct Angle;

impl ProtoEncode for Angle {
    type Repr = u8;

    open spec fn spec_encode(data: u8) -> Result<Seq<u8>, ProtoEncodeErr> {
        <u8 as ProtoEncode>::spec_encode(data)
    }

    fn encode(data: &u8, writer: &mut Vec<u8>) -> (r: Result<(), ProtoEncodeErr>) {
        <u8 as ProtoEncode>::encode(data, writer)
    }
}

impl ProtoDecode for Angle {
    type Repr = u8;

    open spec fn spec_decode(input: Seq<u8>, allocated: nat, limit: nat) -> DecodeOutcome<u8> {
        <u8 as ProtoDecode>::spec_decode(input, allocated, limit)
    }

    fn decode<A: AllocTracker>(reader: &mut VecReader, alloc_tracker: &mut A) -> (r: Result<
        u8,
        ProtoDecodeErr,
    >) {
        <u8 as ProtoDecode>::decode(reader, alloc_tracker)
    }
}

/// A block position packed into 64 bits: 26 bits of x, 26 bits of z and
/// 12 bits of y, from the most significant end.
pub struct Position;

/// The packed form of a block position.
pub open spec fn position_bits(p: (i32, i32, i32)) -> u64 {
    (((p.0 as u64) & 0x3ffffff) << 38u64) | ((p.1 as u64) & 0xfff) | (((p.2 as u64) & 0x3ffffff)
        << 12u64)
}

/// The block position read from its packed form: x and z are sign-extended,
/// y is taken as the unsigned low 12 bits.
pub open spec fn position_of(val: i64) -> (i32, i32, i32) {
    (
        (val >> 38u64) as i32,
        (val & 0xfff) as i32,
        ((((val as u64) << 26u64) as i64) >> 38u64) as i32,
    )
}

impl ProtoEncode for Position {
    type Repr = (i32, i32, i32);

    open spec fn spec_encode(data: (i32, i32, i32)) -> Result<Seq<u8>, ProtoEncodeErr> {
        Ok(be_bytes(position_bits(data) as nat, 8))
    }

    fn encode(data: &(i32, i32, i32), writer: &mut Vec<u8>) -> (r: Result<(), ProtoEncodeErr>) {
        let x: u64 = (((data.0 as u64) & 0x3ffffff) << 38u64) | ((data.1 as u64) & 0xfff) | (((
        data.2 as u64) & 0x3ffffff) << 12u64);
        <u64 as ProtoEncode>::encode(&x, writer)
    }
}

impl ProtoDecode for Position {
    type Repr = (i32, i32, i32);

    open spec fn spec_decode(input: Seq<u8>, allocated: nat, limit: nat) -> DecodeOutcome<
        (i32, i32, i32),
    > {
        map_outcome(<i64 as ProtoDecode>::spec_decode(input, allocated, limit), |v: i64| position_of(v))
    }

    fn decode<A: AllocTracker>(reader: &mut VecReader, alloc_tracker: &mut A) -> (r: Result<
        (i32, i32, i32),
        ProtoDecodeErr,
    >) {
        let val: i64 = match <i64 as ProtoDecode>::decode(reader, alloc_tracker) {
            Ok(v) => v,
            Err(e) => return Err(e),
        };
        let x = (val >> 38u64) as i32;
        let y = (val & 0xfff) as i32;
        let z = ((((val as u64) << 26u64) as i64) >> 38u64) as i32;
        Ok((x, y, z))
    }
}

proof fn lemma_position_bits_roundtrip(x: i32, y: i32, z: i32)
    requires
        -0x200_0000 <= x < 0x200_0000,
        0 <= y < 0x1000,
        -0x200_0000 <= z < 0x200_0000,
    ensures
        position_of(position_bits((x, y, z)) as i64) == (x, y, z),
{
    let b = position_bits((x, y, z));
    assert(((b as i64) >> 38u64) as i32 == x) by (bit_vector)
        requires
            b == (((x as u64) & 0x3ffffff) << 38u64) | ((y as u64) & 0xfff) | (((z as u64)
                & 0x3ffffff) << 12u64),
            -0x200_0000 <= x < 0x200_0000,
    ;
    assert(((b as i64) & 0xfff) as i32 == y) by (bit_vector)
        requires
            b == (((x as u64) & 0x3ffffff) << 38u64) | ((y as u64) & 0xfff) | (((z as u64)
                & 0x3ffffff) << 12u64),
            0 <= y < 0x1000,
    ;
    assert(((((b as i64) as u64) << 26u64) as i64 >> 38u64) as i32 == z) by (bit_vector)
        requires
            b == (((x as u64) & 0x3ffffff) << 38u64) | ((y as u64) & 0xfff) | (((z as u64)
                & 0x3ffffff) << 12u64),
            -0x200_0000 <= z < 0x200_0000,
    ;
}

/// A position whose x and z fit in 26 signed bits and whose y fits in 12
/// unsigned bits reads back as itself, consuming its eight bytes.
pub proof fn lemma_position_roundtrip(p: (i32, i32, i32), rest: Seq<u8>, allocated: nat, limit: nat)
    requires
        -0x200_0000 <= p.0 < 0x200_0000,
        0 <= p.1 < 0x1000,
        -0x200_0000 <= p.2 < 0x200_0000,
    ensures
        <Position as ProtoDecode>::spec_decode(
            <Position as ProtoEncode>::spec_encode(p)->Ok_0 + rest,
            allocated,
            limit,
        ) == (Ok::<(i32, i32, i32), ProtoDecodeErr>(p), 8nat, allocated),
{
    let b = position_bits(p);
    let bytes = be_bytes(b as nat, 8);
    lemma_be_bytes_len(b as nat, 8);
    lemma_be_roundtrip(b as nat, 8);
    assert(pow256(8) == 0x1_0000_0000_0000_0000) by {
        reveal_with_fuel(pow256, 9);
    }
    assert((bytes + rest).take(8) =~= bytes);
    lemma_position_bits_roundtrip(p.0, p.1, p.2);
    assert((b as nat) as i64 == b as i64);
}

/// An optional value is a presence flag followed by the value when present.
impl<T: ProtoDecode> ProtoDecode for Option<T> {
    type Repr = Option<T::Repr>;

    open spec fn spec_decode(input: Seq<u8>, allocated: nat, limit: nat) -> DecodeOutcome<
        Option<<T::Repr as DeepView>::V>,
    > {
        let flag = <bool as ProtoDecode>::spec_decode(input, allocated, limit);
        match flag.0 {
            Err(e) => (Err(e), flag.1, flag.2),
            Ok(false) => (Ok(None), flag.1, flag.2),
            Ok(true) => {
                let v = T::spec_decode(input.skip(flag.1 as int), flag.2, limit);
                (
                    match v.0 {
                        Ok(x) => Ok(Some(x)),
                        Err(e) => Err(e),
                    },
                    flag.1 + v.1,
                    v.2,
                )
            },
        }
    }

    fn decode<A: AllocTracker>(reader: &mut VecReader, alloc_tracker: &mut A) -> (r: Result<
        Option<T::Repr>,
        ProtoDecodeErr,
    >) {
        let ghost input = reader.rest();
        let present = match <bool as ProtoDecode>::decode(reader, alloc_tracker) {
            Ok(b) => b,
            Err(e) => return Err(e),
        };
        if present {
            let ghost mid = reader.rest();
            let r = T::decode(reader, alloc_tracker);
            proof {
                let n1 = <bool as ProtoDecode>::spec_decode(input, 0, 0).1;
                let n2 = T::spec_decode(
                    mid,
                    old(alloc_tracker).spec_allocated() as nat,
                    old(alloc_tracker).spec_limit() as nat,
                ).1;
                assert(input.skip(n1 as int).skip(n2 as int) =~= input.skip((n1 + n2) as int));
            }
            match r {
                Ok(v) => Ok(Some(v)),
                Err(e) => Err(e),
            }
        } else {
            Ok(None)
        }
    }
}

/// An optional value is written without a presence flag: a present value is
/// written as itself, an absent one as nothing.
impl<T: ProtoEncode> ProtoEncode for Option<T> {
    type Repr = Option<T::Repr>;

    open spec fn spec_encode(data: Option<<T::Repr as DeepView>::V>) -> Result<Seq<u8>, ProtoEncodeErr> {
        match data {
            Some(v) => T::spec_encode(v),
            None => Ok(Seq::empty()),
        }
    }

    fn encode(data: &Option<T::Repr>, writer: &mut Vec<u8>) -> (r: Result<(), ProtoEncodeErr>) {
        match data {
            Some(v) => T::encode(v, writer),
            None => {
                assert(writer@ =~= writer@ + Seq::<u8>::empty());
                Ok(())
            },
        }
    }
}

/// One of two values.
#[derive(Clone, Copy, Debug, PartialEq, Eq, Structural)]
pub enum Either<L, R> {
    Left(L),
    Right(R),
}

impl<L: DeepView, R: DeepView> DeepView for Either<L, R> {
    type V = Either<L::V, R::V>;

    open spec fn deep_view(&self) -> Either<L::V, R::V> {
        match self {
            Either::Left(l) => Either::Left(l.deep_view()),
            Either::Right(r) => Either::Right(r.deep_view()),
        }
    }
}

/// Either value is written as itself, with nothing to tell which it is.
impl<L: ProtoEncode, R: ProtoEncode> ProtoEncode for Either<L, R> {
    type Repr = Either<L::Repr, R::Repr>;

    open spec fn spec_encode(data: Either<<L::Repr as DeepView>::V, <R::Repr as DeepView>::V>) -> Result<
        Seq<u8>,
        ProtoEncodeErr,
    > {
        match data {
            Either::Left(l) => L::spec_encode(l),
            Either::Right(r) => R::spec_encode(r),
        }
    }

    fn encode(data: &Either<L::Repr, R::Repr>, writer: &mut Vec<u8>) -> (r: Result<(), ProtoEncodeErr>) {
        match data {
            Either::Left(l) => L::encode(l, writer),
            Either::Right(r) => R::encode(r, writer),
        }
    }
}

/// The left type is tried first; when it fails, the right type is tried
/// from where the left one stopped, and when that fails too, neither fits.
impl<X: ProtoDecode, Y: ProtoDecode> ProtoDecode for Either<X, Y> {
    type Repr = Either<X::Repr, Y::Repr>;

    open spec fn spec_decode(input: Seq<u8>, allocated: nat, limit: nat) -> DecodeOutcome<
        Either<<X::Repr as DeepView>::V, <Y::Repr as DeepView>::V>,
    > {
        let l = X::spec_decode(input, allocated, limit);
        match l.0 {
            Ok(v) => (Ok(Either::Left(v)), l.1, l.2),
            Err(_) => {
                let r = Y::spec_decode(input.skip(l.1 as int), l.2, limit);
                (
                    match r.0 {
                        Ok(v) => Ok(Either::Right(v)),
                        Err(_) => Err(ProtoDecodeErr::InvalidEither),
                    },
                    l.1 + r.1,
                    r.2,
                )
            },
        }
    }

    fn decode<A: AllocTracker>(reader: &mut VecReader, alloc_tracker: &mut A) -> (r: Result<
        Either<X::Repr, Y::Repr>,
        ProtoDecodeErr,
    >) {
        let ghost input = reader.rest();
        match X::decode(reader, alloc_tracker) {
            Ok(l) => Ok(Either::Left(l)),
            Err(_) => {
                let ghost mid = reader.rest();
                let ghost mid_alloc = alloc_tracker.spec_allocated();
                let r = Y::decode(reader, alloc_tracker);
                proof {
                    let n1 = X::spec_decode(
                        input,
                        old(alloc_tracker).spec_allocated() as nat,
                        old(alloc_tracker).spec_limit() as nat,
                    ).1;
                    let n2 = Y::spec_decode(mid, mid_alloc as nat, old(alloc_tracker).spec_limit() as nat).1;
                    assert(input.skip(n1 as int).skip(n2 as int) =~= input.skip((n1 + n2) as int));
                }
                match r {
                    Ok(v) => Ok(Either::Right(v)),
                    Err(_) => Err(ProtoDecodeErr::InvalidEither),
                }
            },
        }
    }
}

impl<T: ProtoDecode> ProtoDecode for Arc<T> {
    type Repr = Arc<T::Repr>;

    open spec fn spec_decode(input: Seq<u8>, allocated: nat, limit: nat) -> DecodeOutcome<
        <T::Repr as DeepView>::V,
    > {
        T::spec_decode(input, allocated, limit)
    }

    fn decode<A: AllocTracker>(reader: &mut VecReader, alloc_tracker: &mut A) -> (r: Result<
        Arc<T::Repr>,
        ProtoDecodeErr,
    >) {
        match T::decode(reader, alloc_tracker) {
            Ok(v) => Ok(Arc::new(v)),
            Err(e) => Err(e),
        }
    }
}

impl<T: ProtoEncode> ProtoEncode for Arc<T> {
    type Repr = Arc<T::Repr>;

    open spec fn spec_encode(data: <T::Repr as DeepView>::V) -> Result<Seq<u8>, ProtoEncodeErr> {
        T::spec_encode(data)
    }

    fn encode(data: &Arc<T::Repr>, writer: &mut Vec<u8>) -> (r: Result<(), ProtoEncodeErr>) {
        T::encode(&**data, writer)
    }
}

/// A root tag is its type byte, which must name a compound, then the
/// compound's payload. It is decoded against its own limits, starting from the
/// bytes already allocated, and what it accounted for is then allocated at once.
impl ProtoDecode for TagRoot {
    type Repr = Tag;

    open spec fn spec_decode(input: Seq<u8>, allocated: nat, limit: nat) -> DecodeOutcome<TagView> {
        if input.len() < 1 {
            (Err(eof_err()), 0, allocated)
        } else {
            let id = input[0] as i8;
            match TagType::spec_from_id(id) {
                None => (Err(ProtoDecodeErr::NbtDecodeErr(NbtDecodeErr::InvalidTagType(id))), 1, allocated),
                Some(t) => if t != TagType::Compound {
                    (Err(ProtoDecodeErr::NbtDecodeErr(NbtDecodeErr::UnexpectedTagType(t))), 1, allocated)
                } else {
                    let o = tag_decode(
                        TagType::Compound,
                        input.skip(1),
                        allocated,
                        0,
                        MAX_TAG_SIZE as nat,
                        MAX_RECURSION_DEPTH as nat,
                    );
                    match o.0 {
                        Err(e) => (Err(ProtoDecodeErr::NbtDecodeErr(e)), 1 + o.1, allocated),
                        Ok(v) => {
                            let a = alloc_outcome(allocated, limit, (o.2 - allocated) as nat);
                            (
                                match a.0 {
                                    Ok(()) => Ok(v),
                                    Err(e) => Err(e),
                                },
                                1 + o.1,
                                a.1,
                            )
                        },
                    }
                },
            }
        }
    }

    fn decode<A: AllocTracker>(reader: &mut VecReader, alloc_tracker: &mut A) -> (r: Result<
        Tag,
        ProtoDecodeErr,
    >) {
        let ghost input = reader.rest();
        assert(input =~= input.skip(0));
        let id = match reader.read_u8() {
            Ok(b) => b as i8,
            Err(k) => return Err(ProtoDecodeErr::IoErr(k)),
        };
        let tag_type = match TagType::try_from(id) {
            Ok(t) => t,
            Err(_) => return Err(ProtoDecodeErr::NbtDecodeErr(NbtDecodeErr::InvalidTagType(id))),
        };
        if tag_type != TagType::Compound {
            return Err(ProtoDecodeErr::NbtDecodeErr(NbtDecodeErr::UnexpectedTagType(tag_type)));
        }
        let allocated_start = alloc_tracker.allocated();
        let mut nbt_tracker = BasicResourceTracker {
            allocated: allocated_start,
            max_allocated: MAX_TAG_SIZE,
            depth: 0,
            max_depth: MAX_RECURSION_DEPTH,
        };
        let ghost after_id = reader.rest();
        let result = decode_tag(TagType::Compound, reader, &mut nbt_tracker);
        proof {
            let o = tag_decode(
                TagType::Compound,
                after_id,
                allocated_start as nat,
                0,
                MAX_TAG_SIZE as nat,
                MAX_RECURSION_DEPTH as nat,
            );
            lemma_tag_decode_len(
                TagType::Compound,
                after_id,
                allocated_start as nat,
                0,
                MAX_TAG_SIZE as nat,
                MAX_RECURSION_DEPTH as nat,
            );
            assert(after_id == input.skip(1));
            assert(input.skip(1).skip(o.1 as int) =~= input.skip((1 + o.1) as int));
        }
        let tag = match result {
            Ok(t) => t,
            Err(e) => return Err(ProtoDecodeErr::NbtDecodeErr(e)),
        };
        match alloc_tracker.allocate(nbt_tracker.allocated - allocated_start) {
            Ok(()) => Ok(tag),
            Err(e) => Err(e),
        }
    }
}

/// The powers of 256 that the fixed widths use.
proof fn lemma_pow256_widths()
    ensures
        pow256(1) == 0x100,
        pow256(2) == 0x1_0000,
        pow256(4) == 0x1_0000_0000,
        pow256(8) == 0x1_0000_0000_0000_0000,
        pow256(16) == 0x1_0000_0000_0000_0000_0000_0000_0000_0000,
{
    reveal_with_fuel(pow256, 17);
}

/// The `n` bytes of a number below `256^n` denote the number, and reading
/// them back, whatever follows, gives it and consumes exactly them.
proof fn lemma_be_wire(v: nat, n: nat, rest: Seq<u8>, allocated: nat)
    requires
        v < pow256(n),
    ensures
        be_bytes(v, n).len() == n,
        be_value(be_bytes(v, n)) == v,
        be_decode(be_bytes(v, n) + rest, n, allocated) == (Ok::<nat, ProtoDecodeErr>(v), n, allocated),
{
    lemma_be_bytes_len(v, n);
    lemma_be_roundtrip(v, n);
    vstd::arithmetic::div_mod::lemma_small_mod(v, pow256(n));
    assert((be_bytes(v, n) + rest).take(n as int) =~= be_bytes(v, n));
}

/// A `u8` goes on the wire as the one byte it is, and that byte reads back
/// as the same number, whatever follows.
pub proof fn lemma_u8_wire(x: u8, rest: Seq<u8>, allocated: nat, limit: nat)
    ensures
        <u8 as ProtoEncode>::spec_encode(x) == Ok::<Seq<u8>, ProtoEncodeErr>(seq![x]),
        <u8 as ProtoDecode>::spec_decode(seq![x] + rest, allocated, limit) == (Ok::<u8, ProtoDecodeErr>(x), 1nat, allocated),
{
    lemma_pow256_widths();
    lemma_be_wire(x as nat, 1, rest, allocated);
    assert(be_bytes(x as nat, 1) =~= seq![x]) by {
        reveal_with_fuel(be_bytes, 2);
    }
}

/// An `i8` goes on the wire as the one byte of its two's complement, and
/// that byte reads back as the same number, whatever follows.
pub proof fn lemma_i8_wire(x: i8, rest: Seq<u8>, allocated: nat, limit: nat)
    ensures
        <i8 as ProtoEncode>::spec_encode(x) == Ok::<Seq<u8>, ProtoEncodeErr>(seq![x as u8]),
        <i8 as ProtoDecode>::spec_decode(seq![x as u8] + rest, allocated, limit) == (Ok::<i8, ProtoDecodeErr>(x), 1nat, allocated),
{
    lemma_pow256_widths();
    let b = x as u8;
    lemma_be_wire(b as nat, 1, rest, allocated);
    assert(be_bytes(b as nat, 1) =~= seq![b]) by {
        reveal_with_fuel(be_bytes, 2);
    }
    assert((x as u8) as i8 == x) by (bit_vector);
}

/// A `u16` goes on the wire as its two bytes, most significant first: the
/// bytes denote the number, and reading them back gives it.
pub proof fn lemma_u16_wire(x: u16, rest: Seq<u8>, allocated: nat, limit: nat)
    ensures
        <u16 as ProtoEncode>::spec_encode(x) matches Ok(s) && s.len() == 2 && be_value(s) == x
            && <u16 as ProtoDecode>::spec_decode(s + rest, allocated, limit) == (Ok::<u16, ProtoDecodeErr>(x), 2nat, allocated),
{
    lemma_pow256_widths();
    lemma_be_wire(x as nat, 2, rest, allocated);
}

/// A `u32` goes on the wire as its four bytes, most significant first: the
/// bytes denote the number, and reading them back gives it.
pub proof fn lemma_u32_wire(x: u32, rest: Seq<u8>, allocated: nat, limit: nat)
    ensures
        <u32 as ProtoEncode>::spec_encode(x) matches Ok(s) && s.len() == 4 && be_value(s) == x
            && <u32 as ProtoDecode>::spec_decode(s + rest, allocated, limit) == (Ok::<u32, ProtoDecodeErr>(x), 4nat, allocated),
{
    lemma_pow256_widths();
    lemma_be_wire(x as nat, 4, rest, allocated);
}

/// A `u64` goes on the wire as its eight bytes, most significant first: the
/// bytes denote the number, and reading them back gives it.
pub proof fn lemma_u64_wire(x: u64, rest: Seq<u8>, allocated: nat, limit: nat)
    ensures
        <u64 as ProtoEncode>::spec_encode(x) matches Ok(s) && s.len() == 8 && be_value(s) == x
            && <u64 as ProtoDecode>::spec_decode(s + rest, allocated, limit) == (Ok::<u64, ProtoDecodeErr>(x), 8nat, allocated),
{
    lemma_pow256_widths();
    lemma_be_wire(x as nat, 8, rest, allocated);
}

/// A `u128` goes on the wire as all sixteen of its bytes, most significant
/// first: the bytes denote the number itself, and reading them back gives it.
pub proof fn lemma_u128_wire(x: u128, rest: Seq<u8>, allocated: nat, limit: nat)
    ensures
        <u128 as ProtoEncode>::spec_encode(x) matches Ok(s) && s.len() == 16 && be_value(s) == x
            && <u128 as ProtoDecode>::spec_decode(s + rest, allocated, limit) == (Ok::<u128, ProtoDecodeErr>(x), 16nat, allocated),
{
    lemma_pow256_widths();
    lemma_be_wire(x as nat, 16, rest, allocated);
}

/// An `i16` goes on the wire as the two bytes of its two's complement, most
/// significant first, and reading them back gives the number.
pub proof fn lemma_i16_wire(x: i16, rest: Seq<u8>, allocated: nat, limit: nat)
    ensures
        <i16 as ProtoEncode>::spec_encode(x) matches Ok(s) && s.len() == 2 && be_value(s) == x as u16
            && <i16 as ProtoDecode>::spec_decode(s + rest, allocated, limit) == (Ok::<i16, ProtoDecodeErr>(x), 2nat, allocated),
{
    lemma_pow256_widths();
    lemma_be_wire((x as u16) as nat, 2, rest, allocated);
    assert((x as u16) as i16 == x) by (bit_vector);
}

/// An `i32` goes on the wire as the four bytes of its two's complement, most
/// significant first, and reading them back gives the number.
pub proof fn lemma_i32_wire(x: i32, rest: Seq<u8>, allocated: nat, limit: nat)
    ensures
        <i32 as ProtoEncode>::spec_encode(x) matches Ok(s) && s.len() == 4 && be_value(s) == x as u32
            && <i32 as ProtoDecode>::spec_decode(s + rest, allocated, limit) == (Ok::<i32, ProtoDecodeErr>(x), 4nat, allocated),
{
    lemma_pow256_widths();
    lemma_be_wire((x as u32) as nat, 4, rest, allocated);
    assert((x as u32) as i32 == x) by (bit_vector);
}

/// An `i64` goes on the wire as the eight bytes of its two's complement,
/// most significant first, and reading them back gives the number.
pub proof fn lemma_i64_wire(x: i64, rest: Seq<u8>, allocated: nat, limit: nat)
    ensures
        <i64 as ProtoEncode>::spec_encode(x) matches Ok(s) && s.len() == 8 && be_value(s) == x as u64
            && <i64 as ProtoDecode>::spec_decode(s + rest, allocated, limit) == (Ok::<i64, ProtoDecodeErr>(x), 8nat, allocated),
{
    lemma_pow256_widths();
    lemma_be_wire((x as u64) as nat, 8, rest, allocated);
    assert((x as u64) as i64 == x) by (bit_vector);
}

/// An `i128` goes on the wire as the sixteen bytes of its two's complement,
/// most significant first, and reading them back gives the number.
pub proof fn lemma_i128_wire(x: i128, rest: Seq<u8>, allocated: nat, limit: nat)
    ensures
        <i128 as ProtoEncode>::spec_encode(x) matches Ok(s) && s.len() == 16 && be_value(s) == x as u128
            && <i128 as ProtoDecode>::spec_decode(s + rest, allocated, limit) == (Ok::<i128, ProtoDecodeErr>(x), 16nat, allocated),
{
    lemma_pow256_widths();
    lemma_be_wire((x as u128) as nat, 16, rest, allocated);
    assert((x as u128) as i128 == x) by (bit_vector);
}

/// A boolean goes on the wire as one byte, 1 for true and 0 for false, and
/// reading that byte back gives the boolean.
pub proof fn lemma_bool_wire(x: bool, rest: Seq<u8>, allocated: nat, limit: nat)
    ensures
        <bool as ProtoEncode>::spec_encode(x) == Ok::<Seq<u8>, ProtoEncodeErr>(seq![if x { 1u8 } else { 0u8 }]),
        <bool as ProtoDecode>::spec_decode(seq![if x { 1u8 } else { 0u8 }] + rest, allocated, limit) == (
            Ok::<bool, ProtoDecodeErr>(x),
            1nat,
            allocated,
        ),
{
    lemma_pow256_widths();
    let b: u8 = if x { 1u8 } else { 0u8 };
    lemma_be_wire(b as nat, 1, rest, allocated);
    assert(be_bytes(b as nat, 1) =~= seq![b]) by {
        reveal_with_fuel(be_bytes, 2);
    }
}

/// An angle goes on the wire as the one byte of its step count, and that
/// byte reads back as the same angle.
pub proof fn lemma_angle_wire(x: u8, rest: Seq<u8>, allocated: nat, limit: nat)
    ensures
        <Angle as ProtoEncode>::spec_encode(x) == Ok::<Seq<u8>, ProtoEncodeErr>(seq![x]),
        <Angle as ProtoDecode>::spec_decode(seq![x] + rest, allocated, limit) == (Ok::<u8, ProtoDecodeErr>(x), 1nat, allocated),
{
    lemma_u8_wire(x, rest, allocated, limit);
}

} // verus!
