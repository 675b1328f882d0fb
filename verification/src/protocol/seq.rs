//! Length-prefixed sequences: vectors, strings and trailing byte runs.
use vstd::prelude::*;

use vstd::utf8::{decode_utf8, encode_utf8, valid_utf8};

use crate::io::VecReader;
use crate::protocol::decode::{
    alloc_items, alloc_outcome, decoded, eof_err, reader_step, result_view, AllocTracker,
    DecodeOutcome, ProtoDecode, ProtoDecodeErr, ProtoDecodeSeq,
};
use crate::protocol::encode::{encoded, then_encode, ProtoEncode, ProtoEncodeErr, ProtoEncodeSeq};
use crate::protocol::varint::{decode_var_int, encode_var_int, varint_bytes, varint_decode, VarInt};
use crate::text::{identifier_of, string_from_utf8, Identifier};

verus! {

/// The longest vector the protocol accepts.
pub const MAX_VEC_LEN: usize = 1 << 21;

/// The longest string, in bytes, the protocol accepts.
pub const MAX_STR_LEN: usize = 32767 * 3;

/// Decoding a length prefix: a variable-length integer that must be neither
/// negative nor above `max`.
pub open spec fn len_decode(input: Seq<u8>, allocated: nat, max: usize) -> DecodeOutcome<usize> {
    (
        match varint_decode(input).0 {
            Err(e) => Err(e),
            Ok(len) => if len < 0 {
                Err(ProtoDecodeErr::InvalidSeqLen(len))
            } else if len > max {
                Err(ProtoDecodeErr::SeqTooLong(len as usize, max))
            } else {
                Ok(len as usize)
            },
        },
        varint_decode(input).1,
        allocated,
    )
}

/// Encoding a length prefix of a sequence of `len` items, at most `max`.
pub open spec fn len_encode(len: nat, max: usize) -> Result<Seq<u8>, ProtoEncodeErr> {
    if len > max {
        Err(ProtoEncodeErr::SeqTooLong(len as usize, max))
    } else if len > i32::MAX {
        Err(ProtoEncodeErr::InvalidSeqLen(len as usize))
    } else {
        Ok(varint_bytes(len as u32))
    }
}

/// A length prefix followed by the body that it announces.
pub open spec fn prefixed<V>(
    len_out: DecodeOutcome<usize>,
    input: Seq<u8>,
    body: spec_fn(Seq<u8>, nat, usize) -> DecodeOutcome<V>,
) -> DecodeOutcome<V> {
    match len_out.0 {
        Err(e) => (Err(e), len_out.1, len_out.2),
        Ok(len) => {
            let out = body(input.skip(len_out.1 as int), len_out.2, len);
            (out.0, len_out.1 + out.1, out.2)
        },
    }
}

/// Decodes a length prefix of at most `max`.
pub fn decode_seq_len(reader: &mut VecReader, max: usize) -> (r: Result<usize, ProtoDecodeErr>)
    requires
        old(reader).wf(),
    ensures
        reader_step(*old(reader), *final(reader)),
        len_decode(old(reader).rest(), 0, max).0 == r,
        len_decode(old(reader).rest(), 0, max).1 <= old(reader).rest().len(),
        final(reader).rest() == old(reader).rest().skip(len_decode(old(reader).rest(), 0, max).1 as int),
{
    let len = match decode_var_int(reader) {
        Ok(len) => len,
        Err(e) => return Err(e),
    };
    if len < 0 {
        return Err(ProtoDecodeErr::InvalidSeqLen(len));
    }
    let data_len = len as usize;
    if data_len > max {
        return Err(ProtoDecodeErr::SeqTooLong(data_len, max));
    }
    Ok(data_len)
}

/// Encodes a length prefix of `data_len` items, at most `max`.
pub fn encode_seq_len(data_len: usize, max: usize, writer: &mut Vec<u8>) -> (r: Result<usize, ProtoEncodeErr>)
    ensures
        encoded(
            len_encode(data_len as nat, max),
            match r {
                Ok(_) => Ok(()),
                Err(e) => Err(e),
            },
            old(writer)@,
            final(writer)@,
        ),
        r matches Ok(n) ==> n == data_len,
        max <= i32::MAX ==> (r is Ok <==> data_len <= max),
{
    if data_len > max {
        return Err(ProtoEncodeErr::SeqTooLong(data_len, max));
    }
    if data_len > i32::MAX as usize {
        return Err(ProtoEncodeErr::InvalidSeqLen(data_len));
    }
    encode_var_int(data_len as i32, writer);
    Ok(data_len)
}

/// Decoding `n` items one after the other.
pub open spec fn decode_items<T: ProtoDecode>(
    input: Seq<u8>,
    allocated: nat,
    limit: nat,
    n: nat,
) -> DecodeOutcome<Seq<<T::Repr as DeepView>::V>>
    decreases n,
{
    if n == 0 {
        (Ok(Seq::empty()), 0, allocated)
    } else {
        let prev = decode_items::<T>(input, allocated, limit, (n - 1) as nat);
        match prev.0 {
            Err(e) => prev,
            Ok(items) => {
                let item = T::spec_decode(input.skip(prev.1 as int), prev.2, limit);
                (
                    match item.0 {
                        Ok(v) => Ok(items.push(v)),
                        Err(e) => Err(e),
                    },
                    prev.1 + item.1,
                    item.2,
                )
            },
        }
    }
}

/// Once an item fails, decoding more items fails the same way.
pub proof fn lemma_decode_items_err<T: ProtoDecode>(
    input: Seq<u8>,
    allocated: nat,
    limit: nat,
    i: nat,
    n: nat,
)
    requires
        i <= n,
        decode_items::<T>(input, allocated, limit, i).0 is Err,
    ensures
        decode_items::<T>(input, allocated, limit, n) == decode_items::<T>(
            input,
            allocated,
            limit,
            i,
        ),
    decreases n,
{
    if i < n {
        lemma_decode_items_err::<T>(input, allocated, limit, i, (n - 1) as nat);
    }
}

/// Encoding items one after the other.
pub open spec fn encode_items<T: ProtoEncode>(items: Seq<<T::Repr as DeepView>::V>) -> Result<
    Seq<u8>,
    ProtoEncodeErr,
>
    decreases items.len(),
{
    if items.len() == 0 {
        Ok(Seq::empty())
    } else {
        then_encode(encode_items::<T>(items.drop_last()), T::spec_encode(items.last()))
    }
}

pub proof fn lemma_encode_items_err<T: ProtoEncode>(
    items: Seq<<T::Repr as DeepView>::V>,
    i: nat,
    n: nat,
)
    requires
        i <= n <= items.len(),
        encode_items::<T>(items.take(i as int)) is Err,
    ensures
        encode_items::<T>(items.take(n as int)) == encode_items::<T>(items.take(i as int)),
    decreases n,
{
    if i < n {
        lemma_encode_items_err::<T>(items, i, (n - 1) as nat);
        assert(items.take(n as int).drop_last() =~= items.take(n - 1));
    }
}

impl<T: ProtoDecode> ProtoDecodeSeq for Vec<T> {
    type Repr = Vec<T::Repr>;

    open spec fn spec_decode_len(input: Seq<u8>, allocated: nat, limit: nat) -> DecodeOutcome<usize> {
        len_decode(input, allocated, MAX_VEC_LEN)
    }

    /// The items are accounted for up front, `len` times the size of one.
    open spec fn spec_decode_seq(input: Seq<u8>, allocated: nat, limit: nat, len: nat) -> DecodeOutcome<
        Seq<<T::Repr as DeepView>::V>,
    > {
        let a = alloc_outcome(allocated, limit, len * vstd::layout::size_of::<T::Repr>());
        match a.0 {
            Err(e) => (Err(e), 0, a.1),
            Ok(_) => decode_items::<T>(input, a.1, limit, len),
        }
    }

    fn decode_len<A: AllocTracker>(reader: &mut VecReader, alloc_tracker: &mut A) -> (r: Result<
        usize,
        ProtoDecodeErr,
    >) {
        decode_seq_len(reader, MAX_VEC_LEN)
    }

    fn decode_seq<A: AllocTracker>(reader: &mut VecReader, alloc_tracker: &mut A, len: usize) -> (r:
        Result<Vec<T::Repr>, ProtoDecodeErr>) {
        let ghost input = reader.rest();
        let ghost limit = alloc_tracker.spec_limit() as nat;
        match alloc_items(alloc_tracker, len, core::mem::size_of::<T::Repr>()) {
            Err(e) => {
                assert(input =~= input.skip(0));
                return Err(e);
            },
            Ok(()) => {},
        }
        let ghost start_alloc = alloc_tracker.spec_allocated() as nat;
        let mut result: Vec<T::Repr> = Vec::with_capacity(len);
        let mut i: usize = 0;
        let ghost mut consumed: nat = 0;
        assert(input =~= input.skip(0));
        assert(result.deep_view() =~= Seq::<<T::Repr as DeepView>::V>::empty());
        while i < len
            invariant
                i <= len,
                input == old(reader).rest(),
                reader_step(*old(reader), *reader),
                alloc_tracker.spec_limit() == limit,
                limit == old(alloc_tracker).spec_limit(),
                alloc_outcome(
                    old(alloc_tracker).spec_allocated() as nat,
                    limit,
                    len as nat * vstd::layout::size_of::<T::Repr>(),
                ) == (Ok::<(), ProtoDecodeErr>(()), start_alloc),
                consumed <= input.len(),
                reader.rest() == input.skip(consumed as int),
                decode_items::<T>(input, start_alloc, limit, i as nat) == (
                    Ok::<_, ProtoDecodeErr>(result.deep_view()),
                    consumed,
                    alloc_tracker.spec_allocated() as nat,
                ),
            decreases len - i,
        {
            let ghost before = reader.rest();
            let ghost prev_view = result.deep_view();
            match T::decode(reader, alloc_tracker) {
                Ok(v) => {
                    result.push(v);
                    proof {
                        let item = T::spec_decode(before, 0, 0);
                        assert(result.deep_view() =~= prev_view.push(v.deep_view()));
                        assert(input.skip(consumed as int).skip(
                            T::spec_decode(
                                input.skip(consumed as int),
                                decode_items::<T>(input, start_alloc, limit, i as nat).2,
                                limit,
                            ).1 as int,
                        ) =~= input.skip(
                            (consumed + T::spec_decode(
                                input.skip(consumed as int),
                                decode_items::<T>(input, start_alloc, limit, i as nat).2,
                                limit,
                            ).1) as int,
                        ));
                        consumed = consumed + T::spec_decode(
                            input.skip(consumed as int),
                            decode_items::<T>(input, start_alloc, limit, i as nat).2,
                            limit,
                        ).1;
                    }
                },
                Err(e) => {
                    proof {
                        let n1 = T::spec_decode(
                            input.skip(consumed as int),
                            decode_items::<T>(input, start_alloc, limit, i as nat).2,
                            limit,
                        ).1;
                        assert(input.skip(consumed as int).skip(n1 as int) =~= input.skip(
                            (consumed + n1) as int,
                        ));
                        lemma_decode_items_err::<T>(
                            input,
                            start_alloc,
                            limit,
                            (i + 1) as nat,
                            len as nat,
                        );
                    }
                    return Err(e);
                },
            }
            i = i + 1;
        }
        Ok(result)
    }
}

impl<T: ProtoDecode> ProtoDecode for Vec<T> {
    type Repr = Vec<T::Repr>;

    open spec fn spec_decode(input: Seq<u8>, allocated: nat, limit: nat) -> DecodeOutcome<
        Seq<<T::Repr as DeepView>::V>,
    > {
        prefixed(
            <Vec<T> as ProtoDecodeSeq>::spec_decode_len(input, allocated, limit),
            input,
            |rest: Seq<u8>, a: nat, len: usize|
                <Vec<T> as ProtoDecodeSeq>::spec_decode_seq(rest, a, limit, len as nat),
        )
    }

    fn decode<A: AllocTracker>(reader: &mut VecReader, alloc_tracker: &mut A) -> (r: Result<
        Vec<T::Repr>,
        ProtoDecodeErr,
    >) {
        let ghost input = reader.rest();
        let len = match <Vec<T> as ProtoDecodeSeq>::decode_len(reader, alloc_tracker) {
            Ok(len) => len,
            Err(e) => return Err(e),
        };
        let ghost mid = reader.rest();
        let r = <Vec<T> as ProtoDecodeSeq>::decode_seq(reader, alloc_tracker, len);
        proof {
            let n1 = <Vec<T> as ProtoDecodeSeq>::spec_decode_len(input, 0, 0).1;
            let n2 = <Vec<T> as ProtoDecodeSeq>::spec_decode_seq(
                mid,
                old(alloc_tracker).spec_allocated() as nat,
                old(alloc_tracker).spec_limit() as nat,
                len as nat,
            ).1;
            assert(input.skip(n1 as int).skip(n2 as int) =~= input.skip((n1 + n2) as int));
        }
        r
    }
}


/// Appends the items of `data` one after the other.
fn encode_all<T: ProtoEncode>(data: &Vec<T::Repr>, writer: &mut Vec<u8>) -> (r: Result<(), ProtoEncodeErr>)
    ensures
        encoded(encode_items::<T>(data.deep_view()), r, old(writer)@, final(writer)@),
{
    let ghost start = writer@;
    let ghost items = data.deep_view();
    let mut i: usize = 0;
    assert(items.take(0) =~= Seq::<<T::Repr as DeepView>::V>::empty());
    assert(start =~= start + Seq::<u8>::empty());
    while i < data.len()
        invariant
            i <= data.len(),
            items == data.deep_view(),
            start == old(writer)@,
            encode_items::<T>(items.take(i as int)) is Ok,
            writer@ == start + encode_items::<T>(items.take(i as int))->Ok_0,
        decreases data.len() - i,
    {
        let ghost before = writer@;
        let r = T::encode(&data[i], writer);
        proof {
            assert(items.take(i + 1).drop_last() =~= items.take(i as int));
            assert(items.take(i + 1).last() == data[i as int].deep_view());
        }
        match r {
            Ok(()) => {
                assert(writer@ =~= start + encode_items::<T>(items.take(i + 1))->Ok_0);
            },
            Err(e) => {
                proof {
                    lemma_encode_items_err::<T>(items, (i + 1) as nat, data.len() as nat);
                    assert(items.take(data.len() as int) =~= items);
                    assert(start.is_prefix_of(writer@)) by {
                        assert(before.is_prefix_of(writer@));
                        assert forall|k: int| 0 <= k < start.len() implies start[k] == writer@[k] by {
                            assert(before[k] == writer@[k]);
                        }
                    }
                }
                return Err(e);
            },
        }
        i = i + 1;
    }
    assert(items.take(data.len() as int) =~= items);
    Ok(())
}

impl<T: ProtoEncode> ProtoEncodeSeq for Vec<T> {
    type Repr = Vec<T::Repr>;

    open spec fn spec_seq_len(data: Seq<<T::Repr as DeepView>::V>) -> nat {
        data.len()
    }

    open spec fn spec_encode_len(data: Seq<<T::Repr as DeepView>::V>) -> Result<Seq<u8>, ProtoEncodeErr> {
        len_encode(data.len(), MAX_VEC_LEN)
    }

    open spec fn spec_encode_seq(data: Seq<<T::Repr as DeepView>::V>) -> Result<Seq<u8>, ProtoEncodeErr> {
        encode_items::<T>(data)
    }

    fn encode_len(data: &Vec<T::Repr>, writer: &mut Vec<u8>) -> (r: Result<usize, ProtoEncodeErr>) {
        encode_seq_len(data.len(), MAX_VEC_LEN, writer)
    }

    fn encode_seq(data: &Vec<T::Repr>, writer: &mut Vec<u8>, len: usize) -> (r: Result<
        (),
        ProtoEncodeErr,
    >) {
        encode_all::<T>(data, writer)
    }
}

impl<T: ProtoEncode> ProtoEncode for Vec<T> {
    type Repr = Vec<T::Repr>;

    open spec fn spec_encode(data: Seq<<T::Repr as DeepView>::V>) -> Result<Seq<u8>, ProtoEncodeErr> {
        then_encode(
            <Vec<T> as ProtoEncodeSeq>::spec_encode_len(data),
            <Vec<T> as ProtoEncodeSeq>::spec_encode_seq(data),
        )
    }

    fn encode(data: &Vec<T::Repr>, writer: &mut Vec<u8>) -> (r: Result<(), ProtoEncodeErr>) {
        let ghost start = writer@;
        let len = match <Vec<T> as ProtoEncodeSeq>::encode_len(data, writer) {
            Ok(len) => len,
            Err(e) => return Err(e),
        };
        let ghost mid = writer@;
        let r = <Vec<T> as ProtoEncodeSeq>::encode_seq(data, writer, len);
        proof {
            if r is Ok {
                let d = data.deep_view();
                assert(writer@ =~= start + (len_encode(d.len(), MAX_VEC_LEN)->Ok_0
                    + encode_items::<T>(d)->Ok_0));
            } else {
                assert(start.is_prefix_of(writer@)) by {
                    assert forall|k: int| 0 <= k < start.len() implies start[k] == writer@[k] by {
                        assert(mid[k] == writer@[k]);
                    }
                }
            }
        }
        r
    }
}

/// The bytes of a string: its UTF-8 encoding.
pub open spec fn string_bytes(s: Seq<char>) -> Seq<u8> {
    encode_utf8(s)
}

/// Decoding a string body of `len` bytes: they are accounted for, read and
/// must be valid UTF-8.
pub open spec fn string_body_decode(input: Seq<u8>, allocated: nat, limit: nat, len: nat) -> DecodeOutcome<
    Seq<char>,
> {
    let a = alloc_outcome(allocated, limit, len);
    match a.0 {
        Err(e) => (Err(e), 0, a.1),
        Ok(_) => if len > input.len() {
            (Err(eof_err()), 0, a.1)
        } else if valid_utf8(input.take(len as int)) {
            (Ok(decode_utf8(input.take(len as int))), len, a.1)
        } else {
            (Err(ProtoDecodeErr::MalformedString), len, a.1)
        },
    }
}

/// Reads a string body of `len` bytes.
pub fn decode_string_body<A: AllocTracker>(reader: &mut VecReader, alloc_tracker: &mut A, len: usize) -> (r: Result<
    String,
    ProtoDecodeErr,
>)
    requires
        old(reader).wf(),
    ensures
        reader_step(*old(reader), *final(reader)),
        final(alloc_tracker).spec_limit() == old(alloc_tracker).spec_limit(),
        decoded(
            string_body_decode(
                old(reader).rest(),
                old(alloc_tracker).spec_allocated() as nat,
                old(alloc_tracker).spec_limit() as nat,
                len as nat,
            ),
            result_view(r),
            old(reader).rest(),
            final(reader).rest(),
            final(alloc_tracker).spec_allocated() as nat,
        ),
{
    assert(reader.rest() =~= reader.rest().skip(0));
    match alloc_tracker.allocate(len) {
        Err(e) => return Err(e),
        Ok(()) => {},
    }
    let buf = match reader.read_exact(len) {
        Ok(buf) => buf,
        Err(e) => return Err(ProtoDecodeErr::IoErr(e)),
    };
    match string_from_utf8(buf) {
        Some(s) => Ok(s),
        None => Err(ProtoDecodeErr::MalformedString),
    }
}

/// Appends the UTF-8 bytes of `s`.
pub fn write_str_bytes(s: &str, writer: &mut Vec<u8>)
    ensures
        final(writer)@ == old(writer)@ + string_bytes(s@),
{
    let bytes = s.as_bytes();
    let mut i: usize = 0;
    let ghost start = writer@;
    while i < bytes.len()
        invariant
            i <= bytes@.len(),
            bytes@ == string_bytes(s@),
            start == old(writer)@,
            writer@ == start + bytes@.take(i as int),
        decreases bytes.len() - i,
    {
        writer.push(bytes[i]);
        i = i + 1;
        assert(writer@ =~= start + bytes@.take(i as int));
    }
    assert(bytes@.take(bytes@.len() as int) =~= bytes@);
}

impl ProtoDecodeSeq for String {
    type Repr = String;

    open spec fn spec_decode_len(input: Seq<u8>, allocated: nat, limit: nat) -> DecodeOutcome<usize> {
        len_decode(input, allocated, MAX_STR_LEN)
    }

    open spec fn spec_decode_seq(input: Seq<u8>, allocated: nat, limit: nat, len: nat) -> DecodeOutcome<
        Seq<char>,
    > {
        string_body_decode(input, allocated, limit, len)
    }

    fn decode_len<A: AllocTracker>(reader: &mut VecReader, alloc_tracker: &mut A) -> (r: Result<
        usize,
        ProtoDecodeErr,
    >) {
        decode_seq_len(reader, MAX_STR_LEN)
    }

    fn decode_seq<A: AllocTracker>(reader: &mut VecReader, alloc_tracker: &mut A, len: usize) -> (r:
        Result<String, ProtoDecodeErr>) {
        decode_string_body(reader, alloc_tracker, len)
    }
}

impl ProtoDecode for String {
    type Repr = String;

    open spec fn spec_decode(input: Seq<u8>, allocated: nat, limit: nat) -> DecodeOutcome<Seq<char>> {
        prefixed(
            len_decode(input, allocated, MAX_STR_LEN),
            input,
            |rest: Seq<u8>, a: nat, len: usize| string_body_decode(rest, a, limit, len as nat),
        )
    }

    fn decode<A: AllocTracker>(reader: &mut VecReader, alloc_tracker: &mut A) -> (r: Result<
        String,
        ProtoDecodeErr,
    >) {
        let ghost input = reader.rest();
        let len = match decode_seq_len(reader, MAX_STR_LEN) {
            Ok(len) => len,
            Err(e) => return Err(e),
        };
        let ghost mid = reader.rest();
        let r = decode_string_body(reader, alloc_tracker, len);
        proof {
            let n1 = len_decode(input, 0, MAX_STR_LEN).1;
            let n2 = string_body_decode(
                mid,
                old(alloc_tracker).spec_allocated() as nat,
                old(alloc_tracker).spec_limit() as nat,
                len as nat,
            ).1;
            assert(input.skip(n1 as int).skip(n2 as int) =~= input.skip((n1 + n2) as int));
        }
        r
    }
}

impl ProtoEncodeSeq for String {
    type Repr = String;

    open spec fn spec_seq_len(data: Seq<char>) -> nat {
        string_bytes(data).len()
    }

    open spec fn spec_encode_len(data: Seq<char>) -> Result<Seq<u8>, ProtoEncodeErr> {
        len_encode(string_bytes(data).len(), MAX_STR_LEN)
    }

    open spec fn spec_encode_seq(data: Seq<char>) -> Result<Seq<u8>, ProtoEncodeErr> {
        Ok(string_bytes(data))
    }

    fn encode_len(data: &String, writer: &mut Vec<u8>) -> (r: Result<usize, ProtoEncodeErr>) {
        encode_seq_len(data.as_str().as_bytes().len(), MAX_STR_LEN, writer)
    }

    fn encode_seq(data: &String, writer: &mut Vec<u8>, len: usize) -> (r: Result<(), ProtoEncodeErr>) {
        write_str_bytes(data.as_str(), writer);
        Ok(())
    }
}

impl ProtoEncode for String {
    type Repr = String;

    open spec fn spec_encode(data: Seq<char>) -> Result<Seq<u8>, ProtoEncodeErr> {
        then_encode(
            <String as ProtoEncodeSeq>::spec_encode_len(data),
            <String as ProtoEncodeSeq>::spec_encode_seq(data),
        )
    }

    fn encode(data: &String, writer: &mut Vec<u8>) -> (r: Result<(), ProtoEncodeErr>) {
        let ghost start = writer@;
        let len = match <String as ProtoEncodeSeq>::encode_len(data, writer) {
            Ok(len) => len,
            Err(e) => return Err(e),
        };
        write_str_bytes(data.as_str(), writer);
        assert(writer@ =~= start + (varint_bytes(len as u32) + string_bytes(data@)));
        Ok(())
    }
}

/// The bytes that remain in a packet, without a length prefix.
pub struct RemainingBytes;

impl ProtoDecodeSeq for RemainingBytes {
    type Repr = Vec<u8>;

    /// The length is what is left of the input; nothing is consumed.
    open spec fn spec_decode_len(input: Seq<u8>, allocated: nat, limit: nat) -> DecodeOutcome<usize> {
        (Ok(input.len() as usize), 0, allocated)
    }

    open spec fn spec_decode_seq(input: Seq<u8>, allocated: nat, limit: nat, len: nat) -> DecodeOutcome<
        Seq<u8>,
    > {
        <Vec<u8> as ProtoDecodeSeq>::spec_decode_seq(input, allocated, limit, len)
    }

    fn decode_len<A: AllocTracker>(reader: &mut VecReader, alloc_tracker: &mut A) -> (r: Result<
        usize,
        ProtoDecodeErr,
    >) {
        assert(reader.rest() =~= reader.rest().skip(0));
        assert(Self::spec_decode_len(reader.rest(), 0, 0).1 == 0);
        let prev_pos = reader.position();
        let end = reader.end();
        if (end as u64) < prev_pos {
            return Ok(0);
        }
        Ok(end - prev_pos as usize)
    }

    fn decode_seq<A: AllocTracker>(reader: &mut VecReader, alloc_tracker: &mut A, len: usize) -> (r:
        Result<Vec<u8>, ProtoDecodeErr>) {
        assert(Self::spec_decode_seq(
            reader.rest(),
            alloc_tracker.spec_allocated() as nat,
            alloc_tracker.spec_limit() as nat,
            len as nat,
        ) == <Vec<u8> as ProtoDecodeSeq>::spec_decode_seq(
            reader.rest(),
            alloc_tracker.spec_allocated() as nat,
            alloc_tracker.spec_limit() as nat,
            len as nat,
        ));
        <Vec<u8> as ProtoDecodeSeq>::decode_seq(reader, alloc_tracker, len)
    }
}

impl ProtoDecode for RemainingBytes {
    type Repr = Vec<u8>;

    open spec fn spec_decode(input: Seq<u8>, allocated: nat, limit: nat) -> DecodeOutcome<Seq<u8>> {
        <Vec<u8> as ProtoDecodeSeq>::spec_decode_seq(input, allocated, limit, input.len())
    }

    fn decode<A: AllocTracker>(reader: &mut VecReader, alloc_tracker: &mut A) -> (r: Result<
        Vec<u8>,
        ProtoDecodeErr,
    >) {
        let ghost input = reader.rest();
        let len = match <RemainingBytes as ProtoDecodeSeq>::decode_len(reader, alloc_tracker) {
            Ok(len) => len,
            Err(e) => return Err(e),
        };
        assert(reader.rest() =~= input);
        assert(input.len() <= reader.source().len());
        <RemainingBytes as ProtoDecodeSeq>::decode_seq(reader, alloc_tracker, len)
    }
}

impl ProtoEncodeSeq for RemainingBytes {
    type Repr = Vec<u8>;

    open spec fn spec_seq_len(data: Seq<u8>) -> nat {
        data.len()
    }

    open spec fn spec_encode_len(data: Seq<u8>) -> Result<Seq<u8>, ProtoEncodeErr> {
        Ok(Seq::empty())
    }

    open spec fn spec_encode_seq(data: Seq<u8>) -> Result<Seq<u8>, ProtoEncodeErr> {
        Ok(data)
    }

    fn encode_len(data: &Vec<u8>, writer: &mut Vec<u8>) -> (r: Result<usize, ProtoEncodeErr>) {
        assert(writer@ =~= writer@ + Seq::<u8>::empty());
        Ok(data.len())
    }

    fn encode_seq(data: &Vec<u8>, writer: &mut Vec<u8>, len: usize) -> (r: Result<(), ProtoEncodeErr>) {
        let mut i: usize = 0;
        let ghost start = writer@;
        while i < data.len()
            invariant
                i <= data@.len(),
                start == old(writer)@,
                writer@ == start + data@.take(i as int),
            decreases data.len() - i,
        {
            writer.push(data[i]);
            i = i + 1;
            assert(writer@ =~= start + data@.take(i as int));
        }
        assert(data@.take(data@.len() as int) =~= data@);
        assert(data.deep_view() =~= data@);
        assert(Self::spec_encode_seq(data.deep_view()) == Ok::<Seq<u8>, ProtoEncodeErr>(data@));
        Ok(())
    }
}

impl ProtoEncode for RemainingBytes {
    type Repr = Vec<u8>;

    open spec fn spec_encode(data: Seq<u8>) -> Result<Seq<u8>, ProtoEncodeErr> {
        Ok(data)
    }

    fn encode(data: &Vec<u8>, writer: &mut Vec<u8>) -> (r: Result<(), ProtoEncodeErr>) {
        assert(data.deep_view() =~= data@);
        <RemainingBytes as ProtoEncodeSeq>::encode_seq(data, writer, data.len())
    }
}


/// An identifier travels as its full text.
impl ProtoEncode for Identifier {
    type Repr = Identifier;

    open spec fn spec_encode(data: (Seq<char>, usize)) -> Result<Seq<u8>, ProtoEncodeErr> {
        <String as ProtoEncode>::spec_encode(data.0)
    }

    fn encode(data: &Identifier, writer: &mut Vec<u8>) -> (r: Result<(), ProtoEncodeErr>) {
        <String as ProtoEncode>::encode(data.string_ref(), writer)
    }
}

/// An identifier is read as a string that must denote an identifier.
impl ProtoDecode for Identifier {
    type Repr = Identifier;

    open spec fn spec_decode(input: Seq<u8>, allocated: nat, limit: nat) -> DecodeOutcome<
        (Seq<char>, usize),
    > {
        let s = <String as ProtoDecode>::spec_decode(input, allocated, limit);
        (
            match s.0 {
                Err(e) => Err(e),
                Ok(text) => match identifier_of(text) {
                    Ok(v) => Ok(v),
                    Err(_) => Err(ProtoDecodeErr::InvalidIdentifier),
                },
            },
            s.1,
            s.2,
        )
    }

    fn decode<A: AllocTracker>(reader: &mut VecReader, alloc_tracker: &mut A) -> (r: Result<
        Identifier,
        ProtoDecodeErr,
    >) {
        let s = match <String as ProtoDecode>::decode(reader, alloc_tracker) {
            Ok(s) => s,
            Err(e) => return Err(e),
        };
        match Identifier::parse(s.as_str()) {
            Ok(id) => Ok(id),
            Err(_) => Err(ProtoDecodeErr::InvalidIdentifier),
        }
    }
}


/// A sequence field whose length is bounded: the announced length is checked
/// against `min`, `max` and `exact`, in that order, before the items are read.
pub open spec fn seq_field_decode<S: ProtoDecodeSeq>(
    input: Seq<u8>,
    allocated: nat,
    limit: nat,
    min: Option<usize>,
    max: Option<usize>,
    exact: Option<usize>,
) -> DecodeOutcome<<S::Repr as DeepView>::V> {
    let lo = S::spec_decode_len(input, allocated, limit);
    match lo.0 {
        Err(e) => (Err(e), lo.1, lo.2),
        Ok(len) => if min is Some && len < min->0 {
            (Err(ProtoDecodeErr::SeqTooShort(len, min->0)), lo.1, lo.2)
        } else if max is Some && len > max->0 {
            (Err(ProtoDecodeErr::SeqTooLong(len, max->0)), lo.1, lo.2)
        } else if exact is Some && len != exact->0 {
            (Err(ProtoDecodeErr::SeqLenMismatch(len, exact->0)), lo.1, lo.2)
        } else {
            let body = S::spec_decode_seq(input.skip(lo.1 as int), lo.2, limit, len as nat);
            (body.0, lo.1 + body.1, body.2)
        },
    }
}

/// Decodes a sequence field whose length is bounded.
pub fn decode_seq_field<S: ProtoDecodeSeq, A: AllocTracker>(
    reader: &mut VecReader,
    alloc_tracker: &mut A,
    min: Option<usize>,
    max: Option<usize>,
    exact: Option<usize>,
) -> (r: Result<S::Repr, ProtoDecodeErr>)
    requires
        old(reader).wf(),
    ensures
        reader_step(*old(reader), *final(reader)),
        final(alloc_tracker).spec_limit() == old(alloc_tracker).spec_limit(),
        decoded(
            seq_field_decode::<S>(
                old(reader).rest(),
                old(alloc_tracker).spec_allocated() as nat,
                old(alloc_tracker).spec_limit() as nat,
                min,
                max,
                exact,
            ),
            result_view(r),
            old(reader).rest(),
            final(reader).rest(),
            final(alloc_tracker).spec_allocated() as nat,
        ),
{
    let ghost input = reader.rest();
    let len = match S::decode_len(reader, alloc_tracker) {
        Ok(len) => len,
        Err(e) => return Err(e),
    };
    match min {
        Some(m) => if len < m {
            return Err(ProtoDecodeErr::SeqTooShort(len, m));
        },
        None => {},
    }
    match max {
        Some(m) => if len > m {
            return Err(ProtoDecodeErr::SeqTooLong(len, m));
        },
        None => {},
    }
    match exact {
        Some(m) => if len != m {
            return Err(ProtoDecodeErr::SeqLenMismatch(len, m));
        },
        None => {},
    }
    let ghost mid = reader.rest();
    let r = S::decode_seq(reader, alloc_tracker, len);
    proof {
        let n1 = S::spec_decode_len(input, old(alloc_tracker).spec_allocated() as nat, old(alloc_tracker).spec_limit() as nat).1;
        let n2 = S::spec_decode_seq(
            mid,
            S::spec_decode_len(input, old(alloc_tracker).spec_allocated() as nat, old(alloc_tracker).spec_limit() as nat).2,
            old(alloc_tracker).spec_limit() as nat,
            len as nat,
        ).1;
        assert(input.skip(n1 as int).skip(n2 as int) =~= input.skip((n1 + n2) as int));
    }
    r
}

/// A sequence field whose length is bounded: the header is written, then the
/// announced length is checked against `min`, `max` and `exact`, in that order,
/// and only then are the items written.
pub open spec fn seq_field_encode<S: ProtoEncodeSeq>(
    data: <S::Repr as DeepView>::V,
    min: Option<usize>,
    max: Option<usize>,
    exact: Option<usize>,
) -> Result<Seq<u8>, ProtoEncodeErr> {
    match S::spec_encode_len(data) {
        Err(e) => Err(e),
        Ok(header) => {
            let len = S::spec_seq_len(data) as usize;
            if min is Some && len < min->0 {
                Err(ProtoEncodeErr::SeqTooShort(len, min->0))
            } else if max is Some && len > max->0 {
                Err(ProtoEncodeErr::SeqTooLong(len, max->0))
            } else if exact is Some && len != exact->0 {
                Err(ProtoEncodeErr::SeqLenMismatch(len, exact->0))
            } else {
                then_encode(Ok(header), S::spec_encode_seq(data))
            }
        },
    }
}

/// Encodes a sequence field whose length is bounded.
pub fn encode_seq_field<S: ProtoEncodeSeq>(
    data: &S::Repr,
    writer: &mut Vec<u8>,
    min: Option<usize>,
    max: Option<usize>,
    exact: Option<usize>,
) -> (r: Result<(), ProtoEncodeErr>)
    ensures
        encoded(seq_field_encode::<S>(data.deep_view(), min, max, exact), r, old(writer)@, final(writer)@),
{
    let ghost start = writer@;
    let len = match S::encode_len(data, writer) {
        Ok(len) => len,
        Err(e) => return Err(e),
    };
    let ghost mid = writer@;
    proof {
        assert(start.is_prefix_of(mid));
    }
    match min {
        Some(m) => if len < m {
            return Err(ProtoEncodeErr::SeqTooShort(len, m));
        },
        None => {},
    }
    match max {
        Some(m) => if len > m {
            return Err(ProtoEncodeErr::SeqTooLong(len, m));
        },
        None => {},
    }
    match exact {
        Some(m) => if len != m {
            return Err(ProtoEncodeErr::SeqLenMismatch(len, m));
        },
        None => {},
    }
    let r = S::encode_seq(data, writer, len);
    proof {
        if r is Ok {
            assert(writer@ =~= start + (S::spec_encode_len(data.deep_view())->Ok_0
                + S::spec_encode_seq(data.deep_view())->Ok_0));
        } else {
            assert(start.is_prefix_of(writer@)) by {
                assert forall|k: int| 0 <= k < start.len() implies start[k] == writer@[k] by {
                    assert(mid[k] == writer@[k]);
                }
            }
        }
    }
    r
}

} // verus!
