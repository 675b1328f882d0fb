//! JSON documents, sent as length-prefixed text.
use vstd::prelude::*;

use crate::io::VecReader;
use crate::protocol::decode::{
    decoded, reader_step, AllocTracker, DecodeOutcome, ProtoDecodeErr,
};
use crate::protocol::encode::{encoded, then_encode, ProtoEncodeErr};
use crate::protocol::seq::{
    decode_seq_len, decode_string_body, encode_seq_len, len_decode, len_encode, prefixed,
    string_body_decode, string_bytes, write_str_bytes,
};

verus! {

#[verifier::external_type_specification]
#[verifier::external_body]
pub struct ExJsonValue(serde_json::Value);

/// The longest JSON text, in bytes, the protocol accepts.
pub const MAX_JSON_LEN: usize = 262144 * 3;

/// Whether `serde_json` accepts the text as a JSON document.
pub uninterp spec fn json_parses(text: Seq<char>) -> bool;

/// The value `serde_json` reads from a text that parses.
pub uninterp spec fn json_value_of(text: Seq<char>) -> serde_json::Value;

/// The compact text `serde_json` writes for a value.
pub uninterp spec fn json_text_of(value: serde_json::Value) -> Seq<char>;

/// `serde_json::from_str` into a JSON value: succeeds exactly on the texts
/// that `json_parses` names, with the value `json_value_of` names; both
/// depend on the text alone.
#[verifier::external_body]
fn json_from_str(text: &str) -> (r: Option<serde_json::Value>)
    ensures
        r is Some <==> json_parses(text@),
        r matches Some(v) ==> v == json_value_of(text@),
{
    serde_json::from_str(text).ok()
}

/// `serde_json::Value::to_string`, the compact JSON text of a value, which
/// `json_text_of` names; it depends on the value alone.
#[verifier::external_body]
fn json_to_string(value: &serde_json::Value) -> (r: String)
    ensures
        r@ == json_text_of(*value),
{
    value.to_string()
}

/// Decoding the text of a JSON document: a length prefix of at most
/// `MAX_JSON_LEN`, then that many bytes of UTF-8.
pub open spec fn json_text_decode(input: Seq<u8>, allocated: nat, limit: nat) -> DecodeOutcome<
    Seq<char>,
> {
    prefixed(
        len_decode(input, allocated, MAX_JSON_LEN),
        input,
        |rest: Seq<u8>, a: nat, len: usize| string_body_decode(rest, a, limit, len as nat),
    )
}

/// Encoding the text of a JSON document.
pub open spec fn json_text_encode(text: Seq<char>) -> Result<Seq<u8>, ProtoEncodeErr> {
    then_encode(len_encode(string_bytes(text).len(), MAX_JSON_LEN), Ok(string_bytes(text)))
}

/// Reads the text of a JSON document.
pub fn decode_json_text<A: AllocTracker>(reader: &mut VecReader, alloc_tracker: &mut A) -> (r: Result<
    String,
    ProtoDecodeErr,
>)
    requires
        old(reader).wf(),
    ensures
        reader_step(*old(reader), *final(reader)),
        final(alloc_tracker).spec_limit() == old(alloc_tracker).spec_limit(),
        decoded(
            json_text_decode(
                old(reader).rest(),
                old(alloc_tracker).spec_allocated() as nat,
                old(alloc_tracker).spec_limit() as nat,
            ),
            match r {
                Ok(s) => Ok(s@),
                Err(e) => Err(e),
            },
            old(reader).rest(),
            final(reader).rest(),
            final(alloc_tracker).spec_allocated() as nat,
        ),
{
    let ghost input = reader.rest();
    let len = match decode_seq_len(reader, MAX_JSON_LEN) {
        Ok(len) => len,
        Err(e) => return Err(e),
    };
    let ghost mid = reader.rest();
    let r = decode_string_body(reader, alloc_tracker, len);
    proof {
        let n1 = len_decode(input, 0, MAX_JSON_LEN).1;
        let n2 = string_body_decode(
            mid,
            old(alloc_tracker).spec_allocated() as nat,
            old(alloc_tracker).spec_limit() as nat,
            len as nat,
        ).1;
        assert(input.skip(n1 as int).skip(n2 as int) =~= input.skip((n1 + n2) as int));
    }
    r
}

/// A call that read the text `out` describes and then parsed it: an error
/// while reading is passed on, a text that does not parse is reported with
/// the text itself, and one that parses gives the value read from it.
pub open spec fn json_decoded(
    out: DecodeOutcome<Seq<char>>,
    r: Result<serde_json::Value, ProtoDecodeErr>,
    before: Seq<u8>,
    after: Seq<u8>,
    alloc_after: nat,
) -> bool {
    &&& out.1 <= before.len()
    &&& after == before.skip(out.1 as int)
    &&& alloc_after == out.2
    &&& match out.0 {
        Err(e) => r matches Err(e2) && e2 == e,
        Ok(text) => if json_parses(text) {
            r == Ok::<serde_json::Value, ProtoDecodeErr>(json_value_of(text))
        } else {
            r matches Err(ProtoDecodeErr::MalformedJson(s)) && s@ == text
        },
    }
}

/// Reads a JSON document: its text, which must then parse as JSON; a text
/// that does not is reported with the text itself.
pub fn decode_json<A: AllocTracker>(reader: &mut VecReader, alloc_tracker: &mut A) -> (r: Result<
    serde_json::Value,
    ProtoDecodeErr,
>)
    requires
        old(reader).wf(),
    ensures
        reader_step(*old(reader), *final(reader)),
        final(alloc_tracker).spec_limit() == old(alloc_tracker).spec_limit(),
        json_decoded(
            json_text_decode(
                old(reader).rest(),
                old(alloc_tracker).spec_allocated() as nat,
                old(alloc_tracker).spec_limit() as nat,
            ),
            r,
            old(reader).rest(),
            final(reader).rest(),
            final(alloc_tracker).spec_allocated() as nat,
        ),
{
    let json_str = match decode_json_text(reader, alloc_tracker) {
        Ok(s) => s,
        Err(e) => return Err(e),
    };
    match json_from_str(json_str.as_str()) {
        Some(v) => Ok(v),
        None => Err(ProtoDecodeErr::MalformedJson(json_str)),
    }
}

/// Writes the text of a JSON document.
pub fn encode_json_text(text: &String, writer: &mut Vec<u8>) -> (r: Result<(), ProtoEncodeErr>)
    ensures
        encoded(json_text_encode(text@), r, old(writer)@, final(writer)@),
{
    let ghost start = writer@;
    let len = match encode_seq_len(text.as_str().as_bytes().len(), MAX_JSON_LEN, writer) {
        Ok(len) => len,
        Err(e) => return Err(e),
    };
    let ghost mid = writer@;
    write_str_bytes(text.as_str(), writer);
    assert(writer@ =~= start + (len_encode(string_bytes(text@).len(), MAX_JSON_LEN)->Ok_0
        + string_bytes(text@)));
    Ok(())
}

/// Writes a JSON document as its compact text.
pub fn encode_json(value: &serde_json::Value, writer: &mut Vec<u8>) -> (r: Result<(), ProtoEncodeErr>)
    ensures
        encoded(json_text_encode(json_text_of(*value)), r, old(writer)@, final(writer)@),
{
    let encoded_text = json_to_string(value);
    encode_json_text(&encoded_text, writer)
}

} // verus!
