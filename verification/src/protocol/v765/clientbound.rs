//! Packets that a server sends to a client.
use vstd::prelude::*;

use crate::io::VecReader;
use crate::protocol::decode::{
    decoded, reader_step, AllocTracker, DecodeOutcome, ProtoDecode, ProtoDecodeErr,
};
use crate::protocol::encode::{
    encoded, lemma_prefix_of_append, lemma_prefix_trans, then_encode, ProtoEncode, ProtoEncodeErr,
};
use crate::protocol::json::{decode_json, encode_json, json_decoded, json_text_decode, json_text_encode, json_text_of};
use crate::protocol::packet::{ConnectionState, PacketDirection};
use crate::protocol::seq::{
    decode_seq_field, encode_seq_field, seq_field_decode, seq_field_encode, RemainingBytes,
};
use crate::protocol::v765::types::{
    lemma_difficulty_wire, DeathLocation, Difficulty, GameMode, LastGameMode, LoginProperty, RegistryTag,
};
use crate::bytes::be_value;
use crate::protocol::types::{lemma_bool_wire, lemma_i32_wire, lemma_i64_wire};
use crate::protocol::varint::{lemma_var_int_roundtrip, varint_bytes, VarInt};
use crate::text::Identifier;
use crate::nbt::tag::{Tag, TagRoot, TagView};
use std::sync::Arc;

verus! {


/// The server status, a JSON document.
pub struct StatusResponse {
    pub response: serde_json::Value,
}

impl StatusResponse {
    pub const ID: i32 = 0x00;

    pub const DIRECTION: PacketDirection = PacketDirection::ClientBound;

    pub const STATE: ConnectionState = ConnectionState::Status;

    /// Reads the packet: one JSON document.
    pub fn decode<A: AllocTracker>(reader: &mut VecReader, alloc_tracker: &mut A) -> (r: Result<
        StatusResponse,
        ProtoDecodeErr,
    >)
        requires
            old(reader).wf(),
        ensures
            reader_step(*old(reader), *final(reader)),
            final(alloc_tracker).spec_limit() == old(alloc_tracker).spec_limit(),
            json_decoded(
                json_text_decode(
                    old(reader).rest(),
                    old(alloc_tracker).spec_allocated() as nat,
                    old(alloc_tracker).spec_limit() as nat,
                ),
                match r {
                    Ok(p) => Ok(p.response),
                    Err(e) => Err(e),
                },
                old(reader).rest(),
                final(reader).rest(),
                final(alloc_tracker).spec_allocated() as nat,
            ),
    {
        match decode_json(reader, alloc_tracker) {
            Ok(v) => Ok(StatusResponse { response: v }),
            Err(e) => Err(e),
        }
    }

    /// Writes the packet: the compact text of its JSON document.
    pub fn encode(data: &StatusResponse, writer: &mut Vec<u8>) -> (r: Result<(), ProtoEncodeErr>)
        ensures
            encoded(json_text_encode(json_text_of(data.response)), r, old(writer)@, final(writer)@),
    {
        encode_json(&data.response, writer)
    }
}

/// The answer to a ping, echoing its payload.
pub struct StatusPingResponse {
    pub payload: i64,
}

impl DeepView for StatusPingResponse {
    type V = i64;

    open spec fn deep_view(&self) -> i64 {
        self.payload.deep_view()
    }
}

impl StatusPingResponse {
    pub const ID: i32 = 0x01;

    pub const DIRECTION: PacketDirection = PacketDirection::ClientBound;

    pub const STATE: ConnectionState = ConnectionState::Status;
}

impl ProtoDecode for StatusPingResponse {
    type Repr = StatusPingResponse;

    open spec fn spec_decode(input: Seq<u8>, allocated: nat, limit: nat) -> DecodeOutcome<i64> {
        let o1 = <i64 as ProtoDecode>::spec_decode(input, allocated, limit);
        match o1.0 {
            Err(e) => (Err(e), o1.1, o1.2),
            Ok(v1) => {
                (Ok(v1), o1.1, o1.2)
            },
        }
    }

    fn decode<A: AllocTracker>(reader: &mut VecReader, alloc_tracker: &mut A) -> (r: Result<
        StatusPingResponse,
        ProtoDecodeErr,
    >) {
        let ghost input = reader.rest();
        let ghost limit = alloc_tracker.spec_limit() as nat;
        let ghost mut consumed: nat = 0;
        assert(input =~= input.skip(0));
        let ghost a1 = alloc_tracker.spec_allocated() as nat;
        let r1 = <i64 as ProtoDecode>::decode(reader, alloc_tracker);
        proof {
            let step = <i64 as ProtoDecode>::spec_decode(input.skip(consumed as int), a1, limit).1;
            assert(input.skip(consumed as int).skip(step as int) =~= input.skip((consumed + step) as int));
            consumed = consumed + step;
        }
        let payload = match r1 {
            Ok(v) => v,
            Err(e) => return Err(e),
        };
        Ok(StatusPingResponse { payload })
    }
}

impl ProtoEncode for StatusPingResponse {
    type Repr = StatusPingResponse;

    open spec fn spec_encode(data: i64) -> Result<Seq<u8>, ProtoEncodeErr> {
        <i64 as ProtoEncode>::spec_encode(data)
    }

    fn encode(data: &StatusPingResponse, writer: &mut Vec<u8>) -> (r: Result<(), ProtoEncodeErr>) {
        let ghost start = writer@;
        let ghost d = data.deep_view();
        let ghost w1 = writer@;
        let r1 = <i64 as ProtoEncode>::encode(&data.payload, writer);
        match r1 {
            Ok(()) => {},
            Err(e) => {
                return Err(e);
            },
        }
        Ok(())
    }
}

/// The server refuses the login; the reason is a JSON text component.
pub struct LoginDisconnect {
    pub reason: serde_json::Value,
}

impl LoginDisconnect {
    pub const ID: i32 = 0x00;

    pub const DIRECTION: PacketDirection = PacketDirection::ClientBound;

    pub const STATE: ConnectionState = ConnectionState::Login;

    /// Reads the packet: one JSON document.
    pub fn decode<A: AllocTracker>(reader: &mut VecReader, alloc_tracker: &mut A) -> (r: Result<
        LoginDisconnect,
        ProtoDecodeErr,
    >)
        requires
            old(reader).wf(),
        ensures
            reader_step(*old(reader), *final(reader)),
            final(alloc_tracker).spec_limit() == old(alloc_tracker).spec_limit(),
            json_decoded(
                json_text_decode(
                    old(reader).rest(),
                    old(alloc_tracker).spec_allocated() as nat,
                    old(alloc_tracker).spec_limit() as nat,
                ),
                match r {
                    Ok(p) => Ok(p.reason),
                    Err(e) => Err(e),
                },
                old(reader).rest(),
                final(reader).rest(),
                final(alloc_tracker).spec_allocated() as nat,
            ),
    {
        match decode_json(reader, alloc_tracker) {
            Ok(v) => Ok(LoginDisconnect { reason: v }),
            Err(e) => Err(e),
        }
    }

    /// Writes the packet: the compact text of its JSON document.
    pub fn encode(data: &LoginDisconnect, writer: &mut Vec<u8>) -> (r: Result<(), ProtoEncodeErr>)
        ensures
            encoded(json_text_encode(json_text_of(data.reason)), r, old(writer)@, final(writer)@),
    {
        encode_json(&data.reason, writer)
    }
}

/// The server asks the client to turn on encryption.
pub struct EncryptionRequest {
    pub server_id: String,
    pub public_key: Vec<u8>,
    pub verify_token: Vec<u8>,
}

impl DeepView for EncryptionRequest {
    type V = (Seq<char>, Seq<u8>, Seq<u8>);

    open spec fn deep_view(&self) -> (Seq<char>, Seq<u8>, Seq<u8>) {
        (self.server_id.deep_view(), self.public_key.deep_view(), self.verify_token.deep_view())
    }
}

impl EncryptionRequest {
    pub const ID: i32 = 0x01;

    pub const DIRECTION: PacketDirection = PacketDirection::ClientBound;

    pub const STATE: ConnectionState = ConnectionState::Login;
}

impl ProtoDecode for EncryptionRequest {
    type Repr = EncryptionRequest;

    open spec fn spec_decode(input: Seq<u8>, allocated: nat, limit: nat) -> DecodeOutcome<(Seq<char>, Seq<u8>, Seq<u8>)> {
        let o1 = seq_field_decode::<String>(input, allocated, limit, None, Some(20usize), None);
        match o1.0 {
            Err(e) => (Err(e), o1.1, o1.2),
            Ok(v1) => {
                let o2 = <Vec<u8> as ProtoDecode>::spec_decode(input.skip((o1.1) as int), o1.2, limit);
                match o2.0 {
                    Err(e) => (Err(e), o1.1 + o2.1, o2.2),
                    Ok(v2) => {
                        let o3 = seq_field_decode::<Vec<u8>>(input.skip((o1.1 + o2.1) as int), o2.2, limit, None, None, Some(4usize));
                        match o3.0 {
                            Err(e) => (Err(e), o1.1 + o2.1 + o3.1, o3.2),
                            Ok(v3) => {
                                (Ok((v1, v2, v3)), o1.1 + o2.1 + o3.1, o3.2)
                            },
                        }
                    },
                }
            },
        }
    }

    fn decode<A: AllocTracker>(reader: &mut VecReader, alloc_tracker: &mut A) -> (r: Result<
        EncryptionRequest,
        ProtoDecodeErr,
    >) {
        let ghost input = reader.rest();
        let ghost limit = alloc_tracker.spec_limit() as nat;
        let ghost mut consumed: nat = 0;
        assert(input =~= input.skip(0));
        let ghost a1 = alloc_tracker.spec_allocated() as nat;
        let r1 = decode_seq_field::<String, A>(reader, alloc_tracker, None, Some(20usize), None);
        proof {
            let step = seq_field_decode::<String>(input.skip(consumed as int), a1, limit, None, Some(20usize), None).1;
            assert(input.skip(consumed as int).skip(step as int) =~= input.skip((consumed + step) as int));
            consumed = consumed + step;
        }
        let server_id = match r1 {
            Ok(v) => v,
            Err(e) => return Err(e),
        };
        let ghost a2 = alloc_tracker.spec_allocated() as nat;
        let r2 = <Vec<u8> as ProtoDecode>::decode(reader, alloc_tracker);
        proof {
            let step = <Vec<u8> as ProtoDecode>::spec_decode(input.skip(consumed as int), a2, limit).1;
            assert(input.skip(consumed as int).skip(step as int) =~= input.skip((consumed + step) as int));
            consumed = consumed + step;
        }
        let public_key = match r2 {
            Ok(v) => v,
            Err(e) => return Err(e),
        };
        let ghost a3 = alloc_tracker.spec_allocated() as nat;
        let r3 = decode_seq_field::<Vec<u8>, A>(reader, alloc_tracker, None, None, Some(4usize));
        proof {
            let step = seq_field_decode::<Vec<u8>>(input.skip(consumed as int), a3, limit, None, None, Some(4usize)).1;
            assert(input.skip(consumed as int).skip(step as int) =~= input.skip((consumed + step) as int));
            consumed = consumed + step;
        }
        let verify_token = match r3 {
            Ok(v) => v,
            Err(e) => return Err(e),
        };
        Ok(EncryptionRequest { server_id, public_key, verify_token })
    }
}

impl ProtoEncode for EncryptionRequest {
    type Repr = EncryptionRequest;

    open spec fn spec_encode(data: (Seq<char>, Seq<u8>, Seq<u8>)) -> Result<Seq<u8>, ProtoEncodeErr> {
        then_encode(seq_field_encode::<String>(data.0, None, Some(20usize), None), then_encode(<Vec<u8> as ProtoEncode>::spec_encode(data.1), seq_field_encode::<Vec<u8>>(data.2, None, None, Some(4usize))))
    }

    fn encode(data: &EncryptionRequest, writer: &mut Vec<u8>) -> (r: Result<(), ProtoEncodeErr>) {
        let ghost start = writer@;
        let ghost d = data.deep_view();
        let ghost w1 = writer@;
        let r1 = encode_seq_field::<String>(&data.server_id, writer, None, Some(20usize), None);
        match r1 {
            Ok(()) => {},
            Err(e) => {
                return Err(e);
            },
        }
        let ghost w2 = writer@;
        let r2 = <Vec<u8> as ProtoEncode>::encode(&data.public_key, writer);
        match r2 {
            Ok(()) => {},
            Err(e) => {
                proof {
                    lemma_prefix_of_append(start, w2.skip(start.len() as int));
                    assert(start + w2.skip(start.len() as int) =~= w2);
                    lemma_prefix_trans(start, w2, writer@);
                }
                return Err(e);
            },
        }
        let ghost w3 = writer@;
        let r3 = encode_seq_field::<Vec<u8>>(&data.verify_token, writer, None, None, Some(4usize));
        match r3 {
            Ok(()) => {},
            Err(e) => {
                proof {
                    lemma_prefix_of_append(start, w3.skip(start.len() as int));
                    assert(start + w3.skip(start.len() as int) =~= w3);
                    lemma_prefix_trans(start, w3, writer@);
                }
                return Err(e);
            },
        }
        assert(writer@ =~= start + (seq_field_encode::<String>(d.0, None, Some(20usize), None)->Ok_0 + (<Vec<u8> as ProtoEncode>::spec_encode(d.1)->Ok_0 + seq_field_encode::<Vec<u8>>(d.2, None, None, Some(4usize))->Ok_0)));
        Ok(())
    }
}

/// The login succeeded; the player profile follows.
pub struct LoginSuccess {
    pub uuid: u128,
    pub username: String,
    pub properties: Vec<LoginProperty>,
}

impl DeepView for LoginSuccess {
    type V = (u128, Seq<char>, Seq<<LoginProperty as DeepView>::V>);

    open spec fn deep_view(&self) -> (u128, Seq<char>, Seq<<LoginProperty as DeepView>::V>) {
        (self.uuid.deep_view(), self.username.deep_view(), self.properties.deep_view())
    }
}

impl LoginSuccess {
    pub const ID: i32 = 0x02;

    pub const DIRECTION: PacketDirection = PacketDirection::ClientBound;

    pub const STATE: ConnectionState = ConnectionState::Login;
}

impl ProtoDecode for LoginSuccess {
    type Repr = LoginSuccess;

    open spec fn spec_decode(input: Seq<u8>, allocated: nat, limit: nat) -> DecodeOutcome<(u128, Seq<char>, Seq<<LoginProperty as DeepView>::V>)> {
        let o1 = <u128 as ProtoDecode>::spec_decode(input, allocated, limit);
        match o1.0 {
            Err(e) => (Err(e), o1.1, o1.2),
            Ok(v1) => {
                let o2 = seq_field_decode::<String>(input.skip((o1.1) as int), o1.2, limit, None, Some(16usize), None);
                match o2.0 {
                    Err(e) => (Err(e), o1.1 + o2.1, o2.2),
                    Ok(v2) => {
                        let o3 = <Vec<LoginProperty> as ProtoDecode>::spec_decode(input.skip((o1.1 + o2.1) as int), o2.2, limit);
                        match o3.0 {
                            Err(e) => (Err(e), o1.1 + o2.1 + o3.1, o3.2),
                            Ok(v3) => {
                                (Ok((v1, v2, v3)), o1.1 + o2.1 + o3.1, o3.2)
                            },
                        }
                    },
                }
            },
        }
    }

    fn decode<A: AllocTracker>(reader: &mut VecReader, alloc_tracker: &mut A) -> (r: Result<
        LoginSuccess,
        ProtoDecodeErr,
    >) {
        let ghost input = reader.rest();
        let ghost limit = alloc_tracker.spec_limit() as nat;
        let ghost mut consumed: nat = 0;
        assert(input =~= input.skip(0));
        let ghost a1 = alloc_tracker.spec_allocated() as nat;
        let r1 = <u128 as ProtoDecode>::decode(reader, alloc_tracker);
        proof {
            let step = <u128 as ProtoDecode>::spec_decode(input.skip(consumed as int), a1, limit).1;
            assert(input.skip(consumed as int).skip(step as int) =~= input.skip((consumed + step) as int));
            consumed = consumed + step;
        }
        let uuid = match r1 {
            Ok(v) => v,
            Err(e) => return Err(e),
        };
        let ghost a2 = alloc_tracker.spec_allocated() as nat;
        let r2 = decode_seq_field::<String, A>(reader, alloc_tracker, None, Some(16usize), None);
        proof {
            let step = seq_field_decode::<String>(input.skip(consumed as int), a2, limit, None, Some(16usize), None).1;
            assert(input.skip(consumed as int).skip(step as int) =~= input.skip((consumed + step) as int));
            consumed = consumed + step;
        }
        let username = match r2 {
            Ok(v) => v,
            Err(e) => return Err(e),
        };
        let ghost a3 = alloc_tracker.spec_allocated() as nat;
        let r3 = <Vec<LoginProperty> as ProtoDecode>::decode(reader, alloc_tracker);
        proof {
            let step = <Vec<LoginProperty> as ProtoDecode>::spec_decode(input.skip(consumed as int), a3, limit).1;
            assert(input.skip(consumed as int).skip(step as int) =~= input.skip((consumed + step) as int));
            consumed = consumed + step;
        }
        let properties = match r3 {
            Ok(v) => v,
            Err(e) => return Err(e),
        };
        Ok(LoginSuccess { uuid, username, properties })
    }
}

impl ProtoEncode for LoginSuccess {
    type Repr = LoginSuccess;

    open spec fn spec_encode(data: (u128, Seq<char>, Seq<<LoginProperty as DeepView>::V>)) -> Result<Seq<u8>, ProtoEncodeErr> {
        then_encode(<u128 as ProtoEncode>::spec_encode(data.0), then_encode(seq_field_encode::<String>(data.1, None, Some(16usize), None), <Vec<LoginProperty> as ProtoEncode>::spec_encode(data.2)))
    }

    fn encode(data: &LoginSuccess, writer: &mut Vec<u8>) -> (r: Result<(), ProtoEncodeErr>) {
        let ghost start = writer@;
        let ghost d = data.deep_view();
        let ghost w1 = writer@;
        let r1 = <u128 as ProtoEncode>::encode(&data.uuid, writer);
        match r1 {
            Ok(()) => {},
            Err(e) => {
                return Err(e);
            },
        }
        let ghost w2 = writer@;
        let r2 = encode_seq_field::<String>(&data.username, writer, None, Some(16usize), None);
        match r2 {
            Ok(()) => {},
            Err(e) => {
                proof {
                    lemma_prefix_of_append(start, w2.skip(start.len() as int));
                    assert(start + w2.skip(start.len() as int) =~= w2);
                    lemma_prefix_trans(start, w2, writer@);
                }
                return Err(e);
            },
        }
        let ghost w3 = writer@;
        let r3 = <Vec<LoginProperty> as ProtoEncode>::encode(&data.properties, writer);
        match r3 {
            Ok(()) => {},
            Err(e) => {
                proof {
                    lemma_prefix_of_append(start, w3.skip(start.len() as int));
                    assert(start + w3.skip(start.len() as int) =~= w3);
                    lemma_prefix_trans(start, w3, writer@);
                }
                return Err(e);
            },
        }
        assert(writer@ =~= start + (<u128 as ProtoEncode>::spec_encode(d.0)->Ok_0 + (seq_field_encode::<String>(d.1, None, Some(16usize), None)->Ok_0 + <Vec<LoginProperty> as ProtoEncode>::spec_encode(d.2)->Ok_0)));
        Ok(())
    }
}

/// Packets from this size on are compressed.
pub struct SetCompression {
    pub threshold: i32,
}

impl DeepView for SetCompression {
    type V = i32;

    open spec fn deep_view(&self) -> i32 {
        self.threshold.deep_view()
    }
}

impl SetCompression {
    pub const ID: i32 = 0x03;

    pub const DIRECTION: PacketDirection = PacketDirection::ClientBound;

    pub const STATE: ConnectionState = ConnectionState::Login;
}

impl ProtoDecode for SetCompression {
    type Repr = SetCompression;

    open spec fn spec_decode(input: Seq<u8>, allocated: nat, limit: nat) -> DecodeOutcome<i32> {
        let o1 = <VarInt as ProtoDecode>::spec_decode(input, allocated, limit);
        match o1.0 {
            Err(e) => (Err(e), o1.1, o1.2),
            Ok(v1) => {
                (Ok(v1), o1.1, o1.2)
            },
        }
    }

    fn decode<A: AllocTracker>(reader: &mut VecReader, alloc_tracker: &mut A) -> (r: Result<
        SetCompression,
        ProtoDecodeErr,
    >) {
        let ghost input = reader.rest();
        let ghost limit = alloc_tracker.spec_limit() as nat;
        let ghost mut consumed: nat = 0;
        assert(input =~= input.skip(0));
        let ghost a1 = alloc_tracker.spec_allocated() as nat;
        let r1 = <VarInt as ProtoDecode>::decode(reader, alloc_tracker);
        proof {
            let step = <VarInt as ProtoDecode>::spec_decode(input.skip(consumed as int), a1, limit).1;
            assert(input.skip(consumed as int).skip(step as int) =~= input.skip((consumed + step) as int));
            consumed = consumed + step;
        }
        let threshold = match r1 {
            Ok(v) => v,
            Err(e) => return Err(e),
        };
        Ok(SetCompression { threshold })
    }
}

impl ProtoEncode for SetCompression {
    type Repr = SetCompression;

    open spec fn spec_encode(data: i32) -> Result<Seq<u8>, ProtoEncodeErr> {
        <VarInt as ProtoEncode>::spec_encode(data)
    }

    fn encode(data: &SetCompression, writer: &mut Vec<u8>) -> (r: Result<(), ProtoEncodeErr>) {
        let ghost start = writer@;
        let ghost d = data.deep_view();
        let ghost w1 = writer@;
        let r1 = <VarInt as ProtoEncode>::encode(&data.threshold, writer);
        match r1 {
            Ok(()) => {},
            Err(e) => {
                return Err(e);
            },
        }
        Ok(())
    }
}

/// A plugin message during login.
pub struct LoginPluginRequest {
    pub message_id: i32,
    pub channel: String,
    pub data: Vec<u8>,
}

impl DeepView for LoginPluginRequest {
    type V = (i32, Seq<char>, Seq<u8>);

    open spec fn deep_view(&self) -> (i32, Seq<char>, Seq<u8>) {
        (self.message_id.deep_view(), self.channel.deep_view(), self.data.deep_view())
    }
}

impl LoginPluginRequest {
    pub const ID: i32 = 0x04;

    pub const DIRECTION: PacketDirection = PacketDirection::ClientBound;

    pub const STATE: ConnectionState = ConnectionState::Login;
}

impl ProtoDecode for LoginPluginRequest {
    type Repr = LoginPluginRequest;

    open spec fn spec_decode(input: Seq<u8>, allocated: nat, limit: nat) -> DecodeOutcome<(i32, Seq<char>, Seq<u8>)> {
        let o1 = <VarInt as ProtoDecode>::spec_decode(input, allocated, limit);
        match o1.0 {
            Err(e) => (Err(e), o1.1, o1.2),
            Ok(v1) => {
                let o2 = <String as ProtoDecode>::spec_decode(input.skip((o1.1) as int), o1.2, limit);
                match o2.0 {
                    Err(e) => (Err(e), o1.1 + o2.1, o2.2),
                    Ok(v2) => {
                        let o3 = <RemainingBytes as ProtoDecode>::spec_decode(input.skip((o1.1 + o2.1) as int), o2.2, limit);
                        match o3.0 {
                            Err(e) => (Err(e), o1.1 + o2.1 + o3.1, o3.2),
                            Ok(v3) => {
                                (Ok((v1, v2, v3)), o1.1 + o2.1 + o3.1, o3.2)
                            },
                        }
                    },
                }
            },
        }
    }

    fn decode<A: AllocTracker>(reader: &mut VecReader, alloc_tracker: &mut A) -> (r: Result<
        LoginPluginRequest,
        ProtoDecodeErr,
    >) {
        let ghost input = reader.rest();
        let ghost limit = alloc_tracker.spec_limit() as nat;
        let ghost mut consumed: nat = 0;
        assert(input =~= input.skip(0));
        let ghost a1 = alloc_tracker.spec_allocated() as nat;
        let r1 = <VarInt as ProtoDecode>::decode(reader, alloc_tracker);
        proof {
            let step = <VarInt as ProtoDecode>::spec_decode(input.skip(consumed as int), a1, limit).1;
            assert(input.skip(consumed as int).skip(step as int) =~= input.skip((consumed + step) as int));
            consumed = consumed + step;
        }
        let message_id = match r1 {
            Ok(v) => v,
            Err(e) => return Err(e),
        };
        let ghost a2 = alloc_tracker.spec_allocated() as nat;
        let r2 = <String as ProtoDecode>::decode(reader, alloc_tracker);
        proof {
            let step = <String as ProtoDecode>::spec_decode(input.skip(consumed as int), a2, limit).1;
            assert(input.skip(consumed as int).skip(step as int) =~= input.skip((consumed + step) as int));
            consumed = consumed + step;
        }
        let channel = match r2 {
            Ok(v) => v,
            Err(e) => return Err(e),
        };
        let ghost a3 = alloc_tracker.spec_allocated() as nat;
        let r3 = <RemainingBytes as ProtoDecode>::decode(reader, alloc_tracker);
        proof {
            let step = <RemainingBytes as ProtoDecode>::spec_decode(input.skip(consumed as int), a3, limit).1;
            assert(input.skip(consumed as int).skip(step as int) =~= input.skip((consumed + step) as int));
            consumed = consumed + step;
        }
        let data = match r3 {
            Ok(v) => v,
            Err(e) => return Err(e),
        };
        Ok(LoginPluginRequest { message_id, channel, data })
    }
}

impl ProtoEncode for LoginPluginRequest {
    type Repr = LoginPluginRequest;

    open spec fn spec_encode(data: (i32, Seq<char>, Seq<u8>)) -> Result<Seq<u8>, ProtoEncodeErr> {
        then_encode(<VarInt as ProtoEncode>::spec_encode(data.0), then_encode(<String as ProtoEncode>::spec_encode(data.1), <RemainingBytes as ProtoEncode>::spec_encode(data.2)))
    }

    fn encode(data: &LoginPluginRequest, writer: &mut Vec<u8>) -> (r: Result<(), ProtoEncodeErr>) {
        let ghost start = writer@;
        let ghost d = data.deep_view();
        let ghost w1 = writer@;
        let r1 = <VarInt as ProtoEncode>::encode(&data.message_id, writer);
        match r1 {
            Ok(()) => {},
            Err(e) => {
                return Err(e);
            },
        }
        let ghost w2 = writer@;
        let r2 = <String as ProtoEncode>::encode(&data.channel, writer);
        match r2 {
            Ok(()) => {},
            Err(e) => {
                proof {
                    lemma_prefix_of_append(start, w2.skip(start.len() as int));
                    assert(start + w2.skip(start.len() as int) =~= w2);
                    lemma_prefix_trans(start, w2, writer@);
                }
                return Err(e);
            },
        }
        let ghost w3 = writer@;
        let r3 = <RemainingBytes as ProtoEncode>::encode(&data.data, writer);
        match r3 {
            Ok(()) => {},
            Err(e) => {
                proof {
                    lemma_prefix_of_append(start, w3.skip(start.len() as int));
                    assert(start + w3.skip(start.len() as int) =~= w3);
                    lemma_prefix_trans(start, w3, writer@);
                }
                return Err(e);
            },
        }
        assert(writer@ =~= start + (<VarInt as ProtoEncode>::spec_encode(d.0)->Ok_0 + (<String as ProtoEncode>::spec_encode(d.1)->Ok_0 + <RemainingBytes as ProtoEncode>::spec_encode(d.2)->Ok_0)));
        Ok(())
    }
}

/// A plugin message during configuration.
pub struct ConfigClientBoundPluginMessage {
    pub channel: Identifier,
    pub data: Vec<u8>,
}

impl DeepView for ConfigClientBoundPluginMessage {
    type V = ((Seq<char>, usize), Seq<u8>);

    open spec fn deep_view(&self) -> ((Seq<char>, usize), Seq<u8>) {
        (self.channel.deep_view(), self.data.deep_view())
    }
}

impl ConfigClientBoundPluginMessage {
    pub const ID: i32 = 0x00;

    pub const DIRECTION: PacketDirection = PacketDirection::ClientBound;

    pub const STATE: ConnectionState = ConnectionState::Configuration;
}

impl ProtoDecode for ConfigClientBoundPluginMessage {
    type Repr = ConfigClientBoundPluginMessage;

    open spec fn spec_decode(input: Seq<u8>, allocated: nat, limit: nat) -> DecodeOutcome<((Seq<char>, usize), Seq<u8>)> {
        let o1 = <Identifier as ProtoDecode>::spec_decode(input, allocated, limit);
        match o1.0 {
            Err(e) => (Err(e), o1.1, o1.2),
            Ok(v1) => {
                let o2 = <RemainingBytes as ProtoDecode>::spec_decode(input.skip((o1.1) as int), o1.2, limit);
                match o2.0 {
                    Err(e) => (Err(e), o1.1 + o2.1, o2.2),
                    Ok(v2) => {
                        (Ok((v1, v2)), o1.1 + o2.1, o2.2)
                    },
                }
            },
        }
    }

    fn decode<A: AllocTracker>(reader: &mut VecReader, alloc_tracker: &mut A) -> (r: Result<
        ConfigClientBoundPluginMessage,
        ProtoDecodeErr,
    >) {
        let ghost input = reader.rest();
        let ghost limit = alloc_tracker.spec_limit() as nat;
        let ghost mut consumed: nat = 0;
        assert(input =~= input.skip(0));
        let ghost a1 = alloc_tracker.spec_allocated() as nat;
        let r1 = <Identifier as ProtoDecode>::decode(reader, alloc_tracker);
        proof {
            let step = <Identifier as ProtoDecode>::spec_decode(input.skip(consumed as int), a1, limit).1;
            assert(input.skip(consumed as int).skip(step as int) =~= input.skip((consumed + step) as int));
            consumed = consumed + step;
        }
        let channel = match r1 {
            Ok(v) => v,
            Err(e) => return Err(e),
        };
        let ghost a2 = alloc_tracker.spec_allocated() as nat;
        let r2 = <RemainingBytes as ProtoDecode>::decode(reader, alloc_tracker);
        proof {
            let step = <RemainingBytes as ProtoDecode>::spec_decode(input.skip(consumed as int), a2, limit).1;
            assert(input.skip(consumed as int).skip(step as int) =~= input.skip((consumed + step) as int));
            consumed = consumed + step;
        }
        let data = match r2 {
            Ok(v) => v,
            Err(e) => return Err(e),
        };
        Ok(ConfigClientBoundPluginMessage { channel, data })
    }
}

impl ProtoEncode for ConfigClientBoundPluginMessage {
    type Repr = ConfigClientBoundPluginMessage;

    open spec fn spec_encode(data: ((Seq<char>, usize), Seq<u8>)) -> Result<Seq<u8>, ProtoEncodeErr> {
        then_encode(<Identifier as ProtoEncode>::spec_encode(data.0), <RemainingBytes as ProtoEncode>::spec_encode(data.1))
    }

    fn encode(data: &ConfigClientBoundPluginMessage, writer: &mut Vec<u8>) -> (r: Result<(), ProtoEncodeErr>) {
        let ghost start = writer@;
        let ghost d = data.deep_view();
        let ghost w1 = writer@;
        let r1 = <Identifier as ProtoEncode>::encode(&data.channel, writer);
        match r1 {
            Ok(()) => {},
            Err(e) => {
                return Err(e);
            },
        }
        let ghost w2 = writer@;
        let r2 = <RemainingBytes as ProtoEncode>::encode(&data.data, writer);
        match r2 {
            Ok(()) => {},
            Err(e) => {
                proof {
                    lemma_prefix_of_append(start, w2.skip(start.len() as int));
                    assert(start + w2.skip(start.len() as int) =~= w2);
                    lemma_prefix_trans(start, w2, writer@);
                }
                return Err(e);
            },
        }
        assert(writer@ =~= start + (<Identifier as ProtoEncode>::spec_encode(d.0)->Ok_0 + <RemainingBytes as ProtoEncode>::spec_encode(d.1)->Ok_0));
        Ok(())
    }
}

/// The server closes the connection during configuration.
pub struct ConfigDisconnect {
    pub reason: String,
}

impl DeepView for ConfigDisconnect {
    type V = Seq<char>;

    open spec fn deep_view(&self) -> Seq<char> {
        self.reason.deep_view()
    }
}

impl ConfigDisconnect {
    pub const ID: i32 = 0x01;

    pub const DIRECTION: PacketDirection = PacketDirection::ClientBound;

    pub const STATE: ConnectionState = ConnectionState::Configuration;
}

impl ProtoDecode for ConfigDisconnect {
    type Repr = ConfigDisconnect;

    open spec fn spec_decode(input: Seq<u8>, allocated: nat, limit: nat) -> DecodeOutcome<Seq<char>> {
        let o1 = <String as ProtoDecode>::spec_decode(input, allocated, limit);
        match o1.0 {
            Err(e) => (Err(e), o1.1, o1.2),
            Ok(v1) => {
                (Ok(v1), o1.1, o1.2)
            },
        }
    }

    fn decode<A: AllocTracker>(reader: &mut VecReader, alloc_tracker: &mut A) -> (r: Result<
        ConfigDisconnect,
        ProtoDecodeErr,
    >) {
        let ghost input = reader.rest();
        let ghost limit = alloc_tracker.spec_limit() as nat;
        let ghost mut consumed: nat = 0;
        assert(input =~= input.skip(0));
        let ghost a1 = alloc_tracker.spec_allocated() as nat;
        let r1 = <String as ProtoDecode>::decode(reader, alloc_tracker);
        proof {
            let step = <String as ProtoDecode>::spec_decode(input.skip(consumed as int), a1, limit).1;
            assert(input.skip(consumed as int).skip(step as int) =~= input.skip((consumed + step) as int));
            consumed = consumed + step;
        }
        let reason = match r1 {
            Ok(v) => v,
            Err(e) => return Err(e),
        };
        Ok(ConfigDisconnect { reason })
    }
}

impl ProtoEncode for ConfigDisconnect {
    type Repr = ConfigDisconnect;

    open spec fn spec_encode(data: Seq<char>) -> Result<Seq<u8>, ProtoEncodeErr> {
        <String as ProtoEncode>::spec_encode(data)
    }

    fn encode(data: &ConfigDisconnect, writer: &mut Vec<u8>) -> (r: Result<(), ProtoEncodeErr>) {
        let ghost start = writer@;
        let ghost d = data.deep_view();
        let ghost w1 = writer@;
        let r1 = <String as ProtoEncode>::encode(&data.reason, writer);
        match r1 {
            Ok(()) => {},
            Err(e) => {
                return Err(e);
            },
        }
        Ok(())
    }
}

/// The server is done configuring the client.
pub struct ServerFinishConfiguration;

impl DeepView for ServerFinishConfiguration {
    type V = ();

    open spec fn deep_view(&self) -> () {
        ()
    }
}

impl ServerFinishConfiguration {
    pub const ID: i32 = 0x02;

    pub const DIRECTION: PacketDirection = PacketDirection::ClientBound;

    pub const STATE: ConnectionState = ConnectionState::Configuration;
}

impl ProtoDecode for ServerFinishConfiguration {
    type Repr = ServerFinishConfiguration;

    open spec fn spec_decode(input: Seq<u8>, allocated: nat, limit: nat) -> DecodeOutcome<()> {
        (Ok(()), 0, allocated)
    }

    fn decode<A: AllocTracker>(reader: &mut VecReader, alloc_tracker: &mut A) -> (r: Result<
        ServerFinishConfiguration,
        ProtoDecodeErr,
    >) {
        assert(reader.rest() =~= reader.rest().skip(0));
        Ok(ServerFinishConfiguration)
    }
}

impl ProtoEncode for ServerFinishConfiguration {
    type Repr = ServerFinishConfiguration;

    open spec fn spec_encode(data: ()) -> Result<Seq<u8>, ProtoEncodeErr> {
        Ok(Seq::empty())
    }

    fn encode(data: &ServerFinishConfiguration, writer: &mut Vec<u8>) -> (r: Result<(), ProtoEncodeErr>) {
        assert(writer@ =~= writer@ + Seq::<u8>::empty());
        Ok(())
    }
}

/// A keep-alive during configuration.
pub struct ConfigKeepAlive {
    pub keep_alive_id: i64,
}

impl DeepView for ConfigKeepAlive {
    type V = i64;

    open spec fn deep_view(&self) -> i64 {
        self.keep_alive_id.deep_view()
    }
}

impl ConfigKeepAlive {
    pub const ID: i32 = 0x03;

    pub const DIRECTION: PacketDirection = PacketDirection::ClientBound;

    pub const STATE: ConnectionState = ConnectionState::Configuration;
}

impl ProtoDecode for ConfigKeepAlive {
    type Repr = ConfigKeepAlive;

    open spec fn spec_decode(input: Seq<u8>, allocated: nat, limit: nat) -> DecodeOutcome<i64> {
        let o1 = <i64 as ProtoDecode>::spec_decode(input, allocated, limit);
        match o1.0 {
            Err(e) => (Err(e), o1.1, o1.2),
            Ok(v1) => {
                (Ok(v1), o1.1, o1.2)
            },
        }
    }

    fn decode<A: AllocTracker>(reader: &mut VecReader, alloc_tracker: &mut A) -> (r: Result<
        ConfigKeepAlive,
        ProtoDecodeErr,
    >) {
        let ghost input = reader.rest();
        let ghost limit = alloc_tracker.spec_limit() as nat;
        let ghost mut consumed: nat = 0;
        assert(input =~= input.skip(0));
        let ghost a1 = alloc_tracker.spec_allocated() as nat;
        let r1 = <i64 as ProtoDecode>::decode(reader, alloc_tracker);
        proof {
            let step = <i64 as ProtoDecode>::spec_decode(input.skip(consumed as int), a1, limit).1;
            assert(input.skip(consumed as int).skip(step as int) =~= input.skip((consumed + step) as int));
            consumed = consumed + step;
        }
        let keep_alive_id = match r1 {
            Ok(v) => v,
            Err(e) => return Err(e),
        };
        Ok(ConfigKeepAlive { keep_alive_id })
    }
}

impl ProtoEncode for ConfigKeepAlive {
    type Repr = ConfigKeepAlive;

    open spec fn spec_encode(data: i64) -> Result<Seq<u8>, ProtoEncodeErr> {
        <i64 as ProtoEncode>::spec_encode(data)
    }

    fn encode(data: &ConfigKeepAlive, writer: &mut Vec<u8>) -> (r: Result<(), ProtoEncodeErr>) {
        let ghost start = writer@;
        let ghost d = data.deep_view();
        let ghost w1 = writer@;
        let r1 = <i64 as ProtoEncode>::encode(&data.keep_alive_id, writer);
        match r1 {
            Ok(()) => {},
            Err(e) => {
                return Err(e);
            },
        }
        Ok(())
    }
}

/// A ping during configuration.
pub struct ConfigPing {
    pub id: i32,
}

impl DeepView for ConfigPing {
    type V = i32;

    open spec fn deep_view(&self) -> i32 {
        self.id.deep_view()
    }
}

impl ConfigPing {
    pub const ID: i32 = 0x04;

    pub const DIRECTION: PacketDirection = PacketDirection::ClientBound;

    pub const STATE: ConnectionState = ConnectionState::Configuration;
}

impl ProtoDecode for ConfigPing {
    type Repr = ConfigPing;

    open spec fn spec_decode(input: Seq<u8>, allocated: nat, limit: nat) -> DecodeOutcome<i32> {
        let o1 = <i32 as ProtoDecode>::spec_decode(input, allocated, limit);
        match o1.0 {
            Err(e) => (Err(e), o1.1, o1.2),
            Ok(v1) => {
                (Ok(v1), o1.1, o1.2)
            },
        }
    }

    fn decode<A: AllocTracker>(reader: &mut VecReader, alloc_tracker: &mut A) -> (r: Result<
        ConfigPing,
        ProtoDecodeErr,
    >) {
        let ghost input = reader.rest();
        let ghost limit = alloc_tracker.spec_limit() as nat;
        let ghost mut consumed: nat = 0;
        assert(input =~= input.skip(0));
        let ghost a1 = alloc_tracker.spec_allocated() as nat;
        let r1 = <i32 as ProtoDecode>::decode(reader, alloc_tracker);
        proof {
            let step = <i32 as ProtoDecode>::spec_decode(input.skip(consumed as int), a1, limit).1;
            assert(input.skip(consumed as int).skip(step as int) =~= input.skip((consumed + step) as int));
            consumed = consumed + step;
        }
        let id = match r1 {
            Ok(v) => v,
            Err(e) => return Err(e),
        };
        Ok(ConfigPing { id })
    }
}

impl ProtoEncode for ConfigPing {
    type Repr = ConfigPing;

    open spec fn spec_encode(data: i32) -> Result<Seq<u8>, ProtoEncodeErr> {
        <i32 as ProtoEncode>::spec_encode(data)
    }

    fn encode(data: &ConfigPing, writer: &mut Vec<u8>) -> (r: Result<(), ProtoEncodeErr>) {
        let ghost start = writer@;
        let ghost d = data.deep_view();
        let ghost w1 = writer@;
        let r1 = <i32 as ProtoEncode>::encode(&data.id, writer);
        match r1 {
            Ok(()) => {},
            Err(e) => {
                return Err(e);
            },
        }
        Ok(())
    }
}

/// The contents of the registries, as one compound tag.
pub struct RegistryData {
    pub registries: Arc<Tag>,
}

impl DeepView for RegistryData {
    type V = TagView;

    open spec fn deep_view(&self) -> TagView {
        self.registries.deep_view()
    }
}

impl RegistryData {
    pub const ID: i32 = 0x05;

    pub const DIRECTION: PacketDirection = PacketDirection::ClientBound;

    pub const STATE: ConnectionState = ConnectionState::Configuration;
}

impl ProtoDecode for RegistryData {
    type Repr = RegistryData;

    open spec fn spec_decode(input: Seq<u8>, allocated: nat, limit: nat) -> DecodeOutcome<TagView> {
        let o1 = <Arc<TagRoot> as ProtoDecode>::spec_decode(input, allocated, limit);
        match o1.0 {
            Err(e) => (Err(e), o1.1, o1.2),
            Ok(v1) => {
                (Ok(v1), o1.1, o1.2)
            },
        }
    }

    fn decode<A: AllocTracker>(reader: &mut VecReader, alloc_tracker: &mut A) -> (r: Result<
        RegistryData,
        ProtoDecodeErr,
    >) {
        let ghost input = reader.rest();
        let ghost limit = alloc_tracker.spec_limit() as nat;
        let ghost mut consumed: nat = 0;
        assert(input =~= input.skip(0));
        let ghost a1 = alloc_tracker.spec_allocated() as nat;
        let r1 = <Arc<TagRoot> as ProtoDecode>::decode(reader, alloc_tracker);
        proof {
            let step = <Arc<TagRoot> as ProtoDecode>::spec_decode(input.skip(consumed as int), a1, limit).1;
            assert(input.skip(consumed as int).skip(step as int) =~= input.skip((consumed + step) as int));
            consumed = consumed + step;
        }
        let registries = match r1 {
            Ok(v) => v,
            Err(e) => return Err(e),
        };
        Ok(RegistryData { registries })
    }
}

/// Removes one resource pack, or all of them.
pub struct ConfigRemoveResourcePack {
    pub uuid: Option<u128>,
}

impl DeepView for ConfigRemoveResourcePack {
    type V = Option<u128>;

    open spec fn deep_view(&self) -> Option<u128> {
        self.uuid.deep_view()
    }
}

impl ConfigRemoveResourcePack {
    pub const ID: i32 = 0x06;

    pub const DIRECTION: PacketDirection = PacketDirection::ClientBound;

    pub const STATE: ConnectionState = ConnectionState::Configuration;
}

impl ProtoDecode for ConfigRemoveResourcePack {
    type Repr = ConfigRemoveResourcePack;

    open spec fn spec_decode(input: Seq<u8>, allocated: nat, limit: nat) -> DecodeOutcome<Option<u128>> {
        let o1 = <Option<u128> as ProtoDecode>::spec_decode(input, allocated, limit);
        match o1.0 {
            Err(e) => (Err(e), o1.1, o1.2),
            Ok(v1) => {
                (Ok(v1), o1.1, o1.2)
            },
        }
    }

    fn decode<A: AllocTracker>(reader: &mut VecReader, alloc_tracker: &mut A) -> (r: Result<
        ConfigRemoveResourcePack,
        ProtoDecodeErr,
    >) {
        let ghost input = reader.rest();
        let ghost limit = alloc_tracker.spec_limit() as nat;
        let ghost mut consumed: nat = 0;
        assert(input =~= input.skip(0));
        let ghost a1 = alloc_tracker.spec_allocated() as nat;
        let r1 = <Option<u128> as ProtoDecode>::decode(reader, alloc_tracker);
        proof {
            let step = <Option<u128> as ProtoDecode>::spec_decode(input.skip(consumed as int), a1, limit).1;
            assert(input.skip(consumed as int).skip(step as int) =~= input.skip((consumed + step) as int));
            consumed = consumed + step;
        }
        let uuid = match r1 {
            Ok(v) => v,
            Err(e) => return Err(e),
        };
        Ok(ConfigRemoveResourcePack { uuid })
    }
}

impl ProtoEncode for ConfigRemoveResourcePack {
    type Repr = ConfigRemoveResourcePack;

    open spec fn spec_encode(data: Option<u128>) -> Result<Seq<u8>, ProtoEncodeErr> {
        <Option<u128> as ProtoEncode>::spec_encode(data)
    }

    fn encode(data: &ConfigRemoveResourcePack, writer: &mut Vec<u8>) -> (r: Result<(), ProtoEncodeErr>) {
        let ghost start = writer@;
        let ghost d = data.deep_view();
        let ghost w1 = writer@;
        let r1 = <Option<u128> as ProtoEncode>::encode(&data.uuid, writer);
        match r1 {
            Ok(()) => {},
            Err(e) => {
                return Err(e);
            },
        }
        Ok(())
    }
}

/// Offers a resource pack to the client.
pub struct ConfigAddResourcePack {
    pub uuid: Option<u128>,
    pub url: String,
    pub hash: String,
    pub forced: bool,
    pub message: Option<String>,
}

impl DeepView for ConfigAddResourcePack {
    type V = (Option<u128>, Seq<char>, Seq<char>, bool, Option<Seq<char>>);

    open spec fn deep_view(&self) -> (Option<u128>, Seq<char>, Seq<char>, bool, Option<Seq<char>>) {
        (self.uuid.deep_view(), self.url.deep_view(), self.hash.deep_view(), self.forced.deep_view(), self.message.deep_view())
    }
}

impl ConfigAddResourcePack {
    pub const ID: i32 = 0x07;

    pub const DIRECTION: PacketDirection = PacketDirection::ClientBound;

    pub const STATE: ConnectionState = ConnectionState::Configuration;
}

impl ProtoDecode for ConfigAddResourcePack {
    type Repr = ConfigAddResourcePack;

    open spec fn spec_decode(input: Seq<u8>, allocated: nat, limit: nat) -> DecodeOutcome<(Option<u128>, Seq<char>, Seq<char>, bool, Option<Seq<char>>)> {
        let o1 = <Option<u128> as ProtoDecode>::spec_decode(input, allocated, limit);
        match o1.0 {
            Err(e) => (Err(e), o1.1, o1.2),
            Ok(v1) => {
                let o2 = seq_field_decode::<String>(input.skip((o1.1) as int), o1.2, limit, None, Some(32767usize), None);
                match o2.0 {
                    Err(e) => (Err(e), o1.1 + o2.1, o2.2),
                    Ok(v2) => {
                        let o3 = seq_field_decode::<String>(input.skip((o1.1 + o2.1) as int), o2.2, limit, None, Some(40usize), None);
                        match o3.0 {
                            Err(e) => (Err(e), o1.1 + o2.1 + o3.1, o3.2),
                            Ok(v3) => {
                                let o4 = <bool as ProtoDecode>::spec_decode(input.skip((o1.1 + o2.1 + o3.1) as int), o3.2, limit);
                                match o4.0 {
                                    Err(e) => (Err(e), o1.1 + o2.1 + o3.1 + o4.1, o4.2),
                                    Ok(v4) => {
                                        let o5 = <Option<String> as ProtoDecode>::spec_decode(input.skip((o1.1 + o2.1 + o3.1 + o4.1) as int), o4.2, limit);
                                        match o5.0 {
                                            Err(e) => (Err(e), o1.1 + o2.1 + o3.1 + o4.1 + o5.1, o5.2),
                                            Ok(v5) => {
                                                (Ok((v1, v2, v3, v4, v5)), o1.1 + o2.1 + o3.1 + o4.1 + o5.1, o5.2)
                                            },
                                        }
                                    },
                                }
                            },
                        }
                    },
                }
            },
        }
    }

    fn decode<A: AllocTracker>(reader: &mut VecReader, alloc_tracker: &mut A) -> (r: Result<
        ConfigAddResourcePack,
        ProtoDecodeErr,
    >) {
        let ghost input = reader.rest();
        let ghost limit = alloc_tracker.spec_limit() as nat;
        let ghost mut consumed: nat = 0;
        assert(input =~= input.skip(0));
        let ghost a1 = alloc_tracker.spec_allocated() as nat;
        let r1 = <Option<u128> as ProtoDecode>::decode(reader, alloc_tracker);
        proof {
            let step = <Option<u128> as ProtoDecode>::spec_decode(input.skip(consumed as int), a1, limit).1;
            assert(input.skip(consumed as int).skip(step as int) =~= input.skip((consumed + step) as int));
            consumed = consumed + step;
        }
        let uuid = match r1 {
            Ok(v) => v,
            Err(e) => return Err(e),
        };
        let ghost a2 = alloc_tracker.spec_allocated() as nat;
        let r2 = decode_seq_field::<String, A>(reader, alloc_tracker, None, Some(32767usize), None);
        proof {
            let step = seq_field_decode::<String>(input.skip(consumed as int), a2, limit, None, Some(32767usize), None).1;
            assert(input.skip(consumed as int).skip(step as int) =~= input.skip((consumed + step) as int));
            consumed = consumed + step;
        }
        let url = match r2 {
            Ok(v) => v,
            Err(e) => return Err(e),
        };
        let ghost a3 = alloc_tracker.spec_allocated() as nat;
        let r3 = decode_seq_field::<String, A>(reader, alloc_tracker, None, Some(40usize), None);
        proof {
            let step = seq_field_decode::<String>(input.skip(consumed as int), a3, limit, None, Some(40usize), None).1;
            assert(input.skip(consumed as int).skip(step as int) =~= input.skip((consumed + step) as int));
            consumed = consumed + step;
        }
        let hash = match r3 {
            Ok(v) => v,
            Err(e) => return Err(e),
        };
        let ghost a4 = alloc_tracker.spec_allocated() as nat;
        let r4 = <bool as ProtoDecode>::decode(reader, alloc_tracker);
        proof {
            let step = <bool as ProtoDecode>::spec_decode(input.skip(consumed as int), a4, limit).1;
            assert(input.skip(consumed as int).skip(step as int) =~= input.skip((consumed + step) as int));
            consumed = consumed + step;
        }
        let forced = match r4 {
            Ok(v) => v,
            Err(e) => return Err(e),
        };
        let ghost a5 = alloc_tracker.spec_allocated() as nat;
        let r5 = <Option<String> as ProtoDecode>::decode(reader, alloc_tracker);
        proof {
            let step = <Option<String> as ProtoDecode>::spec_decode(input.skip(consumed as int), a5, limit).1;
            assert(input.skip(consumed as int).skip(step as int) =~= input.skip((consumed + step) as int));
            consumed = consumed + step;
        }
        let message = match r5 {
            Ok(v) => v,
            Err(e) => return Err(e),
        };
        Ok(ConfigAddResourcePack { uuid, url, hash, forced, message })
    }
}

impl ProtoEncode for ConfigAddResourcePack {
    type Repr = ConfigAddResourcePack;

    open spec fn spec_encode(data: (Option<u128>, Seq<char>, Seq<char>, bool, Option<Seq<char>>)) -> Result<Seq<u8>, ProtoEncodeErr> {
        then_encode(<Option<u128> as ProtoEncode>::spec_encode(data.0), then_encode(seq_field_encode::<String>(data.1, None, Some(32767usize), None), then_encode(seq_field_encode::<String>(data.2, None, Some(40usize), None), then_encode(<bool as ProtoEncode>::spec_encode(data.3), <Option<String> as ProtoEncode>::spec_encode(data.4)))))
    }

    fn encode(data: &ConfigAddResourcePack, writer: &mut Vec<u8>) -> (r: Result<(), ProtoEncodeErr>) {
        let ghost start = writer@;
        let ghost d = data.deep_view();
        let ghost w1 = writer@;
        let r1 = <Option<u128> as ProtoEncode>::encode(&data.uuid, writer);
        match r1 {
            Ok(()) => {},
            Err(e) => {
                return Err(e);
            },
        }
        let ghost w2 = writer@;
        let r2 = encode_seq_field::<String>(&data.url, writer, None, Some(32767usize), None);
        match r2 {
            Ok(()) => {},
            Err(e) => {
                proof {
                    lemma_prefix_of_append(start, w2.skip(start.len() as int));
                    assert(start + w2.skip(start.len() as int) =~= w2);
                    lemma_prefix_trans(start, w2, writer@);
                }
                return Err(e);
            },
        }
        let ghost w3 = writer@;
        let r3 = encode_seq_field::<String>(&data.hash, writer, None, Some(40usize), None);
        match r3 {
            Ok(()) => {},
            Err(e) => {
                proof {
                    lemma_prefix_of_append(start, w3.skip(start.len() as int));
                    assert(start + w3.skip(start.len() as int) =~= w3);
                    lemma_prefix_trans(start, w3, writer@);
                }
                return Err(e);
            },
        }
        let ghost w4 = writer@;
        let r4 = <bool as ProtoEncode>::encode(&data.forced, writer);
        match r4 {
            Ok(()) => {},
            Err(e) => {
                proof {
                    lemma_prefix_of_append(start, w4.skip(start.len() as int));
                    assert(start + w4.skip(start.len() as int) =~= w4);
                    lemma_prefix_trans(start, w4, writer@);
                }
                return Err(e);
            },
        }
        let ghost w5 = writer@;
        let r5 = <Option<String> as ProtoEncode>::encode(&data.message, writer);
        match r5 {
            Ok(()) => {},
            Err(e) => {
                proof {
                    lemma_prefix_of_append(start, w5.skip(start.len() as int));
                    assert(start + w5.skip(start.len() as int) =~= w5);
                    lemma_prefix_trans(start, w5, writer@);
                }
                return Err(e);
            },
        }
        assert(writer@ =~= start + (<Option<u128> as ProtoEncode>::spec_encode(d.0)->Ok_0 + (seq_field_encode::<String>(d.1, None, Some(32767usize), None)->Ok_0 + (seq_field_encode::<String>(d.2, None, Some(40usize), None)->Ok_0 + (<bool as ProtoEncode>::spec_encode(d.3)->Ok_0 + <Option<String> as ProtoEncode>::spec_encode(d.4)->Ok_0)))));
        Ok(())
    }
}

/// The feature flags that are on.
pub struct FeatureFlags {
    pub flags: Vec<Identifier>,
}

impl DeepView for FeatureFlags {
    type V = Seq<(Seq<char>, usize)>;

    open spec fn deep_view(&self) -> Seq<(Seq<char>, usize)> {
        self.flags.deep_view()
    }
}

impl FeatureFlags {
    pub const ID: i32 = 0x08;

    pub const DIRECTION: PacketDirection = PacketDirection::ClientBound;

    pub const STATE: ConnectionState = ConnectionState::Configuration;
}

impl ProtoDecode for FeatureFlags {
    type Repr = FeatureFlags;

    open spec fn spec_decode(input: Seq<u8>, allocated: nat, limit: nat) -> DecodeOutcome<Seq<(Seq<char>, usize)>> {
        let o1 = <Vec<Identifier> as ProtoDecode>::spec_decode(input, allocated, limit);
        match o1.0 {
            Err(e) => (Err(e), o1.1, o1.2),
            Ok(v1) => {
                (Ok(v1), o1.1, o1.2)
            },
        }
    }

    fn decode<A: AllocTracker>(reader: &mut VecReader, alloc_tracker: &mut A) -> (r: Result<
        FeatureFlags,
        ProtoDecodeErr,
    >) {
        let ghost input = reader.rest();
        let ghost limit = alloc_tracker.spec_limit() as nat;
        let ghost mut consumed: nat = 0;
        assert(input =~= input.skip(0));
        let ghost a1 = alloc_tracker.spec_allocated() as nat;
        let r1 = <Vec<Identifier> as ProtoDecode>::decode(reader, alloc_tracker);
        proof {
            let step = <Vec<Identifier> as ProtoDecode>::spec_decode(input.skip(consumed as int), a1, limit).1;
            assert(input.skip(consumed as int).skip(step as int) =~= input.skip((consumed + step) as int));
            consumed = consumed + step;
        }
        let flags = match r1 {
            Ok(v) => v,
            Err(e) => return Err(e),
        };
        Ok(FeatureFlags { flags })
    }
}

impl ProtoEncode for FeatureFlags {
    type Repr = FeatureFlags;

    open spec fn spec_encode(data: Seq<(Seq<char>, usize)>) -> Result<Seq<u8>, ProtoEncodeErr> {
        <Vec<Identifier> as ProtoEncode>::spec_encode(data)
    }

    fn encode(data: &FeatureFlags, writer: &mut Vec<u8>) -> (r: Result<(), ProtoEncodeErr>) {
        let ghost start = writer@;
        let ghost d = data.deep_view();
        let ghost w1 = writer@;
        let r1 = <Vec<Identifier> as ProtoEncode>::encode(&data.flags, writer);
        match r1 {
            Ok(()) => {},
            Err(e) => {
                return Err(e);
            },
        }
        Ok(())
    }
}

/// The tags of the registries.
pub struct UpdateTags {
    pub tags: Vec<RegistryTag>,
}

impl DeepView for UpdateTags {
    type V = Seq<<RegistryTag as DeepView>::V>;

    open spec fn deep_view(&self) -> Seq<<RegistryTag as DeepView>::V> {
        self.tags.deep_view()
    }
}

impl UpdateTags {
    pub const ID: i32 = 0x09;

    pub const DIRECTION: PacketDirection = PacketDirection::ClientBound;

    pub const STATE: ConnectionState = ConnectionState::Configuration;
}

impl ProtoDecode for UpdateTags {
    type Repr = UpdateTags;

    open spec fn spec_decode(input: Seq<u8>, allocated: nat, limit: nat) -> DecodeOutcome<Seq<<RegistryTag as DeepView>::V>> {
        let o1 = <Vec<RegistryTag> as ProtoDecode>::spec_decode(input, allocated, limit);
        match o1.0 {
            Err(e) => (Err(e), o1.1, o1.2),
            Ok(v1) => {
                (Ok(v1), o1.1, o1.2)
            },
        }
    }

    fn decode<A: AllocTracker>(reader: &mut VecReader, alloc_tracker: &mut A) -> (r: Result<
        UpdateTags,
        ProtoDecodeErr,
    >) {
        let ghost input = reader.rest();
        let ghost limit = alloc_tracker.spec_limit() as nat;
        let ghost mut consumed: nat = 0;
        assert(input =~= input.skip(0));
        let ghost a1 = alloc_tracker.spec_allocated() as nat;
        let r1 = <Vec<RegistryTag> as ProtoDecode>::decode(reader, alloc_tracker);
        proof {
            let step = <Vec<RegistryTag> as ProtoDecode>::spec_decode(input.skip(consumed as int), a1, limit).1;
            assert(input.skip(consumed as int).skip(step as int) =~= input.skip((consumed + step) as int));
            consumed = consumed + step;
        }
        let tags = match r1 {
            Ok(v) => v,
            Err(e) => return Err(e),
        };
        Ok(UpdateTags { tags })
    }
}

impl ProtoEncode for UpdateTags {
    type Repr = UpdateTags;

    open spec fn spec_encode(data: Seq<<RegistryTag as DeepView>::V>) -> Result<Seq<u8>, ProtoEncodeErr> {
        <Vec<RegistryTag> as ProtoEncode>::spec_encode(data)
    }

    fn encode(data: &UpdateTags, writer: &mut Vec<u8>) -> (r: Result<(), ProtoEncodeErr>) {
        let ghost start = writer@;
        let ghost d = data.deep_view();
        let ghost w1 = writer@;
        let r1 = <Vec<RegistryTag> as ProtoEncode>::encode(&data.tags, writer);
        match r1 {
            Ok(()) => {},
            Err(e) => {
                return Err(e);
            },
        }
        Ok(())
    }
}

/// The difficulty of the world changed.
pub struct ChangeDifficulty {
    pub difficulty: Difficulty,
    pub locked: bool,
}

impl DeepView for ChangeDifficulty {
    type V = (Difficulty, bool);

    open spec fn deep_view(&self) -> (Difficulty, bool) {
        (self.difficulty.deep_view(), self.locked.deep_view())
    }
}

impl ChangeDifficulty {
    pub const ID: i32 = 0x0B;

    pub const DIRECTION: PacketDirection = PacketDirection::ClientBound;

    pub const STATE: ConnectionState = ConnectionState::Play;
}

impl ProtoDecode for ChangeDifficulty {
    type Repr = ChangeDifficulty;

    open spec fn spec_decode(input: Seq<u8>, allocated: nat, limit: nat) -> DecodeOutcome<(Difficulty, bool)> {
        let o1 = <Difficulty as ProtoDecode>::spec_decode(input, allocated, limit);
        match o1.0 {
            Err(e) => (Err(e), o1.1, o1.2),
            Ok(v1) => {
                let o2 = <bool as ProtoDecode>::spec_decode(input.skip((o1.1) as int), o1.2, limit);
                match o2.0 {
                    Err(e) => (Err(e), o1.1 + o2.1, o2.2),
                    Ok(v2) => {
                        (Ok((v1, v2)), o1.1 + o2.1, o2.2)
                    },
                }
            },
        }
    }

    fn decode<A: AllocTracker>(reader: &mut VecReader, alloc_tracker: &mut A) -> (r: Result<
        ChangeDifficulty,
        ProtoDecodeErr,
    >) {
        let ghost input = reader.rest();
        let ghost limit = alloc_tracker.spec_limit() as nat;
        let ghost mut consumed: nat = 0;
        assert(input =~= input.skip(0));
        let ghost a1 = alloc_tracker.spec_allocated() as nat;
        let r1 = <Difficulty as ProtoDecode>::decode(reader, alloc_tracker);
        proof {
            let step = <Difficulty as ProtoDecode>::spec_decode(input.skip(consumed as int), a1, limit).1;
            assert(input.skip(consumed as int).skip(step as int) =~= input.skip((consumed + step) as int));
            consumed = consumed + step;
        }
        let difficulty = match r1 {
            Ok(v) => v,
            Err(e) => return Err(e),
        };
        let ghost a2 = alloc_tracker.spec_allocated() as nat;
        let r2 = <bool as ProtoDecode>::decode(reader, alloc_tracker);
        proof {
            let step = <bool as ProtoDecode>::spec_decode(input.skip(consumed as int), a2, limit).1;
            assert(input.skip(consumed as int).skip(step as int) =~= input.skip((consumed + step) as int));
            consumed = consumed + step;
        }
        let locked = match r2 {
            Ok(v) => v,
            Err(e) => return Err(e),
        };
        Ok(ChangeDifficulty { difficulty, locked })
    }
}

impl ProtoEncode for ChangeDifficulty {
    type Repr = ChangeDifficulty;

    open spec fn spec_encode(data: (Difficulty, bool)) -> Result<Seq<u8>, ProtoEncodeErr> {
        then_encode(<Difficulty as ProtoEncode>::spec_encode(data.0), <bool as ProtoEncode>::spec_encode(data.1))
    }

    fn encode(data: &ChangeDifficulty, writer: &mut Vec<u8>) -> (r: Result<(), ProtoEncodeErr>) {
        let ghost start = writer@;
        let ghost d = data.deep_view();
        let ghost w1 = writer@;
        let r1 = <Difficulty as ProtoEncode>::encode(&data.difficulty, writer);
        match r1 {
            Ok(()) => {},
            Err(e) => {
                return Err(e);
            },
        }
        let ghost w2 = writer@;
        let r2 = <bool as ProtoEncode>::encode(&data.locked, writer);
        match r2 {
            Ok(()) => {},
            Err(e) => {
                proof {
                    lemma_prefix_of_append(start, w2.skip(start.len() as int));
                    assert(start + w2.skip(start.len() as int) =~= w2);
                    lemma_prefix_trans(start, w2, writer@);
                }
                return Err(e);
            },
        }
        assert(writer@ =~= start + (<Difficulty as ProtoEncode>::spec_encode(d.0)->Ok_0 + <bool as ProtoEncode>::spec_encode(d.1)->Ok_0));
        Ok(())
    }
}

/// A batch of chunks is complete.
pub struct ChunkBatchFinish {
    pub size: i32,
}

impl DeepView for ChunkBatchFinish {
    type V = i32;

    open spec fn deep_view(&self) -> i32 {
        self.size.deep_view()
    }
}

impl ChunkBatchFinish {
    pub const ID: i32 = 0x0C;

    pub const DIRECTION: PacketDirection = PacketDirection::ClientBound;

    pub const STATE: ConnectionState = ConnectionState::Play;
}

impl ProtoDecode for ChunkBatchFinish {
    type Repr = ChunkBatchFinish;

    open spec fn spec_decode(input: Seq<u8>, allocated: nat, limit: nat) -> DecodeOutcome<i32> {
        let o1 = <VarInt as ProtoDecode>::spec_decode(input, allocated, limit);
        match o1.0 {
            Err(e) => (Err(e), o1.1, o1.2),
            Ok(v1) => {
                (Ok(v1), o1.1, o1.2)
            },
        }
    }

    fn decode<A: AllocTracker>(reader: &mut VecReader, alloc_tracker: &mut A) -> (r: Result<
        ChunkBatchFinish,
        ProtoDecodeErr,
    >) {
        let ghost input = reader.rest();
        let ghost limit = alloc_tracker.spec_limit() as nat;
        let ghost mut consumed: nat = 0;
        assert(input =~= input.skip(0));
        let ghost a1 = alloc_tracker.spec_allocated() as nat;
        let r1 = <VarInt as ProtoDecode>::decode(reader, alloc_tracker);
        proof {
            let step = <VarInt as ProtoDecode>::spec_decode(input.skip(consumed as int), a1, limit).1;
            assert(input.skip(consumed as int).skip(step as int) =~= input.skip((consumed + step) as int));
            consumed = consumed + step;
        }
        let size = match r1 {
            Ok(v) => v,
            Err(e) => return Err(e),
        };
        Ok(ChunkBatchFinish { size })
    }
}

impl ProtoEncode for ChunkBatchFinish {
    type Repr = ChunkBatchFinish;

    open spec fn spec_encode(data: i32) -> Result<Seq<u8>, ProtoEncodeErr> {
        <VarInt as ProtoEncode>::spec_encode(data)
    }

    fn encode(data: &ChunkBatchFinish, writer: &mut Vec<u8>) -> (r: Result<(), ProtoEncodeErr>) {
        let ghost start = writer@;
        let ghost d = data.deep_view();
        let ghost w1 = writer@;
        let r1 = <VarInt as ProtoEncode>::encode(&data.size, writer);
        match r1 {
            Ok(()) => {},
            Err(e) => {
                return Err(e);
            },
        }
        Ok(())
    }
}

/// A batch of chunks begins.
pub struct ChunkBatchStart;

impl DeepView for ChunkBatchStart {
    type V = ();

    open spec fn deep_view(&self) -> () {
        ()
    }
}

impl ChunkBatchStart {
    pub const ID: i32 = 0x0D;

    pub const DIRECTION: PacketDirection = PacketDirection::ClientBound;

    pub const STATE: ConnectionState = ConnectionState::Play;
}

impl ProtoDecode for ChunkBatchStart {
    type Repr = ChunkBatchStart;

    open spec fn spec_decode(input: Seq<u8>, allocated: nat, limit: nat) -> DecodeOutcome<()> {
        (Ok(()), 0, allocated)
    }

    fn decode<A: AllocTracker>(reader: &mut VecReader, alloc_tracker: &mut A) -> (r: Result<
        ChunkBatchStart,
        ProtoDecodeErr,
    >) {
        assert(reader.rest() =~= reader.rest().skip(0));
        Ok(ChunkBatchStart)
    }
}

impl ProtoEncode for ChunkBatchStart {
    type Repr = ChunkBatchStart;

    open spec fn spec_encode(data: ()) -> Result<Seq<u8>, ProtoEncodeErr> {
        Ok(Seq::empty())
    }

    fn encode(data: &ChunkBatchStart, writer: &mut Vec<u8>) -> (r: Result<(), ProtoEncodeErr>) {
        assert(writer@ =~= writer@ + Seq::<u8>::empty());
        Ok(())
    }
}

/// The player joins the world.
pub struct GameJoin {
    pub entity_id: i32,
    pub is_hardcore: bool,
    pub dimensions: Vec<Identifier>,
    pub max_players: i32,
    pub view_distance: i32,
    pub sim_distance: i32,
    pub reduced_debug: bool,
    pub enable_respawn: bool,
    pub limited_crafting: bool,
    pub dimension_type: Identifier,
    pub dimension_name: Identifier,
    pub seed: i64,
    pub game_mode: GameMode,
    pub last_game_mode: LastGameMode,
    pub is_debug: bool,
    pub is_flag: bool,
    pub death_location: Option<DeathLocation>,
    pub portal_cooldown: i32,
}

impl DeepView for GameJoin {
    type V = ((i32, bool, Seq<(Seq<char>, usize)>, i32, i32, i32), (bool, bool, bool, (Seq<char>, usize), (Seq<char>, usize), i64), (GameMode, LastGameMode, bool, bool, Option<<DeathLocation as DeepView>::V>, i32));

    open spec fn deep_view(&self) -> ((i32, bool, Seq<(Seq<char>, usize)>, i32, i32, i32), (bool, bool, bool, (Seq<char>, usize), (Seq<char>, usize), i64), (GameMode, LastGameMode, bool, bool, Option<<DeathLocation as DeepView>::V>, i32)) {
        ((self.entity_id.deep_view(), self.is_hardcore.deep_view(), self.dimensions.deep_view(), self.max_players.deep_view(), self.view_distance.deep_view(), self.sim_distance.deep_view()), (self.reduced_debug.deep_view(), self.enable_respawn.deep_view(), self.limited_crafting.deep_view(), self.dimension_type.deep_view(), self.dimension_name.deep_view(), self.seed.deep_view()), (self.game_mode.deep_view(), self.last_game_mode.deep_view(), self.is_debug.deep_view(), self.is_flag.deep_view(), self.death_location.deep_view(), self.portal_cooldown.deep_view()))
    }
}

impl GameJoin {
    pub const ID: i32 = 0x29;

    pub const DIRECTION: PacketDirection = PacketDirection::ClientBound;

    pub const STATE: ConnectionState = ConnectionState::Play;
}

/// Decoding fields 1 to 6 of a `GameJoin`.
pub open spec fn game_join_part1_decode(input: Seq<u8>, allocated: nat, limit: nat) -> DecodeOutcome<(i32, bool, Seq<(Seq<char>, usize)>, i32, i32, i32)> {
        let o1 = <i32 as ProtoDecode>::spec_decode(input, allocated, limit);
        match o1.0 {
            Err(e) => (Err(e), o1.1, o1.2),
            Ok(v1) => {
                let o2 = <bool as ProtoDecode>::spec_decode(input.skip((o1.1) as int), o1.2, limit);
                match o2.0 {
                    Err(e) => (Err(e), o1.1 + o2.1, o2.2),
                    Ok(v2) => {
                        let o3 = <Vec<Identifier> as ProtoDecode>::spec_decode(input.skip((o1.1 + o2.1) as int), o2.2, limit);
                        match o3.0 {
                            Err(e) => (Err(e), o1.1 + o2.1 + o3.1, o3.2),
                            Ok(v3) => {
                                let o4 = <VarInt as ProtoDecode>::spec_decode(input.skip((o1.1 + o2.1 + o3.1) as int), o3.2, limit);
                                match o4.0 {
                                    Err(e) => (Err(e), o1.1 + o2.1 + o3.1 + o4.1, o4.2),
                                    Ok(v4) => {
                                        let o5 = <VarInt as ProtoDecode>::spec_decode(input.skip((o1.1 + o2.1 + o3.1 + o4.1) as int), o4.2, limit);
                                        match o5.0 {
                                            Err(e) => (Err(e), o1.1 + o2.1 + o3.1 + o4.1 + o5.1, o5.2),
                                            Ok(v5) => {
                                                let o6 = <VarInt as ProtoDecode>::spec_decode(input.skip((o1.1 + o2.1 + o3.1 + o4.1 + o5.1) as int), o5.2, limit);
                                                match o6.0 {
                                                    Err(e) => (Err(e), o1.1 + o2.1 + o3.1 + o4.1 + o5.1 + o6.1, o6.2),
                                                    Ok(v6) => {
                                                        (Ok((v1, v2, v3, v4, v5, v6)), o1.1 + o2.1 + o3.1 + o4.1 + o5.1 + o6.1, o6.2)
                                                    },
                                                }
                                            },
                                        }
                                    },
                                }
                            },
                        }
                    },
                }
            },
        }
}

#[verifier::spinoff_prover]
fn decode_game_join_part1<A: AllocTracker>(reader: &mut VecReader, alloc_tracker: &mut A) -> (r: Result<
    (i32, bool, Vec<Identifier>, i32, i32, i32),
    ProtoDecodeErr,
>)
    requires
        old(reader).wf(),
    ensures
        reader_step(*old(reader), *final(reader)),
        final(alloc_tracker).spec_limit() == old(alloc_tracker).spec_limit(),
        decoded(
            game_join_part1_decode(
                old(reader).rest(),
                old(alloc_tracker).spec_allocated() as nat,
                old(alloc_tracker).spec_limit() as nat,
            ),
            match r {
                Ok(t) => Ok((t.0.deep_view(), t.1.deep_view(), t.2.deep_view(), t.3.deep_view(), t.4.deep_view(), t.5.deep_view())),
                Err(e) => Err(e),
            },
            old(reader).rest(),
            final(reader).rest(),
            final(alloc_tracker).spec_allocated() as nat,
        ),
{
    let ghost input = reader.rest();
    let ghost limit = alloc_tracker.spec_limit() as nat;
    let ghost mut consumed: nat = 0;
    assert(input =~= input.skip(0));
    let ghost a1 = alloc_tracker.spec_allocated() as nat;
    let r1 = <i32 as ProtoDecode>::decode(reader, alloc_tracker);
    proof {
        let step = <i32 as ProtoDecode>::spec_decode(input.skip(consumed as int), a1, limit).1;
        assert(input.skip(consumed as int).skip(step as int) =~= input.skip((consumed + step) as int));
        consumed = consumed + step;
    }
    let x1 = match r1 {
        Ok(v) => v,
        Err(e) => return Err(e),
    };
    let ghost a2 = alloc_tracker.spec_allocated() as nat;
    let r2 = <bool as ProtoDecode>::decode(reader, alloc_tracker);
    proof {
        let step = <bool as ProtoDecode>::spec_decode(input.skip(consumed as int), a2, limit).1;
        assert(input.skip(consumed as int).skip(step as int) =~= input.skip((consumed + step) as int));
        consumed = consumed + step;
    }
    let x2 = match r2 {
        Ok(v) => v,
        Err(e) => return Err(e),
    };
    let ghost a3 = alloc_tracker.spec_allocated() as nat;
    let r3 = <Vec<Identifier> as ProtoDecode>::decode(reader, alloc_tracker);
    proof {
        let step = <Vec<Identifier> as ProtoDecode>::spec_decode(input.skip(consumed as int), a3, limit).1;
        assert(input.skip(consumed as int).skip(step as int) =~= input.skip((consumed + step) as int));
        consumed = consumed + step;
    }
    let x3 = match r3 {
        Ok(v) => v,
        Err(e) => return Err(e),
    };
    let ghost a4 = alloc_tracker.spec_allocated() as nat;
    let r4 = <VarInt as ProtoDecode>::decode(reader, alloc_tracker);
    proof {
        let step = <VarInt as ProtoDecode>::spec_decode(input.skip(consumed as int), a4, limit).1;
        assert(input.skip(consumed as int).skip(step as int) =~= input.skip((consumed + step) as int));
        consumed = consumed + step;
    }
    let x4 = match r4 {
        Ok(v) => v,
        Err(e) => return Err(e),
    };
    let ghost a5 = alloc_tracker.spec_allocated() as nat;
    let r5 = <VarInt as ProtoDecode>::decode(reader, alloc_tracker);
    proof {
        let step = <VarInt as ProtoDecode>::spec_decode(input.skip(consumed as int), a5, limit).1;
        assert(input.skip(consumed as int).skip(step as int) =~= input.skip((consumed + step) as int));
        consumed = consumed + step;
    }
    let x5 = match r5 {
        Ok(v) => v,
        Err(e) => return Err(e),
    };
    let ghost a6 = alloc_tracker.spec_allocated() as nat;
    let r6 = <VarInt as ProtoDecode>::decode(reader, alloc_tracker);
    proof {
        let step = <VarInt as ProtoDecode>::spec_decode(input.skip(consumed as int), a6, limit).1;
        assert(input.skip(consumed as int).skip(step as int) =~= input.skip((consumed + step) as int));
        consumed = consumed + step;
    }
    let x6 = match r6 {
        Ok(v) => v,
        Err(e) => return Err(e),
    };
    Ok((x1, x2, x3, x4, x5, x6))
}

/// Encoding fields 1 to 6 of a `GameJoin`.
pub open spec fn game_join_part1_encode(data: (i32, bool, Seq<(Seq<char>, usize)>, i32, i32, i32)) -> Result<Seq<u8>, ProtoEncodeErr> {
    then_encode(<i32 as ProtoEncode>::spec_encode(data.0), then_encode(<bool as ProtoEncode>::spec_encode(data.1), then_encode(<Vec<Identifier> as ProtoEncode>::spec_encode(data.2), then_encode(<VarInt as ProtoEncode>::spec_encode(data.3), then_encode(<VarInt as ProtoEncode>::spec_encode(data.4), <VarInt as ProtoEncode>::spec_encode(data.5))))))
}

#[verifier::spinoff_prover]
#[verifier::rlimit(60)]
fn encode_game_join_part1(data: &GameJoin, writer: &mut Vec<u8>) -> (r: Result<(), ProtoEncodeErr>)
    ensures
        encoded(game_join_part1_encode(data.deep_view().0), r, old(writer)@, final(writer)@),
{
    let ghost start = writer@;
    let ghost d = data.deep_view().0;
    let ghost w1 = writer@;
    let r1 = <i32 as ProtoEncode>::encode(&data.entity_id, writer);
    match r1 {
        Ok(()) => {},
        Err(e) => {
            return Err(e);
        },
    }
    let ghost w2 = writer@;
    let r2 = <bool as ProtoEncode>::encode(&data.is_hardcore, writer);
    match r2 {
        Ok(()) => {},
        Err(e) => {
            proof {
                lemma_prefix_of_append(start, w2.skip(start.len() as int));
                assert(start + w2.skip(start.len() as int) =~= w2);
                lemma_prefix_trans(start, w2, writer@);
            }
            return Err(e);
        },
    }
    let ghost w3 = writer@;
    let r3 = <Vec<Identifier> as ProtoEncode>::encode(&data.dimensions, writer);
    match r3 {
        Ok(()) => {},
        Err(e) => {
            proof {
                lemma_prefix_of_append(start, w3.skip(start.len() as int));
                assert(start + w3.skip(start.len() as int) =~= w3);
                lemma_prefix_trans(start, w3, writer@);
            }
            return Err(e);
        },
    }
    let ghost w4 = writer@;
    let r4 = <VarInt as ProtoEncode>::encode(&data.max_players, writer);
    match r4 {
        Ok(()) => {},
        Err(e) => {
            proof {
                lemma_prefix_of_append(start, w4.skip(start.len() as int));
                assert(start + w4.skip(start.len() as int) =~= w4);
                lemma_prefix_trans(start, w4, writer@);
            }
            return Err(e);
        },
    }
    let ghost w5 = writer@;
    let r5 = <VarInt as ProtoEncode>::encode(&data.view_distance, writer);
    match r5 {
        Ok(()) => {},
        Err(e) => {
            proof {
                lemma_prefix_of_append(start, w5.skip(start.len() as int));
                assert(start + w5.skip(start.len() as int) =~= w5);
                lemma_prefix_trans(start, w5, writer@);
            }
            return Err(e);
        },
    }
    let ghost w6 = writer@;
    let r6 = <VarInt as ProtoEncode>::encode(&data.sim_distance, writer);
    match r6 {
        Ok(()) => {},
        Err(e) => {
            proof {
                lemma_prefix_of_append(start, w6.skip(start.len() as int));
                assert(start + w6.skip(start.len() as int) =~= w6);
                lemma_prefix_trans(start, w6, writer@);
            }
            return Err(e);
        },
    }
    assert(writer@ =~= start + (<i32 as ProtoEncode>::spec_encode(d.0)->Ok_0 + (<bool as ProtoEncode>::spec_encode(d.1)->Ok_0 + (<Vec<Identifier> as ProtoEncode>::spec_encode(d.2)->Ok_0 + (<VarInt as ProtoEncode>::spec_encode(d.3)->Ok_0 + (<VarInt as ProtoEncode>::spec_encode(d.4)->Ok_0 + <VarInt as ProtoEncode>::spec_encode(d.5)->Ok_0))))));
    Ok(())
}

/// Decoding fields 7 to 12 of a `GameJoin`.
pub open spec fn game_join_part2_decode(input: Seq<u8>, allocated: nat, limit: nat) -> DecodeOutcome<(bool, bool, bool, (Seq<char>, usize), (Seq<char>, usize), i64)> {
        let o1 = <bool as ProtoDecode>::spec_decode(input, allocated, limit);
        match o1.0 {
            Err(e) => (Err(e), o1.1, o1.2),
            Ok(v1) => {
                let o2 = <bool as ProtoDecode>::spec_decode(input.skip((o1.1) as int), o1.2, limit);
                match o2.0 {
                    Err(e) => (Err(e), o1.1 + o2.1, o2.2),
                    Ok(v2) => {
                        let o3 = <bool as ProtoDecode>::spec_decode(input.skip((o1.1 + o2.1) as int), o2.2, limit);
                        match o3.0 {
                            Err(e) => (Err(e), o1.1 + o2.1 + o3.1, o3.2),
                            Ok(v3) => {
                                let o4 = <Identifier as ProtoDecode>::spec_decode(input.skip((o1.1 + o2.1 + o3.1) as int), o3.2, limit);
                                match o4.0 {
                                    Err(e) => (Err(e), o1.1 + o2.1 + o3.1 + o4.1, o4.2),
                                    Ok(v4) => {
                                        let o5 = <Identifier as ProtoDecode>::spec_decode(input.skip((o1.1 + o2.1 + o3.1 + o4.1) as int), o4.2, limit);
                                        match o5.0 {
                                            Err(e) => (Err(e), o1.1 + o2.1 + o3.1 + o4.1 + o5.1, o5.2),
                                            Ok(v5) => {
                                                let o6 = <i64 as ProtoDecode>::spec_decode(input.skip((o1.1 + o2.1 + o3.1 + o4.1 + o5.1) as int), o5.2, limit);
                                                match o6.0 {
                                                    Err(e) => (Err(e), o1.1 + o2.1 + o3.1 + o4.1 + o5.1 + o6.1, o6.2),
                                                    Ok(v6) => {
                                                        (Ok((v1, v2, v3, v4, v5, v6)), o1.1 + o2.1 + o3.1 + o4.1 + o5.1 + o6.1, o6.2)
                                                    },
                                                }
                                            },
                                        }
                                    },
                                }
                            },
                        }
                    },
                }
            },
        }
}

#[verifier::spinoff_prover]
#[verifier::rlimit(40)]
fn decode_game_join_part2<A: AllocTracker>(reader: &mut VecReader, alloc_tracker: &mut A) -> (r: Result<
    (bool, bool, bool, Identifier, Identifier, i64),
    ProtoDecodeErr,
>)
    requires
        old(reader).wf(),
    ensures
        reader_step(*old(reader), *final(reader)),
        final(alloc_tracker).spec_limit() == old(alloc_tracker).spec_limit(),
        decoded(
            game_join_part2_decode(
                old(reader).rest(),
                old(alloc_tracker).spec_allocated() as nat,
                old(alloc_tracker).spec_limit() as nat,
            ),
            match r {
                Ok(t) => Ok((t.0.deep_view(), t.1.deep_view(), t.2.deep_view(), t.3.deep_view(), t.4.deep_view(), t.5.deep_view())),
                Err(e) => Err(e),
            },
            old(reader).rest(),
            final(reader).rest(),
            final(alloc_tracker).spec_allocated() as nat,
        ),
{
    let ghost input = reader.rest();
    let ghost limit = alloc_tracker.spec_limit() as nat;
    let ghost mut consumed: nat = 0;
    assert(input =~= input.skip(0));
    let ghost a1 = alloc_tracker.spec_allocated() as nat;
    let r1 = <bool as ProtoDecode>::decode(reader, alloc_tracker);
    proof {
        let step = <bool as ProtoDecode>::spec_decode(input.skip(consumed as int), a1, limit).1;
        assert(input.skip(consumed as int).skip(step as int) =~= input.skip((consumed + step) as int));
        consumed = consumed + step;
    }
    let x1 = match r1 {
        Ok(v) => v,
        Err(e) => return Err(e),
    };
    let ghost a2 = alloc_tracker.spec_allocated() as nat;
    let r2 = <bool as ProtoDecode>::decode(reader, alloc_tracker);
    proof {
        let step = <bool as ProtoDecode>::spec_decode(input.skip(consumed as int), a2, limit).1;
        assert(input.skip(consumed as int).skip(step as int) =~= input.skip((consumed + step) as int));
        consumed = consumed + step;
    }
    let x2 = match r2 {
        Ok(v) => v,
        Err(e) => return Err(e),
    };
    let ghost a3 = alloc_tracker.spec_allocated() as nat;
    let r3 = <bool as ProtoDecode>::decode(reader, alloc_tracker);
    proof {
        let step = <bool as ProtoDecode>::spec_decode(input.skip(consumed as int), a3, limit).1;
        assert(input.skip(consumed as int).skip(step as int) =~= input.skip((consumed + step) as int));
        consumed = consumed + step;
    }
    let x3 = match r3 {
        Ok(v) => v,
        Err(e) => return Err(e),
    };
    let ghost a4 = alloc_tracker.spec_allocated() as nat;
    let r4 = <Identifier as ProtoDecode>::decode(reader, alloc_tracker);
    proof {
        let step = <Identifier as ProtoDecode>::spec_decode(input.skip(consumed as int), a4, limit).1;
        assert(input.skip(consumed as int).skip(step as int) =~= input.skip((consumed + step) as int));
        consumed = consumed + step;
    }
    let x4 = match r4 {
        Ok(v) => v,
        Err(e) => return Err(e),
    };
    let ghost a5 = alloc_tracker.spec_allocated() as nat;
    let r5 = <Identifier as ProtoDecode>::decode(reader, alloc_tracker);
    proof {
        let step = <Identifier as ProtoDecode>::spec_decode(input.skip(consumed as int), a5, limit).1;
        assert(input.skip(consumed as int).skip(step as int) =~= input.skip((consumed + step) as int));
        consumed = consumed + step;
    }
    let x5 = match r5 {
        Ok(v) => v,
        Err(e) => return Err(e),
    };
    let ghost a6 = alloc_tracker.spec_allocated() as nat;
    let r6 = <i64 as ProtoDecode>::decode(reader, alloc_tracker);
    proof {
        let step = <i64 as ProtoDecode>::spec_decode(input.skip(consumed as int), a6, limit).1;
        assert(input.skip(consumed as int).skip(step as int) =~= input.skip((consumed + step) as int));
        consumed = consumed + step;
    }
    let x6 = match r6 {
        Ok(v) => v,
        Err(e) => return Err(e),
    };
    Ok((x1, x2, x3, x4, x5, x6))
}

/// Encoding fields 7 to 12 of a `GameJoin`.
pub open spec fn game_join_part2_encode(data: (bool, bool, bool, (Seq<char>, usize), (Seq<char>, usize), i64)) -> Result<Seq<u8>, ProtoEncodeErr> {
    then_encode(<bool as ProtoEncode>::spec_encode(data.0), then_encode(<bool as ProtoEncode>::spec_encode(data.1), then_encode(<bool as ProtoEncode>::spec_encode(data.2), then_encode(<Identifier as ProtoEncode>::spec_encode(data.3), then_encode(<Identifier as ProtoEncode>::spec_encode(data.4), <i64 as ProtoEncode>::spec_encode(data.5))))))
}

#[verifier::spinoff_prover]
#[verifier::rlimit(60)]
fn encode_game_join_part2(data: &GameJoin, writer: &mut Vec<u8>) -> (r: Result<(), ProtoEncodeErr>)
    ensures
        encoded(game_join_part2_encode(data.deep_view().1), r, old(writer)@, final(writer)@),
{
    let ghost start = writer@;
    let ghost d = data.deep_view().1;
    let ghost w1 = writer@;
    let r1 = <bool as ProtoEncode>::encode(&data.reduced_debug, writer);
    match r1 {
        Ok(()) => {},
        Err(e) => {
            return Err(e);
        },
    }
    let ghost w2 = writer@;
    let r2 = <bool as ProtoEncode>::encode(&data.enable_respawn, writer);
    match r2 {
        Ok(()) => {},
        Err(e) => {
            proof {
                lemma_prefix_of_append(start, w2.skip(start.len() as int));
                assert(start + w2.skip(start.len() as int) =~= w2);
                lemma_prefix_trans(start, w2, writer@);
            }
            return Err(e);
        },
    }
    let ghost w3 = writer@;
    let r3 = <bool as ProtoEncode>::encode(&data.limited_crafting, writer);
    match r3 {
        Ok(()) => {},
        Err(e) => {
            proof {
                lemma_prefix_of_append(start, w3.skip(start.len() as int));
                assert(start + w3.skip(start.len() as int) =~= w3);
                lemma_prefix_trans(start, w3, writer@);
            }
            return Err(e);
        },
    }
    let ghost w4 = writer@;
    let r4 = <Identifier as ProtoEncode>::encode(&data.dimension_type, writer);
    match r4 {
        Ok(()) => {},
        Err(e) => {
            proof {
                lemma_prefix_of_append(start, w4.skip(start.len() as int));
                assert(start + w4.skip(start.len() as int) =~= w4);
                lemma_prefix_trans(start, w4, writer@);
            }
            return Err(e);
        },
    }
    let ghost w5 = writer@;
    let r5 = <Identifier as ProtoEncode>::encode(&data.dimension_name, writer);
    match r5 {
        Ok(()) => {},
        Err(e) => {
            proof {
                lemma_prefix_of_append(start, w5.skip(start.len() as int));
                assert(start + w5.skip(start.len() as int) =~= w5);
                lemma_prefix_trans(start, w5, writer@);
            }
            return Err(e);
        },
    }
    let ghost w6 = writer@;
    let r6 = <i64 as ProtoEncode>::encode(&data.seed, writer);
    match r6 {
        Ok(()) => {},
        Err(e) => {
            proof {
                lemma_prefix_of_append(start, w6.skip(start.len() as int));
                assert(start + w6.skip(start.len() as int) =~= w6);
                lemma_prefix_trans(start, w6, writer@);
            }
            return Err(e);
        },
    }
    assert(writer@ =~= start + (<bool as ProtoEncode>::spec_encode(d.0)->Ok_0 + (<bool as ProtoEncode>::spec_encode(d.1)->Ok_0 + (<bool as ProtoEncode>::spec_encode(d.2)->Ok_0 + (<Identifier as ProtoEncode>::spec_encode(d.3)->Ok_0 + (<Identifier as ProtoEncode>::spec_encode(d.4)->Ok_0 + <i64 as ProtoEncode>::spec_encode(d.5)->Ok_0))))));
    Ok(())
}

/// Decoding fields 13 to 18 of a `GameJoin`.
pub open spec fn game_join_part3_decode(input: Seq<u8>, allocated: nat, limit: nat) -> DecodeOutcome<(GameMode, LastGameMode, bool, bool, Option<<DeathLocation as DeepView>::V>, i32)> {
        let o1 = <GameMode as ProtoDecode>::spec_decode(input, allocated, limit);
        match o1.0 {
            Err(e) => (Err(e), o1.1, o1.2),
            Ok(v1) => {
                let o2 = <LastGameMode as ProtoDecode>::spec_decode(input.skip((o1.1) as int), o1.2, limit);
                match o2.0 {
                    Err(e) => (Err(e), o1.1 + o2.1, o2.2),
                    Ok(v2) => {
                        let o3 = <bool as ProtoDecode>::spec_decode(input.skip((o1.1 + o2.1) as int), o2.2, limit);
                        match o3.0 {
                            Err(e) => (Err(e), o1.1 + o2.1 + o3.1, o3.2),
                            Ok(v3) => {
                                let o4 = <bool as ProtoDecode>::spec_decode(input.skip((o1.1 + o2.1 + o3.1) as int), o3.2, limit);
                                match o4.0 {
                                    Err(e) => (Err(e), o1.1 + o2.1 + o3.1 + o4.1, o4.2),
                                    Ok(v4) => {
                                        let o5 = <Option<DeathLocation> as ProtoDecode>::spec_decode(input.skip((o1.1 + o2.1 + o3.1 + o4.1) as int), o4.2, limit);
                                        match o5.0 {
                                            Err(e) => (Err(e), o1.1 + o2.1 + o3.1 + o4.1 + o5.1, o5.2),
                                            Ok(v5) => {
                                                let o6 = <VarInt as ProtoDecode>::spec_decode(input.skip((o1.1 + o2.1 + o3.1 + o4.1 + o5.1) as int), o5.2, limit);
                                                match o6.0 {
                                                    Err(e) => (Err(e), o1.1 + o2.1 + o3.1 + o4.1 + o5.1 + o6.1, o6.2),
                                                    Ok(v6) => {
                                                        (Ok((v1, v2, v3, v4, v5, v6)), o1.1 + o2.1 + o3.1 + o4.1 + o5.1 + o6.1, o6.2)
                                                    },
                                                }
                                            },
                                        }
                                    },
                                }
                            },
                        }
                    },
                }
            },
        }
}

#[verifier::spinoff_prover]
fn decode_game_join_part3<A: AllocTracker>(reader: &mut VecReader, alloc_tracker: &mut A) -> (r: Result<
    (GameMode, LastGameMode, bool, bool, Option<DeathLocation>, i32),
    ProtoDecodeErr,
>)
    requires
        old(reader).wf(),
    ensures
        reader_step(*old(reader), *final(reader)),
        final(alloc_tracker).spec_limit() == old(alloc_tracker).spec_limit(),
        decoded(
            game_join_part3_decode(
                old(reader).rest(),
                old(alloc_tracker).spec_allocated() as nat,
                old(alloc_tracker).spec_limit() as nat,
            ),
            match r {
                Ok(t) => Ok((t.0.deep_view(), t.1.deep_view(), t.2.deep_view(), t.3.deep_view(), t.4.deep_view(), t.5.deep_view())),
                Err(e) => Err(e),
            },
            old(reader).rest(),
            final(reader).rest(),
            final(alloc_tracker).spec_allocated() as nat,
        ),
{
    let ghost input = reader.rest();
    let ghost limit = alloc_tracker.spec_limit() as nat;
    let ghost mut consumed: nat = 0;
    assert(input =~= input.skip(0));
    let ghost a1 = alloc_tracker.spec_allocated() as nat;
    let r1 = <GameMode as ProtoDecode>::decode(reader, alloc_tracker);
    proof {
        let step = <GameMode as ProtoDecode>::spec_decode(input.skip(consumed as int), a1, limit).1;
        assert(input.skip(consumed as int).skip(step as int) =~= input.skip((consumed + step) as int));
        consumed = consumed + step;
    }
    let x1 = match r1 {
        Ok(v) => v,
        Err(e) => return Err(e),
    };
    let ghost a2 = alloc_tracker.spec_allocated() as nat;
    let r2 = <LastGameMode as ProtoDecode>::decode(reader, alloc_tracker);
    proof {
        let step = <LastGameMode as ProtoDecode>::spec_decode(input.skip(consumed as int), a2, limit).1;
        assert(input.skip(consumed as int).skip(step as int) =~= input.skip((consumed + step) as int));
        consumed = consumed + step;
    }
    let x2 = match r2 {
        Ok(v) => v,
        Err(e) => return Err(e),
    };
    let ghost a3 = alloc_tracker.spec_allocated() as nat;
    let r3 = <bool as ProtoDecode>::decode(reader, alloc_tracker);
    proof {
        let step = <bool as ProtoDecode>::spec_decode(input.skip(consumed as int), a3, limit).1;
        assert(input.skip(consumed as int).skip(step as int) =~= input.skip((consumed + step) as int));
        consumed = consumed + step;
    }
    let x3 = match r3 {
        Ok(v) => v,
        Err(e) => return Err(e),
    };
    let ghost a4 = alloc_tracker.spec_allocated() as nat;
    let r4 = <bool as ProtoDecode>::decode(reader, alloc_tracker);
    proof {
        let step = <bool as ProtoDecode>::spec_decode(input.skip(consumed as int), a4, limit).1;
        assert(input.skip(consumed as int).skip(step as int) =~= input.skip((consumed + step) as int));
        consumed = consumed + step;
    }
    let x4 = match r4 {
        Ok(v) => v,
        Err(e) => return Err(e),
    };
    let ghost a5 = alloc_tracker.spec_allocated() as nat;
    let r5 = <Option<DeathLocation> as ProtoDecode>::decode(reader, alloc_tracker);
    proof {
        let step = <Option<DeathLocation> as ProtoDecode>::spec_decode(input.skip(consumed as int), a5, limit).1;
        assert(input.skip(consumed as int).skip(step as int) =~= input.skip((consumed + step) as int));
        consumed = consumed + step;
    }
    let x5 = match r5 {
        Ok(v) => v,
        Err(e) => return Err(e),
    };
    let ghost a6 = alloc_tracker.spec_allocated() as nat;
    let r6 = <VarInt as ProtoDecode>::decode(reader, alloc_tracker);
    proof {
        let step = <VarInt as ProtoDecode>::spec_decode(input.skip(consumed as int), a6, limit).1;
        assert(input.skip(consumed as int).skip(step as int) =~= input.skip((consumed + step) as int));
        consumed = consumed + step;
    }
    let x6 = match r6 {
        Ok(v) => v,
        Err(e) => return Err(e),
    };
    Ok((x1, x2, x3, x4, x5, x6))
}

/// Encoding fields 13 to 18 of a `GameJoin`.
pub open spec fn game_join_part3_encode(data: (GameMode, LastGameMode, bool, bool, Option<<DeathLocation as DeepView>::V>, i32)) -> Result<Seq<u8>, ProtoEncodeErr> {
    then_encode(<GameMode as ProtoEncode>::spec_encode(data.0), then_encode(<LastGameMode as ProtoEncode>::spec_encode(data.1), then_encode(<bool as ProtoEncode>::spec_encode(data.2), then_encode(<bool as ProtoEncode>::spec_encode(data.3), then_encode(<Option<DeathLocation> as ProtoEncode>::spec_encode(data.4), <VarInt as ProtoEncode>::spec_encode(data.5))))))
}

#[verifier::spinoff_prover]
#[verifier::rlimit(60)]
fn encode_game_join_part3(data: &GameJoin, writer: &mut Vec<u8>) -> (r: Result<(), ProtoEncodeErr>)
    ensures
        encoded(game_join_part3_encode(data.deep_view().2), r, old(writer)@, final(writer)@),
{
    let ghost start = writer@;
    let ghost d = data.deep_view().2;
    let ghost w1 = writer@;
    let r1 = <GameMode as ProtoEncode>::encode(&data.game_mode, writer);
    match r1 {
        Ok(()) => {},
        Err(e) => {
            return Err(e);
        },
    }
    let ghost w2 = writer@;
    let r2 = <LastGameMode as ProtoEncode>::encode(&data.last_game_mode, writer);
    match r2 {
        Ok(()) => {},
        Err(e) => {
            proof {
                lemma_prefix_of_append(start, w2.skip(start.len() as int));
                assert(start + w2.skip(start.len() as int) =~= w2);
                lemma_prefix_trans(start, w2, writer@);
            }
            return Err(e);
        },
    }
    let ghost w3 = writer@;
    let r3 = <bool as ProtoEncode>::encode(&data.is_debug, writer);
    match r3 {
        Ok(()) => {},
        Err(e) => {
            proof {
                lemma_prefix_of_append(start, w3.skip(start.len() as int));
                assert(start + w3.skip(start.len() as int) =~= w3);
                lemma_prefix_trans(start, w3, writer@);
            }
            return Err(e);
        },
    }
    let ghost w4 = writer@;
    let r4 = <bool as ProtoEncode>::encode(&data.is_flag, writer);
    match r4 {
        Ok(()) => {},
        Err(e) => {
            proof {
                lemma_prefix_of_append(start, w4.skip(start.len() as int));
                assert(start + w4.skip(start.len() as int) =~= w4);
                lemma_prefix_trans(start, w4, writer@);
            }
            return Err(e);
        },
    }
    let ghost w5 = writer@;
    let r5 = <Option<DeathLocation> as ProtoEncode>::encode(&data.death_location, writer);
    match r5 {
        Ok(()) => {},
        Err(e) => {
            proof {
                lemma_prefix_of_append(start, w5.skip(start.len() as int));
                assert(start + w5.skip(start.len() as int) =~= w5);
                lemma_prefix_trans(start, w5, writer@);
            }
            return Err(e);
        },
    }
    let ghost w6 = writer@;
    let r6 = <VarInt as ProtoEncode>::encode(&data.portal_cooldown, writer);
    match r6 {
        Ok(()) => {},
        Err(e) => {
            proof {
                lemma_prefix_of_append(start, w6.skip(start.len() as int));
                assert(start + w6.skip(start.len() as int) =~= w6);
                lemma_prefix_trans(start, w6, writer@);
            }
            return Err(e);
        },
    }
    assert(writer@ =~= start + (<GameMode as ProtoEncode>::spec_encode(d.0)->Ok_0 + (<LastGameMode as ProtoEncode>::spec_encode(d.1)->Ok_0 + (<bool as ProtoEncode>::spec_encode(d.2)->Ok_0 + (<bool as ProtoEncode>::spec_encode(d.3)->Ok_0 + (<Option<DeathLocation> as ProtoEncode>::spec_encode(d.4)->Ok_0 + <VarInt as ProtoEncode>::spec_encode(d.5)->Ok_0))))));
    Ok(())
}

impl ProtoDecode for GameJoin {
    type Repr = GameJoin;

    open spec fn spec_decode(input: Seq<u8>, allocated: nat, limit: nat) -> DecodeOutcome<((i32, bool, Seq<(Seq<char>, usize)>, i32, i32, i32), (bool, bool, bool, (Seq<char>, usize), (Seq<char>, usize), i64), (GameMode, LastGameMode, bool, bool, Option<<DeathLocation as DeepView>::V>, i32))> {
        let o1 = game_join_part1_decode(input, allocated, limit);
        match o1.0 {
            Err(e) => (Err(e), o1.1, o1.2),
            Ok(p1) => {
                let o2 = game_join_part2_decode(input.skip((o1.1) as int), o1.2, limit);
                match o2.0 {
                    Err(e) => (Err(e), o1.1 + o2.1, o2.2),
                    Ok(p2) => {
                        let o3 = game_join_part3_decode(input.skip((o1.1 + o2.1) as int), o2.2, limit);
                        match o3.0 {
                            Err(e) => (Err(e), o1.1 + o2.1 + o3.1, o3.2),
                            Ok(p3) => {
                                (Ok((p1, p2, p3)), o1.1 + o2.1 + o3.1, o3.2)
                            },
                        }
                    },
                }
            },
        }
    }

    #[verifier::spinoff_prover]
    #[verifier::rlimit(60)]
    fn decode<A: AllocTracker>(reader: &mut VecReader, alloc_tracker: &mut A) -> (r: Result<
        GameJoin,
        ProtoDecodeErr,
    >) {
        let ghost input = reader.rest();
        let ghost limit = alloc_tracker.spec_limit() as nat;
        let ghost mut consumed: nat = 0;
        assert(input =~= input.skip(0));
        let ghost a1 = alloc_tracker.spec_allocated() as nat;
        let r1 = decode_game_join_part1(reader, alloc_tracker);
        proof {
            let step = game_join_part1_decode(input.skip(consumed as int), a1, limit).1;
            assert(input.skip(consumed as int).skip(step as int) =~= input.skip((consumed + step) as int));
            consumed = consumed + step;
        }
        let p1 = match r1 {
            Ok(v) => v,
            Err(e) => return Err(e),
        };
        let ghost a2 = alloc_tracker.spec_allocated() as nat;
        let r2 = decode_game_join_part2(reader, alloc_tracker);
        proof {
            let step = game_join_part2_decode(input.skip(consumed as int), a2, limit).1;
            assert(input.skip(consumed as int).skip(step as int) =~= input.skip((consumed + step) as int));
            consumed = consumed + step;
        }
        let p2 = match r2 {
            Ok(v) => v,
            Err(e) => return Err(e),
        };
        let ghost a3 = alloc_tracker.spec_allocated() as nat;
        let r3 = decode_game_join_part3(reader, alloc_tracker);
        proof {
            let step = game_join_part3_decode(input.skip(consumed as int), a3, limit).1;
            assert(input.skip(consumed as int).skip(step as int) =~= input.skip((consumed + step) as int));
            consumed = consumed + step;
        }
        let p3 = match r3 {
            Ok(v) => v,
            Err(e) => return Err(e),
        };
        Ok(GameJoin { entity_id: p1.0, is_hardcore: p1.1, dimensions: p1.2, max_players: p1.3, view_distance: p1.4, sim_distance: p1.5, reduced_debug: p2.0, enable_respawn: p2.1, limited_crafting: p2.2, dimension_type: p2.3, dimension_name: p2.4, seed: p2.5, game_mode: p3.0, last_game_mode: p3.1, is_debug: p3.2, is_flag: p3.3, death_location: p3.4, portal_cooldown: p3.5 })
    }
}

impl ProtoEncode for GameJoin {
    type Repr = GameJoin;

    open spec fn spec_encode(data: ((i32, bool, Seq<(Seq<char>, usize)>, i32, i32, i32), (bool, bool, bool, (Seq<char>, usize), (Seq<char>, usize), i64), (GameMode, LastGameMode, bool, bool, Option<<DeathLocation as DeepView>::V>, i32))) -> Result<Seq<u8>, ProtoEncodeErr> {
        then_encode(game_join_part1_encode(data.0), then_encode(game_join_part2_encode(data.1), game_join_part3_encode(data.2)))
    }

    #[verifier::spinoff_prover]
    fn encode(data: &GameJoin, writer: &mut Vec<u8>) -> (r: Result<(), ProtoEncodeErr>) {
        let ghost start = writer@;
        let ghost d = data.deep_view();
        let ghost w1 = writer@;
        let r1 = encode_game_join_part1(data, writer);
        match r1 {
            Ok(()) => {},
            Err(e) => {
                return Err(e);
            },
        }
        assert(writer@ =~= start + game_join_part1_encode(d.0)->Ok_0);
        let ghost w2 = writer@;
        let r2 = encode_game_join_part2(data, writer);
        match r2 {
            Ok(()) => {},
            Err(e) => {
                proof {
                    lemma_prefix_of_append(start, w2.skip(start.len() as int));
                    assert(start + w2.skip(start.len() as int) =~= w2);
                    lemma_prefix_trans(start, w2, writer@);
                }
                return Err(e);
            },
        }
        assert(writer@ =~= start + game_join_part1_encode(d.0)->Ok_0 + game_join_part2_encode(d.1)->Ok_0);
        let ghost w3 = writer@;
        let r3 = encode_game_join_part3(data, writer);
        match r3 {
            Ok(()) => {},
            Err(e) => {
                proof {
                    lemma_prefix_of_append(start, w3.skip(start.len() as int));
                    assert(start + w3.skip(start.len() as int) =~= w3);
                    lemma_prefix_trans(start, w3, writer@);
                }
                return Err(e);
            },
        }
        assert(writer@ =~= start + game_join_part1_encode(d.0)->Ok_0 + game_join_part2_encode(d.1)->Ok_0 + game_join_part3_encode(d.2)->Ok_0);
        assert(writer@ =~= start + (game_join_part1_encode(d.0)->Ok_0 + (game_join_part2_encode(d.1)->Ok_0 + game_join_part3_encode(d.2)->Ok_0)));
        Ok(())
    }
}

/// The chunk around which the client keeps chunks loaded.
pub struct SetCenterChunk {
    pub x: i32,
    pub z: i32,
}

impl DeepView for SetCenterChunk {
    type V = (i32, i32);

    open spec fn deep_view(&self) -> (i32, i32) {
        (self.x.deep_view(), self.z.deep_view())
    }
}

impl SetCenterChunk {
    pub const ID: i32 = 0x52;

    pub const DIRECTION: PacketDirection = PacketDirection::ClientBound;

    pub const STATE: ConnectionState = ConnectionState::Play;
}

impl ProtoDecode for SetCenterChunk {
    type Repr = SetCenterChunk;

    open spec fn spec_decode(input: Seq<u8>, allocated: nat, limit: nat) -> DecodeOutcome<(i32, i32)> {
        let o1 = <VarInt as ProtoDecode>::spec_decode(input, allocated, limit);
        match o1.0 {
            Err(e) => (Err(e), o1.1, o1.2),
            Ok(v1) => {
                let o2 = <VarInt as ProtoDecode>::spec_decode(input.skip((o1.1) as int), o1.2, limit);
                match o2.0 {
                    Err(e) => (Err(e), o1.1 + o2.1, o2.2),
                    Ok(v2) => {
                        (Ok((v1, v2)), o1.1 + o2.1, o2.2)
                    },
                }
            },
        }
    }

    fn decode<A: AllocTracker>(reader: &mut VecReader, alloc_tracker: &mut A) -> (r: Result<
        SetCenterChunk,
        ProtoDecodeErr,
    >) {
        let ghost input = reader.rest();
        let ghost limit = alloc_tracker.spec_limit() as nat;
        let ghost mut consumed: nat = 0;
        assert(input =~= input.skip(0));
        let ghost a1 = alloc_tracker.spec_allocated() as nat;
        let r1 = <VarInt as ProtoDecode>::decode(reader, alloc_tracker);
        proof {
            let step = <VarInt as ProtoDecode>::spec_decode(input.skip(consumed as int), a1, limit).1;
            assert(input.skip(consumed as int).skip(step as int) =~= input.skip((consumed + step) as int));
            consumed = consumed + step;
        }
        let x = match r1 {
            Ok(v) => v,
            Err(e) => return Err(e),
        };
        let ghost a2 = alloc_tracker.spec_allocated() as nat;
        let r2 = <VarInt as ProtoDecode>::decode(reader, alloc_tracker);
        proof {
            let step = <VarInt as ProtoDecode>::spec_decode(input.skip(consumed as int), a2, limit).1;
            assert(input.skip(consumed as int).skip(step as int) =~= input.skip((consumed + step) as int));
            consumed = consumed + step;
        }
        let z = match r2 {
            Ok(v) => v,
            Err(e) => return Err(e),
        };
        Ok(SetCenterChunk { x, z })
    }
}

impl ProtoEncode for SetCenterChunk {
    type Repr = SetCenterChunk;

    open spec fn spec_encode(data: (i32, i32)) -> Result<Seq<u8>, ProtoEncodeErr> {
        then_encode(<VarInt as ProtoEncode>::spec_encode(data.0), <VarInt as ProtoEncode>::spec_encode(data.1))
    }

    fn encode(data: &SetCenterChunk, writer: &mut Vec<u8>) -> (r: Result<(), ProtoEncodeErr>) {
        let ghost start = writer@;
        let ghost d = data.deep_view();
        let ghost w1 = writer@;
        let r1 = <VarInt as ProtoEncode>::encode(&data.x, writer);
        match r1 {
            Ok(()) => {},
            Err(e) => {
                return Err(e);
            },
        }
        let ghost w2 = writer@;
        let r2 = <VarInt as ProtoEncode>::encode(&data.z, writer);
        match r2 {
            Ok(()) => {},
            Err(e) => {
                proof {
                    lemma_prefix_of_append(start, w2.skip(start.len() as int));
                    assert(start + w2.skip(start.len() as int) =~= w2);
                    lemma_prefix_trans(start, w2, writer@);
                }
                return Err(e);
            },
        }
        assert(writer@ =~= start + (<VarInt as ProtoEncode>::spec_encode(d.0)->Ok_0 + <VarInt as ProtoEncode>::spec_encode(d.1)->Ok_0));
        Ok(())
    }
}

/// The server takes the client back to configuration.
pub struct StartConfiguration;

impl DeepView for StartConfiguration {
    type V = ();

    open spec fn deep_view(&self) -> () {
        ()
    }
}

impl StartConfiguration {
    pub const ID: i32 = 0x67;

    pub const DIRECTION: PacketDirection = PacketDirection::ClientBound;

    pub const STATE: ConnectionState = ConnectionState::Play;
}

impl ProtoDecode for StartConfiguration {
    type Repr = StartConfiguration;

    open spec fn spec_decode(input: Seq<u8>, allocated: nat, limit: nat) -> DecodeOutcome<()> {
        (Ok(()), 0, allocated)
    }

    fn decode<A: AllocTracker>(reader: &mut VecReader, alloc_tracker: &mut A) -> (r: Result<
        StartConfiguration,
        ProtoDecodeErr,
    >) {
        assert(reader.rest() =~= reader.rest().skip(0));
        Ok(StartConfiguration)
    }
}

impl ProtoEncode for StartConfiguration {
    type Repr = StartConfiguration;

    open spec fn spec_encode(data: ()) -> Result<Seq<u8>, ProtoEncodeErr> {
        Ok(Seq::empty())
    }

    fn encode(data: &StartConfiguration, writer: &mut Vec<u8>) -> (r: Result<(), ProtoEncodeErr>) {
        assert(writer@ =~= writer@ + Seq::<u8>::empty());
        Ok(())
    }
}

/// A ping answer carries its number as the eight bytes of its two's
/// complement, most significant first, and reads back as the same number.
pub proof fn lemma_status_ping_response_wire(x: i64, rest: Seq<u8>, allocated: nat, limit: nat)
    ensures
        <StatusPingResponse as ProtoEncode>::spec_encode(x) matches Ok(s) && s.len() == 8 && be_value(s) == x as u64
            && <StatusPingResponse as ProtoDecode>::spec_decode(s + rest, allocated, limit) == (
            Ok::<i64, ProtoDecodeErr>(x),
            8nat,
            allocated,
        ),
{
    lemma_i64_wire(x, rest, allocated, limit);
}

/// A keep-alive carries its number as the eight bytes of its two's
/// complement, most significant first, and reads back as the same number.
pub proof fn lemma_config_keep_alive_wire(x: i64, rest: Seq<u8>, allocated: nat, limit: nat)
    ensures
        <ConfigKeepAlive as ProtoEncode>::spec_encode(x) matches Ok(s) && s.len() == 8 && be_value(s) == x as u64
            && <ConfigKeepAlive as ProtoDecode>::spec_decode(s + rest, allocated, limit) == (
            Ok::<i64, ProtoDecodeErr>(x),
            8nat,
            allocated,
        ),
{
    lemma_i64_wire(x, rest, allocated, limit);
}

/// A ping carries its number as the four bytes of its two's complement, most
/// significant first, and reads back as the same number.
pub proof fn lemma_config_ping_wire(x: i32, rest: Seq<u8>, allocated: nat, limit: nat)
    ensures
        <ConfigPing as ProtoEncode>::spec_encode(x) matches Ok(s) && s.len() == 4 && be_value(s) == x as u32
            && <ConfigPing as ProtoDecode>::spec_decode(s + rest, allocated, limit) == (
            Ok::<i32, ProtoDecodeErr>(x),
            4nat,
            allocated,
        ),
{
    lemma_i32_wire(x, rest, allocated, limit);
}

/// A compression threshold goes out as its variable-length integer and reads
/// back as the same threshold.
pub proof fn lemma_set_compression_wire(x: i32, rest: Seq<u8>, allocated: nat, limit: nat)
    ensures
        <SetCompression as ProtoEncode>::spec_encode(x) == Ok::<Seq<u8>, ProtoEncodeErr>(varint_bytes(x as u32)),
        <SetCompression as ProtoDecode>::spec_decode(varint_bytes(x as u32) + rest, allocated, limit) == (
            Ok::<i32, ProtoDecodeErr>(x),
            varint_bytes(x as u32).len(),
            allocated,
        ),
{
    lemma_var_int_roundtrip(x, rest);
}

/// The size of a finished chunk batch goes out as its variable-length
/// integer and reads back as the same size.
pub proof fn lemma_chunk_batch_finish_wire(x: i32, rest: Seq<u8>, allocated: nat, limit: nat)
    ensures
        <ChunkBatchFinish as ProtoEncode>::spec_encode(x) == Ok::<Seq<u8>, ProtoEncodeErr>(varint_bytes(x as u32)),
        <ChunkBatchFinish as ProtoDecode>::spec_decode(varint_bytes(x as u32) + rest, allocated, limit) == (
            Ok::<i32, ProtoDecodeErr>(x),
            varint_bytes(x as u32).len(),
            allocated,
        ),
{
    lemma_var_int_roundtrip(x, rest);
}

/// The center chunk goes out as the variable-length integers of its x and
/// then its z, and reads back as the same chunk position.
pub proof fn lemma_set_center_chunk_wire(x: i32, z: i32, rest: Seq<u8>, allocated: nat, limit: nat)
    ensures
        <SetCenterChunk as ProtoEncode>::spec_encode((x, z)) == Ok::<Seq<u8>, ProtoEncodeErr>(
            varint_bytes(x as u32) + varint_bytes(z as u32),
        ),
        <SetCenterChunk as ProtoDecode>::spec_decode(varint_bytes(x as u32) + varint_bytes(z as u32) + rest, allocated, limit)
            == (Ok::<(i32, i32), ProtoDecodeErr>((x, z)), varint_bytes(x as u32).len() + varint_bytes(z as u32).len(), allocated),
{
    let bx = varint_bytes(x as u32);
    let bz = varint_bytes(z as u32);
    assert(bx + bz + rest =~= bx + (bz + rest));
    lemma_var_int_roundtrip(x, bz + rest);
    assert((bx + (bz + rest)).skip(bx.len() as int) =~= bz + rest);
    lemma_var_int_roundtrip(z, rest);
}

/// A change of difficulty goes out as two bytes, the difficulty's tag and then
/// 1 or 0 for whether it is locked, and reads back as the same change.
pub proof fn lemma_change_difficulty_wire(d: Difficulty, locked: bool, rest: Seq<u8>, allocated: nat, limit: nat)
    ensures
        <ChangeDifficulty as ProtoEncode>::spec_encode((d, locked)) == Ok::<Seq<u8>, ProtoEncodeErr>(
            seq![
                (match d {
                    Difficulty::Peaceful => 0u8,
                    Difficulty::Easy => 1u8,
                    Difficulty::Normal => 2u8,
                    Difficulty::Hard => 3u8,
                }),
                (if locked { 1u8 } else { 0u8 }),
            ],
        ),
        <ChangeDifficulty as ProtoDecode>::spec_decode(
            <ChangeDifficulty as ProtoEncode>::spec_encode((d, locked))->Ok_0 + rest,
            allocated,
            limit,
        ) == (Ok::<(Difficulty, bool), ProtoDecodeErr>((d, locked)), 2nat, allocated),
{
    let bl: u8 = if locked { 1u8 } else { 0u8 };
    lemma_difficulty_wire(d, 0, seq![bl] + rest, allocated, limit);
    lemma_bool_wire(locked, rest, allocated, limit);
    let bd = <Difficulty as ProtoEncode>::spec_encode(d)->Ok_0;
    assert(bd + seq![bl] =~= seq![bd[0], bl]);
    assert(bd + seq![bl] + rest =~= bd + (seq![bl] + rest));
    assert((bd + (seq![bl] + rest)).skip(1) =~= seq![bl] + rest);
}

} // verus!
