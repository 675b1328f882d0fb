//! Version 765 of the protocol (game release 1.20.4): its packets, the values
//! they carry, and the choice of a packet type by connection state and id.
use vstd::prelude::*;

use crate::io::VecReader;
use crate::protocol::decode::{decoded, reader_step, AllocTracker, ProtoDecode, ProtoDecodeErr};
use crate::protocol::encode::{encoded, ProtoEncode, ProtoEncodeErr};
use crate::protocol::json::{json_decoded, json_text_decode, json_text_encode, json_text_of};
use crate::protocol::packet::{ConnectionState, PacketDirection};
use crate::protocol::v765::clientbound::{
    ChangeDifficulty, ChunkBatchFinish, ChunkBatchStart, ConfigAddResourcePack, ConfigClientBoundPluginMessage, ConfigDisconnect, ConfigKeepAlive, ConfigPing, ConfigRemoveResourcePack, EncryptionRequest, FeatureFlags, GameJoin, LoginDisconnect, LoginPluginRequest, LoginSuccess, RegistryData, ServerFinishConfiguration, SetCenterChunk, SetCompression, StartConfiguration, StatusPingResponse, StatusResponse, UpdateTags,
};

pub mod clientbound;
pub mod types;

verus! {

/// The name of the game release that speaks this version.
pub const PROTO_NAME: &'static str = "1.20.4";

/// The number of this protocol version.
pub const PROTO_VER: i32 = 765;

/// A packet that a server sends, of any type of this version.
pub enum ClientBoundPacket {
    StatusResponse(StatusResponse),
    StatusPingResponse(StatusPingResponse),
    LoginDisconnect(LoginDisconnect),
    EncryptionRequest(EncryptionRequest),
    LoginSuccess(LoginSuccess),
    SetCompression(SetCompression),
    LoginPluginRequest(LoginPluginRequest),
    ConfigClientBoundPluginMessage(ConfigClientBoundPluginMessage),
    ConfigDisconnect(ConfigDisconnect),
    ServerFinishConfiguration(ServerFinishConfiguration),
    ConfigKeepAlive(ConfigKeepAlive),
    ConfigPing(ConfigPing),
    RegistryData(RegistryData),
    ConfigRemoveResourcePack(ConfigRemoveResourcePack),
    ConfigAddResourcePack(ConfigAddResourcePack),
    FeatureFlags(FeatureFlags),
    UpdateTags(UpdateTags),
    ChangeDifficulty(ChangeDifficulty),
    ChunkBatchFinish(ChunkBatchFinish),
    ChunkBatchStart(ChunkBatchStart),
    GameJoin(GameJoin),
    SetCenterChunk(SetCenterChunk),
    StartConfiguration(StartConfiguration),
}

impl ClientBoundPacket {
    /// The id of the packet's type.
    pub open spec fn spec_id(&self) -> i32 {
        match self {
            ClientBoundPacket::StatusResponse(_) => StatusResponse::ID,
            ClientBoundPacket::StatusPingResponse(_) => StatusPingResponse::ID,
            ClientBoundPacket::LoginDisconnect(_) => LoginDisconnect::ID,
            ClientBoundPacket::EncryptionRequest(_) => EncryptionRequest::ID,
            ClientBoundPacket::LoginSuccess(_) => LoginSuccess::ID,
            ClientBoundPacket::SetCompression(_) => SetCompression::ID,
            ClientBoundPacket::LoginPluginRequest(_) => LoginPluginRequest::ID,
            ClientBoundPacket::ConfigClientBoundPluginMessage(_) => ConfigClientBoundPluginMessage::ID,
            ClientBoundPacket::ConfigDisconnect(_) => ConfigDisconnect::ID,
            ClientBoundPacket::ServerFinishConfiguration(_) => ServerFinishConfiguration::ID,
            ClientBoundPacket::ConfigKeepAlive(_) => ConfigKeepAlive::ID,
            ClientBoundPacket::ConfigPing(_) => ConfigPing::ID,
            ClientBoundPacket::RegistryData(_) => RegistryData::ID,
            ClientBoundPacket::ConfigRemoveResourcePack(_) => ConfigRemoveResourcePack::ID,
            ClientBoundPacket::ConfigAddResourcePack(_) => ConfigAddResourcePack::ID,
            ClientBoundPacket::FeatureFlags(_) => FeatureFlags::ID,
            ClientBoundPacket::UpdateTags(_) => UpdateTags::ID,
            ClientBoundPacket::ChangeDifficulty(_) => ChangeDifficulty::ID,
            ClientBoundPacket::ChunkBatchFinish(_) => ChunkBatchFinish::ID,
            ClientBoundPacket::ChunkBatchStart(_) => ChunkBatchStart::ID,
            ClientBoundPacket::GameJoin(_) => GameJoin::ID,
            ClientBoundPacket::SetCenterChunk(_) => SetCenterChunk::ID,
            ClientBoundPacket::StartConfiguration(_) => StartConfiguration::ID,
        }
    }

    /// The connection state in which the packet's type is sent.
    pub open spec fn spec_state(&self) -> ConnectionState {
        match self {
            ClientBoundPacket::StatusResponse(_) => StatusResponse::STATE,
            ClientBoundPacket::StatusPingResponse(_) => StatusPingResponse::STATE,
            ClientBoundPacket::LoginDisconnect(_) => LoginDisconnect::STATE,
            ClientBoundPacket::EncryptionRequest(_) => EncryptionRequest::STATE,
            ClientBoundPacket::LoginSuccess(_) => LoginSuccess::STATE,
            ClientBoundPacket::SetCompression(_) => SetCompression::STATE,
            ClientBoundPacket::LoginPluginRequest(_) => LoginPluginRequest::STATE,
            ClientBoundPacket::ConfigClientBoundPluginMessage(_) => ConfigClientBoundPluginMessage::STATE,
            ClientBoundPacket::ConfigDisconnect(_) => ConfigDisconnect::STATE,
            ClientBoundPacket::ServerFinishConfiguration(_) => ServerFinishConfiguration::STATE,
            ClientBoundPacket::ConfigKeepAlive(_) => ConfigKeepAlive::STATE,
            ClientBoundPacket::ConfigPing(_) => ConfigPing::STATE,
            ClientBoundPacket::RegistryData(_) => RegistryData::STATE,
            ClientBoundPacket::ConfigRemoveResourcePack(_) => ConfigRemoveResourcePack::STATE,
            ClientBoundPacket::ConfigAddResourcePack(_) => ConfigAddResourcePack::STATE,
            ClientBoundPacket::FeatureFlags(_) => FeatureFlags::STATE,
            ClientBoundPacket::UpdateTags(_) => UpdateTags::STATE,
            ClientBoundPacket::ChangeDifficulty(_) => ChangeDifficulty::STATE,
            ClientBoundPacket::ChunkBatchFinish(_) => ChunkBatchFinish::STATE,
            ClientBoundPacket::ChunkBatchStart(_) => ChunkBatchStart::STATE,
            ClientBoundPacket::GameJoin(_) => GameJoin::STATE,
            ClientBoundPacket::SetCenterChunk(_) => SetCenterChunk::STATE,
            ClientBoundPacket::StartConfiguration(_) => StartConfiguration::STATE,
        }
    }

    /// The id of the packet's type.
    pub fn id(&self) -> (r: i32)
        ensures
            r == self.spec_id(),
    {
        match self {
            ClientBoundPacket::StatusResponse(_) => StatusResponse::ID,
            ClientBoundPacket::StatusPingResponse(_) => StatusPingResponse::ID,
            ClientBoundPacket::LoginDisconnect(_) => LoginDisconnect::ID,
            ClientBoundPacket::EncryptionRequest(_) => EncryptionRequest::ID,
            ClientBoundPacket::LoginSuccess(_) => LoginSuccess::ID,
            ClientBoundPacket::SetCompression(_) => SetCompression::ID,
            ClientBoundPacket::LoginPluginRequest(_) => LoginPluginRequest::ID,
            ClientBoundPacket::ConfigClientBoundPluginMessage(_) => ConfigClientBoundPluginMessage::ID,
            ClientBoundPacket::ConfigDisconnect(_) => ConfigDisconnect::ID,
            ClientBoundPacket::ServerFinishConfiguration(_) => ServerFinishConfiguration::ID,
            ClientBoundPacket::ConfigKeepAlive(_) => ConfigKeepAlive::ID,
            ClientBoundPacket::ConfigPing(_) => ConfigPing::ID,
            ClientBoundPacket::RegistryData(_) => RegistryData::ID,
            ClientBoundPacket::ConfigRemoveResourcePack(_) => ConfigRemoveResourcePack::ID,
            ClientBoundPacket::ConfigAddResourcePack(_) => ConfigAddResourcePack::ID,
            ClientBoundPacket::FeatureFlags(_) => FeatureFlags::ID,
            ClientBoundPacket::UpdateTags(_) => UpdateTags::ID,
            ClientBoundPacket::ChangeDifficulty(_) => ChangeDifficulty::ID,
            ClientBoundPacket::ChunkBatchFinish(_) => ChunkBatchFinish::ID,
            ClientBoundPacket::ChunkBatchStart(_) => ChunkBatchStart::ID,
            ClientBoundPacket::GameJoin(_) => GameJoin::ID,
            ClientBoundPacket::SetCenterChunk(_) => SetCenterChunk::ID,
            ClientBoundPacket::StartConfiguration(_) => StartConfiguration::ID,
        }
    }

    /// The connection state in which the packet's type is sent.
    pub fn state(&self) -> (r: ConnectionState)
        ensures
            r == self.spec_state(),
    {
        match self {
            ClientBoundPacket::StatusResponse(_) => StatusResponse::STATE,
            ClientBoundPacket::StatusPingResponse(_) => StatusPingResponse::STATE,
            ClientBoundPacket::LoginDisconnect(_) => LoginDisconnect::STATE,
            ClientBoundPacket::EncryptionRequest(_) => EncryptionRequest::STATE,
            ClientBoundPacket::LoginSuccess(_) => LoginSuccess::STATE,
            ClientBoundPacket::SetCompression(_) => SetCompression::STATE,
            ClientBoundPacket::LoginPluginRequest(_) => LoginPluginRequest::STATE,
            ClientBoundPacket::ConfigClientBoundPluginMessage(_) => ConfigClientBoundPluginMessage::STATE,
            ClientBoundPacket::ConfigDisconnect(_) => ConfigDisconnect::STATE,
            ClientBoundPacket::ServerFinishConfiguration(_) => ServerFinishConfiguration::STATE,
            ClientBoundPacket::ConfigKeepAlive(_) => ConfigKeepAlive::STATE,
            ClientBoundPacket::ConfigPing(_) => ConfigPing::STATE,
            ClientBoundPacket::RegistryData(_) => RegistryData::STATE,
            ClientBoundPacket::ConfigRemoveResourcePack(_) => ConfigRemoveResourcePack::STATE,
            ClientBoundPacket::ConfigAddResourcePack(_) => ConfigAddResourcePack::STATE,
            ClientBoundPacket::FeatureFlags(_) => FeatureFlags::STATE,
            ClientBoundPacket::UpdateTags(_) => UpdateTags::STATE,
            ClientBoundPacket::ChangeDifficulty(_) => ChangeDifficulty::STATE,
            ClientBoundPacket::ChunkBatchFinish(_) => ChunkBatchFinish::STATE,
            ClientBoundPacket::ChunkBatchStart(_) => ChunkBatchStart::STATE,
            ClientBoundPacket::GameJoin(_) => GameJoin::STATE,
            ClientBoundPacket::SetCenterChunk(_) => SetCenterChunk::STATE,
            ClientBoundPacket::StartConfiguration(_) => StartConfiguration::STATE,
        }
    }

    /// Every packet here is sent by the server.
    pub fn direction(&self) -> (r: PacketDirection)
        ensures
            r == PacketDirection::ClientBound,
    {
        PacketDirection::ClientBound
    }
}

/// What the decoder does on the payload `before` of a packet with the given
/// state and id: the packet type registered for them is decoded, and an id with
/// no type in that state is reported unknown without reading anything.
pub open spec fn clientbound_decoded(
    state: ConnectionState,
    id: i32,
    r: Result<ClientBoundPacket, ProtoDecodeErr>,
    before: Seq<u8>,
    after: Seq<u8>,
    allocated: nat,
    alloc_after: nat,
    limit: nat,
) -> bool {
    let unknown = r matches Err(ProtoDecodeErr::UnknownPacketId(i)) && i == id && after == before
        && alloc_after == allocated;
    match state {
        ConnectionState::Handshake => {
            unknown
        },
        ConnectionState::Status => {
            if id == StatusResponse::ID {
                &&& (r is Ok ==> r matches Ok(ClientBoundPacket::StatusResponse(_)))
                &&& json_decoded(
                    json_text_decode(before, allocated, limit),
                    match r {
                        Ok(ClientBoundPacket::StatusResponse(p)) => Ok(p.response),
                        Ok(_) => Err(ProtoDecodeErr::MalformedPacket),
                        Err(e) => Err(e),
                    },
                    before,
                    after,
                    alloc_after,
                )
            } else if id == StatusPingResponse::ID {
                match r {
                    Ok(ClientBoundPacket::StatusPingResponse(p)) => decoded(
                        StatusPingResponse::spec_decode(before, allocated, limit),
                        Ok(p.deep_view()),
                        before,
                        after,
                        alloc_after,
                    ),
                    Ok(_) => false,
                    Err(e) => decoded(StatusPingResponse::spec_decode(before, allocated, limit), Err(e), before, after, alloc_after),
                }
            } else {
                unknown
            }
        },
        ConnectionState::Login => {
            if id == LoginDisconnect::ID {
                &&& (r is Ok ==> r matches Ok(ClientBoundPacket::LoginDisconnect(_)))
                &&& json_decoded(
                    json_text_decode(before, allocated, limit),
                    match r {
                        Ok(ClientBoundPacket::LoginDisconnect(p)) => Ok(p.reason),
                        Ok(_) => Err(ProtoDecodeErr::MalformedPacket),
                        Err(e) => Err(e),
                    },
                    before,
                    after,
                    alloc_after,
                )
            } else if id == EncryptionRequest::ID {
                match r {
                    Ok(ClientBoundPacket::EncryptionRequest(p)) => decoded(
                        EncryptionRequest::spec_decode(before, allocated, limit),
                        Ok(p.deep_view()),
                        before,
                        after,
                        alloc_after,
                    ),
                    Ok(_) => false,
                    Err(e) => decoded(EncryptionRequest::spec_decode(before, allocated, limit), Err(e), before, after, alloc_after),
                }
            } else if id == LoginSuccess::ID {
                match r {
                    Ok(ClientBoundPacket::LoginSuccess(p)) => decoded(
                        LoginSuccess::spec_decode(before, allocated, limit),
                        Ok(p.deep_view()),
                        before,
                        after,
                        alloc_after,
                    ),
                    Ok(_) => false,
                    Err(e) => decoded(LoginSuccess::spec_decode(before, allocated, limit), Err(e), before, after, alloc_after),
                }
            } else if id == SetCompression::ID {
                match r {
                    Ok(ClientBoundPacket::SetCompression(p)) => decoded(
                        SetCompression::spec_decode(before, allocated, limit),
                        Ok(p.deep_view()),
                        before,
                        after,
                        alloc_after,
                    ),
                    Ok(_) => false,
                    Err(e) => decoded(SetCompression::spec_decode(before, allocated, limit), Err(e), before, after, alloc_after),
                }
            } else if id == LoginPluginRequest::ID {
                match r {
                    Ok(ClientBoundPacket::LoginPluginRequest(p)) => decoded(
                        LoginPluginRequest::spec_decode(before, allocated, limit),
                        Ok(p.deep_view()),
                        before,
                        after,
                        alloc_after,
                    ),
                    Ok(_) => false,
                    Err(e) => decoded(LoginPluginRequest::spec_decode(before, allocated, limit), Err(e), before, after, alloc_after),
                }
            } else {
                unknown
            }
        },
        ConnectionState::Play => {
            unknown
        },
        ConnectionState::Configuration => {
            if id == ConfigClientBoundPluginMessage::ID {
                match r {
                    Ok(ClientBoundPacket::ConfigClientBoundPluginMessage(p)) => decoded(
                        ConfigClientBoundPluginMessage::spec_decode(before, allocated, limit),
                        Ok(p.deep_view()),
                        before,
                        after,
                        alloc_after,
                    ),
                    Ok(_) => false,
                    Err(e) => decoded(ConfigClientBoundPluginMessage::spec_decode(before, allocated, limit), Err(e), before, after, alloc_after),
                }
            } else if id == ConfigDisconnect::ID {
                match r {
                    Ok(ClientBoundPacket::ConfigDisconnect(p)) => decoded(
                        ConfigDisconnect::spec_decode(before, allocated, limit),
                        Ok(p.deep_view()),
                        before,
                        after,
                        alloc_after,
                    ),
                    Ok(_) => false,
                    Err(e) => decoded(ConfigDisconnect::spec_decode(before, allocated, limit), Err(e), before, after, alloc_after),
                }
            } else if id == ServerFinishConfiguration::ID {
                match r {
                    Ok(ClientBoundPacket::ServerFinishConfiguration(p)) => decoded(
                        ServerFinishConfiguration::spec_decode(before, allocated, limit),
                        Ok(p.deep_view()),
                        before,
                        after,
                        alloc_after,
                    ),
                    Ok(_) => false,
                    Err(e) => decoded(ServerFinishConfiguration::spec_decode(before, allocated, limit), Err(e), before, after, alloc_after),
                }
            } else if id == ConfigKeepAlive::ID {
                match r {
                    Ok(ClientBoundPacket::ConfigKeepAlive(p)) => decoded(
                        ConfigKeepAlive::spec_decode(before, allocated, limit),
                        Ok(p.deep_view()),
                        before,
                        after,
                        alloc_after,
                    ),
                    Ok(_) => false,
                    Err(e) => decoded(ConfigKeepAlive::spec_decode(before, allocated, limit), Err(e), before, after, alloc_after),
                }
            } else if id == ConfigPing::ID {
                match r {
                    Ok(ClientBoundPacket::ConfigPing(p)) => decoded(
                        ConfigPing::spec_decode(before, allocated, limit),
                        Ok(p.deep_view()),
                        before,
                        after,
                        alloc_after,
                    ),
                    Ok(_) => false,
                    Err(e) => decoded(ConfigPing::spec_decode(before, allocated, limit), Err(e), before, after, alloc_after),
                }
            } else if id == RegistryData::ID {
                match r {
                    Ok(ClientBoundPacket::RegistryData(p)) => decoded(
                        RegistryData::spec_decode(before, allocated, limit),
                        Ok(p.deep_view()),
                        before,
                        after,
                        alloc_after,
                    ),
                    Ok(_) => false,
                    Err(e) => decoded(RegistryData::spec_decode(before, allocated, limit), Err(e), before, after, alloc_after),
                }
            } else if id == ConfigRemoveResourcePack::ID {
                match r {
                    Ok(ClientBoundPacket::ConfigRemoveResourcePack(p)) => decoded(
                        ConfigRemoveResourcePack::spec_decode(before, allocated, limit),
                        Ok(p.deep_view()),
                        before,
                        after,
                        alloc_after,
                    ),
                    Ok(_) => false,
                    Err(e) => decoded(ConfigRemoveResourcePack::spec_decode(before, allocated, limit), Err(e), before, after, alloc_after),
                }
            } else if id == ConfigAddResourcePack::ID {
                match r {
                    Ok(ClientBoundPacket::ConfigAddResourcePack(p)) => decoded(
                        ConfigAddResourcePack::spec_decode(before, allocated, limit),
                        Ok(p.deep_view()),
                        before,
                        after,
                        alloc_after,
                    ),
                    Ok(_) => false,
                    Err(e) => decoded(ConfigAddResourcePack::spec_decode(before, allocated, limit), Err(e), before, after, alloc_after),
                }
            } else if id == FeatureFlags::ID {
                match r {
                    Ok(ClientBoundPacket::FeatureFlags(p)) => decoded(
                        FeatureFlags::spec_decode(before, allocated, limit),
                        Ok(p.deep_view()),
                        before,
                        after,
                        alloc_after,
                    ),
                    Ok(_) => false,
                    Err(e) => decoded(FeatureFlags::spec_decode(before, allocated, limit), Err(e), before, after, alloc_after),
                }
            } else if id == UpdateTags::ID {
                match r {
                    Ok(ClientBoundPacket::UpdateTags(p)) => decoded(
                        UpdateTags::spec_decode(before, allocated, limit),
                        Ok(p.deep_view()),
                        before,
                        after,
                        alloc_after,
                    ),
                    Ok(_) => false,
                    Err(e) => decoded(UpdateTags::spec_decode(before, allocated, limit), Err(e), before, after, alloc_after),
                }
            } else {
                unknown
            }
        },
    }
}

/// Decodes packets of this version by their state and id.
pub struct PacketDecoderImpl;

impl PacketDecoderImpl {
    /// Decodes the payload of a packet whose id was already read. Only
    /// packets that a server sends are known to this library: every id of the
    /// other direction is reported unknown, as is every id in the handshake
    /// and play states, where no packet type is registered.
    pub fn decode_packet<A: AllocTracker>(
        id: i32,
        direction: PacketDirection,
        state: ConnectionState,
        reader: &mut VecReader,
        alloc_tracker: &mut A,
    ) -> (r: Result<ClientBoundPacket, ProtoDecodeErr>)
        requires
            old(reader).wf(),
        ensures
            reader_step(*old(reader), *final(reader)),
            final(alloc_tracker).spec_limit() == old(alloc_tracker).spec_limit(),
            direction == PacketDirection::ServerBound ==> (r matches Err(
                ProtoDecodeErr::UnknownPacketId(i),
            ) && i == id && final(reader).rest() == old(reader).rest()
                && final(alloc_tracker).spec_allocated() == old(alloc_tracker).spec_allocated()),
            direction == PacketDirection::ClientBound ==> clientbound_decoded(
                state,
                id,
                r,
                old(reader).rest(),
                final(reader).rest(),
                old(alloc_tracker).spec_allocated() as nat,
                final(alloc_tracker).spec_allocated() as nat,
                old(alloc_tracker).spec_limit() as nat,
            ),
    {
        match direction {
            PacketDirection::ServerBound => Err(ProtoDecodeErr::UnknownPacketId(id)),
            PacketDirection::ClientBound => match state {
                ConnectionState::Handshake => {
                    Err(ProtoDecodeErr::UnknownPacketId(id))
                },
                ConnectionState::Status => {
                    if id == StatusResponse::ID {
                        match StatusResponse::decode(reader, alloc_tracker) {
                            Ok(p) => Ok(ClientBoundPacket::StatusResponse(p)),
                            Err(e) => Err(e),
                        }
                    } else if id == StatusPingResponse::ID {
                        match <StatusPingResponse as ProtoDecode>::decode(reader, alloc_tracker) {
                            Ok(p) => Ok(ClientBoundPacket::StatusPingResponse(p)),
                            Err(e) => Err(e),
                        }
                    } else {
                        Err(ProtoDecodeErr::UnknownPacketId(id))
                    }
                },
                ConnectionState::Login => {
                    if id == LoginDisconnect::ID {
                        match LoginDisconnect::decode(reader, alloc_tracker) {
                            Ok(p) => Ok(ClientBoundPacket::LoginDisconnect(p)),
                            Err(e) => Err(e),
                        }
                    } else if id == EncryptionRequest::ID {
                        match <EncryptionRequest as ProtoDecode>::decode(reader, alloc_tracker) {
                            Ok(p) => Ok(ClientBoundPacket::EncryptionRequest(p)),
                            Err(e) => Err(e),
                        }
                    } else if id == LoginSuccess::ID {
                        match <LoginSuccess as ProtoDecode>::decode(reader, alloc_tracker) {
                            Ok(p) => Ok(ClientBoundPacket::LoginSuccess(p)),
                            Err(e) => Err(e),
                        }
                    } else if id == SetCompression::ID {
                        match <SetCompression as ProtoDecode>::decode(reader, alloc_tracker) {
                            Ok(p) => Ok(ClientBoundPacket::SetCompression(p)),
                            Err(e) => Err(e),
                        }
                    } else if id == LoginPluginRequest::ID {
                        match <LoginPluginRequest as ProtoDecode>::decode(reader, alloc_tracker) {
                            Ok(p) => Ok(ClientBoundPacket::LoginPluginRequest(p)),
                            Err(e) => Err(e),
                        }
                    } else {
                        Err(ProtoDecodeErr::UnknownPacketId(id))
                    }
                },
                ConnectionState::Play => {
                    Err(ProtoDecodeErr::UnknownPacketId(id))
                },
                ConnectionState::Configuration => {
                    if id == ConfigClientBoundPluginMessage::ID {
                        match <ConfigClientBoundPluginMessage as ProtoDecode>::decode(reader, alloc_tracker) {
                            Ok(p) => Ok(ClientBoundPacket::ConfigClientBoundPluginMessage(p)),
                            Err(e) => Err(e),
                        }
                    } else if id == ConfigDisconnect::ID {
                        match <ConfigDisconnect as ProtoDecode>::decode(reader, alloc_tracker) {
                            Ok(p) => Ok(ClientBoundPacket::ConfigDisconnect(p)),
                            Err(e) => Err(e),
                        }
                    } else if id == ServerFinishConfiguration::ID {
                        match <ServerFinishConfiguration as ProtoDecode>::decode(reader, alloc_tracker) {
                            Ok(p) => Ok(ClientBoundPacket::ServerFinishConfiguration(p)),
                            Err(e) => Err(e),
                        }
                    } else if id == ConfigKeepAlive::ID {
                        match <ConfigKeepAlive as ProtoDecode>::decode(reader, alloc_tracker) {
                            Ok(p) => Ok(ClientBoundPacket::ConfigKeepAlive(p)),
                            Err(e) => Err(e),
                        }
                    } else if id == ConfigPing::ID {
                        match <ConfigPing as ProtoDecode>::decode(reader, alloc_tracker) {
                            Ok(p) => Ok(ClientBoundPacket::ConfigPing(p)),
                            Err(e) => Err(e),
                        }
                    } else if id == RegistryData::ID {
                        match <RegistryData as ProtoDecode>::decode(reader, alloc_tracker) {
                            Ok(p) => Ok(ClientBoundPacket::RegistryData(p)),
                            Err(e) => Err(e),
                        }
                    } else if id == ConfigRemoveResourcePack::ID {
                        match <ConfigRemoveResourcePack as ProtoDecode>::decode(reader, alloc_tracker) {
                            Ok(p) => Ok(ClientBoundPacket::ConfigRemoveResourcePack(p)),
                            Err(e) => Err(e),
                        }
                    } else if id == ConfigAddResourcePack::ID {
                        match <ConfigAddResourcePack as ProtoDecode>::decode(reader, alloc_tracker) {
                            Ok(p) => Ok(ClientBoundPacket::ConfigAddResourcePack(p)),
                            Err(e) => Err(e),
                        }
                    } else if id == FeatureFlags::ID {
                        match <FeatureFlags as ProtoDecode>::decode(reader, alloc_tracker) {
                            Ok(p) => Ok(ClientBoundPacket::FeatureFlags(p)),
                            Err(e) => Err(e),
                        }
                    } else if id == UpdateTags::ID {
                        match <UpdateTags as ProtoDecode>::decode(reader, alloc_tracker) {
                            Ok(p) => Ok(ClientBoundPacket::UpdateTags(p)),
                            Err(e) => Err(e),
                        }
                    } else {
                        Err(ProtoDecodeErr::UnknownPacketId(id))
                    }
                },
            },
        }
    }
}

/// What encoding a packet's payload appends.
pub open spec fn clientbound_encoded(
    packet: ClientBoundPacket,
    r: Result<(), ProtoEncodeErr>,
    before: Seq<u8>,
    after: Seq<u8>,
) -> bool {
    match packet {
        ClientBoundPacket::StatusResponse(p) => encoded(json_text_encode(json_text_of(p.response)), r, before, after),
        ClientBoundPacket::StatusPingResponse(p) => encoded(StatusPingResponse::spec_encode(p.deep_view()), r, before, after),
        ClientBoundPacket::LoginDisconnect(p) => encoded(json_text_encode(json_text_of(p.reason)), r, before, after),
        ClientBoundPacket::EncryptionRequest(p) => encoded(EncryptionRequest::spec_encode(p.deep_view()), r, before, after),
        ClientBoundPacket::LoginSuccess(p) => encoded(LoginSuccess::spec_encode(p.deep_view()), r, before, after),
        ClientBoundPacket::SetCompression(p) => encoded(SetCompression::spec_encode(p.deep_view()), r, before, after),
        ClientBoundPacket::LoginPluginRequest(p) => encoded(LoginPluginRequest::spec_encode(p.deep_view()), r, before, after),
        ClientBoundPacket::ConfigClientBoundPluginMessage(p) => encoded(ConfigClientBoundPluginMessage::spec_encode(p.deep_view()), r, before, after),
        ClientBoundPacket::ConfigDisconnect(p) => encoded(ConfigDisconnect::spec_encode(p.deep_view()), r, before, after),
        ClientBoundPacket::ServerFinishConfiguration(p) => encoded(ServerFinishConfiguration::spec_encode(p.deep_view()), r, before, after),
        ClientBoundPacket::ConfigKeepAlive(p) => encoded(ConfigKeepAlive::spec_encode(p.deep_view()), r, before, after),
        ClientBoundPacket::ConfigPing(p) => encoded(ConfigPing::spec_encode(p.deep_view()), r, before, after),
        ClientBoundPacket::RegistryData(_) => false,
        ClientBoundPacket::ConfigRemoveResourcePack(p) => encoded(ConfigRemoveResourcePack::spec_encode(p.deep_view()), r, before, after),
        ClientBoundPacket::ConfigAddResourcePack(p) => encoded(ConfigAddResourcePack::spec_encode(p.deep_view()), r, before, after),
        ClientBoundPacket::FeatureFlags(p) => encoded(FeatureFlags::spec_encode(p.deep_view()), r, before, after),
        ClientBoundPacket::UpdateTags(p) => encoded(UpdateTags::spec_encode(p.deep_view()), r, before, after),
        ClientBoundPacket::ChangeDifficulty(p) => encoded(ChangeDifficulty::spec_encode(p.deep_view()), r, before, after),
        ClientBoundPacket::ChunkBatchFinish(p) => encoded(ChunkBatchFinish::spec_encode(p.deep_view()), r, before, after),
        ClientBoundPacket::ChunkBatchStart(p) => encoded(ChunkBatchStart::spec_encode(p.deep_view()), r, before, after),
        ClientBoundPacket::GameJoin(p) => encoded(GameJoin::spec_encode(p.deep_view()), r, before, after),
        ClientBoundPacket::SetCenterChunk(p) => encoded(SetCenterChunk::spec_encode(p.deep_view()), r, before, after),
        ClientBoundPacket::StartConfiguration(p) => encoded(StartConfiguration::spec_encode(p.deep_view()), r, before, after),
    }
}

/// Encodes packets of this version.
pub struct PacketEncoderImpl;

impl PacketEncoderImpl {
    /// Appends the payload of a packet, without its id. Writing NBT is not
    /// part of this library, so registry data cannot be encoded.
    pub fn encode_packet(packet: &ClientBoundPacket, writer: &mut Vec<u8>) -> (r: Result<(), ProtoEncodeErr>)
        requires
            !(*packet is RegistryData),
        ensures
            clientbound_encoded(*packet, r, old(writer)@, final(writer)@),
    {
        match packet {
            ClientBoundPacket::StatusResponse(p) => StatusResponse::encode(p, writer),
            ClientBoundPacket::StatusPingResponse(p) => <StatusPingResponse as ProtoEncode>::encode(p, writer),
            ClientBoundPacket::LoginDisconnect(p) => LoginDisconnect::encode(p, writer),
            ClientBoundPacket::EncryptionRequest(p) => <EncryptionRequest as ProtoEncode>::encode(p, writer),
            ClientBoundPacket::LoginSuccess(p) => <LoginSuccess as ProtoEncode>::encode(p, writer),
            ClientBoundPacket::SetCompression(p) => <SetCompression as ProtoEncode>::encode(p, writer),
            ClientBoundPacket::LoginPluginRequest(p) => <LoginPluginRequest as ProtoEncode>::encode(p, writer),
            ClientBoundPacket::ConfigClientBoundPluginMessage(p) => <ConfigClientBoundPluginMessage as ProtoEncode>::encode(p, writer),
            ClientBoundPacket::ConfigDisconnect(p) => <ConfigDisconnect as ProtoEncode>::encode(p, writer),
            ClientBoundPacket::ServerFinishConfiguration(p) => <ServerFinishConfiguration as ProtoEncode>::encode(p, writer),
            ClientBoundPacket::ConfigKeepAlive(p) => <ConfigKeepAlive as ProtoEncode>::encode(p, writer),
            ClientBoundPacket::ConfigPing(p) => <ConfigPing as ProtoEncode>::encode(p, writer),
            ClientBoundPacket::RegistryData(_) => {
                assert(false);
                Ok(())
            },
            ClientBoundPacket::ConfigRemoveResourcePack(p) => <ConfigRemoveResourcePack as ProtoEncode>::encode(p, writer),
            ClientBoundPacket::ConfigAddResourcePack(p) => <ConfigAddResourcePack as ProtoEncode>::encode(p, writer),
            ClientBoundPacket::FeatureFlags(p) => <FeatureFlags as ProtoEncode>::encode(p, writer),
            ClientBoundPacket::UpdateTags(p) => <UpdateTags as ProtoEncode>::encode(p, writer),
            ClientBoundPacket::ChangeDifficulty(p) => <ChangeDifficulty as ProtoEncode>::encode(p, writer),
            ClientBoundPacket::ChunkBatchFinish(p) => <ChunkBatchFinish as ProtoEncode>::encode(p, writer),
            ClientBoundPacket::ChunkBatchStart(p) => <ChunkBatchStart as ProtoEncode>::encode(p, writer),
            ClientBoundPacket::GameJoin(p) => <GameJoin as ProtoEncode>::encode(p, writer),
            ClientBoundPacket::SetCenterChunk(p) => <SetCenterChunk as ProtoEncode>::encode(p, writer),
            ClientBoundPacket::StartConfiguration(p) => <StartConfiguration as ProtoEncode>::encode(p, writer),
        }
    }
}

/// Two packets are of the same type.
pub open spec fn same_packet_type(p: ClientBoundPacket, q: ClientBoundPacket) -> bool {
    &&& (p is StatusResponse <==> q is StatusResponse)
    &&& (p is StatusPingResponse <==> q is StatusPingResponse)
    &&& (p is LoginDisconnect <==> q is LoginDisconnect)
    &&& (p is EncryptionRequest <==> q is EncryptionRequest)
    &&& (p is LoginSuccess <==> q is LoginSuccess)
    &&& (p is SetCompression <==> q is SetCompression)
    &&& (p is LoginPluginRequest <==> q is LoginPluginRequest)
    &&& (p is ConfigClientBoundPluginMessage <==> q is ConfigClientBoundPluginMessage)
    &&& (p is ConfigDisconnect <==> q is ConfigDisconnect)
    &&& (p is ServerFinishConfiguration <==> q is ServerFinishConfiguration)
    &&& (p is ConfigKeepAlive <==> q is ConfigKeepAlive)
    &&& (p is ConfigPing <==> q is ConfigPing)
    &&& (p is RegistryData <==> q is RegistryData)
    &&& (p is ConfigRemoveResourcePack <==> q is ConfigRemoveResourcePack)
    &&& (p is ConfigAddResourcePack <==> q is ConfigAddResourcePack)
    &&& (p is FeatureFlags <==> q is FeatureFlags)
    &&& (p is UpdateTags <==> q is UpdateTags)
    &&& (p is ChangeDifficulty <==> q is ChangeDifficulty)
    &&& (p is ChunkBatchFinish <==> q is ChunkBatchFinish)
    &&& (p is ChunkBatchStart <==> q is ChunkBatchStart)
    &&& (p is GameJoin <==> q is GameJoin)
    &&& (p is SetCenterChunk <==> q is SetCenterChunk)
    &&& (p is StartConfiguration <==> q is StartConfiguration)
}

/// Every packet goes out under the id and in the state registered for its
/// type, and within one state no two types share an id, so that the id and
/// the state name the packet's type.
pub proof fn lemma_packet_ids(p: ClientBoundPacket, q: ClientBoundPacket)
    ensures
        p.spec_id() == (match p {
                ClientBoundPacket::StatusResponse(_) => 0x00i32,
                ClientBoundPacket::StatusPingResponse(_) => 0x01i32,
                ClientBoundPacket::LoginDisconnect(_) => 0x00i32,
                ClientBoundPacket::EncryptionRequest(_) => 0x01i32,
                ClientBoundPacket::LoginSuccess(_) => 0x02i32,
                ClientBoundPacket::SetCompression(_) => 0x03i32,
                ClientBoundPacket::LoginPluginRequest(_) => 0x04i32,
                ClientBoundPacket::ConfigClientBoundPluginMessage(_) => 0x00i32,
                ClientBoundPacket::ConfigDisconnect(_) => 0x01i32,
                ClientBoundPacket::ServerFinishConfiguration(_) => 0x02i32,
                ClientBoundPacket::ConfigKeepAlive(_) => 0x03i32,
                ClientBoundPacket::ConfigPing(_) => 0x04i32,
                ClientBoundPacket::RegistryData(_) => 0x05i32,
                ClientBoundPacket::ConfigRemoveResourcePack(_) => 0x06i32,
                ClientBoundPacket::ConfigAddResourcePack(_) => 0x07i32,
                ClientBoundPacket::FeatureFlags(_) => 0x08i32,
                ClientBoundPacket::UpdateTags(_) => 0x09i32,
                ClientBoundPacket::ChangeDifficulty(_) => 0x0Bi32,
                ClientBoundPacket::ChunkBatchFinish(_) => 0x0Ci32,
                ClientBoundPacket::ChunkBatchStart(_) => 0x0Di32,
                ClientBoundPacket::GameJoin(_) => 0x29i32,
                ClientBoundPacket::SetCenterChunk(_) => 0x52i32,
                ClientBoundPacket::StartConfiguration(_) => 0x67i32,
            }),
        p.spec_state() == (match p {
                ClientBoundPacket::StatusResponse(_) => ConnectionState::Status,
                ClientBoundPacket::StatusPingResponse(_) => ConnectionState::Status,
                ClientBoundPacket::LoginDisconnect(_) => ConnectionState::Login,
                ClientBoundPacket::EncryptionRequest(_) => ConnectionState::Login,
                ClientBoundPacket::LoginSuccess(_) => ConnectionState::Login,
                ClientBoundPacket::SetCompression(_) => ConnectionState::Login,
                ClientBoundPacket::LoginPluginRequest(_) => ConnectionState::Login,
                ClientBoundPacket::ConfigClientBoundPluginMessage(_) => ConnectionState::Configuration,
                ClientBoundPacket::ConfigDisconnect(_) => ConnectionState::Configuration,
                ClientBoundPacket::ServerFinishConfiguration(_) => ConnectionState::Configuration,
                ClientBoundPacket::ConfigKeepAlive(_) => ConnectionState::Configuration,
                ClientBoundPacket::ConfigPing(_) => ConnectionState::Configuration,
                ClientBoundPacket::RegistryData(_) => ConnectionState::Configuration,
                ClientBoundPacket::ConfigRemoveResourcePack(_) => ConnectionState::Configuration,
                ClientBoundPacket::ConfigAddResourcePack(_) => ConnectionState::Configuration,
                ClientBoundPacket::FeatureFlags(_) => ConnectionState::Configuration,
                ClientBoundPacket::UpdateTags(_) => ConnectionState::Configuration,
                ClientBoundPacket::ChangeDifficulty(_) => ConnectionState::Play,
                ClientBoundPacket::ChunkBatchFinish(_) => ConnectionState::Play,
                ClientBoundPacket::ChunkBatchStart(_) => ConnectionState::Play,
                ClientBoundPacket::GameJoin(_) => ConnectionState::Play,
                ClientBoundPacket::SetCenterChunk(_) => ConnectionState::Play,
                ClientBoundPacket::StartConfiguration(_) => ConnectionState::Play,
            }),
        p.spec_state() == q.spec_state() && p.spec_id() == q.spec_id() ==> same_packet_type(p, q),
{
}

/// Decoding a payload by the state and the id of a packet's type gives,
/// when it succeeds, a packet of that type.
pub proof fn lemma_decode_by_id(
    p: ClientBoundPacket,
    q: ClientBoundPacket,
    before: Seq<u8>,
    after: Seq<u8>,
    allocated: nat,
    alloc_after: nat,
    limit: nat,
)
    requires
        clientbound_decoded(p.spec_state(), p.spec_id(), Ok(q), before, after, allocated, alloc_after, limit),
    ensures
        same_packet_type(p, q),
{
}

} // verus!