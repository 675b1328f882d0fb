//! Compound values and enumerations that the packets of this protocol version carry.
use vstd::prelude::*;

use crate::io::VecReader;
use crate::protocol::decode::{AllocTracker, DecodeOutcome, ProtoDecode, ProtoDecodeErr};
use crate::protocol::encode::{
    lemma_prefix_of_append, lemma_prefix_trans, then_encode, ProtoEncode, ProtoEncodeErr,
};
use crate::protocol::seq::{decode_seq_field, encode_seq_field, seq_field_decode, seq_field_encode};
use crate::protocol::types::{lemma_i8_wire, lemma_u8_wire, Position};
use crate::protocol::varint::{lemma_var_int_roundtrip, varint_bytes, VarInt};
use crate::text::Identifier;
use crate::nbt::tag::{Tag, TagRoot, TagView};

verus! {


/// What a client asks for after the handshake.
#[derive(Clone, Copy, Debug, PartialEq, Eq, Structural)]
pub enum HandshakeNextState {
    Status,
    Login,
}

impl DeepView for HandshakeNextState {
    type V = HandshakeNextState;

    open spec fn deep_view(&self) -> HandshakeNextState {
        *self
    }
}

impl HandshakeNextState {
    /// The tag that identifies a variant on the wire.
    pub open spec fn spec_tag(self) -> i32 {
        match self {
            HandshakeNextState::Status => 1i32,
            HandshakeNextState::Login => 2i32,
        }
    }

    /// The variant a tag identifies.
    pub open spec fn spec_from_tag(tag: i32) -> Option<HandshakeNextState> {
        if tag == 1i32 {
            Some(HandshakeNextState::Status)
        } else if tag == 2i32 {
            Some(HandshakeNextState::Login)
        } else {
            None
        }
    }
}

impl ProtoDecode for HandshakeNextState {
    type Repr = HandshakeNextState;

    open spec fn spec_decode(input: Seq<u8>, allocated: nat, limit: nat) -> DecodeOutcome<HandshakeNextState> {
        let o = <VarInt as ProtoDecode>::spec_decode(input, allocated, limit);
        (
            match o.0 {
                Err(e) => Err(e),
                Ok(tag) => match HandshakeNextState::spec_from_tag(tag) {
                    Some(v) => Ok(v),
                    None => Err(ProtoDecodeErr::InvalidEnumTag),
                },
            },
            o.1,
            o.2,
        )
    }

    fn decode<A: AllocTracker>(reader: &mut VecReader, alloc_tracker: &mut A) -> (r: Result<
        HandshakeNextState,
        ProtoDecodeErr,
    >) {
        let tag = match <VarInt as ProtoDecode>::decode(reader, alloc_tracker) {
            Ok(t) => t,
            Err(e) => return Err(e),
        };
        match tag {
            1 => Ok(HandshakeNextState::Status),
            2 => Ok(HandshakeNextState::Login),
            _ => Err(ProtoDecodeErr::InvalidEnumTag),
        }
    }
}

impl ProtoEncode for HandshakeNextState {
    type Repr = HandshakeNextState;

    open spec fn spec_encode(data: HandshakeNextState) -> Result<Seq<u8>, ProtoEncodeErr> {
        <VarInt as ProtoEncode>::spec_encode(data.spec_tag())
    }

    fn encode(data: &HandshakeNextState, writer: &mut Vec<u8>) -> (r: Result<(), ProtoEncodeErr>) {
        let tag: i32 = match data {
            HandshakeNextState::Status => 1,
            HandshakeNextState::Login => 2,
        };
        <VarInt as ProtoEncode>::encode(&tag, writer)
    }
}

/// Which chat messages a client wants to see.
#[derive(Clone, Copy, Debug, PartialEq, Eq, Structural)]
pub enum ChatMode {
    Enabled,
    CommandsOnly,
    Hidden,
}

impl DeepView for ChatMode {
    type V = ChatMode;

    open spec fn deep_view(&self) -> ChatMode {
        *self
    }
}

impl ChatMode {
    /// The tag that identifies a variant on the wire.
    pub open spec fn spec_tag(self) -> i32 {
        match self {
            ChatMode::Enabled => 0i32,
            ChatMode::CommandsOnly => 1i32,
            ChatMode::Hidden => 2i32,
        }
    }

    /// The variant a tag identifies.
    pub open spec fn spec_from_tag(tag: i32) -> Option<ChatMode> {
        if tag == 0i32 {
            Some(ChatMode::Enabled)
        } else if tag == 1i32 {
            Some(ChatMode::CommandsOnly)
        } else if tag == 2i32 {
            Some(ChatMode::Hidden)
        } else {
            None
        }
    }
}

impl ProtoDecode for ChatMode {
    type Repr = ChatMode;

    open spec fn spec_decode(input: Seq<u8>, allocated: nat, limit: nat) -> DecodeOutcome<ChatMode> {
        let o = <VarInt as ProtoDecode>::spec_decode(input, allocated, limit);
        (
            match o.0 {
                Err(e) => Err(e),
                Ok(tag) => match ChatMode::spec_from_tag(tag) {
                    Some(v) => Ok(v),
                    None => Err(ProtoDecodeErr::InvalidEnumTag),
                },
            },
            o.1,
            o.2,
        )
    }

    fn decode<A: AllocTracker>(reader: &mut VecReader, alloc_tracker: &mut A) -> (r: Result<
        ChatMode,
        ProtoDecodeErr,
    >) {
        let tag = match <VarInt as ProtoDecode>::decode(reader, alloc_tracker) {
            Ok(t) => t,
            Err(e) => return Err(e),
        };
        match tag {
            0 => Ok(ChatMode::Enabled),
            1 => Ok(ChatMode::CommandsOnly),
            2 => Ok(ChatMode::Hidden),
            _ => Err(ProtoDecodeErr::InvalidEnumTag),
        }
    }
}

impl ProtoEncode for ChatMode {
    type Repr = ChatMode;

    open spec fn spec_encode(data: ChatMode) -> Result<Seq<u8>, ProtoEncodeErr> {
        <VarInt as ProtoEncode>::spec_encode(data.spec_tag())
    }

    fn encode(data: &ChatMode, writer: &mut Vec<u8>) -> (r: Result<(), ProtoEncodeErr>) {
        let tag: i32 = match data {
            ChatMode::Enabled => 0,
            ChatMode::CommandsOnly => 1,
            ChatMode::Hidden => 2,
        };
        <VarInt as ProtoEncode>::encode(&tag, writer)
    }
}

/// The hand a player uses by default.
#[derive(Clone, Copy, Debug, PartialEq, Eq, Structural)]
pub enum MainHand {
    Left,
    Right,
}

impl DeepView for MainHand {
    type V = MainHand;

    open spec fn deep_view(&self) -> MainHand {
        *self
    }
}

impl MainHand {
    /// The tag that identifies a variant on the wire.
    pub open spec fn spec_tag(self) -> i32 {
        match self {
            MainHand::Left => 0i32,
            MainHand::Right => 1i32,
        }
    }

    /// The variant a tag identifies.
    pub open spec fn spec_from_tag(tag: i32) -> Option<MainHand> {
        if tag == 0i32 {
            Some(MainHand::Left)
        } else if tag == 1i32 {
            Some(MainHand::Right)
        } else {
            None
        }
    }
}

impl ProtoDecode for MainHand {
    type Repr = MainHand;

    open spec fn spec_decode(input: Seq<u8>, allocated: nat, limit: nat) -> DecodeOutcome<MainHand> {
        let o = <VarInt as ProtoDecode>::spec_decode(input, allocated, limit);
        (
            match o.0 {
                Err(e) => Err(e),
                Ok(tag) => match MainHand::spec_from_tag(tag) {
                    Some(v) => Ok(v),
                    None => Err(ProtoDecodeErr::InvalidEnumTag),
                },
            },
            o.1,
            o.2,
        )
    }

    fn decode<A: AllocTracker>(reader: &mut VecReader, alloc_tracker: &mut A) -> (r: Result<
        MainHand,
        ProtoDecodeErr,
    >) {
        let tag = match <VarInt as ProtoDecode>::decode(reader, alloc_tracker) {
            Ok(t) => t,
            Err(e) => return Err(e),
        };
        match tag {
            0 => Ok(MainHand::Left),
            1 => Ok(MainHand::Right),
            _ => Err(ProtoDecodeErr::InvalidEnumTag),
        }
    }
}

impl ProtoEncode for MainHand {
    type Repr = MainHand;

    open spec fn spec_encode(data: MainHand) -> Result<Seq<u8>, ProtoEncodeErr> {
        <VarInt as ProtoEncode>::spec_encode(data.spec_tag())
    }

    fn encode(data: &MainHand, writer: &mut Vec<u8>) -> (r: Result<(), ProtoEncodeErr>) {
        let tag: i32 = match data {
            MainHand::Left => 0,
            MainHand::Right => 1,
        };
        <VarInt as ProtoEncode>::encode(&tag, writer)
    }
}

/// How a client answered a resource pack offer.
#[derive(Clone, Copy, Debug, PartialEq, Eq, Structural)]
pub enum ResourcePackResult {
    Success,
    Declined,
    Failed,
    Accepted,
    Downloaded,
    InvalidUrl,
    FailedToReload,
    Discarded,
}

impl DeepView for ResourcePackResult {
    type V = ResourcePackResult;

    open spec fn deep_view(&self) -> ResourcePackResult {
        *self
    }
}

impl ResourcePackResult {
    /// The tag that identifies a variant on the wire.
    pub open spec fn spec_tag(self) -> i32 {
        match self {
            ResourcePackResult::Success => 0i32,
            ResourcePackResult::Declined => 1i32,
            ResourcePackResult::Failed => 2i32,
            ResourcePackResult::Accepted => 3i32,
            ResourcePackResult::Downloaded => 4i32,
            ResourcePackResult::InvalidUrl => 5i32,
            ResourcePackResult::FailedToReload => 6i32,
            ResourcePackResult::Discarded => 7i32,
        }
    }

    /// The variant a tag identifies.
    pub open spec fn spec_from_tag(tag: i32) -> Option<ResourcePackResult> {
        if tag == 0i32 {
            Some(ResourcePackResult::Success)
        } else if tag == 1i32 {
            Some(ResourcePackResult::Declined)
        } else if tag == 2i32 {
            Some(ResourcePackResult::Failed)
        } else if tag == 3i32 {
            Some(ResourcePackResult::Accepted)
        } else if tag == 4i32 {
            Some(ResourcePackResult::Downloaded)
        } else if tag == 5i32 {
            Some(ResourcePackResult::InvalidUrl)
        } else if tag == 6i32 {
            Some(ResourcePackResult::FailedToReload)
        } else if tag == 7i32 {
            Some(ResourcePackResult::Discarded)
        } else {
            None
        }
    }
}

impl ProtoDecode for ResourcePackResult {
    type Repr = ResourcePackResult;

    open spec fn spec_decode(input: Seq<u8>, allocated: nat, limit: nat) -> DecodeOutcome<ResourcePackResult> {
        let o = <VarInt as ProtoDecode>::spec_decode(input, allocated, limit);
        (
            match o.0 {
                Err(e) => Err(e),
                Ok(tag) => match ResourcePackResult::spec_from_tag(tag) {
                    Some(v) => Ok(v),
                    None => Err(ProtoDecodeErr::InvalidEnumTag),
                },
            },
            o.1,
            o.2,
        )
    }

    fn decode<A: AllocTracker>(reader: &mut VecReader, alloc_tracker: &mut A) -> (r: Result<
        ResourcePackResult,
        ProtoDecodeErr,
    >) {
        let tag = match <VarInt as ProtoDecode>::decode(reader, alloc_tracker) {
            Ok(t) => t,
            Err(e) => return Err(e),
        };
        match tag {
            0 => Ok(ResourcePackResult::Success),
            1 => Ok(ResourcePackResult::Declined),
            2 => Ok(ResourcePackResult::Failed),
            3 => Ok(ResourcePackResult::Accepted),
            4 => Ok(ResourcePackResult::Downloaded),
            5 => Ok(ResourcePackResult::InvalidUrl),
            6 => Ok(ResourcePackResult::FailedToReload),
            7 => Ok(ResourcePackResult::Discarded),
            _ => Err(ProtoDecodeErr::InvalidEnumTag),
        }
    }
}

impl ProtoEncode for ResourcePackResult {
    type Repr = ResourcePackResult;

    open spec fn spec_encode(data: ResourcePackResult) -> Result<Seq<u8>, ProtoEncodeErr> {
        <VarInt as ProtoEncode>::spec_encode(data.spec_tag())
    }

    fn encode(data: &ResourcePackResult, writer: &mut Vec<u8>) -> (r: Result<(), ProtoEncodeErr>) {
        let tag: i32 = match data {
            ResourcePackResult::Success => 0,
            ResourcePackResult::Declined => 1,
            ResourcePackResult::Failed => 2,
            ResourcePackResult::Accepted => 3,
            ResourcePackResult::Downloaded => 4,
            ResourcePackResult::InvalidUrl => 5,
            ResourcePackResult::FailedToReload => 6,
            ResourcePackResult::Discarded => 7,
        };
        <VarInt as ProtoEncode>::encode(&tag, writer)
    }
}

/// The game mode of a player.
#[derive(Clone, Copy, Debug, PartialEq, Eq, Structural)]
pub enum GameMode {
    Survival,
    Creative,
    Adventure,
    Spectator,
}

impl DeepView for GameMode {
    type V = GameMode;

    open spec fn deep_view(&self) -> GameMode {
        *self
    }
}

impl GameMode {
    /// The tag that identifies a variant on the wire.
    pub open spec fn spec_tag(self) -> u8 {
        match self {
            GameMode::Survival => 0u8,
            GameMode::Creative => 1u8,
            GameMode::Adventure => 2u8,
            GameMode::Spectator => 3u8,
        }
    }

    /// The variant a tag identifies.
    pub open spec fn spec_from_tag(tag: u8) -> Option<GameMode> {
        if tag == 0u8 {
            Some(GameMode::Survival)
        } else if tag == 1u8 {
            Some(GameMode::Creative)
        } else if tag == 2u8 {
            Some(GameMode::Adventure)
        } else if tag == 3u8 {
            Some(GameMode::Spectator)
        } else {
            None
        }
    }
}

impl ProtoDecode for GameMode {
    type Repr = GameMode;

    open spec fn spec_decode(input: Seq<u8>, allocated: nat, limit: nat) -> DecodeOutcome<GameMode> {
        let o = <u8 as ProtoDecode>::spec_decode(input, allocated, limit);
        (
            match o.0 {
                Err(e) => Err(e),
                Ok(tag) => match GameMode::spec_from_tag(tag) {
                    Some(v) => Ok(v),
                    None => Err(ProtoDecodeErr::InvalidEnumTag),
                },
            },
            o.1,
            o.2,
        )
    }

    fn decode<A: AllocTracker>(reader: &mut VecReader, alloc_tracker: &mut A) -> (r: Result<
        GameMode,
        ProtoDecodeErr,
    >) {
        let tag = match <u8 as ProtoDecode>::decode(reader, alloc_tracker) {
            Ok(t) => t,
            Err(e) => return Err(e),
        };
        match tag {
            0 => Ok(GameMode::Survival),
            1 => Ok(GameMode::Creative),
            2 => Ok(GameMode::Adventure),
            3 => Ok(GameMode::Spectator),
            _ => Err(ProtoDecodeErr::InvalidEnumTag),
        }
    }
}

impl ProtoEncode for GameMode {
    type Repr = GameMode;

    open spec fn spec_encode(data: GameMode) -> Result<Seq<u8>, ProtoEncodeErr> {
        <u8 as ProtoEncode>::spec_encode(data.spec_tag())
    }

    fn encode(data: &GameMode, writer: &mut Vec<u8>) -> (r: Result<(), ProtoEncodeErr>) {
        let tag: u8 = match data {
            GameMode::Survival => 0,
            GameMode::Creative => 1,
            GameMode::Adventure => 2,
            GameMode::Spectator => 3,
        };
        <u8 as ProtoEncode>::encode(&tag, writer)
    }
}

/// The game mode a player had before the current one, if any.
#[derive(Clone, Copy, Debug, PartialEq, Eq, Structural)]
pub enum LastGameMode {
    Undefined,
    Survival,
    Creative,
    Adventure,
    Spectator,
}

impl DeepView for LastGameMode {
    type V = LastGameMode;

    open spec fn deep_view(&self) -> LastGameMode {
        *self
    }
}

impl LastGameMode {
    /// The tag that identifies a variant on the wire.
    pub open spec fn spec_tag(self) -> i8 {
        match self {
            LastGameMode::Undefined => -1i8,
            LastGameMode::Survival => 0i8,
            LastGameMode::Creative => 1i8,
            LastGameMode::Adventure => 2i8,
            LastGameMode::Spectator => 3i8,
        }
    }

    /// The variant a tag identifies.
    pub open spec fn spec_from_tag(tag: i8) -> Option<LastGameMode> {
        if tag == -1i8 {
            Some(LastGameMode::Undefined)
        } else if tag == 0i8 {
            Some(LastGameMode::Survival)
        } else if tag == 1i8 {
            Some(LastGameMode::Creative)
        } else if tag == 2i8 {
            Some(LastGameMode::Adventure)
        } else if tag == 3i8 {
            Some(LastGameMode::Spectator)
        } else {
            None
        }
    }
}

impl ProtoDecode for LastGameMode {
    type Repr = LastGameMode;

    open spec fn spec_decode(input: Seq<u8>, allocated: nat, limit: nat) -> DecodeOutcome<LastGameMode> {
        let o = <i8 as ProtoDecode>::spec_decode(input, allocated, limit);
        (
            match o.0 {
                Err(e) => Err(e),
                Ok(tag) => match LastGameMode::spec_from_tag(tag) {
                    Some(v) => Ok(v),
                    None => Err(ProtoDecodeErr::InvalidEnumTag),
                },
            },
            o.1,
            o.2,
        )
    }

    fn decode<A: AllocTracker>(reader: &mut VecReader, alloc_tracker: &mut A) -> (r: Result<
        LastGameMode,
        ProtoDecodeErr,
    >) {
        let tag = match <i8 as ProtoDecode>::decode(reader, alloc_tracker) {
            Ok(t) => t,
            Err(e) => return Err(e),
        };
        match tag {
            -1 => Ok(LastGameMode::Undefined),
            0 => Ok(LastGameMode::Survival),
            1 => Ok(LastGameMode::Creative),
            2 => Ok(LastGameMode::Adventure),
            3 => Ok(LastGameMode::Spectator),
            _ => Err(ProtoDecodeErr::InvalidEnumTag),
        }
    }
}

impl ProtoEncode for LastGameMode {
    type Repr = LastGameMode;

    open spec fn spec_encode(data: LastGameMode) -> Result<Seq<u8>, ProtoEncodeErr> {
        <i8 as ProtoEncode>::spec_encode(data.spec_tag())
    }

    fn encode(data: &LastGameMode, writer: &mut Vec<u8>) -> (r: Result<(), ProtoEncodeErr>) {
        let tag: i8 = match data {
            LastGameMode::Undefined => -1,
            LastGameMode::Survival => 0,
            LastGameMode::Creative => 1,
            LastGameMode::Adventure => 2,
            LastGameMode::Spectator => 3,
        };
        <i8 as ProtoEncode>::encode(&tag, writer)
    }
}

/// The difficulty of a world.
#[derive(Clone, Copy, Debug, PartialEq, Eq, Structural)]
pub enum Difficulty {
    Peaceful,
    Easy,
    Normal,
    Hard,
}

impl DeepView for Difficulty {
    type V = Difficulty;

    open spec fn deep_view(&self) -> Difficulty {
        *self
    }
}

impl Difficulty {
    /// The tag that identifies a variant on the wire.
    pub open spec fn spec_tag(self) -> u8 {
        match self {
            Difficulty::Peaceful => 0u8,
            Difficulty::Easy => 1u8,
            Difficulty::Normal => 2u8,
            Difficulty::Hard => 3u8,
        }
    }

    /// The variant a tag identifies.
    pub open spec fn spec_from_tag(tag: u8) -> Option<Difficulty> {
        if tag == 0u8 {
            Some(Difficulty::Peaceful)
        } else if tag == 1u8 {
            Some(Difficulty::Easy)
        } else if tag == 2u8 {
            Some(Difficulty::Normal)
        } else if tag == 3u8 {
            Some(Difficulty::Hard)
        } else {
            None
        }
    }
}

impl ProtoDecode for Difficulty {
    type Repr = Difficulty;

    open spec fn spec_decode(input: Seq<u8>, allocated: nat, limit: nat) -> DecodeOutcome<Difficulty> {
        let o = <u8 as ProtoDecode>::spec_decode(input, allocated, limit);
        (
            match o.0 {
                Err(e) => Err(e),
                Ok(tag) => match Difficulty::spec_from_tag(tag) {
                    Some(v) => Ok(v),
                    None => Err(ProtoDecodeErr::InvalidEnumTag),
                },
            },
            o.1,
            o.2,
        )
    }

    fn decode<A: AllocTracker>(reader: &mut VecReader, alloc_tracker: &mut A) -> (r: Result<
        Difficulty,
        ProtoDecodeErr,
    >) {
        let tag = match <u8 as ProtoDecode>::decode(reader, alloc_tracker) {
            Ok(t) => t,
            Err(e) => return Err(e),
        };
        match tag {
            0 => Ok(Difficulty::Peaceful),
            1 => Ok(Difficulty::Easy),
            2 => Ok(Difficulty::Normal),
            3 => Ok(Difficulty::Hard),
            _ => Err(ProtoDecodeErr::InvalidEnumTag),
        }
    }
}

impl ProtoEncode for Difficulty {
    type Repr = Difficulty;

    open spec fn spec_encode(data: Difficulty) -> Result<Seq<u8>, ProtoEncodeErr> {
        <u8 as ProtoEncode>::spec_encode(data.spec_tag())
    }

    fn encode(data: &Difficulty, writer: &mut Vec<u8>) -> (r: Result<(), ProtoEncodeErr>) {
        let tag: u8 = match data {
            Difficulty::Peaceful => 0,
            Difficulty::Easy => 1,
            Difficulty::Normal => 2,
            Difficulty::Hard => 3,
        };
        <u8 as ProtoEncode>::encode(&tag, writer)
    }
}

/// A change of game state that the server announces.
#[derive(Clone, Copy, Debug, PartialEq, Eq, Structural)]
pub enum GameEvent {
    NoRespawnBlock,
    EndRaining,
    BeginRaining,
    ChangeGameMode,
    WinGame,
    DemoEvent,
    ArrowHitPlayer,
    RainLevelChange,
    ThunderLevelChange,
    PlayerPufferFishSound,
    PlayElderGuardianMobAppearance,
    EnableRespawnScreen,
    LimitedCrafting,
    StartWaitingForLevelChunks,
}

impl DeepView for GameEvent {
    type V = GameEvent;

    open spec fn deep_view(&self) -> GameEvent {
        *self
    }
}

impl GameEvent {
    /// The tag that identifies a variant on the wire.
    pub open spec fn spec_tag(self) -> u8 {
        match self {
            GameEvent::NoRespawnBlock => 0u8,
            GameEvent::EndRaining => 1u8,
            GameEvent::BeginRaining => 2u8,
            GameEvent::ChangeGameMode => 3u8,
            GameEvent::WinGame => 4u8,
            GameEvent::DemoEvent => 5u8,
            GameEvent::ArrowHitPlayer => 6u8,
            GameEvent::RainLevelChange => 7u8,
            GameEvent::ThunderLevelChange => 8u8,
            GameEvent::PlayerPufferFishSound => 9u8,
            GameEvent::PlayElderGuardianMobAppearance => 10u8,
            GameEvent::EnableRespawnScreen => 11u8,
            GameEvent::LimitedCrafting => 12u8,
            GameEvent::StartWaitingForLevelChunks => 13u8,
        }
    }

    /// The variant a tag identifies.
    pub open spec fn spec_from_tag(tag: u8) -> Option<GameEvent> {
        if tag == 0u8 {
            Some(GameEvent::NoRespawnBlock)
        } else if tag == 1u8 {
            Some(GameEvent::EndRaining)
        } else if tag == 2u8 {
            Some(GameEvent::BeginRaining)
        } else if tag == 3u8 {
            Some(GameEvent::ChangeGameMode)
        } else if tag == 4u8 {
            Some(GameEvent::WinGame)
        } else if tag == 5u8 {
            Some(GameEvent::DemoEvent)
        } else if tag == 6u8 {
            Some(GameEvent::ArrowHitPlayer)
        } else if tag == 7u8 {
            Some(GameEvent::RainLevelChange)
        } else if tag == 8u8 {
            Some(GameEvent::ThunderLevelChange)
        } else if tag == 9u8 {
            Some(GameEvent::PlayerPufferFishSound)
        } else if tag == 10u8 {
            Some(GameEvent::PlayElderGuardianMobAppearance)
        } else if tag == 11u8 {
            Some(GameEvent::EnableRespawnScreen)
        } else if tag == 12u8 {
            Some(GameEvent::LimitedCrafting)
        } else if tag == 13u8 {
            Some(GameEvent::StartWaitingForLevelChunks)
        } else {
            None
        }
    }
}

impl ProtoDecode for GameEvent {
    type Repr = GameEvent;

    open spec fn spec_decode(input: Seq<u8>, allocated: nat, limit: nat) -> DecodeOutcome<GameEvent> {
        let o = <u8 as ProtoDecode>::spec_decode(input, allocated, limit);
        (
            match o.0 {
                Err(e) => Err(e),
                Ok(tag) => match GameEvent::spec_from_tag(tag) {
                    Some(v) => Ok(v),
                    None => Err(ProtoDecodeErr::InvalidEnumTag),
                },
            },
            o.1,
            o.2,
        )
    }

    fn decode<A: AllocTracker>(reader: &mut VecReader, alloc_tracker: &mut A) -> (r: Result<
        GameEvent,
        ProtoDecodeErr,
    >) {
        let tag = match <u8 as ProtoDecode>::decode(reader, alloc_tracker) {
            Ok(t) => t,
            Err(e) => return Err(e),
        };
        match tag {
            0 => Ok(GameEvent::NoRespawnBlock),
            1 => Ok(GameEvent::EndRaining),
            2 => Ok(GameEvent::BeginRaining),
            3 => Ok(GameEvent::ChangeGameMode),
            4 => Ok(GameEvent::WinGame),
            5 => Ok(GameEvent::DemoEvent),
            6 => Ok(GameEvent::ArrowHitPlayer),
            7 => Ok(GameEvent::RainLevelChange),
            8 => Ok(GameEvent::ThunderLevelChange),
            9 => Ok(GameEvent::PlayerPufferFishSound),
            10 => Ok(GameEvent::PlayElderGuardianMobAppearance),
            11 => Ok(GameEvent::EnableRespawnScreen),
            12 => Ok(GameEvent::LimitedCrafting),
            13 => Ok(GameEvent::StartWaitingForLevelChunks),
            _ => Err(ProtoDecodeErr::InvalidEnumTag),
        }
    }
}

impl ProtoEncode for GameEvent {
    type Repr = GameEvent;

    open spec fn spec_encode(data: GameEvent) -> Result<Seq<u8>, ProtoEncodeErr> {
        <u8 as ProtoEncode>::spec_encode(data.spec_tag())
    }

    fn encode(data: &GameEvent, writer: &mut Vec<u8>) -> (r: Result<(), ProtoEncodeErr>) {
        let tag: u8 = match data {
            GameEvent::NoRespawnBlock => 0,
            GameEvent::EndRaining => 1,
            GameEvent::BeginRaining => 2,
            GameEvent::ChangeGameMode => 3,
            GameEvent::WinGame => 4,
            GameEvent::DemoEvent => 5,
            GameEvent::ArrowHitPlayer => 6,
            GameEvent::RainLevelChange => 7,
            GameEvent::ThunderLevelChange => 8,
            GameEvent::PlayerPufferFishSound => 9,
            GameEvent::PlayElderGuardianMobAppearance => 10,
            GameEvent::EnableRespawnScreen => 11,
            GameEvent::LimitedCrafting => 12,
            GameEvent::StartWaitingForLevelChunks => 13,
        };
        <u8 as ProtoEncode>::encode(&tag, writer)
    }
}

/// A property of a player profile, such as its skin.
pub struct LoginProperty {
    pub name: String,
    pub value: String,
    pub signature: Option<String>,
}

impl DeepView for LoginProperty {
    type V = (Seq<char>, Seq<char>, Option<Seq<char>>);

    open spec fn deep_view(&self) -> (Seq<char>, Seq<char>, Option<Seq<char>>) {
        (self.name.deep_view(), self.value.deep_view(), self.signature.deep_view())
    }
}

impl ProtoDecode for LoginProperty {
    type Repr = LoginProperty;

    open spec fn spec_decode(input: Seq<u8>, allocated: nat, limit: nat) -> DecodeOutcome<(Seq<char>, Seq<char>, Option<Seq<char>>)> {
        let o1 = <String as ProtoDecode>::spec_decode(input, allocated, limit);
        match o1.0 {
            Err(e) => (Err(e), o1.1, o1.2),
            Ok(v1) => {
                let o2 = <String as ProtoDecode>::spec_decode(input.skip((o1.1) as int), o1.2, limit);
                match o2.0 {
                    Err(e) => (Err(e), o1.1 + o2.1, o2.2),
                    Ok(v2) => {
                        let o3 = <Option<String> as ProtoDecode>::spec_decode(input.skip((o1.1 + o2.1) as int), o2.2, limit);
                        match o3.0 {
                            Err(e) => (Err(e), o1.1 + o2.1 + o3.1, o3.2),
                            Ok(v3) => {
                                (Ok((v1, v2, v3)), o1.1 + o2.1 + o3.1, o3.2)
                            },
                        }
                    },
                }
            },
        }
    }

    fn decode<A: AllocTracker>(reader: &mut VecReader, alloc_tracker: &mut A) -> (r: Result<
        LoginProperty,
        ProtoDecodeErr,
    >) {
        let ghost input = reader.rest();
        let ghost limit = alloc_tracker.spec_limit() as nat;
        let ghost mut consumed: nat = 0;
        assert(input =~= input.skip(0));
        let ghost a1 = alloc_tracker.spec_allocated() as nat;
        let r1 = <String as ProtoDecode>::decode(reader, alloc_tracker);
        proof {
            let step = <String as ProtoDecode>::spec_decode(input.skip(consumed as int), a1, limit).1;
            assert(input.skip(consumed as int).skip(step as int) =~= input.skip((consumed + step) as int));
            consumed = consumed + step;
        }
        let name = match r1 {
            Ok(v) => v,
            Err(e) => return Err(e),
        };
        let ghost a2 = alloc_tracker.spec_allocated() as nat;
        let r2 = <String as ProtoDecode>::decode(reader, alloc_tracker);
        proof {
            let step = <String as ProtoDecode>::spec_decode(input.skip(consumed as int), a2, limit).1;
            assert(input.skip(consumed as int).skip(step as int) =~= input.skip((consumed + step) as int));
            consumed = consumed + step;
        }
        let value = match r2 {
            Ok(v) => v,
            Err(e) => return Err(e),
        };
        let ghost a3 = alloc_tracker.spec_allocated() as nat;
        let r3 = <Option<String> as ProtoDecode>::decode(reader, alloc_tracker);
        proof {
            let step = <Option<String> as ProtoDecode>::spec_decode(input.skip(consumed as int), a3, limit).1;
            assert(input.skip(consumed as int).skip(step as int) =~= input.skip((consumed + step) as int));
            consumed = consumed + step;
        }
        let signature = match r3 {
            Ok(v) => v,
            Err(e) => return Err(e),
        };
        Ok(LoginProperty { name, value, signature })
    }
}

impl ProtoEncode for LoginProperty {
    type Repr = LoginProperty;

    open spec fn spec_encode(data: (Seq<char>, Seq<char>, Option<Seq<char>>)) -> Result<Seq<u8>, ProtoEncodeErr> {
        then_encode(<String as ProtoEncode>::spec_encode(data.0), then_encode(<String as ProtoEncode>::spec_encode(data.1), <Option<String> as ProtoEncode>::spec_encode(data.2)))
    }

    fn encode(data: &LoginProperty, writer: &mut Vec<u8>) -> (r: Result<(), ProtoEncodeErr>) {
        let ghost start = writer@;
        let ghost d = data.deep_view();
        let ghost w1 = writer@;
        let r1 = <String as ProtoEncode>::encode(&data.name, writer);
        match r1 {
            Ok(()) => {},
            Err(e) => {
                return Err(e);
            },
        }
        let ghost w2 = writer@;
        let r2 = <String as ProtoEncode>::encode(&data.value, writer);
        match r2 {
            Ok(()) => {},
            Err(e) => {
                proof {
                    lemma_prefix_of_append(start, w2.skip(start.len() as int));
                    assert(start + w2.skip(start.len() as int) =~= w2);
                    lemma_prefix_trans(start, w2, writer@);
                }
                return Err(e);
            },
        }
        let ghost w3 = writer@;
        let r3 = <Option<String> as ProtoEncode>::encode(&data.signature, writer);
        match r3 {
            Ok(()) => {},
            Err(e) => {
                proof {
                    lemma_prefix_of_append(start, w3.skip(start.len() as int));
                    assert(start + w3.skip(start.len() as int) =~= w3);
                    lemma_prefix_trans(start, w3, writer@);
                }
                return Err(e);
            },
        }
        assert(writer@ =~= start + (<String as ProtoEncode>::spec_encode(d.0)->Ok_0 + (<String as ProtoEncode>::spec_encode(d.1)->Ok_0 + <Option<String> as ProtoEncode>::spec_encode(d.2)->Ok_0)));
        Ok(())
    }
}

/// A tag of a registry and the numeric ids it groups.
pub struct RegistryEntry {
    pub tag_name: Identifier,
    pub tag_entries: Vec<i32>,
}

impl DeepView for RegistryEntry {
    type V = ((Seq<char>, usize), Seq<i32>);

    open spec fn deep_view(&self) -> ((Seq<char>, usize), Seq<i32>) {
        (self.tag_name.deep_view(), self.tag_entries.deep_view())
    }
}

impl ProtoDecode for RegistryEntry {
    type Repr = RegistryEntry;

    open spec fn spec_decode(input: Seq<u8>, allocated: nat, limit: nat) -> DecodeOutcome<((Seq<char>, usize), Seq<i32>)> {
        let o1 = <Identifier as ProtoDecode>::spec_decode(input, allocated, limit);
        match o1.0 {
            Err(e) => (Err(e), o1.1, o1.2),
            Ok(v1) => {
                let o2 = <Vec<VarInt> as ProtoDecode>::spec_decode(input.skip((o1.1) as int), o1.2, limit);
                match o2.0 {
                    Err(e) => (Err(e), o1.1 + o2.1, o2.2),
                    Ok(v2) => {
                        (Ok((v1, v2)), o1.1 + o2.1, o2.2)
                    },
                }
            },
        }
    }

    fn decode<A: AllocTracker>(reader: &mut VecReader, alloc_tracker: &mut A) -> (r: Result<
        RegistryEntry,
        ProtoDecodeErr,
    >) {
        let ghost input = reader.rest();
        let ghost limit = alloc_tracker.spec_limit() as nat;
        let ghost mut consumed: nat = 0;
        assert(input =~= input.skip(0));
        let ghost a1 = alloc_tracker.spec_allocated() as nat;
        let r1 = <Identifier as ProtoDecode>::decode(reader, alloc_tracker);
        proof {
            let step = <Identifier as ProtoDecode>::spec_decode(input.skip(consumed as int), a1, limit).1;
            assert(input.skip(consumed as int).skip(step as int) =~= input.skip((consumed + step) as int));
            consumed = consumed + step;
        }
        let tag_name = match r1 {
            Ok(v) => v,
            Err(e) => return Err(e),
        };
        let ghost a2 = alloc_tracker.spec_allocated() as nat;
        let r2 = <Vec<VarInt> as ProtoDecode>::decode(reader, alloc_tracker);
        proof {
            let step = <Vec<VarInt> as ProtoDecode>::spec_decode(input.skip(consumed as int), a2, limit).1;
            assert(input.skip(consumed as int).skip(step as int) =~= input.skip((consumed + step) as int));
            consumed = consumed + step;
        }
        let tag_entries = match r2 {
            Ok(v) => v,
            Err(e) => return Err(e),
        };
        Ok(RegistryEntry { tag_name, tag_entries })
    }
}

impl ProtoEncode for RegistryEntry {
    type Repr = RegistryEntry;

    open spec fn spec_encode(data: ((Seq<char>, usize), Seq<i32>)) -> Result<Seq<u8>, ProtoEncodeErr> {
        then_encode(<Identifier as ProtoEncode>::spec_encode(data.0), <Vec<VarInt> as ProtoEncode>::spec_encode(data.1))
    }

    fn encode(data: &RegistryEntry, writer: &mut Vec<u8>) -> (r: Result<(), ProtoEncodeErr>) {
        let ghost start = writer@;
        let ghost d = data.deep_view();
        let ghost w1 = writer@;
        let r1 = <Identifier as ProtoEncode>::encode(&data.tag_name, writer);
        match r1 {
            Ok(()) => {},
            Err(e) => {
                return Err(e);
            },
        }
        let ghost w2 = writer@;
        let r2 = <Vec<VarInt> as ProtoEncode>::encode(&data.tag_entries, writer);
        match r2 {
            Ok(()) => {},
            Err(e) => {
                proof {
                    lemma_prefix_of_append(start, w2.skip(start.len() as int));
                    assert(start + w2.skip(start.len() as int) =~= w2);
                    lemma_prefix_trans(start, w2, writer@);
                }
                return Err(e);
            },
        }
        assert(writer@ =~= start + (<Identifier as ProtoEncode>::spec_encode(d.0)->Ok_0 + <Vec<VarInt> as ProtoEncode>::spec_encode(d.1)->Ok_0));
        Ok(())
    }
}

/// The tags of one registry.
pub struct RegistryTag {
    pub registry: Identifier,
    pub entries: Vec<RegistryEntry>,
}

impl DeepView for RegistryTag {
    type V = ((Seq<char>, usize), Seq<<RegistryEntry as DeepView>::V>);

    open spec fn deep_view(&self) -> ((Seq<char>, usize), Seq<<RegistryEntry as DeepView>::V>) {
        (self.registry.deep_view(), self.entries.deep_view())
    }
}

impl ProtoDecode for RegistryTag {
    type Repr = RegistryTag;

    open spec fn spec_decode(input: Seq<u8>, allocated: nat, limit: nat) -> DecodeOutcome<((Seq<char>, usize), Seq<<RegistryEntry as DeepView>::V>)> {
        let o1 = <Identifier as ProtoDecode>::spec_decode(input, allocated, limit);
        match o1.0 {
            Err(e) => (Err(e), o1.1, o1.2),
            Ok(v1) => {
                let o2 = <Vec<RegistryEntry> as ProtoDecode>::spec_decode(input.skip((o1.1) as int), o1.2, limit);
                match o2.0 {
                    Err(e) => (Err(e), o1.1 + o2.1, o2.2),
                    Ok(v2) => {
                        (Ok((v1, v2)), o1.1 + o2.1, o2.2)
                    },
                }
            },
        }
    }

    fn decode<A: AllocTracker>(reader: &mut VecReader, alloc_tracker: &mut A) -> (r: Result<
        RegistryTag,
        ProtoDecodeErr,
    >) {
        let ghost input = reader.rest();
        let ghost limit = alloc_tracker.spec_limit() as nat;
        let ghost mut consumed: nat = 0;
        assert(input =~= input.skip(0));
        let ghost a1 = alloc_tracker.spec_allocated() as nat;
        let r1 = <Identifier as ProtoDecode>::decode(reader, alloc_tracker);
        proof {
            let step = <Identifier as ProtoDecode>::spec_decode(input.skip(consumed as int), a1, limit).1;
            assert(input.skip(consumed as int).skip(step as int) =~= input.skip((consumed + step) as int));
            consumed = consumed + step;
        }
        let registry = match r1 {
            Ok(v) => v,
            Err(e) => return Err(e),
        };
        let ghost a2 = alloc_tracker.spec_allocated() as nat;
        let r2 = <Vec<RegistryEntry> as ProtoDecode>::decode(reader, alloc_tracker);
        proof {
            let step = <Vec<RegistryEntry> as ProtoDecode>::spec_decode(input.skip(consumed as int), a2, limit).1;
            assert(input.skip(consumed as int).skip(step as int) =~= input.skip((consumed + step) as int));
            consumed = consumed + step;
        }
        let entries = match r2 {
            Ok(v) => v,
            Err(e) => return Err(e),
        };
        Ok(RegistryTag { registry, entries })
    }
}

impl ProtoEncode for RegistryTag {
    type Repr = RegistryTag;

    open spec fn spec_encode(data: ((Seq<char>, usize), Seq<<RegistryEntry as DeepView>::V>)) -> Result<Seq<u8>, ProtoEncodeErr> {
        then_encode(<Identifier as ProtoEncode>::spec_encode(data.0), <Vec<RegistryEntry> as ProtoEncode>::spec_encode(data.1))
    }

    fn encode(data: &RegistryTag, writer: &mut Vec<u8>) -> (r: Result<(), ProtoEncodeErr>) {
        let ghost start = writer@;
        let ghost d = data.deep_view();
        let ghost w1 = writer@;
        let r1 = <Identifier as ProtoEncode>::encode(&data.registry, writer);
        match r1 {
            Ok(()) => {},
            Err(e) => {
                return Err(e);
            },
        }
        let ghost w2 = writer@;
        let r2 = <Vec<RegistryEntry> as ProtoEncode>::encode(&data.entries, writer);
        match r2 {
            Ok(()) => {},
            Err(e) => {
                proof {
                    lemma_prefix_of_append(start, w2.skip(start.len() as int));
                    assert(start + w2.skip(start.len() as int) =~= w2);
                    lemma_prefix_trans(start, w2, writer@);
                }
                return Err(e);
            },
        }
        assert(writer@ =~= start + (<Identifier as ProtoEncode>::spec_encode(d.0)->Ok_0 + <Vec<RegistryEntry> as ProtoEncode>::spec_encode(d.1)->Ok_0));
        Ok(())
    }
}

/// The light levels of one chunk section, two per byte.
pub struct LightingArray {
    pub data: Vec<u8>,
}

impl DeepView for LightingArray {
    type V = Seq<u8>;

    open spec fn deep_view(&self) -> Seq<u8> {
        self.data.deep_view()
    }
}

impl ProtoDecode for LightingArray {
    type Repr = LightingArray;

    open spec fn spec_decode(input: Seq<u8>, allocated: nat, limit: nat) -> DecodeOutcome<Seq<u8>> {
        let o1 = seq_field_decode::<Vec<u8>>(input, allocated, limit, None, None, Some(2048usize));
        match o1.0 {
            Err(e) => (Err(e), o1.1, o1.2),
            Ok(v1) => {
                (Ok(v1), o1.1, o1.2)
            },
        }
    }

    fn decode<A: AllocTracker>(reader: &mut VecReader, alloc_tracker: &mut A) -> (r: Result<
        LightingArray,
        ProtoDecodeErr,
    >) {
        let ghost input = reader.rest();
        let ghost limit = alloc_tracker.spec_limit() as nat;
        let ghost mut consumed: nat = 0;
        assert(input =~= input.skip(0));
        let ghost a1 = alloc_tracker.spec_allocated() as nat;
        let r1 = decode_seq_field::<Vec<u8>, A>(reader, alloc_tracker, None, None, Some(2048usize));
        proof {
            let step = seq_field_decode::<Vec<u8>>(input.skip(consumed as int), a1, limit, None, None, Some(2048usize)).1;
            assert(input.skip(consumed as int).skip(step as int) =~= input.skip((consumed + step) as int));
            consumed = consumed + step;
        }
        let data = match r1 {
            Ok(v) => v,
            Err(e) => return Err(e),
        };
        Ok(LightingArray { data })
    }
}

impl ProtoEncode for LightingArray {
    type Repr = LightingArray;

    open spec fn spec_encode(data: Seq<u8>) -> Result<Seq<u8>, ProtoEncodeErr> {
        seq_field_encode::<Vec<u8>>(data, None, None, Some(2048usize))
    }

    fn encode(data: &LightingArray, writer: &mut Vec<u8>) -> (r: Result<(), ProtoEncodeErr>) {
        let ghost start = writer@;
        let ghost d = data.deep_view();
        let ghost w1 = writer@;
        let r1 = encode_seq_field::<Vec<u8>>(&data.data, writer, None, None, Some(2048usize));
        match r1 {
            Ok(()) => {},
            Err(e) => {
                return Err(e);
            },
        }
        Ok(())
    }
}

/// A block entity of a chunk: its position in the chunk, its type and its data.
pub struct BlockEntityRecord {
    pub pos: u8,
    pub height: i16,
    pub entity_type: i32,
    pub entity_data: Tag,
}

impl DeepView for BlockEntityRecord {
    type V = (u8, i16, i32, TagView);

    open spec fn deep_view(&self) -> (u8, i16, i32, TagView) {
        (self.pos.deep_view(), self.height.deep_view(), self.entity_type.deep_view(), self.entity_data.deep_view())
    }
}

impl ProtoDecode for BlockEntityRecord {
    type Repr = BlockEntityRecord;

    open spec fn spec_decode(input: Seq<u8>, allocated: nat, limit: nat) -> DecodeOutcome<(u8, i16, i32, TagView)> {
        let o1 = <u8 as ProtoDecode>::spec_decode(input, allocated, limit);
        match o1.0 {
            Err(e) => (Err(e), o1.1, o1.2),
            Ok(v1) => {
                let o2 = <i16 as ProtoDecode>::spec_decode(input.skip((o1.1) as int), o1.2, limit);
                match o2.0 {
                    Err(e) => (Err(e), o1.1 + o2.1, o2.2),
                    Ok(v2) => {
                        let o3 = <VarInt as ProtoDecode>::spec_decode(input.skip((o1.1 + o2.1) as int), o2.2, limit);
                        match o3.0 {
                            Err(e) => (Err(e), o1.1 + o2.1 + o3.1, o3.2),
                            Ok(v3) => {
                                let o4 = <TagRoot as ProtoDecode>::spec_decode(input.skip((o1.1 + o2.1 + o3.1) as int), o3.2, limit);
                                match o4.0 {
                                    Err(e) => (Err(e), o1.1 + o2.1 + o3.1 + o4.1, o4.2),
                                    Ok(v4) => {
                                        (Ok((v1, v2, v3, v4)), o1.1 + o2.1 + o3.1 + o4.1, o4.2)
                                    },
                                }
                            },
                        }
                    },
                }
            },
        }
    }

    fn decode<A: AllocTracker>(reader: &mut VecReader, alloc_tracker: &mut A) -> (r: Result<
        BlockEntityRecord,
        ProtoDecodeErr,
    >) {
        let ghost input = reader.rest();
        let ghost limit = alloc_tracker.spec_limit() as nat;
        let ghost mut consumed: nat = 0;
        assert(input =~= input.skip(0));
        let ghost a1 = alloc_tracker.spec_allocated() as nat;
        let r1 = <u8 as ProtoDecode>::decode(reader, alloc_tracker);
        proof {
            let step = <u8 as ProtoDecode>::spec_decode(input.skip(consumed as int), a1, limit).1;
            assert(input.skip(consumed as int).skip(step as int) =~= input.skip((consumed + step) as int));
            consumed = consumed + step;
        }
        let pos = match r1 {
            Ok(v) => v,
            Err(e) => return Err(e),
        };
        let ghost a2 = alloc_tracker.spec_allocated() as nat;
        let r2 = <i16 as ProtoDecode>::decode(reader, alloc_tracker);
        proof {
            let step = <i16 as ProtoDecode>::spec_decode(input.skip(consumed as int), a2, limit).1;
            assert(input.skip(consumed as int).skip(step as int) =~= input.skip((consumed + step) as int));
            consumed = consumed + step;
        }
        let height = match r2 {
            Ok(v) => v,
            Err(e) => return Err(e),
        };
        let ghost a3 = alloc_tracker.spec_allocated() as nat;
        let r3 = <VarInt as ProtoDecode>::decode(reader, alloc_tracker);
        proof {
            let step = <VarInt as ProtoDecode>::spec_decode(input.skip(consumed as int), a3, limit).1;
            assert(input.skip(consumed as int).skip(step as int) =~= input.skip((consumed + step) as int));
            consumed = consumed + step;
        }
        let entity_type = match r3 {
            Ok(v) => v,
            Err(e) => return Err(e),
        };
        let ghost a4 = alloc_tracker.spec_allocated() as nat;
        let r4 = <TagRoot as ProtoDecode>::decode(reader, alloc_tracker);
        proof {
            let step = <TagRoot as ProtoDecode>::spec_decode(input.skip(consumed as int), a4, limit).1;
            assert(input.skip(consumed as int).skip(step as int) =~= input.skip((consumed + step) as int));
            consumed = consumed + step;
        }
        let entity_data = match r4 {
            Ok(v) => v,
            Err(e) => return Err(e),
        };
        Ok(BlockEntityRecord { pos, height, entity_type, entity_data })
    }
}

/// Where a player last died.
pub struct DeathLocation {
    pub dimension: Identifier,
    pub position: (i32, i32, i32),
}

impl DeepView for DeathLocation {
    type V = ((Seq<char>, usize), (i32, i32, i32));

    open spec fn deep_view(&self) -> ((Seq<char>, usize), (i32, i32, i32)) {
        (self.dimension.deep_view(), self.position.deep_view())
    }
}

impl ProtoDecode for DeathLocation {
    type Repr = DeathLocation;

    open spec fn spec_decode(input: Seq<u8>, allocated: nat, limit: nat) -> DecodeOutcome<((Seq<char>, usize), (i32, i32, i32))> {
        let o1 = <Identifier as ProtoDecode>::spec_decode(input, allocated, limit);
        match o1.0 {
            Err(e) => (Err(e), o1.1, o1.2),
            Ok(v1) => {
                let o2 = <Position as ProtoDecode>::spec_decode(input.skip((o1.1) as int), o1.2, limit);
                match o2.0 {
                    Err(e) => (Err(e), o1.1 + o2.1, o2.2),
                    Ok(v2) => {
                        (Ok((v1, v2)), o1.1 + o2.1, o2.2)
                    },
                }
            },
        }
    }

    fn decode<A: AllocTracker>(reader: &mut VecReader, alloc_tracker: &mut A) -> (r: Result<
        DeathLocation,
        ProtoDecodeErr,
    >) {
        let ghost input = reader.rest();
        let ghost limit = alloc_tracker.spec_limit() as nat;
        let ghost mut consumed: nat = 0;
        assert(input =~= input.skip(0));
        let ghost a1 = alloc_tracker.spec_allocated() as nat;
        let r1 = <Identifier as ProtoDecode>::decode(reader, alloc_tracker);
        proof {
            let step = <Identifier as ProtoDecode>::spec_decode(input.skip(consumed as int), a1, limit).1;
            assert(input.skip(consumed as int).skip(step as int) =~= input.skip((consumed + step) as int));
            consumed = consumed + step;
        }
        let dimension = match r1 {
            Ok(v) => v,
            Err(e) => return Err(e),
        };
        let ghost a2 = alloc_tracker.spec_allocated() as nat;
        let r2 = <Position as ProtoDecode>::decode(reader, alloc_tracker);
        proof {
            let step = <Position as ProtoDecode>::spec_decode(input.skip(consumed as int), a2, limit).1;
            assert(input.skip(consumed as int).skip(step as int) =~= input.skip((consumed + step) as int));
            consumed = consumed + step;
        }
        let position = match r2 {
            Ok(v) => v,
            Err(e) => return Err(e),
        };
        Ok(DeathLocation { dimension, position })
    }
}

impl ProtoEncode for DeathLocation {
    type Repr = DeathLocation;

    open spec fn spec_encode(data: ((Seq<char>, usize), (i32, i32, i32))) -> Result<Seq<u8>, ProtoEncodeErr> {
        then_encode(<Identifier as ProtoEncode>::spec_encode(data.0), <Position as ProtoEncode>::spec_encode(data.1))
    }

    fn encode(data: &DeathLocation, writer: &mut Vec<u8>) -> (r: Result<(), ProtoEncodeErr>) {
        let ghost start = writer@;
        let ghost d = data.deep_view();
        let ghost w1 = writer@;
        let r1 = <Identifier as ProtoEncode>::encode(&data.dimension, writer);
        match r1 {
            Ok(()) => {},
            Err(e) => {
                return Err(e);
            },
        }
        let ghost w2 = writer@;
        let r2 = <Position as ProtoEncode>::encode(&data.position, writer);
        match r2 {
            Ok(()) => {},
            Err(e) => {
                proof {
                    lemma_prefix_of_append(start, w2.skip(start.len() as int));
                    assert(start + w2.skip(start.len() as int) =~= w2);
                    lemma_prefix_trans(start, w2, writer@);
                }
                return Err(e);
            },
        }
        assert(writer@ =~= start + (<Identifier as ProtoEncode>::spec_encode(d.0)->Ok_0 + <Position as ProtoEncode>::spec_encode(d.1)->Ok_0));
        Ok(())
    }
}

/// A step after the handshake goes on the wire as the variable-length integer
/// of its tag (status 1, login 2); reading the integer of a tag gives the step
/// after the handshake of that tag and refuses any other, so reading back what
/// was written gives the same step after the handshake.
pub proof fn lemma_handshake_next_state_wire(v: HandshakeNextState, t: i32, rest: Seq<u8>, allocated: nat, limit: nat)
    ensures
        <HandshakeNextState as ProtoEncode>::spec_encode(v) == Ok::<Seq<u8>, ProtoEncodeErr>(varint_bytes(((match v {
                HandshakeNextState::Status => 1i32,
                HandshakeNextState::Login => 2i32,
            }) as i32) as u32)),
        <HandshakeNextState as ProtoDecode>::spec_decode(varint_bytes(t as u32) + rest, allocated, limit) == (
            (if t == 1i32 {
                Ok(HandshakeNextState::Status)
            } else if t == 2i32 {
                Ok(HandshakeNextState::Login)
            } else {
                Err(ProtoDecodeErr::InvalidEnumTag)
            }),
            varint_bytes(t as u32).len(),
            allocated,
        ),
        <HandshakeNextState as ProtoDecode>::spec_decode(<HandshakeNextState as ProtoEncode>::spec_encode(v)->Ok_0 + rest, allocated, limit)
            == (Ok::<HandshakeNextState, ProtoDecodeErr>(v), varint_bytes(v.spec_tag() as u32).len(), allocated),
{
    lemma_var_int_roundtrip(t, rest);
    lemma_var_int_roundtrip(v.spec_tag(), rest);
}

/// A chat mode goes on the wire as the variable-length integer of its tag
/// (enabled 0, commands only 1, hidden 2); reading the integer of a tag gives
/// the chat mode of that tag and refuses any other, so reading back what was
/// written gives the same chat mode.
pub proof fn lemma_chat_mode_wire(v: ChatMode, t: i32, rest: Seq<u8>, allocated: nat, limit: nat)
    ensures
        <ChatMode as ProtoEncode>::spec_encode(v) == Ok::<Seq<u8>, ProtoEncodeErr>(varint_bytes(((match v {
                ChatMode::Enabled => 0i32,
                ChatMode::CommandsOnly => 1i32,
                ChatMode::Hidden => 2i32,
            }) as i32) as u32)),
        <ChatMode as ProtoDecode>::spec_decode(varint_bytes(t as u32) + rest, allocated, limit) == (
            (if t == 0i32 {
                Ok(ChatMode::Enabled)
            } else if t == 1i32 {
                Ok(ChatMode::CommandsOnly)
            } else if t == 2i32 {
                Ok(ChatMode::Hidden)
            } else {
                Err(ProtoDecodeErr::InvalidEnumTag)
            }),
            varint_bytes(t as u32).len(),
            allocated,
        ),
        <ChatMode as ProtoDecode>::spec_decode(<ChatMode as ProtoEncode>::spec_encode(v)->Ok_0 + rest, allocated, limit)
            == (Ok::<ChatMode, ProtoDecodeErr>(v), varint_bytes(v.spec_tag() as u32).len(), allocated),
{
    lemma_var_int_roundtrip(t, rest);
    lemma_var_int_roundtrip(v.spec_tag(), rest);
}

/// A main hand goes on the wire as the variable-length integer of its tag
/// (left 0, right 1); reading the integer of a tag gives the main hand of that
/// tag and refuses any other, so reading back what was written gives the same
/// main hand.
pub proof fn lemma_main_hand_wire(v: MainHand, t: i32, rest: Seq<u8>, allocated: nat, limit: nat)
    ensures
        <MainHand as ProtoEncode>::spec_encode(v) == Ok::<Seq<u8>, ProtoEncodeErr>(varint_bytes(((match v {
                MainHand::Left => 0i32,
                MainHand::Right => 1i32,
            }) as i32) as u32)),
        <MainHand as ProtoDecode>::spec_decode(varint_bytes(t as u32) + rest, allocated, limit) == (
            (if t == 0i32 {
                Ok(MainHand::Left)
            } else if t == 1i32 {
                Ok(MainHand::Right)
            } else {
                Err(ProtoDecodeErr::InvalidEnumTag)
            }),
            varint_bytes(t as u32).len(),
            allocated,
        ),
        <MainHand as ProtoDecode>::spec_decode(<MainHand as ProtoEncode>::spec_encode(v)->Ok_0 + rest, allocated, limit)
            == (Ok::<MainHand, ProtoDecodeErr>(v), varint_bytes(v.spec_tag() as u32).len(), allocated),
{
    lemma_var_int_roundtrip(t, rest);
    lemma_var_int_roundtrip(v.spec_tag(), rest);
}

/// A resource pack result goes on the wire as the variable-length integer of
/// its tag (success 0, declined 1, failed 2, accepted 3, downloaded 4, invalid
/// url 5, failed to reload 6, discarded 7); reading the integer of a tag gives
/// the resource pack result of that tag and refuses any other, so reading back
/// what was written gives the same resource pack result.
pub proof fn lemma_resource_pack_result_wire(v: ResourcePackResult, t: i32, rest: Seq<u8>, allocated: nat, limit: nat)
    ensures
        <ResourcePackResult as ProtoEncode>::spec_encode(v) == Ok::<Seq<u8>, ProtoEncodeErr>(varint_bytes(((match v {
                ResourcePackResult::Success => 0i32,
                ResourcePackResult::Declined => 1i32,
                ResourcePackResult::Failed => 2i32,
                ResourcePackResult::Accepted => 3i32,
                ResourcePackResult::Downloaded => 4i32,
                ResourcePackResult::InvalidUrl => 5i32,
                ResourcePackResult::FailedToReload => 6i32,
                ResourcePackResult::Discarded => 7i32,
            }) as i32) as u32)),
        <ResourcePackResult as ProtoDecode>::spec_decode(varint_bytes(t as u32) + rest, allocated, limit) == (
            (if t == 0i32 {
                Ok(ResourcePackResult::Success)
            } else if t == 1i32 {
                Ok(ResourcePackResult::Declined)
            } else if t == 2i32 {
                Ok(ResourcePackResult::Failed)
            } else if t == 3i32 {
                Ok(ResourcePackResult::Accepted)
            } else if t == 4i32 {
                Ok(ResourcePackResult::Downloaded)
            } else if t == 5i32 {
                Ok(ResourcePackResult::InvalidUrl)
            } else if t == 6i32 {
                Ok(ResourcePackResult::FailedToReload)
            } else if t == 7i32 {
                Ok(ResourcePackResult::Discarded)
            } else {
                Err(ProtoDecodeErr::InvalidEnumTag)
            }),
            varint_bytes(t as u32).len(),
            allocated,
        ),
        <ResourcePackResult as ProtoDecode>::spec_decode(<ResourcePackResult as ProtoEncode>::spec_encode(v)->Ok_0 + rest, allocated, limit)
            == (Ok::<ResourcePackResult, ProtoDecodeErr>(v), varint_bytes(v.spec_tag() as u32).len(), allocated),
{
    lemma_var_int_roundtrip(t, rest);
    lemma_var_int_roundtrip(v.spec_tag(), rest);
}

/// A game mode goes on the wire as one byte, its tag (survival 0, creative 1,
/// adventure 2, spectator 3); reading a byte gives the game mode of that tag
/// and refuses any other byte, so reading back what was written gives the same
/// game mode.
pub proof fn lemma_game_mode_wire(v: GameMode, b: u8, rest: Seq<u8>, allocated: nat, limit: nat)
    ensures
        <GameMode as ProtoEncode>::spec_encode(v) == Ok::<Seq<u8>, ProtoEncodeErr>(seq![(match v {
                GameMode::Survival => 0u8,
                GameMode::Creative => 1u8,
                GameMode::Adventure => 2u8,
                GameMode::Spectator => 3u8,
            })]),
        <GameMode as ProtoDecode>::spec_decode(seq![b] + rest, allocated, limit) == (
            (if b == 0u8 {
                Ok(GameMode::Survival)
            } else if b == 1u8 {
                Ok(GameMode::Creative)
            } else if b == 2u8 {
                Ok(GameMode::Adventure)
            } else if b == 3u8 {
                Ok(GameMode::Spectator)
            } else {
                Err(ProtoDecodeErr::InvalidEnumTag)
            }),
            1nat,
            allocated,
        ),
        <GameMode as ProtoDecode>::spec_decode(<GameMode as ProtoEncode>::spec_encode(v)->Ok_0 + rest, allocated, limit)
            == (Ok::<GameMode, ProtoDecodeErr>(v), 1nat, allocated),
{
    lemma_u8_wire(b, rest, allocated, limit);
    lemma_u8_wire(v.spec_tag(), rest, allocated, limit);
}

/// A previous game mode goes on the wire as one byte, the two's complement of
/// its tag (undefined -1, survival 0, creative 1, adventure 2, spectator 3);
/// reading a byte gives the previous game mode of that tag and refuses any
/// other byte, so reading back what was written gives the same previous game
/// mode.
pub proof fn lemma_last_game_mode_wire(v: LastGameMode, b: i8, rest: Seq<u8>, allocated: nat, limit: nat)
    ensures
        <LastGameMode as ProtoEncode>::spec_encode(v) == Ok::<Seq<u8>, ProtoEncodeErr>(seq![((match v {
                LastGameMode::Undefined => -1i8,
                LastGameMode::Survival => 0i8,
                LastGameMode::Creative => 1i8,
                LastGameMode::Adventure => 2i8,
                LastGameMode::Spectator => 3i8,
            }) as u8)]),
        <LastGameMode as ProtoDecode>::spec_decode(seq![b as u8] + rest, allocated, limit) == (
            (if b == -1i8 {
                Ok(LastGameMode::Undefined)
            } else if b == 0i8 {
                Ok(LastGameMode::Survival)
            } else if b == 1i8 {
                Ok(LastGameMode::Creative)
            } else if b == 2i8 {
                Ok(LastGameMode::Adventure)
            } else if b == 3i8 {
                Ok(LastGameMode::Spectator)
            } else {
                Err(ProtoDecodeErr::InvalidEnumTag)
            }),
            1nat,
            allocated,
        ),
        <LastGameMode as ProtoDecode>::spec_decode(<LastGameMode as ProtoEncode>::spec_encode(v)->Ok_0 + rest, allocated, limit)
            == (Ok::<LastGameMode, ProtoDecodeErr>(v), 1nat, allocated),
{
    lemma_i8_wire(b, rest, allocated, limit);
    lemma_i8_wire(v.spec_tag(), rest, allocated, limit);
}

/// A difficulty goes on the wire as one byte, its tag (peaceful 0, easy 1,
/// normal 2, hard 3); reading a byte gives the difficulty of that tag and
/// refuses any other byte, so reading back what was written gives the same
/// difficulty.
pub proof fn lemma_difficulty_wire(v: Difficulty, b: u8, rest: Seq<u8>, allocated: nat, limit: nat)
    ensures
        <Difficulty as ProtoEncode>::spec_encode(v) == Ok::<Seq<u8>, ProtoEncodeErr>(seq![(match v {
                Difficulty::Peaceful => 0u8,
                Difficulty::Easy => 1u8,
                Difficulty::Normal => 2u8,
                Difficulty::Hard => 3u8,
            })]),
        <Difficulty as ProtoDecode>::spec_decode(seq![b] + rest, allocated, limit) == (
            (if b == 0u8 {
                Ok(Difficulty::Peaceful)
            } else if b == 1u8 {
                Ok(Difficulty::Easy)
            } else if b == 2u8 {
                Ok(Difficulty::Normal)
            } else if b == 3u8 {
                Ok(Difficulty::Hard)
            } else {
                Err(ProtoDecodeErr::InvalidEnumTag)
            }),
            1nat,
            allocated,
        ),
        <Difficulty as ProtoDecode>::spec_decode(<Difficulty as ProtoEncode>::spec_encode(v)->Ok_0 + rest, allocated, limit)
            == (Ok::<Difficulty, ProtoDecodeErr>(v), 1nat, allocated),
{
    lemma_u8_wire(b, rest, allocated, limit);
    lemma_u8_wire(v.spec_tag(), rest, allocated, limit);
}

/// A game event goes on the wire as one byte, its tag (no respawn block 0, end
/// raining 1, begin raining 2, change game mode 3, win game 4, demo event 5,
/// arrow hit player 6, rain level change 7, thunder level change 8, player
/// puffer fish sound 9, play elder guardian mob appearance 10, enable respawn
/// screen 11, limited crafting 12, start waiting for level chunks 13); reading
/// a byte gives the game event of that tag and refuses any other byte, so
/// reading back what was written gives the same game event.
pub proof fn lemma_game_event_wire(v: GameEvent, b: u8, rest: Seq<u8>, allocated: nat, limit: nat)
    ensures
        <GameEvent as ProtoEncode>::spec_encode(v) == Ok::<Seq<u8>, ProtoEncodeErr>(seq![(match v {
                GameEvent::NoRespawnBlock => 0u8,
                GameEvent::EndRaining => 1u8,
                GameEvent::BeginRaining => 2u8,
                GameEvent::ChangeGameMode => 3u8,
                GameEvent::WinGame => 4u8,
                GameEvent::DemoEvent => 5u8,
                GameEvent::ArrowHitPlayer => 6u8,
                GameEvent::RainLevelChange => 7u8,
                GameEvent::ThunderLevelChange => 8u8,
                GameEvent::PlayerPufferFishSound => 9u8,
                GameEvent::PlayElderGuardianMobAppearance => 10u8,
                GameEvent::EnableRespawnScreen => 11u8,
                GameEvent::LimitedCrafting => 12u8,
                GameEvent::StartWaitingForLevelChunks => 13u8,
            })]),
        <GameEvent as ProtoDecode>::spec_decode(seq![b] + rest, allocated, limit) == (
            (if b == 0u8 {
                Ok(GameEvent::NoRespawnBlock)
            } else if b == 1u8 {
                Ok(GameEvent::EndRaining)
            } else if b == 2u8 {
                Ok(GameEvent::BeginRaining)
            } else if b == 3u8 {
                Ok(GameEvent::ChangeGameMode)
            } else if b == 4u8 {
                Ok(GameEvent::WinGame)
            } else if b == 5u8 {
                Ok(GameEvent::DemoEvent)
            } else if b == 6u8 {
                Ok(GameEvent::ArrowHitPlayer)
            } else if b == 7u8 {
                Ok(GameEvent::RainLevelChange)
            } else if b == 8u8 {
                Ok(GameEvent::ThunderLevelChange)
            } else if b == 9u8 {
                Ok(GameEvent::PlayerPufferFishSound)
            } else if b == 10u8 {
                Ok(GameEvent::PlayElderGuardianMobAppearance)
            } else if b == 11u8 {
                Ok(GameEvent::EnableRespawnScreen)
            } else if b == 12u8 {
                Ok(GameEvent::LimitedCrafting)
            } else if b == 13u8 {
                Ok(GameEvent::StartWaitingForLevelChunks)
            } else {
                Err(ProtoDecodeErr::InvalidEnumTag)
            }),
            1nat,
            allocated,
        ),
        <GameEvent as ProtoDecode>::spec_decode(<GameEvent as ProtoEncode>::spec_encode(v)->Ok_0 + rest, allocated, limit)
            == (Ok::<GameEvent, ProtoDecodeErr>(v), 1nat, allocated),
{
    lemma_u8_wire(b, rest, allocated, limit);
    lemma_u8_wire(v.spec_tag(), rest, allocated, limit);
}

} // verus!
