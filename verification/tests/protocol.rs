use serverx::io::VecReader;
use serverx::protocol::decode::{AllocTracker, BasicAllocTracker, ProtoDecode, ProtoDecodeErr};
use serverx::protocol::encode::{ProtoEncode, ProtoEncodeErr};
use serverx::protocol::io::{
    AsyncPacketReader, AsyncPacketWriter, FrameSizeReader, FrameSizeStep, PacketReadErr,
    PacketWriteErr, DEFAULT_PACKET_LIMIT,
};
use serverx::protocol::packet::{ConnectionState, PacketDirection};
use serverx::protocol::seq::RemainingBytes;
use serverx::protocol::types::{Angle, Either, Position};
use serverx::protocol::v765::clientbound::{
    ChangeDifficulty, EncryptionRequest, GameJoin, LoginSuccess, SetCenterChunk, StatusPingResponse,
};
use serverx::protocol::v765::types::{Difficulty, GameMode, LastGameMode, LoginProperty};
use serverx::protocol::v765::{ClientBoundPacket, PacketDecoderImpl, PacketEncoderImpl};
use serverx::protocol::varint::{decode_var_int, encode_var_int, VarInt};
use serverx::text::{is_valid_namespace, is_valid_path, Identifier};

fn decode_with<T: ProtoDecode>(bytes: &[u8]) -> (Result<T::Repr, ProtoDecodeErr>, u64) {
    let v = bytes.to_vec();
    let mut r = VecReader::new(&v, 0, v.len());
    let mut a = BasicAllocTracker::new(1 << 20);
    let out = T::decode(&mut r, &mut a);
    (out, r.position())
}

fn encode_with<T: ProtoEncode>(data: &T::Repr) -> Result<Vec<u8>, ProtoEncodeErr> {
    let mut w = Vec::new();
    T::encode(data, &mut w).map(|_| w)
}

#[test]
fn var_int_examples() {
    let cases: [(i32, &[u8]); 6] = [
        (0, &[0x00]),
        (1, &[0x01]),
        (127, &[0x7f]),
        (128, &[0x80, 0x01]),
        (2147483647, &[0xff, 0xff, 0xff, 0xff, 0x07]),
        (-1, &[0xff, 0xff, 0xff, 0xff, 0x0f]),
    ];
    for (value, bytes) in cases.iter() {
        let mut w = Vec::new();
        encode_var_int(*value, &mut w);
        assert_eq!(&w[..], *bytes);
        let mut r = VecReader::new(&w, 0, w.len());
        assert_eq!(decode_var_int(&mut r).ok(), Some(*value));
    }
    let long = vec![0x80u8, 0x80, 0x80, 0x80, 0x80, 0x01];
    let mut r = VecReader::new(&long, 0, long.len());
    assert!(matches!(decode_var_int(&mut r), Err(ProtoDecodeErr::VarIntTooLong)));
    let (v, pos) = decode_with::<VarInt>(&[0xac, 0x02]);
    assert_eq!((v.ok(), pos), (Some(300), 2));
}

#[test]
fn position_codec() {
    let bytes = encode_with::<Position>(&(18357644, 831, -20882616)).ok().unwrap();
    assert_eq!(bytes, vec![0x46, 0x07, 0x63, 0x2c, 0x15, 0xb4, 0x83, 0x3f]);
    let (p, _) = decode_with::<Position>(&bytes);
    assert_eq!(p.ok(), Some((18357644, 831, -20882616)));
}

#[test]
fn strings_and_sequences() {
    let bytes = encode_with::<String>(&"hi".to_string()).ok().unwrap();
    assert_eq!(bytes, vec![2, b'h', b'i']);
    let (s, pos) = decode_with::<String>(&[3, b'a', b'b', b'c', 9]);
    assert_eq!((s.ok(), pos), (Some("abc".to_string()), 4));
    let (s, _) = decode_with::<String>(&[2, 0xff, 0xfe]);
    assert!(matches!(s, Err(ProtoDecodeErr::MalformedString)));
    let (v, _) = decode_with::<Vec<u8>>(&[2, 7, 8]);
    assert_eq!(v.ok(), Some(vec![7, 8]));
    let (rest, pos) = decode_with::<RemainingBytes>(&[1, 2, 3]);
    assert_eq!((rest.ok(), pos), (Some(vec![1, 2, 3]), 3));
    let (o, _) = decode_with::<Option<u8>>(&[1, 5]);
    assert_eq!(o.ok(), Some(Some(5)));
    assert_eq!(encode_with::<Option<u8>>(&Some(5)).ok(), Some(vec![5]));
    assert_eq!(encode_with::<Option<u8>>(&None).ok(), Some(vec![]));
}

#[test]
fn identifiers() {
    assert!(is_valid_namespace("minecraft"));
    assert!(!is_valid_namespace("Minecraft"));
    assert!(!is_valid_namespace(""));
    assert!(is_valid_path("block/stone"));
    assert!(!is_valid_namespace("block/stone"));
    let id = Identifier::parse("stone").ok().unwrap();
    assert_eq!(id.string_ref(), "minecraft:stone");
    assert_eq!(id.delim(), 9);
    let id = Identifier::parse("my_mod:thing").ok().unwrap();
    assert_eq!((id.string_ref().as_str(), id.delim()), ("my_mod:thing", 6));
    assert!(Identifier::parse("Bad:thing").is_err());
    assert!(Identifier::parse("ok:Bad").is_err());
}

#[test]
fn packets_roundtrip() {
    let p = EncryptionRequest { server_id: "".to_string(), public_key: vec![1, 2], verify_token: vec![9, 9, 9, 9] };
    let bytes = encode_with::<EncryptionRequest>(&p).ok().unwrap();
    assert_eq!(bytes, vec![0, 2, 1, 2, 4, 9, 9, 9, 9]);
    let (q, _) = decode_with::<EncryptionRequest>(&bytes);
    let q = q.ok().unwrap();
    assert_eq!(q.verify_token, vec![9, 9, 9, 9]);
    let bad = EncryptionRequest { server_id: "".to_string(), public_key: vec![], verify_token: vec![1] };
    assert!(matches!(encode_with::<EncryptionRequest>(&bad), Err(ProtoEncodeErr::SeqLenMismatch(1, 4))));
    let (r, _) = decode_with::<EncryptionRequest>(&[0, 0, 1, 1]);
    assert!(matches!(r, Err(ProtoDecodeErr::SeqLenMismatch(1, 4))));
    let login = LoginSuccess {
        uuid: 0x0102,
        username: "abc".to_string(),
        properties: vec![LoginProperty { name: "n".to_string(), value: "v".to_string(), signature: None }],
    };
    let bytes = encode_with::<LoginSuccess>(&login).ok().unwrap();
    assert_eq!(bytes.len(), 16 + 4 + 1 + 2 + 2);
    let long_name = LoginSuccess { uuid: 0, username: "x".repeat(17), properties: vec![] };
    assert!(matches!(encode_with::<LoginSuccess>(&long_name), Err(ProtoEncodeErr::SeqTooLong(17, 16))));
}

#[test]
fn enums_by_tag() {
    let p = ChangeDifficulty { difficulty: Difficulty::Hard, locked: true };
    assert_eq!(encode_with::<ChangeDifficulty>(&p).ok(), Some(vec![3, 1]));
    let (d, _) = decode_with::<Difficulty>(&[4]);
    assert!(matches!(d, Err(ProtoDecodeErr::InvalidEnumTag)));
    let (m, _) = decode_with::<LastGameMode>(&[0xff]);
    assert_eq!(m.ok(), Some(LastGameMode::Undefined));
}

#[test]
fn dispatcher_decodes_by_state_and_id() {
    let bytes = vec![0u8, 0, 0, 0, 0, 0, 0, 42];
    let mut r = VecReader::new(&bytes, 0, bytes.len());
    let mut a = BasicAllocTracker::new(100);
    match PacketDecoderImpl::decode_packet(1, PacketDirection::ClientBound, ConnectionState::Status, &mut r, &mut a) {
        Ok(ClientBoundPacket::StatusPingResponse(p)) => assert_eq!(p.payload, 42),
        _ => panic!("expected a ping response"),
    }
    let mut r = VecReader::new(&bytes, 0, bytes.len());
    assert!(matches!(
        PacketDecoderImpl::decode_packet(1, PacketDirection::ClientBound, ConnectionState::Play, &mut r, &mut a),
        Err(ProtoDecodeErr::UnknownPacketId(1))
    ));
    assert_eq!(r.position(), 0);
    assert!(matches!(
        PacketDecoderImpl::decode_packet(0, PacketDirection::ServerBound, ConnectionState::Handshake, &mut r, &mut a),
        Err(ProtoDecodeErr::UnknownPacketId(0))
    ));
    let json = b"\x07{\"a\":1}".to_vec();
    let mut r = VecReader::new(&json, 0, json.len());
    assert!(matches!(
        PacketDecoderImpl::decode_packet(0, PacketDirection::ClientBound, ConnectionState::Status, &mut r, &mut a),
        Ok(ClientBoundPacket::StatusResponse(_))
    ));
    let not_json = b"\x02{x".to_vec();
    let mut r = VecReader::new(&not_json, 0, not_json.len());
    match PacketDecoderImpl::decode_packet(0, PacketDirection::ClientBound, ConnectionState::Login, &mut r, &mut a) {
        Err(ProtoDecodeErr::MalformedJson(s)) => assert_eq!(s, "{x"),
        _ => panic!("expected malformed json"),
    }
    assert_eq!(a.allocated(), 7 + 2);
}

#[test]
fn encoder_writes_payloads() {
    let p = ClientBoundPacket::SetCenterChunk(SetCenterChunk { x: 1, z: -1 });
    assert_eq!(p.id(), 0x52);
    assert_eq!(p.state(), ConnectionState::Play);
    assert_eq!(p.direction(), PacketDirection::ClientBound);
    let mut w = Vec::new();
    assert!(PacketEncoderImpl::encode_packet(&p, &mut w).is_ok());
    assert_eq!(w, vec![1, 0xff, 0xff, 0xff, 0xff, 0x0f]);
    let ping = ClientBoundPacket::StatusPingResponse(StatusPingResponse { payload: 5 });
    let mut w = Vec::new();
    assert!(PacketEncoderImpl::encode_packet(&ping, &mut w).is_ok());
    assert_eq!(w, 5i64.to_be_bytes().to_vec());
}

#[test]
fn game_join_roundtrip() {
    let join = GameJoin {
        entity_id: 1,
        is_hardcore: false,
        dimensions: vec![Identifier::parse("overworld").ok().unwrap()],
        max_players: 20,
        view_distance: 10,
        sim_distance: 10,
        reduced_debug: false,
        enable_respawn: true,
        limited_crafting: false,
        dimension_type: Identifier::parse("overworld").ok().unwrap(),
        dimension_name: Identifier::parse("overworld").ok().unwrap(),
        seed: 7,
        game_mode: GameMode::Creative,
        last_game_mode: LastGameMode::Undefined,
        is_debug: false,
        is_flag: false,
        death_location: None,
        portal_cooldown: 0,
    };
    let bytes = encode_with::<GameJoin>(&join).ok().unwrap();
    // An absent optional value is written as nothing, while the decoder reads
    // a presence flag: the flag must be put in by hand.
    let (short, _) = decode_with::<GameJoin>(&bytes);
    assert!(short.is_err());
    let mut flagged = bytes[..bytes.len() - 1].to_vec();
    flagged.push(0);
    flagged.push(bytes[bytes.len() - 1]);
    let (back, pos) = decode_with::<GameJoin>(&flagged);
    let back = back.ok().unwrap();
    assert_eq!(pos as usize, flagged.len());
    assert!(back.death_location.is_none());
    assert_eq!(back.dimension_name.string_ref(), "minecraft:overworld");
    assert_eq!(back.game_mode, GameMode::Creative);
    assert_eq!(back.seed, 7);
}

#[test]
fn frame_size_reader() {
    let mut f = FrameSizeReader::new();
    assert_eq!(f.push(0xac), FrameSizeStep::NeedByte);
    assert_eq!(f.push(0x02), FrameSizeStep::Done(300));
    let mut f = FrameSizeReader::new();
    for _ in 0..4 {
        assert_eq!(f.push(0x80), FrameSizeStep::NeedByte);
    }
    assert_eq!(f.push(0x80), FrameSizeStep::Malformed);
    let mut f = FrameSizeReader::new();
    for _ in 0..4 {
        f.push(0xff);
    }
    assert_eq!(f.push(0x0f), FrameSizeStep::Malformed);
}

#[test]
fn writer_frames_and_reader_reads_back() {
    let mut w = AsyncPacketWriter::new();
    let p = ClientBoundPacket::StatusPingResponse(StatusPingResponse { payload: 9 });
    let len = w.encode(&p).ok().unwrap();
    assert_eq!(len, 9);
    let (a, b) = w.frame(len).ok().unwrap();
    let framed: Vec<u8> = Vec::new();
    let _ = framed;
    assert_eq!((a, b), (4, 14));
    assert!(matches!(w.frame(DEFAULT_PACKET_LIMIT + 1), Err(PacketWriteErr::PacketTooLong(_, _))));
    assert!(matches!(w.frame(20), Err(PacketWriteErr::Unknown)));
    let mut r = AsyncPacketReader::new();
    let mut sizes = FrameSizeReader::new();
    assert_eq!(sizes.push(9), FrameSizeStep::Done(9));
    assert_eq!(r.prepare_frame(9).ok(), Some(9));
    let payload = vec![1u8, 0, 0, 0, 0, 0, 0, 0, 9];
    r.packet_buf_mut()[..9].copy_from_slice(&payload);
    match r.decode_frame(9, PacketDirection::ClientBound, ConnectionState::Status) {
        Ok(ClientBoundPacket::StatusPingResponse(p)) => assert_eq!(p.payload, 9),
        _ => panic!("expected a ping response"),
    }
    assert!(matches!(r.prepare_frame(DEFAULT_PACKET_LIMIT + 1), Err(PacketReadErr::PacketTooLong(_, _))));
    assert_eq!(DEFAULT_PACKET_LIMIT, 1 << 20);
}

#[test]
fn angle_is_one_byte() {
    assert_eq!(encode_with::<Angle>(&64).unwrap(), vec![64u8]);
    let (v, pos) = decode_with::<Angle>(&[192, 7]);
    assert_eq!(v.unwrap(), 192);
    assert_eq!(pos, 1);
    assert!(matches!(decode_with::<Angle>(&[]).0, Err(ProtoDecodeErr::IoErr(_))));
}

#[test]
fn writer_exposes_framed_bytes() {
    let mut w = AsyncPacketWriter::new();
    let packet = ClientBoundPacket::SetCenterChunk(SetCenterChunk { x: 1, z: 2 });
    let len = w.encode(&packet).unwrap();
    let (start, end) = w.frame(len).unwrap();
    let bytes = &w.packet_buf()[start..end];
    assert_eq!(bytes[0] as usize, len);
    assert_eq!(&bytes[1..], &[0x52u8, 0x01, 0x02][..]);
}

#[test]
fn either_tries_left_then_right() {
    let (v, pos) = decode_with::<Either<i32, u8>>(&[0, 0, 0, 5]);
    assert_eq!(v.unwrap(), Either::Left(5));
    assert_eq!(pos, 4);
    let (v, pos) = decode_with::<Either<i32, u8>>(&[7]);
    assert_eq!(v.unwrap(), Either::Right(7));
    assert_eq!(pos, 1);
    assert!(matches!(decode_with::<Either<i32, u8>>(&[]).0, Err(ProtoDecodeErr::InvalidEither)));
    assert_eq!(encode_with::<Either<i32, u8>>(&Either::Left(5)).unwrap(), vec![0, 0, 0, 5]);
    assert_eq!(encode_with::<Either<i32, u8>>(&Either::Right(9)).unwrap(), vec![9]);
}
