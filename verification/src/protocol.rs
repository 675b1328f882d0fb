//! The game's network protocol: value codecs, packet framing and packets.
pub mod decode;
pub mod encode;
pub mod types;
pub mod varint;
pub mod seq;
pub mod json;
pub mod packet;

pub mod v765;
pub mod io;
