//! Who sends a packet and in which phase of a connection.
use vstd::prelude::*;

verus! {

/// The side a packet travels towards.
#[derive(Clone, Copy, Debug, PartialEq, Eq, Structural)]
pub enum PacketDirection {
    ClientBound,
    ServerBound,
}

/// The phase of a connection, which decides how packet ids are read.
#[derive(Clone, Copy, Debug, PartialEq, Eq, Structural)]
pub enum ConnectionState {
    Handshake,
    Status,
    Login,
    Play,
    Configuration,
}

} // verus!
