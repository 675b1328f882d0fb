//! Wire formats, storage bookkeeping and data models of a game server.
pub mod bytes;
pub mod io;
pub mod nbt;
pub mod protocol;
pub mod text;
pub mod ecs;
pub mod game;
