//! The named binary tag (NBT) data model and its decoder.
pub mod decode;
pub mod io;
pub mod tag;
