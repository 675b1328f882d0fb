//! Chunks held in memory, and how they are made.
use vstd::prelude::*;

pub mod generators;
pub mod store;

verus! {

/// Whether a chunk is being loaded or unloaded.
#[derive(Clone, Copy, Debug, PartialEq, Eq, Structural)]
pub enum ChunkLoadStatus {
    Loading,
    Unloading,
}

} // verus!
