//! Chunk generators.
pub mod flat;
