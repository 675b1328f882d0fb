//! Bookkeeping of an entity-component system: entities, type-id sorting,
//! column and table storage, message channels and event groups.
pub mod archetype;
pub mod entity;
pub mod message;
pub mod sort;
pub mod util;
pub mod storage;
pub mod execution;
pub mod tuple;
pub mod registry;
