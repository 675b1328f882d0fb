//! Storage of entity components.
pub mod column;
pub mod table;
pub mod channel;
pub mod event;
