//! Running iterations over the registry.
pub mod iter;
pub mod pipeline;
