//! The datatype-specific collectors of the engine.

pub mod balance_diffs;
pub mod storages;
