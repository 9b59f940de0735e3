//! The simulator's output: one record per slot.
pub mod schema;
pub mod writer;
