//! The simulation.
pub mod bootstrap;
pub mod engine;
pub mod injection;
pub mod laws;
pub mod order;
pub mod result;
pub mod steps;
