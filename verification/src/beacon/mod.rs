//! Beacon states and blocks that are kept between runs.
pub mod state_fetcher;
