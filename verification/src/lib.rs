//! A fast-confirmation-rule simulator: replays a planned range of beacon chain slots and
//! reports, slot by slot, which block the fast confirmation rule had confirmed.
//!
//! This crate holds the simulator's rules. It asks for outside work (HTTP requests, files,
//! the beacon chain itself) by returning values that describe it, and is handed the replies.
pub mod beacon;
pub mod config;
pub mod download;
pub mod era;
pub mod hash256;
pub mod http;
pub mod manifest;
pub mod output;
pub mod retry;
pub mod sim;
pub mod text;
pub mod types;
pub mod xatu;
