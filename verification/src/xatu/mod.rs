//! Attestation timing data: one Parquet file per day.
pub mod date;
pub mod downloader;
pub mod parquet_file;
pub mod reader;
pub mod table;
