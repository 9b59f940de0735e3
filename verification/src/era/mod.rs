//! ERA files: the archive of beacon blocks.
pub mod downloader;
pub mod iterator;
pub mod reader;
