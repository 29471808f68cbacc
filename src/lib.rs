//! A lazy, range-addressable reader for ZIP archives: the caller fetches byte
//! ranges, the library parses, indexes, resolves ranges and extracts entries.
pub mod archive;
pub mod bytes;
pub mod codec;
pub mod laws;
pub mod zip;

pub use archive::{LookupError, Range, LSZR};
