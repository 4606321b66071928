//! A single-file write-ahead log: length-prefixed records, an append cursor,
//! and a recovery scan that tolerates a truncated trailing record.
//!
//! The log's on-disk format is a plain concatenation of records, each a
//! 4-byte big-endian length prefix followed by that many payload bytes.
//! [`codec`] defines the format mathematically and provides the verified
//! encoder and recovery scan; [`store`] tracks the append cursor and frames
//! payloads for a caller that owns the underlying file handle.

pub mod codec;
pub mod store;
