//! An S3-compatible object-storage core: content-addressed blobs, multipart
//! upload sessions with TTL cleanup, AWS SigV4 request verification, and the
//! RFC 5987 `Content-Disposition` codec.
//!
//! Filesystem, database and network access live outside this crate; the
//! modules here hold the data rules and decision logic, each function with a
//! verified contract.

pub mod blob;
pub mod cli;
pub mod config;
pub mod crypto;
pub mod dispatch;
pub mod disposition;
pub mod ids;
pub mod metadata;
pub mod percent;
pub mod registry;
pub mod sigv4;
pub mod storage;
pub mod text;

use vstd::prelude::*;

verus! {

/// Byte count of one mebibyte, used to turn the configured upload limit into bytes.
pub const BYTES_PER_MB: u64 = 1048576;

} // verus!
