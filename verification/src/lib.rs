//! Verified core of a transparent media-proxy: a TTL-swept token cache, a
//! media-key index, the metadata-capture ingestion step, and the fallback
//! routing policy that decides between the origin server and the storage
//! gateway.

pub mod assoc;
pub mod media;
pub mod plex;
pub mod route;
pub mod strutil;
pub mod tokens;

use vstd::prelude::*;

verus! {

/// Time-to-live of a cached token, in seconds.
pub const TOKEN_TTL_SECONDS: u64 = 15 * 60;

/// Largest metadata response body that the capture route will buffer.
pub const CAPTURE_BODY_LIMIT: usize = 1048576;

} // verus!
