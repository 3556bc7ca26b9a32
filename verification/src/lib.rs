//! A verified local-transport layer: a minimal HTTP/1.1 client codec for
//! talking to a co-located proxy-core process over an OS-local stream, a
//! bounded connection pool with age- and liveness-based eviction, and a
//! bounded-concurrency batch probing engine built on top of them.

use vstd::prelude::*;

pub mod ascii;
pub mod batch;
pub mod client;
pub mod codec;
pub mod errors;
pub mod pool;
pub mod power;
pub mod shared;
pub mod stream;

verus! {

/// Upper bound on the number of idle connections the pool may hold.
pub const MAX_POOL_SIZE: usize = 30;

/// An idle connection older than this many milliseconds is never reused.
pub const IDLE_TIMEOUT_MS: u64 = 35000;

/// Budget in milliseconds for reading a close-delimited response body.
pub const READ_TO_CLOSE_TIMEOUT_MS: u64 = 5000;

} // verus!
