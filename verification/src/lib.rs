//! A small remote-file RPC core: a binary wire protocol for file operation
//! requests and replies, a server-side dispatcher with an open-handle table
//! over an in-memory file store, and the client-side request/retry discipline.
//!
//! Transport (UDP sockets, timeouts) is left to the embedding program; this
//! crate covers everything that can be stated and proved about the protocol
//! itself.

use vstd::prelude::*;

pub mod client;
pub mod codec;
pub mod handle_table;
pub mod msg;
mod rng;
pub mod server;

verus! {

/// Result code carried in every reply: the operation succeeded.
pub const RESULT_OK: i32 = 0;

/// Result code for an operation naming a file handle the server never issued,
/// or an invalid mode/whence argument: the conventional code distinct from any
/// operating-system error.
pub const RESULT_INVALID: i32 = -1;

/// Result code surrogate for "no such file or directory".
pub const RESULT_NOT_FOUND: i32 = 2;

/// Result code surrogate for "bad file handle access mode" (reading a
/// write-only handle or writing a read-only one).
pub const RESULT_BAD_ACCESS: i32 = 9;

/// Result code surrogate for a seek that would land outside the representable
/// range of positions.
pub const RESULT_BAD_SEEK: i32 = 22;

/// Result code surrogate for a write whose end position cannot be represented.
pub const RESULT_TOO_BIG: i32 = 27;

/// Ceiling on the size of one encoded datagram in either direction; larger
/// payloads are the caller's responsibility to avoid.
pub const MAX_FRAME: usize = 4096;

} // verus!
