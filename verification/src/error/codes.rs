//! The handful of codes this crate reports for itself.
//!
//! Spelled out rather than taken from libc, which this crate would otherwise
//! not need at all.

use vstd::prelude::*;

verus! {

/// The peer hung up mid handshake.
pub const CONNECTION_RESET: i32 = 54;

/// rustls reported a state this crate cannot continue from.
pub const IO: i32 = 5;

/// A protocol error from the peer: an attack, or a broken implementation.
/// Either way the session is finished.
pub const PROTOCOL: i32 = 100;

/// The far end is gone and a write has nowhere to go.
pub const BROKEN_PIPE: i32 = 32;

} // verus!
