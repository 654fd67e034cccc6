//! Core logic of an LSP multiplexing relay: the handshake decoder, the frame
//! codec (header parsing and exact re-serialization), and the per-direction
//! relay step functions that a surrounding runtime drives over a socket and a
//! child process's standard streams.

pub mod frame;
pub mod handshake;
pub mod json;
pub mod relay;
pub mod text;

use vstd::prelude::*;

verus! {

/// The well-known TCP port the relay listens on.
pub const PORT: u16 = 27631;

} // verus!
