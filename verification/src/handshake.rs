//! The one-shot handshake a client sends before any frames: a JSON record,
//! terminated by a single null byte, naming the protocol version, the working
//! directory and the launch arguments for the backing process.

use vstd::prelude::*;

use crate::json::{handshake_view, json_init_record};

verus! {

/// The single protocol version this relay understands.
pub const PROTO_VERSION: u64 = 1;

/// Why a handshake was refused.
#[derive(Clone, Copy, PartialEq, Eq, Debug)]
pub enum HandshakeError {
    /// The bytes do not decode to the expected record shape.
    Malformed,
    /// The record decodes, but its version is not the supported one.
    VersionMismatch,
}

/// The decoded handshake record: how to start the backing process.
#[derive(Clone, Debug, PartialEq, Eq)]
pub struct ProtoInit {
    /// The protocol version the client speaks.
    pub version: u64,
    /// The working directory for the backing process.
    pub cwd: String,
    /// The launch arguments for the backing process, in order.
    pub args: Vec<String>,
}

impl ProtoInit {
    /// Whether this record carries the one supported protocol version.
    pub fn check_version(&self) -> (r: bool)
        ensures
            r == (self.version == PROTO_VERSION),
    {
        self.version == PROTO_VERSION
    }
}

/// Drop the sentinel byte that terminated the handshake read: the raw buffer
/// holds everything up to and including the terminator, and the record is
/// decoded from the bytes before it.
pub fn trim_init_terminator(buf: Vec<u8>) -> (r: Vec<u8>)
    ensures
        buf@.len() > 0 ==> r@ == buf@.drop_last(),
        buf@.len() == 0 ==> r@ == buf@,
{
    let mut out = buf;
    let _last = out.pop();
    out
}

/// Decode and validate a handshake record. Succeeds exactly when the bytes
/// decode to the expected shape and the version is the supported one; each
/// failure names which of the two did not hold. No process may be launched on
/// failure.
pub fn decode_handshake(bytes: &[u8]) -> (r: Result<ProtoInit, HandshakeError>)
    ensures
        match r {
            Ok(p) => handshake_view(bytes@) == Some((p.version, p.cwd@, p.args.deep_view()))
                && p.version == PROTO_VERSION,
            Err(HandshakeError::Malformed) => handshake_view(bytes@) is None,
            Err(HandshakeError::VersionMismatch) => (handshake_view(bytes@) matches Some(t)
                && t.0 != PROTO_VERSION),
        },
{
    match json_init_record(bytes) {
        None => Err(HandshakeError::Malformed),
        Some((version, cwd, args)) => {
            let init = ProtoInit { version, cwd, args };
            if init.check_version() {
                Ok(init)
            } else {
                Err(HandshakeError::VersionMismatch)
            }
        },
    }
}

} // verus!
