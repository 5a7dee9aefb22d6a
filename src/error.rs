//! Error kinds of the library.
use vstd::prelude::*;

verus! {

/// The kinds of I/O failure that the library's readers report.
#[derive(Clone, Copy, Debug, PartialEq, Eq, Structural)]
pub enum IoError {
    /// The input ended before the value did.
    UnexpectedEof,
    /// The input holds a value that the format does not allow.
    InvalidData,
}

/// Why a voice datagram could not be decrypted or decoded.
#[derive(Clone, Copy, Debug, PartialEq, Eq, Structural)]
pub enum DecryptError {
    /// A read failed.
    Io(IoError),
    /// The datagram ended inside a header or a frame.
    Eof,
    /// The nonce was accepted before: a replayed datagram.
    Repeat,
    /// The nonce is too far behind the receive window.
    Late,
    /// The authentication tag does not match.
    Mac,
}

/// Errors that end a client's session or a request.
#[derive(Clone, Copy, Debug, PartialEq, Eq, Structural)]
pub enum MumbleError {
    /// A control message of a kind that the protocol does not have.
    UnexpectedMessageKind(u16),
    /// A read or write failed.
    Io(IoError),
    /// A control message's payload could not be parsed.
    Parse,
    /// A voice datagram could not be decrypted.
    Decrypt(DecryptError),
    /// The server asked the client to go.
    ForceDisconnect,
    /// A client's outbound queue is closed.
    SendError,
}

} // verus!
