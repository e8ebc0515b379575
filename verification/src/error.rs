//! What can go wrong while a transit connection is made or used.
use vstd::prelude::*;

verus! {

/// Why a connection was not made, or a record was not read.
#[derive(Clone, Copy, Debug, PartialEq, Eq, Structural)]
pub enum TransitError {
    /// The relay did not answer its handshake with `ok`.
    RelayHandshakeFailed,
    /// The peer did not send the handshake that the shared key calls for.
    HandshakeFailed,
    /// No attempt to reach the peer came to anything.
    AllHandshakesFailed,
    /// The stream ended before the length of a record was there.
    UnexpectedEof,
    /// The body of a record could not be read to its end.
    RecordReadFailed,
    /// The key that a record should be opened with has the wrong length.
    KeyUnwrapFailed,
    /// A record was not sealed with this key, or was changed on the way.
    DecryptionFailed,
}

impl TransitError {
    /// The sentence that describes the error.
    pub open spec fn text(self) -> Seq<char> {
        match self {
            TransitError::RelayHandshakeFailed => "relay handshake failed"@,
            TransitError::HandshakeFailed => "handshake failed"@,
            TransitError::AllHandshakesFailed => "All handshakes failed or timed out"@,
            TransitError::UnexpectedEof => "unexpected end of file"@,
            TransitError::RecordReadFailed => "cannot read from the tcp connection"@,
            TransitError::KeyUnwrapFailed => "key unwrap failed"@,
            TransitError::DecryptionFailed => "decryption failed"@,
        }
    }

    /// Describes the error to a person.
    pub fn message(&self) -> (message: &'static str)
        ensures
            message@ == self.text(),
    {
        match self {
            TransitError::RelayHandshakeFailed => "relay handshake failed",
            TransitError::HandshakeFailed => "handshake failed",
            TransitError::AllHandshakesFailed => "All handshakes failed or timed out",
            TransitError::UnexpectedEof => "unexpected end of file",
            TransitError::RecordReadFailed => "cannot read from the tcp connection",
            TransitError::KeyUnwrapFailed => "key unwrap failed",
            TransitError::DecryptionFailed => "decryption failed",
        }
    }
}

} // verus!
