//! The error kinds of the secure channel.

use vstd::prelude::*;

verus! {

/// Why an operation of the channel failed. Every error ends the connection.
#[derive(Clone, Copy, Debug, PartialEq, Eq, Structural)]
pub enum SshError {
    /// The transport ended before the requested bytes arrived.
    ShortRead,
    /// The transport refused a write or a flush.
    WriteFailed,
    /// A frame or a length-prefixed field has impossible lengths.
    MalformedFrame,
    /// Bytes that must be text are not valid UTF-8.
    InvalidUtf8,
    /// The two banners do not both announce major version 2.
    VersionMismatch,
    /// The peer sent a payload that the current phase does not allow.
    ProtocolError,
    /// An authentication request breaks its layout.
    MalformedAuth,
    /// A public key has the wrong length or is no valid point.
    InvalidPublicKey,
    /// The key agreement primitive rejected the peer's key.
    AgreementFailed,
    /// A ciphertext failed authentication.
    AuthFailed,
    /// A ciphertext is shorter than an authentication tag.
    TooShort,
    /// A signature has the wrong length or does not verify.
    SignatureInvalid,
    /// Stored key material cannot be used.
    KeyLoadFailed,
    /// The system could not supply fresh key material.
    KeyGenerationFailed,
    /// A message could not be sealed: it is too long or the nonces are used up.
    EncryptFailed,
    /// The input of the key derivation is too long to be hashed.
    InputTooLong,
    /// The server answered the authentication request with a refusal.
    AuthenticationDenied,
    /// The client did not acknowledge the host key.
    HostKeyRejected,
}

} // verus!
