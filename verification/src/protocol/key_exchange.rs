//! Key agreement: the two sides swap ephemeral X25519 public keys and
//! derive the session keys from the shared secret.
//!
//! The server sends its key first and then reads the client's; the client
//! reads the server's key first and then sends its own. Each key travels
//! as the length-prefixed payload of one packet.

use vstd::prelude::*;
use crate::crypto::dh::{
    derive_session_keys, derived_from, spec_x25519_agree, spec_x25519_public_key,
    EphemeralKeyPair, SessionKeys, X25519_LEN,
};
use crate::error::SshError;
use crate::utils::packet::{
    field_frame, read_field, spec_after_read_frame, spec_read_field, write_field,
    MAX_WRITTEN_FIELD_LEN,
};
use crate::utils::stream::ReadWrite;

verus! {

/// Whether `result` is what the holder of `private_key` gets from the
/// public key of its peer: a key that is not 32 bytes long is refused;
/// else the session keys are those of the secret that the private key
/// agrees on with the peer's key, and the agreement fails where the
/// primitive refuses it.
pub open spec fn spec_complete_key_exchange(
    private_key: ring::agreement::EphemeralPrivateKey,
    peer_public_key: Seq<u8>,
    result: Result<SessionKeys, SshError>,
) -> bool {
    if peer_public_key.len() != X25519_LEN {
        result == Err::<SessionKeys, _>(SshError::InvalidPublicKey)
    } else {
        match spec_x25519_agree(private_key, peer_public_key) {
            Some(secret) => result matches Ok(keys) && derived_from(keys, secret),
            None => result == Err::<SessionKeys, _>(SshError::AgreementFailed),
        }
    }
}

/// Finishes a key agreement with the peer's public key: computes the
/// shared secret, which consumes the private key, and derives the session
/// keys from it.
pub fn complete_key_exchange(
    private_key: ring::agreement::EphemeralPrivateKey,
    peer_public_key: &[u8],
) -> (result: Result<SessionKeys, SshError>)
    ensures
        spec_complete_key_exchange(private_key, peer_public_key@, result),
{
    let secret: Vec<u8> = EphemeralKeyPair::compute_shared_secret(private_key, peer_public_key)?;
    match derive_session_keys(secret.as_slice()) {
        Ok(keys) => Ok(keys),
        Err(_) => Err(SshError::AgreementFailed),
    }
}

/// How the server's key agreement goes with a given key pair, from the
/// bytes written and unread before to those after.
///
/// The public key is sent as one packet before anything is read; a key
/// that fits no packet is refused first. Then the client's packet is read:
/// a malformed one ends the agreement, any other is completed with the
/// private key.
pub open spec fn spec_server_key_exchange(
    private_key: ring::agreement::EphemeralPrivateKey,
    public_key: Seq<u8>,
    accepts_writes: bool,
    written_before: Seq<u8>,
    unread_before: Seq<u8>,
    written: Seq<u8>,
    unread: Seq<u8>,
    result: Result<SessionKeys, SshError>,
) -> bool {
    if public_key.len() > MAX_WRITTEN_FIELD_LEN {
        &&& result == Err::<SessionKeys, _>(SshError::MalformedFrame)
        &&& written == written_before
        &&& unread == unread_before
    } else {
        ||| {
            &&& result == Err::<SessionKeys, _>(SshError::WriteFailed)
            &&& !accepts_writes
            &&& unread == unread_before
        }
        ||| {
            &&& written == written_before + field_frame(public_key)
            &&& unread == spec_after_read_frame(unread_before)
            &&& match spec_read_field(unread_before) {
                Err(_) => result == Err::<SessionKeys, _>(SshError::MalformedFrame),
                Ok((peer, _)) => spec_complete_key_exchange(private_key, peer, result),
            }
        }
    }
}

/// How the client's key agreement goes with a given key pair once the
/// server's public key was read, from the bytes written before to those
/// after.
///
/// The public key is sent as one packet; a key that fits no packet is
/// refused first. Then the agreement is completed with the private key and
/// the server's key.
pub open spec fn spec_client_key_exchange(
    private_key: ring::agreement::EphemeralPrivateKey,
    public_key: Seq<u8>,
    peer_public_key: Seq<u8>,
    accepts_writes: bool,
    written_before: Seq<u8>,
    written: Seq<u8>,
    result: Result<SessionKeys, SshError>,
) -> bool {
    if public_key.len() > MAX_WRITTEN_FIELD_LEN {
        &&& result == Err::<SessionKeys, _>(SshError::MalformedFrame)
        &&& written == written_before
    } else {
        ||| result == Err::<SessionKeys, _>(SshError::WriteFailed) && !accepts_writes
        ||| {
            &&& written == written_before + field_frame(public_key)
            &&& spec_complete_key_exchange(private_key, peer_public_key, result)
        }
    }
}

/// The key agreement of the server with a given key pair: send the pair's
/// public key, then read the client's and complete the agreement with the
/// pair's private key.
pub fn server_key_exchange_with<S: ReadWrite>(stream: &mut S, pair: EphemeralKeyPair) -> (result:
    Result<SessionKeys, SshError>)
    ensures
        final(stream).accepts_writes() == old(stream).accepts_writes(),
        spec_server_key_exchange(
            pair.private_key,
            pair.public_key@,
            old(stream).accepts_writes(),
            old(stream).outgoing(),
            old(stream).incoming(),
            final(stream).outgoing(),
            final(stream).incoming(),
            result,
        ),
{
    write_field(stream, pair.public_key.as_slice())?;
    let peer: Vec<u8> = read_field(stream)?;
    complete_key_exchange(pair.private_key, peer.as_slice())
}

/// The key agreement of the client with a given key pair, once the
/// server's public key was read: send the pair's public key, then complete
/// the agreement with the pair's private key and the server's key.
pub fn client_key_exchange_with<S: ReadWrite>(
    stream: &mut S,
    pair: EphemeralKeyPair,
    peer_public_key: &[u8],
) -> (result: Result<SessionKeys, SshError>)
    ensures
        final(stream).accepts_writes() == old(stream).accepts_writes(),
        final(stream).incoming() == old(stream).incoming(),
        spec_client_key_exchange(
            pair.private_key,
            pair.public_key@,
            peer_public_key@,
            old(stream).accepts_writes(),
            old(stream).outgoing(),
            final(stream).outgoing(),
            result,
        ),
{
    write_field(stream, pair.public_key.as_slice())?;
    complete_key_exchange(pair.private_key, peer_public_key)
}

/// How the server's key agreement goes with a fresh key pair: no pair
/// could be made, and nothing is written or read; or there is a private
/// key whose public key has 32 bytes, and the agreement goes with that
/// pair.
pub open spec fn spec_fresh_server_key_exchange(
    accepts_writes: bool,
    written_before: Seq<u8>,
    unread_before: Seq<u8>,
    written: Seq<u8>,
    unread: Seq<u8>,
    result: Result<SessionKeys, SshError>,
) -> bool {
    ||| {
        &&& result == Err::<SessionKeys, _>(SshError::KeyGenerationFailed)
        &&& written == written_before
        &&& unread == unread_before
    }
    ||| exists|private_key: ring::agreement::EphemeralPrivateKey|
        {
            &&& (#[trigger] spec_x25519_public_key(private_key)).len() == X25519_LEN
            &&& spec_server_key_exchange(
                private_key,
                spec_x25519_public_key(private_key),
                accepts_writes,
                written_before,
                unread_before,
                written,
                unread,
                result,
            )
        }
}

/// How the client's key agreement goes with a fresh key pair: a malformed
/// packet from the server ends it before anything is written; else no
/// pair could be made, and nothing is written; or there is a private key
/// whose public key has 32 bytes, and the agreement goes with that pair
/// and the server's key.
pub open spec fn spec_fresh_client_key_exchange(
    accepts_writes: bool,
    written_before: Seq<u8>,
    unread_before: Seq<u8>,
    written: Seq<u8>,
    result: Result<SessionKeys, SshError>,
) -> bool {
    match spec_read_field(unread_before) {
        Err(_) => {
            &&& result == Err::<SessionKeys, _>(SshError::MalformedFrame)
            &&& written == written_before
        },
        Ok((peer, _)) => {
            ||| {
                &&& result == Err::<SessionKeys, _>(SshError::KeyGenerationFailed)
                &&& written == written_before
            }
            ||| exists|private_key: ring::agreement::EphemeralPrivateKey|
                {
                    &&& (#[trigger] spec_x25519_public_key(private_key)).len() == X25519_LEN
                    &&& spec_client_key_exchange(
                        private_key,
                        spec_x25519_public_key(private_key),
                        peer,
                        accepts_writes,
                        written_before,
                        written,
                        result,
                    )
                }
        },
    }
}

/// The key agreement of the server: make a fresh key pair, send its
/// public key, then read the client's and complete the agreement.
///
/// Nothing is read unless the own key was sent. The own key is not sent
/// only where no key could be made or the transport refuses the write.
pub fn server_key_exchange<S: ReadWrite>(stream: &mut S) -> (result: Result<SessionKeys, SshError>)
    ensures
        final(stream).accepts_writes() == old(stream).accepts_writes(),
        spec_fresh_server_key_exchange(
            old(stream).accepts_writes(),
            old(stream).outgoing(),
            old(stream).incoming(),
            final(stream).outgoing(),
            final(stream).incoming(),
            result,
        ),
{
    let pair: EphemeralKeyPair = EphemeralKeyPair::generate()?;
    let ghost private_key = pair.private_key;
    assert(spec_x25519_public_key(private_key).len() == X25519_LEN);
    server_key_exchange_with(stream, pair)
}

/// The key agreement of the client: read the server's public key, then
/// make a fresh key pair, send its public key and complete the agreement.
///
/// A malformed packet from the server ends the agreement before anything
/// is written. After that the own key is sent, unless no key could be
/// made or the transport refuses the write; only then is the server's key
/// looked at.
pub fn client_key_exchange<S: ReadWrite>(stream: &mut S) -> (result: Result<SessionKeys, SshError>)
    ensures
        final(stream).accepts_writes() == old(stream).accepts_writes(),
        final(stream).incoming() == spec_after_read_frame(old(stream).incoming()),
        spec_fresh_client_key_exchange(
            old(stream).accepts_writes(),
            old(stream).outgoing(),
            old(stream).incoming(),
            final(stream).outgoing(),
            result,
        ),
{
    let peer: Vec<u8> = read_field(stream)?;
    let pair: EphemeralKeyPair = EphemeralKeyPair::generate()?;
    let ghost private_key = pair.private_key;
    assert(spec_x25519_public_key(private_key).len() == X25519_LEN);
    client_key_exchange_with(stream, pair, peer.as_slice())
}

} // verus!
