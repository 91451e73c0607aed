//! Ephemeral X25519 key agreement and the derivation of session keys.
//!
//! The curve arithmetic and SHA-256 are done by `ring`.

use vstd::prelude::*;
use vstd::utf8::*;
use crate::error::SshError;
use crate::utils::bytes::{to_array, to_vec};

verus! {

/// The length of an X25519 public key and of a shared secret.
pub const X25519_LEN: usize = 32;

/// The longest secret that the key derivation can hash: SHA-256 takes
/// fewer than 2^61 bytes, and the longest label has 10.
pub const MAX_SECRET_LEN: u64 = 0x1FFF_FFFF_FFFF_FFF5;

#[verifier::external_type_specification]
#[verifier::external_body]
pub struct ExEphemeralPrivateKey(ring::agreement::EphemeralPrivateKey);

/// The SHA-256 digest of a byte string.
pub uninterp spec fn spec_sha256(data: Seq<u8>) -> Seq<u8>;

/// Calls `ring::digest::digest` with `SHA256`: the digest of `data`, which
/// is 32 bytes long. `ring` gives up on inputs of 2^61 bytes and more.
#[verifier::external_body]
fn sha256(data: &[u8]) -> (digest: Vec<u8>)
    requires
        data@.len() < 0x2000_0000_0000_0000,
    ensures
        digest@ == spec_sha256(data@),
        digest@.len() == 32,
{
    ring::digest::digest(&ring::digest::SHA256, data).as_ref().to_vec()
}

/// The public key that belongs to a private key of a key agreement.
pub uninterp spec fn spec_x25519_public_key(
    private_key: ring::agreement::EphemeralPrivateKey,
) -> Seq<u8>;

/// The secret that a private key agrees on with bytes taken as the X25519
/// public key of a peer; nothing where the agreement is refused.
pub uninterp spec fn spec_x25519_agree(
    private_key: ring::agreement::EphemeralPrivateKey,
    peer_public_key: Seq<u8>,
) -> Option<Seq<u8>>;

/// Calls `ring::agreement::EphemeralPrivateKey::generate` for X25519 with
/// the system's random source. `None` when no key could be made.
#[verifier::external_body]
fn generate_private_key() -> (key: Option<ring::agreement::EphemeralPrivateKey>) {
    ring::agreement::EphemeralPrivateKey::generate(
        &ring::agreement::X25519,
        &ring::rand::SystemRandom::new(),
    ).ok()
}

/// Calls `compute_public_key` of the private key and copies the bytes of
/// the result: the public key that belongs to the private key. `None`
/// when `ring` reports an error.
#[verifier::external_body]
fn compute_public_key(private_key: &ring::agreement::EphemeralPrivateKey) -> (public_key: Option<
    Vec<u8>,
>)
    ensures
        public_key matches Some(bytes) ==> bytes@ == spec_x25519_public_key(*private_key),
{
    match private_key.compute_public_key() {
        Ok(key) => Some(key.as_ref().to_vec()),
        Err(_) => None,
    }
}

/// Calls `ring::agreement::agree_ephemeral` with the peer's bytes taken as
/// an X25519 public key, and copies the raw key material: the secret that
/// the private key agrees on with the peer's key. `None` when `ring`
/// refuses the agreement. A secret that X25519 agreed on is 32 bytes long.
#[verifier::external_body]
fn agree(private_key: ring::agreement::EphemeralPrivateKey, peer_public_key: &[u8]) -> (secret:
    Option<Vec<u8>>)
    ensures
        match secret {
            Some(bytes) => {
                &&& spec_x25519_agree(private_key, peer_public_key@) == Some(bytes@)
                &&& bytes@.len() == X25519_LEN
            },
            None => spec_x25519_agree(private_key, peer_public_key@) is None,
        },
{
    ring::agreement::agree_ephemeral(
        private_key,
        &ring::agreement::UnparsedPublicKey::new(&ring::agreement::X25519, peer_public_key),
        to_vec,
    ).ok()
}

/// A single-use key pair for one key agreement.
pub struct EphemeralKeyPair {
    /// The private key. Computing the shared secret consumes it.
    pub private_key: ring::agreement::EphemeralPrivateKey,
    /// The public key, to be sent to the peer.
    pub public_key: Vec<u8>,
}

impl EphemeralKeyPair {
    /// Whether the public key is the one that belongs to the private key
    /// and is 32 bytes long: what holds of a generated pair.
    pub open spec fn matched(&self) -> bool {
        &&& self.public_key@ == spec_x25519_public_key(self.private_key)
        &&& self.public_key@.len() == X25519_LEN
    }

    /// A fresh X25519 pair. Its public key belongs to its private key and
    /// is 32 bytes long.
    pub fn generate() -> (result: Result<EphemeralKeyPair, SshError>)
        ensures
            match result {
                Ok(pair) => pair.matched(),
                Err(e) => e == SshError::KeyGenerationFailed,
            },
    {
        let private_key: ring::agreement::EphemeralPrivateKey = match generate_private_key() {
            Some(key) => key,
            None => {
                return Err(SshError::KeyGenerationFailed);
            },
        };
        match compute_public_key(&private_key) {
            Some(public_key) => {
                if public_key.len() == X25519_LEN {
                    Ok(EphemeralKeyPair { private_key, public_key })
                } else {
                    Err(SshError::KeyGenerationFailed)
                }
            },
            None => Err(SshError::KeyGenerationFailed),
        }
    }

    /// The secret shared with the holder of `peer_public_key`.
    ///
    /// A peer key that is not 32 bytes long is an `InvalidPublicKey`. With
    /// a key of the right length the result is the secret that the private
    /// key agrees on with it, 32 bytes long, and `AgreementFailed` where
    /// the primitive refuses.
    pub fn compute_shared_secret(
        private_key: ring::agreement::EphemeralPrivateKey,
        peer_public_key: &[u8],
    ) -> (result: Result<Vec<u8>, SshError>)
        ensures
            if peer_public_key@.len() != X25519_LEN {
                result == Err::<Vec<u8>, _>(SshError::InvalidPublicKey)
            } else {
                match spec_x25519_agree(private_key, peer_public_key@) {
                    Some(secret) => result matches Ok(bytes) && bytes@ == secret && secret.len()
                        == X25519_LEN,
                    None => result == Err::<Vec<u8>, _>(SshError::AgreementFailed),
                }
            },
    {
        if peer_public_key.len() != X25519_LEN {
            return Err(SshError::InvalidPublicKey);
        }
        match agree(private_key, peer_public_key) {
            Some(secret) => Ok(secret),
            None => Err(SshError::AgreementFailed),
        }
    }
}

/// The keys of a session.
pub struct SessionKeys {
    /// The key of the session cipher.
    pub encryption_key: [u8; 32],
    /// Reserved: the cipher authenticates by itself.
    pub mac_key: [u8; 32],
    /// The base of the nonces.
    pub iv: [u8; 12],
}

/// The label that is hashed with the secret for the encryption key.
pub open spec fn encryption_label() -> Seq<u8> {
    encode_utf8("encryption"@)
}

/// The label that is hashed with the secret for the MAC key.
pub open spec fn mac_label() -> Seq<u8> {
    encode_utf8("mac"@)
}

/// The label that is hashed with the secret for the nonce base.
pub open spec fn iv_label() -> Seq<u8> {
    encode_utf8("iv"@)
}

/// Whether `keys` are the session keys of `secret`: each is the SHA-256
/// digest of the secret followed by its label, the nonce base cut to its
/// first 12 bytes.
pub open spec fn derived_from(keys: SessionKeys, secret: Seq<u8>) -> bool {
    &&& keys.encryption_key@ == spec_sha256(secret + encryption_label())
    &&& keys.mac_key@ == spec_sha256(secret + mac_label())
    &&& keys.iv@ == spec_sha256(secret + iv_label()).take(12)
}

/// Whether `result` is what the derivation gives for `secret`: the session
/// keys of the secret, or `InputTooLong` for a secret over
/// `MAX_SECRET_LEN` bytes.
pub open spec fn is_derivation(secret: Seq<u8>, result: Result<SessionKeys, SshError>) -> bool {
    match result {
        Ok(keys) => secret.len() <= MAX_SECRET_LEN && derived_from(keys, secret),
        Err(e) => secret.len() > MAX_SECRET_LEN && e == SshError::InputTooLong,
    }
}

/// The derivation is a function of the secret: two results for one secret
/// are the same result, with the same keys and the same nonce base.
pub proof fn lemma_derivation_is_deterministic(
    secret: Seq<u8>,
    first: Result<SessionKeys, SshError>,
    second: Result<SessionKeys, SshError>,
)
    requires
        is_derivation(secret, first),
        is_derivation(secret, second),
    ensures
        first == second,
        secret.len() <= MAX_SECRET_LEN ==> first is Ok,
{
    match (first, second) {
        (Ok(a), Ok(b)) => {
            assert(a.encryption_key =~= b.encryption_key);
            assert(a.mac_key =~= b.mac_key);
            assert(a.iv =~= b.iv);
        },
        _ => {},
    }
}

/// The labels are short.
proof fn lemma_label_lengths()
    ensures
        encryption_label().len() == 10,
        mac_label().len() == 3,
        iv_label().len() == 2,
{
    reveal_strlit("encryption");
    reveal_strlit("mac");
    reveal_strlit("iv");
    is_ascii_chars_encode_utf8("encryption"@);
    is_ascii_chars_encode_utf8("mac"@);
    is_ascii_chars_encode_utf8("iv"@);
}

/// The digest of `secret` followed by `label`.
fn labelled_digest(secret: &[u8], label: &str) -> (digest: Vec<u8>)
    requires
        secret@.len() <= MAX_SECRET_LEN,
        encode_utf8(label@).len() <= 10,
    ensures
        digest@ == spec_sha256(secret@ + encode_utf8(label@)),
        digest@.len() == 32,
{
    let mut input: Vec<u8> = Vec::new();
    input.extend_from_slice(secret);
    input.extend_from_slice(label.as_bytes());
    assert(input@ == secret@ + encode_utf8(label@));
    sha256(input.as_slice())
}

/// Derives the session keys from a shared secret.
///
/// A secret over `MAX_SECRET_LEN` bytes cannot be hashed; every other
/// secret has keys.
pub fn derive_session_keys(shared_secret: &[u8]) -> (result: Result<SessionKeys, SshError>)
    ensures
        is_derivation(shared_secret@, result),
{
    if shared_secret.len() as u64 > MAX_SECRET_LEN {
        return Err(SshError::InputTooLong);
    }
    proof {
        lemma_label_lengths();
    }
    let encryption_digest: Vec<u8> = labelled_digest(shared_secret, "encryption");
    let mac_digest: Vec<u8> = labelled_digest(shared_secret, "mac");
    let iv_digest: Vec<u8> = labelled_digest(shared_secret, "iv");
    let encryption_key: [u8; 32] = to_array(encryption_digest.as_slice());
    let mac_key: [u8; 32] = to_array(mac_digest.as_slice());
    let iv: [u8; 12] = to_array(iv_digest.as_slice());
    assert(encryption_digest@.take(32) == encryption_digest@);
    assert(mac_digest@.take(32) == mac_digest@);
    Ok(SessionKeys { encryption_key, mac_key, iv })
}

} // verus!
