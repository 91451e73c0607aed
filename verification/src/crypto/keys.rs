//! Long-lived Ed25519 signing identities of hosts and users.
//!
//! A key pair is held as its 32-byte seed and the 32-byte public key that
//! the seed determines. The curve arithmetic is done by `ed25519_dalek`.

use vstd::prelude::*;
use crate::error::SshError;
use crate::utils::bytes::to_array;

verus! {

/// The length of a seed and of a public key.
pub const KEY_LEN: usize = 32;

/// The length of a signature.
pub const SIGNATURE_LEN: usize = 64;

/// The Ed25519 public key that belongs to a seed.
pub uninterp spec fn spec_ed25519_public_key(seed: Seq<u8>) -> Seq<u8>;

/// The Ed25519 signature of a message under a seed.
pub uninterp spec fn spec_ed25519_sign(seed: Seq<u8>, message: Seq<u8>) -> Seq<u8>;

/// Whether 32 bytes are the encoding of a point that can serve as an
/// Ed25519 public key.
pub uninterp spec fn spec_ed25519_key_valid(public_key: Seq<u8>) -> bool;

/// Whether a signature of a message verifies under a public key.
pub uninterp spec fn spec_ed25519_verify(
    public_key: Seq<u8>,
    message: Seq<u8>,
    signature: Seq<u8>,
) -> bool;

/// Calls `rand_core::OsRng::try_fill_bytes` on a 32-byte buffer. `None`
/// when the operating system gives no random bytes. Nothing is promised of
/// the bytes.
#[verifier::external_body]
fn random_seed() -> (seed: Option<[u8; 32]>) {
    let mut seed = [0u8; 32];
    rand_core::RngCore::try_fill_bytes(&mut rand_core::OsRng, &mut seed).ok()?;
    Some(seed)
}

/// Calls `ed25519_dalek::SigningKey::from_bytes` and reads the verifying
/// key of the result: the public key that belongs to `seed`.
#[verifier::external_body]
fn ed25519_public_key(seed: &[u8; 32]) -> (public_key: [u8; 32])
    ensures
        public_key@ == spec_ed25519_public_key(seed@),
{
    ed25519_dalek::SigningKey::from_bytes(seed).verifying_key().to_bytes()
}

/// Calls `sign` of `ed25519_dalek::SigningKey` (the trait `Signer`) with the
/// key made from `seed`: the signature of `message`, as its 64 bytes.
#[verifier::external_body]
fn ed25519_sign(seed: &[u8; 32], message: &[u8]) -> (signature: [u8; 64])
    ensures
        signature@ == spec_ed25519_sign(seed@, message@),
{
    ed25519_dalek::Signer::sign(&ed25519_dalek::SigningKey::from_bytes(seed), message).to_bytes()
}

/// Calls `ed25519_dalek::VerifyingKey::from_bytes` and says whether it
/// accepted the bytes.
#[verifier::external_body]
fn ed25519_key_valid(public_key: &[u8; 32]) -> (valid: bool)
    ensures
        valid == spec_ed25519_key_valid(public_key@),
{
    ed25519_dalek::VerifyingKey::from_bytes(public_key).is_ok()
}

/// Calls `verify` of `ed25519_dalek::VerifyingKey` (the trait `Verifier`)
/// with the key made from `public_key` and says whether it accepted the
/// signature. Bytes that are no key verify nothing.
#[verifier::external_body]
fn ed25519_verify(public_key: &[u8; 32], message: &[u8], signature: &[u8; 64]) -> (valid: bool)
    ensures
        valid == spec_ed25519_verify(public_key@, message@, signature@),
{
    match ed25519_dalek::VerifyingKey::from_bytes(public_key) {
        Ok(key) => ed25519_dalek::Verifier::verify(
            &key,
            message,
            &ed25519_dalek::Signature::from_bytes(signature),
        ).is_ok(),
        Err(_) => false,
    }
}

/// A key pair as it is stored: the seed and the public key, as bytes.
#[derive(Debug, Clone, PartialEq, Eq)]
pub struct KeyData {
    /// The 32-byte seed.
    pub private_key: Vec<u8>,
    /// The public key. It is written for other readers of the store;
    /// loading derives the public key from the seed.
    pub public_key: Vec<u8>,
}

/// The signing identity of a server.
pub struct HostKeyPair {
    signing_key: [u8; 32],
    verifying_key: [u8; 32],
}

impl HostKeyPair {
    #[verifier::type_invariant]
    spec fn matched(self) -> bool {
        self.verifying_key@ == spec_ed25519_public_key(self.signing_key@)
    }

    /// The seed.
    pub closed spec fn seed(&self) -> Seq<u8> {
        self.signing_key@
    }

    /// The public key. It is the one that belongs to the seed.
    pub closed spec fn public_key(&self) -> Seq<u8> {
        self.verifying_key@
    }

    /// A fresh pair from the system's random source. Its public key is
    /// the one that belongs to its seed.
    pub fn generate() -> (result: Result<HostKeyPair, SshError>)
        ensures
            match result {
                Ok(pair) => pair.public_key() == spec_ed25519_public_key(pair.seed()),
                Err(e) => e == SshError::KeyGenerationFailed,
            },
    {
        match random_seed() {
            Some(seed) => Ok(HostKeyPair::from_seed(seed)),
            None => Err(SshError::KeyGenerationFailed),
        }
    }

    /// The pair of a given seed.
    pub fn from_seed(seed: [u8; 32]) -> (pair: HostKeyPair)
        ensures
            pair.seed() == seed@,
            pair.public_key() == spec_ed25519_public_key(seed@),
    {
        let verifying_key: [u8; 32] = ed25519_public_key(&seed);
        HostKeyPair { signing_key: seed, verifying_key }
    }

    /// The stored pair if there is one, else a fresh pair together with
    /// the data to store for it.
    pub fn load_or_generate(stored: Option<&KeyData>) -> (result: Result<
        (HostKeyPair, Option<KeyData>),
        SshError,
    >)
        ensures
            match stored {
                Some(data) => match result {
                    Ok((pair, to_store)) => {
                        &&& data.private_key@.len() == KEY_LEN
                        &&& pair.seed() == data.private_key@
                        &&& pair.public_key() == spec_ed25519_public_key(pair.seed())
                        &&& to_store is None
                    },
                    Err(e) => data.private_key@.len() != KEY_LEN && e == SshError::KeyLoadFailed,
                },
                None => match result {
                    Ok((pair, to_store)) => {
                        &&& pair.public_key() == spec_ed25519_public_key(pair.seed())
                        &&& to_store matches Some(data)
                        &&& data.private_key@ == pair.seed()
                        &&& data.public_key@ == pair.public_key()
                    },
                    Err(e) => e == SshError::KeyGenerationFailed,
                },
            },
    {
        match stored {
            Some(data) => {
                let pair: HostKeyPair = HostKeyPair::load(data)?;
                Ok((pair, None))
            },
            None => {
                let pair: HostKeyPair = HostKeyPair::generate()?;
                let data: KeyData = pair.save();
                Ok((pair, Some(data)))
            },
        }
    }

    /// The pair that `data` stores. Only the seed is read; the public key
    /// is derived from it. The seed must be 32 bytes long.
    pub fn load(data: &KeyData) -> (result: Result<HostKeyPair, SshError>)
        ensures
            match result {
                Ok(pair) => {
                    &&& data.private_key@.len() == KEY_LEN
                    &&& pair.seed() == data.private_key@
                    &&& pair.public_key() == spec_ed25519_public_key(pair.seed())
                },
                Err(e) => data.private_key@.len() != KEY_LEN && e == SshError::KeyLoadFailed,
            },
    {
        if data.private_key.len() != KEY_LEN {
            return Err(SshError::KeyLoadFailed);
        }
        let seed: [u8; 32] = to_array(data.private_key.as_slice());
        assert(data.private_key@.take(32) == data.private_key@);
        Ok(HostKeyPair::from_seed(seed))
    }

    /// The pair as it is stored.
    pub fn save(&self) -> (data: KeyData)
        ensures
            data.private_key@ == self.seed(),
            data.public_key@ == self.public_key(),
    {
        let mut private_key: Vec<u8> = Vec::new();
        private_key.extend_from_slice(&self.signing_key);
        let mut public_key: Vec<u8> = Vec::new();
        public_key.extend_from_slice(&self.verifying_key);
        KeyData { private_key, public_key }
    }

    /// The 32 bytes of the public key.
    pub fn public_key_bytes(&self) -> (bytes: Vec<u8>)
        ensures
            bytes@ == self.public_key(),
            bytes@ == spec_ed25519_public_key(self.seed()),
            bytes@.len() == KEY_LEN,
    {
        proof {
            use_type_invariant(self);
        }
        let mut bytes: Vec<u8> = Vec::new();
        bytes.extend_from_slice(&self.verifying_key);
        bytes
    }

    /// The signature of `data` under this key.
    pub fn sign(&self, data: &[u8]) -> (signature: [u8; 64])
        ensures
            signature@ == spec_ed25519_sign(self.seed(), data@),
    {
        ed25519_sign(&self.signing_key, data)
    }
}

/// The signing identity of a user.
pub struct UserKeyPair {
    signing_key: [u8; 32],
    verifying_key: [u8; 32],
}

impl UserKeyPair {
    #[verifier::type_invariant]
    spec fn matched(self) -> bool {
        self.verifying_key@ == spec_ed25519_public_key(self.signing_key@)
    }

    /// The seed.
    pub closed spec fn seed(&self) -> Seq<u8> {
        self.signing_key@
    }

    /// The public key. It is the one that belongs to the seed.
    pub closed spec fn public_key(&self) -> Seq<u8> {
        self.verifying_key@
    }

    /// A fresh pair from the system's random source. Its public key is
    /// the one that belongs to its seed.
    pub fn generate() -> (result: Result<UserKeyPair, SshError>)
        ensures
            match result {
                Ok(pair) => pair.public_key() == spec_ed25519_public_key(pair.seed()),
                Err(e) => e == SshError::KeyGenerationFailed,
            },
    {
        match random_seed() {
            Some(seed) => Ok(UserKeyPair::from_seed(seed)),
            None => Err(SshError::KeyGenerationFailed),
        }
    }

    /// The pair of a given seed.
    pub fn from_seed(seed: [u8; 32]) -> (pair: UserKeyPair)
        ensures
            pair.seed() == seed@,
            pair.public_key() == spec_ed25519_public_key(seed@),
    {
        let verifying_key: [u8; 32] = ed25519_public_key(&seed);
        UserKeyPair { signing_key: seed, verifying_key }
    }

    /// The stored pair if there is one, else a fresh pair together with
    /// the data to store for it.
    pub fn load_or_generate(stored: Option<&KeyData>) -> (result: Result<
        (UserKeyPair, Option<KeyData>),
        SshError,
    >)
        ensures
            match stored {
                Some(data) => match result {
                    Ok((pair, to_store)) => {
                        &&& data.private_key@.len() == KEY_LEN
                        &&& pair.seed() == data.private_key@
                        &&& pair.public_key() == spec_ed25519_public_key(pair.seed())
                        &&& to_store is None
                    },
                    Err(e) => data.private_key@.len() != KEY_LEN && e == SshError::KeyLoadFailed,
                },
                None => match result {
                    Ok((pair, to_store)) => {
                        &&& pair.public_key() == spec_ed25519_public_key(pair.seed())
                        &&& to_store matches Some(data)
                        &&& data.private_key@ == pair.seed()
                        &&& data.public_key@ == pair.public_key()
                    },
                    Err(e) => e == SshError::KeyGenerationFailed,
                },
            },
    {
        match stored {
            Some(data) => {
                let pair: UserKeyPair = UserKeyPair::load(data)?;
                Ok((pair, None))
            },
            None => {
                let pair: UserKeyPair = UserKeyPair::generate()?;
                let data: KeyData = pair.save();
                Ok((pair, Some(data)))
            },
        }
    }

    /// The pair that `data` stores. Only the seed is read; the public key
    /// is derived from it. The seed must be 32 bytes long.
    pub fn load(data: &KeyData) -> (result: Result<UserKeyPair, SshError>)
        ensures
            match result {
                Ok(pair) => {
                    &&& data.private_key@.len() == KEY_LEN
                    &&& pair.seed() == data.private_key@
                    &&& pair.public_key() == spec_ed25519_public_key(pair.seed())
                },
                Err(e) => data.private_key@.len() != KEY_LEN && e == SshError::KeyLoadFailed,
            },
    {
        if data.private_key.len() != KEY_LEN {
            return Err(SshError::KeyLoadFailed);
        }
        let seed: [u8; 32] = to_array(data.private_key.as_slice());
        assert(data.private_key@.take(32) == data.private_key@);
        Ok(UserKeyPair::from_seed(seed))
    }

    /// The pair as it is stored.
    pub fn save(&self) -> (data: KeyData)
        ensures
            data.private_key@ == self.seed(),
            data.public_key@ == self.public_key(),
    {
        let mut private_key: Vec<u8> = Vec::new();
        private_key.extend_from_slice(&self.signing_key);
        let mut public_key: Vec<u8> = Vec::new();
        public_key.extend_from_slice(&self.verifying_key);
        KeyData { private_key, public_key }
    }

    /// The 32 bytes of the public key.
    pub fn public_key_bytes(&self) -> (bytes: Vec<u8>)
        ensures
            bytes@ == self.public_key(),
            bytes@ == spec_ed25519_public_key(self.seed()),
            bytes@.len() == KEY_LEN,
    {
        proof {
            use_type_invariant(self);
        }
        let mut bytes: Vec<u8> = Vec::new();
        bytes.extend_from_slice(&self.verifying_key);
        bytes
    }

    /// The signature of `data` under this key.
    pub fn sign(&self, data: &[u8]) -> (signature: [u8; 64])
        ensures
            signature@ == spec_ed25519_sign(self.seed(), data@),
    {
        ed25519_sign(&self.signing_key, data)
    }
}

/// Checks a signature of `message` against a public key.
///
/// The key must be 32 bytes and a valid point, else `InvalidPublicKey`; the
/// signature must be 64 bytes and verify, else `SignatureInvalid`. The
/// key's length is checked first, then the signature's, then the key.
pub fn verify_signature(public_key: &[u8], message: &[u8], signature: &[u8]) -> (result: Result<
    (),
    SshError,
>)
    ensures
        result == spec_verify_signature(public_key@, message@, signature@),
{
    if public_key.len() != KEY_LEN {
        return Err(SshError::InvalidPublicKey);
    }
    if signature.len() != SIGNATURE_LEN {
        return Err(SshError::SignatureInvalid);
    }
    let key: [u8; 32] = to_array(public_key);
    let sig: [u8; 64] = to_array(signature);
    assert(public_key@.take(32) == public_key@);
    assert(signature@.take(64) == signature@);
    if !ed25519_key_valid(&key) {
        return Err(SshError::InvalidPublicKey);
    }
    if ed25519_verify(&key, message, &sig) {
        Ok(())
    } else {
        Err(SshError::SignatureInvalid)
    }
}

/// What `verify_signature` answers.
pub open spec fn spec_verify_signature(
    public_key: Seq<u8>,
    message: Seq<u8>,
    signature: Seq<u8>,
) -> Result<(), SshError> {
    if public_key.len() != KEY_LEN {
        Err(SshError::InvalidPublicKey)
    } else if signature.len() != SIGNATURE_LEN {
        Err(SshError::SignatureInvalid)
    } else if !spec_ed25519_key_valid(public_key) {
        Err(SshError::InvalidPublicKey)
    } else if spec_ed25519_verify(public_key, message, signature) {
        Ok(())
    } else {
        Err(SshError::SignatureInvalid)
    }
}

} // verus!
