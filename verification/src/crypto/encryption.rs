//! The session cipher: AES-256-GCM with nonces counted from a base.
//!
//! A nonce is the 12-byte base with a 64-bit counter, big-endian, XORed
//! into its last 8 bytes. Sealing and opening count separately, both from
//! zero, so two peers stay in step as long as every sealed message is
//! opened in order. The cipher itself is `ring`'s.

use vstd::prelude::*;
use crate::crypto::dh::SessionKeys;
use crate::error::SshError;
use crate::utils::bytes::{lemma_u64_be_injective, spec_u64_be, u64_to_be_bytes};

verus! {

/// The length of the authentication tag that ends a sealed message.
pub const TAG_LEN: usize = 16;

/// The length of a nonce.
pub const NONCE_LEN: usize = 12;

/// The longest plaintext that the cipher seals under one nonce: 2^32 − 2
/// blocks of 16 bytes.
pub const MAX_PLAINTEXT_LEN: u64 = 68_719_476_704;

/// What AES-256-GCM sealing makes of a plaintext under a key and a nonce,
/// with no associated data: the ciphertext followed by the tag, or nothing
/// where the cipher refuses.
pub uninterp spec fn spec_aes_256_gcm_seal(key: Seq<u8>, nonce: Seq<u8>, plaintext: Seq<u8>)
    -> Option<Seq<u8>>;

/// What AES-256-GCM opening makes of a ciphertext with its tag under a key
/// and a nonce, with no associated data: the plaintext, or nothing where
/// the tag does not match.
pub uninterp spec fn spec_aes_256_gcm_open(key: Seq<u8>, nonce: Seq<u8>, sealed: Seq<u8>)
    -> Option<Seq<u8>>;

/// Calls `ring::aead::LessSafeKey::seal_in_place_append_tag` with an
/// AES-256-GCM key made of `key`, the given nonce and no associated data.
/// The result is the ciphertext, as long as the plaintext, followed by the
/// 16-byte tag; opening it under the same key and nonce gives the
/// plaintext back. `ring` makes a key of any 32 bytes and refuses only a
/// plaintext over `MAX_PLAINTEXT_LEN`.
#[verifier::external_body]
fn aes_256_gcm_seal(key: &[u8; 32], nonce: &[u8; 12], plaintext: &[u8]) -> (sealed: Option<
    Vec<u8>,
>)
    ensures
        match sealed {
            Some(bytes) => {
                &&& spec_aes_256_gcm_seal(key@, nonce@, plaintext@) == Some(bytes@)
                &&& bytes@.len() == plaintext@.len() + TAG_LEN
                &&& spec_aes_256_gcm_open(key@, nonce@, bytes@) == Some(plaintext@)
            },
            None => spec_aes_256_gcm_seal(key@, nonce@, plaintext@) is None,
        },
        plaintext@.len() <= MAX_PLAINTEXT_LEN ==> sealed is Some,
{
    let unbound = ring::aead::UnboundKey::new(&ring::aead::AES_256_GCM, key).ok()?;
    let mut in_out = plaintext.to_vec();
    ring::aead::LessSafeKey::new(unbound).seal_in_place_append_tag(
        ring::aead::Nonce::assume_unique_for_key(*nonce),
        ring::aead::Aad::empty(),
        &mut in_out,
    ).ok()?;
    Some(in_out)
}

/// Calls `ring::aead::LessSafeKey::open_in_place` with an AES-256-GCM key
/// made of `key`, the given nonce and no associated data. The result is
/// the plaintext, 16 bytes shorter than the input, or nothing where the
/// cipher refuses.
#[verifier::external_body]
fn aes_256_gcm_open(key: &[u8; 32], nonce: &[u8; 12], sealed: &[u8]) -> (plaintext: Option<
    Vec<u8>,
>)
    ensures
        match plaintext {
            Some(bytes) => {
                &&& spec_aes_256_gcm_open(key@, nonce@, sealed@) == Some(bytes@)
                &&& bytes@.len() + TAG_LEN == sealed@.len()
            },
            None => spec_aes_256_gcm_open(key@, nonce@, sealed@) is None,
        },
{
    let unbound = ring::aead::UnboundKey::new(&ring::aead::AES_256_GCM, key).ok()?;
    let mut in_out = sealed.to_vec();
    let plain = ring::aead::LessSafeKey::new(unbound).open_in_place(
        ring::aead::Nonce::assume_unique_for_key(*nonce),
        ring::aead::Aad::empty(),
        &mut in_out,
    ).ok()?;
    Some(plain.to_vec())
}

/// The nonce of a counter value: the base, with the counter's big-endian
/// bytes XORed into bytes 4 to 11.
pub open spec fn spec_nonce(base_iv: Seq<u8>, counter: u64) -> Seq<u8>
    recommends
        base_iv.len() == NONCE_LEN,
{
    Seq::new(
        NONCE_LEN as nat,
        |i: int|
            if i < 4 {
                base_iv[i]
            } else {
                base_iv[i] ^ spec_u64_be(counter)[i - 4]
            },
    )
}

proof fn lemma_xor_cancels(x: u8, p: u8, q: u8)
    by (bit_vector)
    requires
        x ^ p == x ^ q,
    ensures
        p == q,
{
}

/// Different counter values give different nonces: a sequence that counts
/// up gives nonces that are pairwise distinct.
pub proof fn lemma_nonces_distinct(base_iv: Seq<u8>, a: u64, b: u64)
    requires
        base_iv.len() == NONCE_LEN,
        a != b,
    ensures
        spec_nonce(base_iv, a) != spec_nonce(base_iv, b),
{
    let na = spec_nonce(base_iv, a);
    let nb = spec_nonce(base_iv, b);
    if na == nb {
        assert forall|i: int| 0 <= i < 8 implies spec_u64_be(a)[i] == spec_u64_be(b)[i] by {
            assert(na[i + 4] == nb[i + 4]);
            lemma_xor_cancels(base_iv[i + 4], spec_u64_be(a)[i], spec_u64_be(b)[i]);
        }
        assert(spec_u64_be(a) =~= spec_u64_be(b));
        lemma_u64_be_injective(a, b);
    }
}

/// Over any run of counter values, as a sequence that counts up from
/// `start` gives them in `n` calls, the nonces are pairwise distinct.
pub proof fn lemma_nonce_run_is_distinct(base_iv: Seq<u8>, start: u64, n: nat)
    requires
        base_iv.len() == NONCE_LEN,
    ensures
        forall|a: u64, b: u64|
            #![trigger spec_nonce(base_iv, a), spec_nonce(base_iv, b)]
            start <= a < b < start + n ==> spec_nonce(base_iv, a) != spec_nonce(base_iv, b),
{
    assert forall|a: u64, b: u64|
        #![trigger spec_nonce(base_iv, a), spec_nonce(base_iv, b)]
        start <= a < b < start + n implies spec_nonce(base_iv, a) != spec_nonce(base_iv, b) by {
        lemma_nonces_distinct(base_iv, a, b);
    }
}

/// The nonce of `counter` over `base_iv`.
pub fn counter_nonce(base_iv: &[u8; 12], counter: u64) -> (nonce: [u8; 12])
    ensures
        nonce@ == spec_nonce(base_iv@, counter),
{
    let counter_bytes: [u8; 8] = u64_to_be_bytes(counter);
    let mut nonce: [u8; 12] = *base_iv;
    let mut i: usize = 0;
    while i < 8
        invariant
            i <= 8,
            counter_bytes@ == spec_u64_be(counter),
            forall|j: int| 0 <= j < 4 + i ==> nonce@[j] == spec_nonce(base_iv@, counter)[j],
            forall|j: int| 4 + i <= j < 12 ==> nonce@[j] == base_iv@[j],
        decreases 8 - i,
    {
        nonce[4 + i] = nonce[4 + i] ^ counter_bytes[i];
        i = i + 1;
    }
    assert(nonce@ =~= spec_nonce(base_iv@, counter));
    nonce
}

/// A source of nonces that never gives one twice.
pub struct CounterNonceSequence {
    base_iv: [u8; 12],
    counter: u64,
}

impl CounterNonceSequence {
    /// The base of the nonces.
    pub closed spec fn base(&self) -> Seq<u8> {
        self.base_iv@
    }

    /// The number of nonces given out so far; the next nonce is the one of
    /// this counter value.
    pub closed spec fn count(&self) -> u64 {
        self.counter
    }

    /// A sequence over `base_iv` that has given out nothing.
    pub fn new(base_iv: [u8; 12]) -> (sequence: CounterNonceSequence)
        ensures
            sequence.base() == base_iv@,
            sequence.count() == 0,
    {
        CounterNonceSequence { base_iv, counter: 0 }
    }

    /// The next nonce. The sequence ends before its counter would wrap
    /// round: the last counter value is never used.
    pub fn advance(&mut self) -> (nonce: Option<[u8; 12]>)
        ensures
            final(self).base() == old(self).base(),
            match nonce {
                Some(bytes) => {
                    &&& old(self).count() < u64::MAX
                    &&& bytes@ == spec_nonce(old(self).base(), old(self).count())
                    &&& final(self).count() == old(self).count() + 1
                },
                None => old(self).count() == u64::MAX && final(self).count() == u64::MAX,
            },
    {
        if self.counter == u64::MAX {
            return None;
        }
        let nonce: [u8; 12] = counter_nonce(&self.base_iv, self.counter);
        self.counter = self.counter + 1;
        Some(nonce)
    }
}

/// What opening `ciphertext` gives to a holder of `key` whose opening
/// sequence over `base_iv` stands at `counter`.
pub open spec fn spec_decrypt(key: Seq<u8>, base_iv: Seq<u8>, counter: u64, ciphertext: Seq<u8>)
    -> Result<Seq<u8>, SshError> {
    if ciphertext.len() < TAG_LEN {
        Err(SshError::TooShort)
    } else if counter == u64::MAX {
        Err(SshError::AuthFailed)
    } else {
        match spec_aes_256_gcm_open(key, spec_nonce(base_iv, counter), ciphertext) {
            Some(plaintext) => Ok(plaintext),
            None => Err(SshError::AuthFailed),
        }
    }
}

/// The state of the session cipher: the key and the two nonce sequences.
pub struct EncryptionContext {
    key: [u8; 32],
    sealing: CounterNonceSequence,
    opening: CounterNonceSequence,
}

impl EncryptionContext {
    /// The key of the cipher.
    pub closed spec fn key(&self) -> Seq<u8> {
        self.key@
    }

    /// The base of the sealing nonces.
    pub closed spec fn sealing_base(&self) -> Seq<u8> {
        self.sealing.base()
    }

    /// The base of the opening nonces.
    pub closed spec fn opening_base(&self) -> Seq<u8> {
        self.opening.base()
    }

    /// The number of messages sealed so far.
    pub closed spec fn sealed(&self) -> u64 {
        self.sealing.count()
    }

    /// The number of opening attempts so far, those on too short input
    /// left out.
    pub closed spec fn opened(&self) -> u64 {
        self.opening.count()
    }

    /// The cipher state of a new session: both sequences over the keys'
    /// nonce base, both at zero.
    pub fn new(session_keys: &SessionKeys) -> (result: Result<EncryptionContext, SshError>)
        ensures
            result matches Ok(context) && context.fresh_from(*session_keys),
    {
        Ok(
            EncryptionContext {
                key: session_keys.encryption_key,
                sealing: CounterNonceSequence::new(session_keys.iv),
                opening: CounterNonceSequence::new(session_keys.iv),
            },
        )
    }

    /// Whether this is the cipher state of a new session with the given
    /// keys.
    pub open spec fn fresh_from(&self, session_keys: SessionKeys) -> bool {
        &&& self.key() == session_keys.encryption_key@
        &&& self.sealing_base() == session_keys.iv@
        &&& self.opening_base() == session_keys.iv@
        &&& self.sealed() == 0
        &&& self.opened() == 0
    }

    /// Seals `plaintext` under the next sealing nonce.
    ///
    /// The result is the ciphertext followed by the tag. A peer with the
    /// same key and base whose opening count equals this sealing count
    /// opens it to `plaintext`. The nonce is spent even when the cipher
    /// refuses the plaintext, which it does only over
    /// `MAX_PLAINTEXT_LEN`.
    pub fn encrypt(&mut self, plaintext: &[u8]) -> (result: Result<Vec<u8>, SshError>)
        ensures
            old(self).sealed() < u64::MAX && plaintext@.len() <= MAX_PLAINTEXT_LEN
                ==> spec_aes_256_gcm_seal(
                old(self).key(),
                spec_nonce(old(self).sealing_base(), old(self).sealed()),
                plaintext@,
            ) is Some,
            final(self).key() == old(self).key(),
            final(self).sealing_base() == old(self).sealing_base(),
            final(self).opening_base() == old(self).opening_base(),
            final(self).opened() == old(self).opened(),
            final(self).sealed() == if old(self).sealed() == u64::MAX {
                u64::MAX
            } else {
                (old(self).sealed() + 1) as u64
            },
            match result {
                Ok(ciphertext) => {
                    &&& old(self).sealed() < u64::MAX
                    &&& spec_aes_256_gcm_seal(
                        old(self).key(),
                        spec_nonce(old(self).sealing_base(), old(self).sealed()),
                        plaintext@,
                    ) == Some(ciphertext@)
                    &&& ciphertext@.len() == plaintext@.len() + TAG_LEN
                    &&& spec_decrypt(
                        old(self).key(),
                        old(self).sealing_base(),
                        old(self).sealed(),
                        ciphertext@,
                    ) == Ok::<_, SshError>(plaintext@)
                },
                Err(e) => {
                    &&& e == SshError::EncryptFailed
                    &&& old(self).sealed() == u64::MAX || spec_aes_256_gcm_seal(
                        old(self).key(),
                        spec_nonce(old(self).sealing_base(), old(self).sealed()),
                        plaintext@,
                    ) is None
                },
            },
    {
        let nonce: [u8; 12] = match self.sealing.advance() {
            Some(bytes) => bytes,
            None => {
                return Err(SshError::EncryptFailed);
            },
        };
        match aes_256_gcm_seal(&self.key, &nonce, plaintext) {
            Some(ciphertext) => Ok(ciphertext),
            None => Err(SshError::EncryptFailed),
        }
    }

    /// Opens `ciphertext` under the next opening nonce and strips the tag.
    ///
    /// Input shorter than a tag is refused before a nonce is spent. After
    /// that the nonce is spent whether the tag matches or not.
    pub fn decrypt(&mut self, ciphertext: &[u8]) -> (result: Result<Vec<u8>, SshError>)
        ensures
            final(self).key() == old(self).key(),
            final(self).sealing_base() == old(self).sealing_base(),
            final(self).opening_base() == old(self).opening_base(),
            final(self).sealed() == old(self).sealed(),
            final(self).opened() == if ciphertext@.len() < TAG_LEN || old(self).opened()
                == u64::MAX {
                old(self).opened()
            } else {
                (old(self).opened() + 1) as u64
            },
            match result {
                Ok(plaintext) => spec_decrypt(
                    old(self).key(),
                    old(self).opening_base(),
                    old(self).opened(),
                    ciphertext@,
                ) == Ok::<_, SshError>(plaintext@) && plaintext@.len() + TAG_LEN
                    == ciphertext@.len(),
                Err(e) => spec_decrypt(
                    old(self).key(),
                    old(self).opening_base(),
                    old(self).opened(),
                    ciphertext@,
                ) == Err::<Seq<u8>, _>(e),
            },
            ciphertext@.len() < TAG_LEN ==> result == Err::<Vec<u8>, _>(SshError::TooShort),
    {
        if ciphertext.len() < TAG_LEN {
            return Err(SshError::TooShort);
        }
        let nonce: [u8; 12] = match self.opening.advance() {
            Some(bytes) => bytes,
            None => {
                return Err(SshError::AuthFailed);
            },
        };
        match aes_256_gcm_open(&self.key, &nonce, ciphertext) {
            Some(plaintext) => Ok(plaintext),
            None => Err(SshError::AuthFailed),
        }
    }
}

} // verus!
