//! The encrypted session that follows the handshake.
//!
//! Each message is sealed by the session cipher and travels as the
//! length-prefixed payload of one packet. The receiver opens the messages
//! in the order in which they were sealed.

use vstd::prelude::*;
use crate::crypto::dh::SessionKeys;
use crate::crypto::encryption::{
    spec_aes_256_gcm_seal, spec_decrypt, spec_nonce, EncryptionContext, MAX_PLAINTEXT_LEN,
    TAG_LEN,
};
use crate::error::SshError;
use crate::utils::packet::{
    field_frame, lemma_field_round_trip, lemma_read_field_len, read_field,
    spec_after_read_frame, spec_read_field, write_field, MAX_FIELD_LEN, MAX_PACKET_LEN,
};
use crate::utils::stream::ReadWrite;

verus! {

/// The message length up to which a receiver accepts every message that
/// was sent.
pub const MAX_MESSAGE_LEN: usize = 1_048_556;

/// The longest message that can be sent: sealed, it must fit one packet.
pub const MAX_SENT_MESSAGE_LEN: usize = 4_294_967_266;

/// What a receiver with the given key, whose opening sequence over
/// `base_iv` stands at `counter`, makes of the bytes on the wire: one
/// packet, its field, opened.
pub open spec fn spec_receive_encrypted(
    key: Seq<u8>,
    base_iv: Seq<u8>,
    counter: u64,
    wire: Seq<u8>,
) -> Result<Seq<u8>, SshError> {
    match spec_read_field(wire) {
        Ok((ciphertext, _)) => spec_decrypt(key, base_iv, counter, ciphertext),
        Err(e) => Err(e),
    }
}

/// Whether the bytes `sent` deliver `message`: a receiver with the given
/// key, in step with the sender, reads `message` from them, whatever is
/// sent after them.
pub open spec fn delivers(
    key: Seq<u8>,
    base_iv: Seq<u8>,
    counter: u64,
    sent: Seq<u8>,
    message: Seq<u8>,
) -> bool {
    forall|rest: Seq<u8>| #[trigger]
        spec_receive_encrypted(key, base_iv, counter, sent + rest) == Ok::<_, SshError>(message)
}

/// What one peer sends is what the other receives: a packet with a sealed
/// message on the wire gives the message to a receiver that opens the
/// sealed message, whatever follows the packet.
pub proof fn lemma_sent_is_received(
    key: Seq<u8>,
    base_iv: Seq<u8>,
    counter: u64,
    ciphertext: Seq<u8>,
    message: Seq<u8>,
)
    requires
        ciphertext.len() <= MAX_FIELD_LEN,
        spec_decrypt(key, base_iv, counter, ciphertext) == Ok::<_, SshError>(message),
    ensures
        delivers(key, base_iv, counter, field_frame(ciphertext), message),
{
    assert forall|rest: Seq<u8>| #[trigger]
        spec_receive_encrypted(key, base_iv, counter, field_frame(ciphertext) + rest) == Ok::<
            _,
            SshError,
        >(message) by {
        lemma_field_round_trip(ciphertext, rest);
    }
}

/// The bytes that sending `message` puts on the wire, for a sender with
/// the given key whose sealing sequence over `base_iv` stands at
/// `counter`: one packet with the sealed message. Nothing where the cipher
/// refuses the message.
pub open spec fn spec_sent(key: Seq<u8>, base_iv: Seq<u8>, counter: u64, message: Seq<u8>)
    -> Option<Seq<u8>> {
    match spec_aes_256_gcm_seal(key, spec_nonce(base_iv, counter), message) {
        Some(ciphertext) => Some(field_frame(ciphertext)),
        None => None,
    }
}

/// The state of a session after the handshake.
pub struct Session {
    pub encryption_context: EncryptionContext,
}

impl Session {
    /// The session of the given keys, with nothing sent or received.
    pub fn new(session_keys: SessionKeys) -> (result: Result<Session, SshError>)
        ensures
            result matches Ok(session) && session.encryption_context.fresh_from(session_keys),
    {
        let encryption_context: EncryptionContext = EncryptionContext::new(&session_keys)?;
        Ok(Session { encryption_context })
    }

    /// Seals `data` and sends it as one packet.
    ///
    /// The errors of the library come first: the nonces are used up; the
    /// cipher refuses the message, which it does only over
    /// `MAX_PLAINTEXT_LEN`; the sealed message fits no packet, in which
    /// case the nonce is spent and nothing is written. Every other
    /// message is written, unless the transport refuses. What was written
    /// delivers a message of up to `MAX_MESSAGE_LEN` bytes to a peer that
    /// holds the same key and nonce base and has opened as many messages
    /// as this side had sealed.
    pub fn send_encrypted<S: ReadWrite>(&mut self, stream: &mut S, data: &[u8]) -> (result: Result<
        (),
        SshError,
    >)
        ensures
            final(stream).incoming() == old(stream).incoming(),
            final(stream).accepts_writes() == old(stream).accepts_writes(),
            final(self).encryption_context.key() == old(self).encryption_context.key(),
            final(self).encryption_context.sealing_base() == old(
                self,
            ).encryption_context.sealing_base(),
            final(self).encryption_context.opening_base() == old(
                self,
            ).encryption_context.opening_base(),
            final(self).encryption_context.opened() == old(self).encryption_context.opened(),
            final(self).encryption_context.sealed() == if old(self).encryption_context.sealed()
                == u64::MAX {
                u64::MAX
            } else {
                (old(self).encryption_context.sealed() + 1) as u64
            },
            old(self).encryption_context.sealed() < u64::MAX && data@.len() <= MAX_PLAINTEXT_LEN
                ==> spec_aes_256_gcm_seal(
                old(self).encryption_context.key(),
                spec_nonce(
                    old(self).encryption_context.sealing_base(),
                    old(self).encryption_context.sealed(),
                ),
                data@,
            ) is Some,
            ({
                let key = old(self).encryption_context.key();
                let base = old(self).encryption_context.sealing_base();
                let sealed = old(self).encryption_context.sealed();
                if sealed == u64::MAX {
                    &&& result == Err::<(), _>(SshError::EncryptFailed)
                    &&& final(stream).outgoing() == old(stream).outgoing()
                } else {
                    match spec_aes_256_gcm_seal(key, spec_nonce(base, sealed), data@) {
                        None => {
                            &&& result == Err::<(), _>(SshError::EncryptFailed)
                            &&& final(stream).outgoing() == old(stream).outgoing()
                        },
                        Some(ciphertext) => if data@.len() > MAX_SENT_MESSAGE_LEN {
                            &&& result == Err::<(), _>(SshError::MalformedFrame)
                            &&& final(stream).outgoing() == old(stream).outgoing()
                        } else {
                            &&& ciphertext.len() == data@.len() + TAG_LEN
                            &&& match result {
                                Ok(()) => {
                                    &&& result == Ok::<(), SshError>(())
                                    &&& final(stream).outgoing() == old(stream).outgoing()
                                        + field_frame(ciphertext)
                                    &&& data@.len() <= MAX_MESSAGE_LEN ==> delivers(
                                        key,
                                        base,
                                        sealed,
                                        field_frame(ciphertext),
                                        data@,
                                    )
                                },
                                Err(e) => e == SshError::WriteFailed && !old(
                                    stream,
                                ).accepts_writes(),
                            }
                        },
                    }
                }
            }),
    {
        let encrypted: Vec<u8> = self.encryption_context.encrypt(data)?;
        write_field(stream, encrypted.as_slice())?;
        proof {
            if data@.len() <= MAX_MESSAGE_LEN {
                lemma_sent_is_received(
                    old(self).encryption_context.key(),
                    old(self).encryption_context.sealing_base(),
                    old(self).encryption_context.sealed(),
                    encrypted@,
                    data@,
                );
            }
        }
        Ok(())
    }

    /// Reads one packet and opens the message that it carries.
    ///
    /// The packet is consumed whenever it can be read at all. The opening
    /// nonce is spent unless the packet is malformed or its field is
    /// shorter than a tag.
    pub fn receive_encrypted<S: ReadWrite>(&mut self, stream: &mut S) -> (result: Result<
        Vec<u8>,
        SshError,
    >)
        ensures
            final(stream).outgoing() == old(stream).outgoing(),
            final(stream).accepts_writes() == old(stream).accepts_writes(),
            final(stream).incoming() == spec_after_read_frame(old(stream).incoming()),
            result is Ok ==> final(stream).incoming().len() < old(stream).incoming().len(),
            result matches Ok(message) ==> message@.len() + TAG_LEN + 5 <= MAX_PACKET_LEN,
            final(self).encryption_context.key() == old(self).encryption_context.key(),
            final(self).encryption_context.sealing_base() == old(
                self,
            ).encryption_context.sealing_base(),
            final(self).encryption_context.opening_base() == old(
                self,
            ).encryption_context.opening_base(),
            final(self).encryption_context.sealed() == old(self).encryption_context.sealed(),
            final(self).encryption_context.opened() == match spec_read_field(
                old(stream).incoming(),
            ) {
                Ok((ciphertext, _)) => if ciphertext.len() < TAG_LEN || old(
                    self,
                ).encryption_context.opened() == u64::MAX {
                    old(self).encryption_context.opened()
                } else {
                    (old(self).encryption_context.opened() + 1) as u64
                },
                Err(_) => old(self).encryption_context.opened(),
            },
            match result {
                Ok(message) => spec_receive_encrypted(
                    old(self).encryption_context.key(),
                    old(self).encryption_context.opening_base(),
                    old(self).encryption_context.opened(),
                    old(stream).incoming(),
                ) == Ok::<_, SshError>(message@),
                Err(e) => spec_receive_encrypted(
                    old(self).encryption_context.key(),
                    old(self).encryption_context.opening_base(),
                    old(self).encryption_context.opened(),
                    old(stream).incoming(),
                ) == Err::<Seq<u8>, _>(e),
            },
    {
        proof {
            lemma_read_field_len(stream.incoming());
        }
        let encrypted: Vec<u8> = read_field(stream)?;
        self.encryption_context.decrypt(encrypted.as_slice())
    }
}

/// Announces the algorithms of the session. The suite is fixed: there is
/// nothing to negotiate, and nothing is sent.
pub fn negotiate_algorithms() -> (result: Result<(), SshError>)
    ensures
        result == Ok::<(), SshError>(()),
{
    Ok(())
}

} // verus!
