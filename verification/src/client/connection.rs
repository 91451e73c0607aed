//! The client's part of the handshake, and its turns in the session.

use vstd::prelude::*;
use vstd::utf8::*;
use crate::crypto::dh::{
    derived_from, spec_x25519_agree, spec_x25519_public_key, SessionKeys, X25519_LEN,
};
use crate::crypto::encryption::{
    spec_aes_256_gcm_seal, spec_nonce, MAX_PLAINTEXT_LEN, TAG_LEN,
};
use crate::error::SshError;
use crate::protocol::client_auth::{
    auth_encodable, auth_payload, send_auth_request, spec_receive_verdict, AuthMethod,
};
use crate::protocol::handshake::{fails_only_in, phase_failure, HandshakeState, PhaseError};
use crate::protocol::key_exchange::client_key_exchange;
use crate::protocol::server_auth::{
    ack_payload, receive_and_verify_host_key, spec_host_key_status, spec_known_hosts_update,
    HostKeyVerification,
};
use crate::protocol::session::{
    delivers, negotiate_algorithms, spec_receive_encrypted, Session, MAX_MESSAGE_LEN,
    MAX_SENT_MESSAGE_LEN,
};
use crate::protocol::version::{
    banner, banner_line, lemma_banner_is_received, lemma_own_banners_agree, negotiate_version,
    receive_version_string, send_version_string, versions_agree, CLIENT_VERSION,
};
use crate::utils::io::{spec_after_read_line, spec_read_line};
use crate::utils::packet::{
    field_frame, frame, lemma_field_round_trip, spec_after_read_frame, spec_read_field,
    MAX_FIELD_LEN, MAX_WRITTEN_PAYLOAD_LEN,
};
use crate::utils::stream::ReadWrite;
use crate::utils::text::{chars_equal, chars_of, str_view, text_view, trim, trim_range};

verus! {

/// What a server of this library writes up to its host key is what a
/// client reads: the banner is received and agrees with the client's own,
/// the ephemeral key and the host key come out of their packets as they
/// went in, and what follows them is left.
pub proof fn lemma_server_messages_are_read(
    public_key: Seq<u8>,
    host_key: Seq<u8>,
    rest: Seq<u8>,
)
    requires
        public_key.len() <= MAX_FIELD_LEN,
        host_key.len() <= MAX_FIELD_LEN,
    ensures
        ({
            let after_key = field_frame(host_key) + rest;
            let after_banner = field_frame(public_key) + after_key;
            let wire = banner_line(true) + field_frame(public_key) + field_frame(host_key) + rest;
            &&& spec_read_line(wire) == Ok::<_, SshError>((banner(true), after_banner))
            &&& versions_agree(banner(false), banner(true))
            &&& spec_read_field(after_banner) matches Ok((key, _))
            &&& key == public_key
            &&& spec_after_read_frame(after_banner) == after_key
            &&& spec_read_field(after_key) matches Ok((key, _))
            &&& key == host_key
            &&& spec_after_read_frame(after_key) == rest
        }),
{
    let after_key = field_frame(host_key) + rest;
    let after_banner = field_frame(public_key) + after_key;
    let wire = banner_line(true) + field_frame(public_key) + field_frame(host_key) + rest;
    assert(wire == banner_line(true) + after_banner);
    lemma_banner_is_received(true, after_banner);
    lemma_own_banners_agree();
    lemma_field_round_trip(public_key, after_key);
    lemma_field_round_trip(host_key, rest);
}

/// How the client's handshake ends once both banners agree, `sent`
/// stands written, the server's key was read and the client's own key
/// pair was made: the own public key is sent, the agreement is completed
/// with the own private key, and the host-key phase follows on the bytes
/// `after_key`.
pub open spec fn connect_with_key(
    private_key: ring::agreement::EphemeralPrivateKey,
    server_key: Seq<u8>,
    sent: Seq<u8>,
    after_key: Seq<u8>,
    accepts_writes: bool,
    host: Seq<char>,
    known_hosts: Option<Seq<char>>,
    written: Seq<u8>,
    unread: Seq<u8>,
    result: Result<(SessionKeys, HostKeyVerification), PhaseError>,
) -> bool {
    let own = field_frame(spec_x25519_public_key(private_key));
    let versioned = HandshakeState::Versioned;
    let keyed = HandshakeState::Keyed;
    ||| {
        &&& result == Err::<(SessionKeys, HostKeyVerification), _>(
            phase_failure(versioned, SshError::WriteFailed),
        )
        &&& !accepts_writes
        &&& unread == after_key
    }
    ||| if server_key.len() != X25519_LEN {
        &&& result == Err::<(SessionKeys, HostKeyVerification), _>(
            phase_failure(versioned, SshError::InvalidPublicKey),
        )
        &&& written == sent + own
        &&& unread == after_key
    } else {
        match spec_x25519_agree(private_key, server_key) {
            None => {
                &&& result == Err::<(SessionKeys, HostKeyVerification), _>(
                    phase_failure(versioned, SshError::AgreementFailed),
                )
                &&& written == sent + own
                &&& unread == after_key
            },
            Some(secret) => {
                &&& unread == spec_after_read_frame(after_key)
                &&& match spec_read_field(after_key) {
                    Err(_) => {
                        &&& result == Err::<(SessionKeys, HostKeyVerification), _>(
                            phase_failure(keyed, SshError::MalformedFrame),
                        )
                        &&& written == sent + own
                    },
                    Ok((host_key, _)) => match result {
                        Ok((keys, verification)) => {
                            &&& derived_from(keys, secret)
                            &&& verification.host_key@ == host_key
                            &&& verification.status == spec_host_key_status(
                                known_hosts,
                                host,
                                host_key,
                            )
                            &&& text_view(verification.known_hosts) == spec_known_hosts_update(
                                known_hosts,
                                host,
                                host_key,
                            )
                            &&& written == sent + own + frame(ack_payload())
                        },
                        Err(failure) => failure == phase_failure(keyed, SshError::WriteFailed)
                            && !accepts_writes,
                    },
                }
            },
        }
    }
}

/// How the client's handshake ends once both banners agree and `sent`
/// stands written: the key agreement on the bytes `after_banner` with a
/// fresh key pair, then the host-key phase on what follows.
pub open spec fn connect_after_banners(
    sent: Seq<u8>,
    after_banner: Seq<u8>,
    accepts_writes: bool,
    host: Seq<char>,
    known_hosts: Option<Seq<char>>,
    written: Seq<u8>,
    unread: Seq<u8>,
    result: Result<(SessionKeys, HostKeyVerification), PhaseError>,
) -> bool {
    let after_key = spec_after_read_frame(after_banner);
    let versioned = HandshakeState::Versioned;
    match spec_read_field(after_banner) {
        Err(_) => {
            &&& result == Err::<(SessionKeys, HostKeyVerification), _>(
                phase_failure(versioned, SshError::MalformedFrame),
            )
            &&& written == sent
            &&& unread == after_key
        },
        Ok((server_key, _)) => {
            ||| {
                &&& result == Err::<(SessionKeys, HostKeyVerification), _>(
                    phase_failure(versioned, SshError::KeyGenerationFailed),
                )
                &&& written == sent
                &&& unread == after_key
            }
            ||| exists|private_key: ring::agreement::EphemeralPrivateKey|
                {
                    &&& (#[trigger] spec_x25519_public_key(private_key)).len() == X25519_LEN
                    &&& connect_with_key(
                        private_key,
                        server_key,
                        sent,
                        after_key,
                        accepts_writes,
                        host,
                        known_hosts,
                        written,
                        unread,
                        result,
                    )
                }
        },
    }
}

/// Runs the client's handshake on an open transport, from the version
/// exchange to the acknowledged host key.
///
/// The client reads the server's banner before it writes anything. It
/// sends its own banner and checks that both announce major version 2. It
/// reads the server's ephemeral key, makes a fresh key pair, sends its
/// public key and derives the session keys from the agreement of its
/// private key with the server's key. It reads the host key, checks it against
/// `known_hosts` (`None` when the client has none), and acknowledges it.
/// The result holds the session keys and what was decided about the host
/// key; storing the new known hosts is left to the caller. A failure names
/// the state in which it happened.
pub fn connect<S: ReadWrite>(stream: &mut S, host: &str, known_hosts: Option<&str>) -> (result:
    Result<(SessionKeys, HostKeyVerification), PhaseError>)
    ensures
        final(stream).accepts_writes() == old(stream).accepts_writes(),
        match spec_read_line(old(stream).incoming()) {
            Err(e) => {
                &&& result == Err::<(SessionKeys, HostKeyVerification), _>(
                    phase_failure(HandshakeState::Init, e),
                )
                &&& final(stream).outgoing() == old(stream).outgoing()
                &&& final(stream).incoming() == spec_after_read_line(old(stream).incoming())
            },
            Ok((server_banner, after_banner)) => {
                ||| {
                    &&& result == Err::<(SessionKeys, HostKeyVerification), _>(
                        phase_failure(HandshakeState::Init, SshError::WriteFailed),
                    )
                    &&& !old(stream).accepts_writes()
                    &&& final(stream).incoming() == after_banner
                }
                ||| if !versions_agree(banner(false), server_banner) {
                    &&& result == Err::<(SessionKeys, HostKeyVerification), _>(
                        phase_failure(HandshakeState::Init, SshError::VersionMismatch),
                    )
                    &&& final(stream).outgoing() == old(stream).outgoing() + banner_line(false)
                    &&& final(stream).incoming() == after_banner
                } else {
                    connect_after_banners(
                        old(stream).outgoing() + banner_line(false),
                        after_banner,
                        old(stream).accepts_writes(),
                        host@,
                        str_view(known_hosts),
                        final(stream).outgoing(),
                        final(stream).incoming(),
                        result,
                    )
                }
            },
        },
{
    let state: HandshakeState = HandshakeState::Init;
    let server_version: String = match receive_version_string(stream) {
        Ok(line) => line,
        Err(e) => {
            return Err(state.failed(e));
        },
    };
    match send_version_string(stream, false) {
        Ok(()) => {},
        Err(e) => {
            return Err(state.failed(e));
        },
    }
    match negotiate_version(CLIENT_VERSION, server_version.as_str()) {
        Ok(()) => {},
        Err(e) => {
            return Err(state.failed(e));
        },
    }
    let state: HandshakeState = state.next(true);
    let keys: SessionKeys = match client_key_exchange(stream) {
        Ok(keys) => keys,
        Err(e) => {
            return Err(state.failed(e));
        },
    };
    let state: HandshakeState = state.next(true);
    match receive_and_verify_host_key(stream, host, known_hosts) {
        Ok(verification) => Ok((keys, verification)),
        Err(e) => Err(state.failed(e)),
    }
}

/// Finishes the client's handshake: authenticates as `username` and opens
/// the session.
///
/// A request that cannot be encoded or framed fails before anything is
/// written. Every other request is sent, unless the transport refuses,
/// and the server's verdict is read. A refusal fails with
/// `AuthenticationDenied`, any other answer than the two verdicts with
/// `ProtocolError`.
pub fn establish_session<S: ReadWrite>(
    stream: &mut S,
    session_keys: SessionKeys,
    username: &str,
    method: &AuthMethod,
) -> (result: Result<Session, PhaseError>)
    ensures
        final(stream).accepts_writes() == old(stream).accepts_writes(),
        fails_only_in(result, HandshakeState::HostAuthOk),
        if !auth_encodable(username@, method@) {
            &&& result matches Err(failure)
            &&& failure.error == SshError::MalformedAuth
            &&& final(stream).outgoing() == old(stream).outgoing()
            &&& final(stream).incoming() == old(stream).incoming()
        } else if auth_payload(username@, method@).len() > MAX_WRITTEN_PAYLOAD_LEN {
            &&& result matches Err(failure)
            &&& failure.error == SshError::MalformedFrame
            &&& final(stream).outgoing() == old(stream).outgoing()
            &&& final(stream).incoming() == old(stream).incoming()
        } else {
            ||| {
                &&& result matches Err(failure)
                &&& failure.error == SshError::WriteFailed
                &&& !old(stream).accepts_writes()
                &&& final(stream).incoming() == old(stream).incoming()
            }
            ||| {
                &&& final(stream).outgoing() == old(stream).outgoing() + frame(
                    auth_payload(username@, method@),
                )
                &&& final(stream).incoming() == spec_after_read_frame(old(stream).incoming())
                &&& match spec_receive_verdict(old(stream).incoming()) {
                    Ok(()) => result matches Ok(session)
                        && session.encryption_context.fresh_from(session_keys),
                    Err(e) => result matches Err(failure) && failure.error == e,
                }
            }
        },
{
    let state: HandshakeState = HandshakeState::HostAuthOk;
    match send_auth_request(stream, username, method) {
        Ok(()) => {},
        Err(e) => {
            return Err(state.failed(e));
        },
    }
    match negotiate_algorithms() {
        Ok(()) => {},
        Err(e) => {
            return Err(state.failed(e));
        },
    }
    match Session::new(session_keys) {
        Ok(session) => Ok(session),
        Err(e) => Err(state.failed(e)),
    }
}

/// How the client's turn for one line of input ended.
#[derive(Debug, Clone, PartialEq, Eq)]
pub enum Turn {
    /// The line was blank: nothing was sent.
    Skipped,
    /// The line was the message that ends the session: it was sent, and
    /// no answer is awaited.
    Closed,
    /// The line was sent, and this is the server's answer.
    Answered(Vec<u8>),
    /// The line was sent, but no answer could be received, for the given
    /// reason.
    Lost(SshError),
}

/// The message that a line of input stands for: the line without the
/// white space around it, in UTF-8.
pub open spec fn message_of(line: Seq<char>) -> Seq<u8> {
    encode_utf8(trim(line))
}

/// What became of a line that was sent, given what the server's bytes
/// hold: after the closing line nothing is read; after any other line one
/// packet is read and opened.
pub open spec fn turn_after_sending(
    line: Seq<char>,
    key: Seq<u8>,
    opening_base: Seq<u8>,
    opened: u64,
    incoming: Seq<u8>,
    unread: Seq<u8>,
    opened_after: u64,
    result: Result<Turn, SshError>,
) -> bool {
    if trim(line) == "exit"@ {
        &&& result == Ok::<_, SshError>(Turn::Closed)
        &&& unread == incoming
        &&& opened_after == opened
    } else {
        &&& unread == spec_after_read_frame(incoming)
        &&& opened_after == match spec_read_field(incoming) {
            Ok((ciphertext, _)) => if ciphertext.len() < TAG_LEN || opened == u64::MAX {
                opened
            } else {
                (opened + 1) as u64
            },
            Err(_) => opened,
        }
        &&& match spec_receive_encrypted(key, opening_base, opened, incoming) {
            Ok(answer) => result matches Ok(Turn::Answered(bytes)) && bytes@ == answer,
            Err(e) => result == Ok::<_, SshError>(Turn::Lost(e)),
        }
    }
}

/// Takes the client's turn for one line of input.
///
/// A blank line is skipped. Any other line is sent, without the white
/// space around it, as one sealed message; a line that cannot be sent is
/// an error. After the line `exit` the session is over; after any other
/// line the client reads the server's answer, and says so where none
/// could be received.
pub fn client_turn<S: ReadWrite>(session: &mut Session, stream: &mut S, line: &str) -> (result:
    Result<Turn, SshError>)
    ensures
        final(stream).accepts_writes() == old(stream).accepts_writes(),
        final(session).encryption_context.key() == old(session).encryption_context.key(),
        final(session).encryption_context.sealing_base() == old(
            session,
        ).encryption_context.sealing_base(),
        final(session).encryption_context.opening_base() == old(
            session,
        ).encryption_context.opening_base(),
        final(session).encryption_context.sealed() == if trim(line@).len() == 0 || old(
            session,
        ).encryption_context.sealed() == u64::MAX {
            old(session).encryption_context.sealed()
        } else {
            (old(session).encryption_context.sealed() + 1) as u64
        },
        trim(line@).len() > 0 && old(session).encryption_context.sealed() < u64::MAX
            && message_of(line@).len() <= MAX_PLAINTEXT_LEN ==> spec_aes_256_gcm_seal(
            old(session).encryption_context.key(),
            spec_nonce(
                old(session).encryption_context.sealing_base(),
                old(session).encryption_context.sealed(),
            ),
            message_of(line@),
        ) is Some,
        ({
            let key = old(session).encryption_context.key();
            let sealing_base = old(session).encryption_context.sealing_base();
            let opening_base = old(session).encryption_context.opening_base();
            let sealed = old(session).encryption_context.sealed();
            let opened = old(session).encryption_context.opened();
            let message = message_of(line@);
            let nothing_done = {
                &&& final(stream).outgoing() == old(stream).outgoing()
                &&& final(stream).incoming() == old(stream).incoming()
                &&& final(session).encryption_context.opened() == opened
            };
            if trim(line@).len() == 0 {
                result == Ok::<_, SshError>(Turn::Skipped) && nothing_done
            } else if sealed == u64::MAX {
                result == Err::<Turn, _>(SshError::EncryptFailed) && nothing_done
            } else {
                match spec_aes_256_gcm_seal(key, spec_nonce(sealing_base, sealed), message) {
                    None => result == Err::<Turn, _>(SshError::EncryptFailed) && nothing_done,
                    Some(ciphertext) => if message.len() > MAX_SENT_MESSAGE_LEN {
                        result == Err::<Turn, _>(SshError::MalformedFrame) && nothing_done
                    } else {
                        ||| {
                            &&& result == Err::<Turn, _>(SshError::WriteFailed)
                            &&& !old(stream).accepts_writes()
                            &&& final(stream).incoming() == old(stream).incoming()
                            &&& final(session).encryption_context.opened() == opened
                        }
                        ||| {
                            &&& final(stream).outgoing() == old(stream).outgoing() + field_frame(
                                ciphertext,
                            )
                            &&& ciphertext.len() == message.len() + TAG_LEN
                            &&& message.len() <= MAX_MESSAGE_LEN ==> delivers(
                                key,
                                sealing_base,
                                sealed,
                                field_frame(ciphertext),
                                message,
                            )
                            &&& turn_after_sending(
                                line@,
                                key,
                                opening_base,
                                opened,
                                old(stream).incoming(),
                                final(stream).incoming(),
                                final(session).encryption_context.opened(),
                                result,
                            )
                        }
                    },
                }
            }
        }),
{
    let chars: Vec<char> = chars_of(line);
    let (start, end) = trim_range(&chars);
    if start == end {
        return Ok(Turn::Skipped);
    }
    let text: &str = line.substring_char(start, end);
    assert(text@ == trim(line@));
    session.send_encrypted(stream, text.as_bytes())?;
    let text_chars: Vec<char> = chars_of(text);
    let exit_chars: Vec<char> = chars_of("exit");
    if chars_equal(&text_chars, &exit_chars) {
        return Ok(Turn::Closed);
    }
    match session.receive_encrypted(stream) {
        Ok(answer) => Ok(Turn::Answered(answer)),
        Err(e) => Ok(Turn::Lost(e)),
    }
}

} // verus!
