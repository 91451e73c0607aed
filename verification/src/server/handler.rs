//! The server's part of the handshake, and its echo service.

use vstd::prelude::*;
use vstd::utf8::*;
use crate::crypto::dh::SessionKeys;
use crate::crypto::encryption::{spec_aes_256_gcm_seal, spec_decrypt, spec_nonce, TAG_LEN};
use crate::crypto::keys::HostKeyPair;
use crate::error::SshError;
use crate::protocol::client_auth::{
    failure_payload, handle_auth_request, receive_auth_request, spec_authenticated,
    spec_receive_auth_request, success_payload, AuthRequest, AuthRequestView,
};
use crate::protocol::handshake::{
    fails_only_in, phase_failure, without_state, HandshakeState, PhaseError,
};
use crate::protocol::key_exchange::{server_key_exchange, spec_fresh_server_key_exchange};
use crate::protocol::server_auth::{receive_host_key_ack, send_host_key, spec_receive_ack};
use crate::protocol::session::{negotiate_algorithms, Session, MAX_SENT_MESSAGE_LEN};
use crate::protocol::version::{
    banner, banner_line, negotiate_version, receive_version_string, send_version_string,
    versions_agree, SERVER_VERSION,
};
use crate::utils::bytes::bytes_equal;
use crate::utils::io::{spec_after_read_line, spec_read_line};
use crate::utils::packet::{
    field_frame, frame, lemma_field_frame_len, spec_after_read_frame, spec_read_field,
};
use crate::utils::stream::ReadWrite;
use crate::utils::text::str_view;

verus! {

/// Runs the first phases of the server's handshake on an accepted
/// transport: the version exchange and the key agreement.
///
/// The server sends its banner, reads the client's and checks that both
/// announce major version 2. Only then it runs its key agreement with a
/// fresh key pair: it sends the public key, reads the client's and derives
/// the session keys. A failure names the state in which it happened. The
/// caller goes on with `present_host_key`.
pub fn handle_connection<S: ReadWrite>(stream: &mut S) -> (result: Result<
    SessionKeys,
    PhaseError,
>)
    ensures
        final(stream).accepts_writes() == old(stream).accepts_writes(),
        ({
            let sent = old(stream).outgoing() + banner_line(true);
            ||| {
                &&& result == Err::<SessionKeys, _>(
                    phase_failure(HandshakeState::Init, SshError::WriteFailed),
                )
                &&& !old(stream).accepts_writes()
                &&& final(stream).incoming() == old(stream).incoming()
            }
            ||| match spec_read_line(old(stream).incoming()) {
                Err(e) => {
                    &&& result == Err::<SessionKeys, _>(phase_failure(HandshakeState::Init, e))
                    &&& final(stream).outgoing() == sent
                    &&& final(stream).incoming() == spec_after_read_line(old(stream).incoming())
                },
                Ok((client_banner, after_banner)) => if !versions_agree(
                    client_banner,
                    banner(true),
                ) {
                    &&& result == Err::<SessionKeys, _>(
                        phase_failure(HandshakeState::Init, SshError::VersionMismatch),
                    )
                    &&& final(stream).outgoing() == sent
                    &&& final(stream).incoming() == after_banner
                } else {
                    &&& fails_only_in(result, HandshakeState::Versioned)
                    &&& spec_fresh_server_key_exchange(
                        old(stream).accepts_writes(),
                        sent,
                        after_banner,
                        final(stream).outgoing(),
                        final(stream).incoming(),
                        without_state(result),
                    )
                },
            }
        }),
{
    let state: HandshakeState = HandshakeState::Init;
    match send_version_string(stream, true) {
        Ok(()) => {},
        Err(e) => {
            return Err(state.failed(e));
        },
    }
    let client_version: String = match receive_version_string(stream) {
        Ok(line) => line,
        Err(e) => {
            return Err(state.failed(e));
        },
    };
    match negotiate_version(client_version.as_str(), SERVER_VERSION) {
        Ok(()) => {},
        Err(e) => {
            return Err(state.failed(e));
        },
    }
    let state: HandshakeState = state.next(true);
    match server_key_exchange(stream) {
        Ok(keys) => Ok(keys),
        Err(e) => Err(state.failed(e)),
    }
}

/// Runs the host-key phase of the server's handshake and reads the
/// client's authentication request.
///
/// The server sends the public key of `host_key` and reads the client's
/// acknowledgment; any other answer ends the handshake. Then it reads the
/// authentication request. Looking up what is on record for the user is
/// left to the caller, who goes on with `establish_session`. A failure
/// names the state in which it happened.
pub fn present_host_key<S: ReadWrite>(stream: &mut S, host_key: &HostKeyPair) -> (result: Result<
    AuthRequest,
    PhaseError,
>)
    ensures
        final(stream).accepts_writes() == old(stream).accepts_writes(),
        ({
            let after_answer = spec_after_read_frame(old(stream).incoming());
            ||| {
                &&& result == Err::<AuthRequest, _>(
                    phase_failure(HandshakeState::Keyed, SshError::WriteFailed),
                )
                &&& !old(stream).accepts_writes()
                &&& final(stream).incoming() == old(stream).incoming()
            }
            ||| {
                &&& final(stream).outgoing() == old(stream).outgoing() + field_frame(
                    host_key.public_key(),
                )
                &&& match spec_receive_ack(old(stream).incoming()) {
                    Err(e) => {
                        &&& result == Err::<AuthRequest, _>(
                            phase_failure(HandshakeState::Keyed, e),
                        )
                        &&& final(stream).incoming() == after_answer
                    },
                    Ok(()) => {
                        &&& final(stream).incoming() == spec_after_read_frame(after_answer)
                        &&& match result {
                            Ok(request) => spec_receive_auth_request(after_answer) == Ok::<
                                _,
                                SshError,
                            >(request@),
                            Err(failure) => {
                                &&& failure.state == HandshakeState::HostAuthOk
                                &&& spec_receive_auth_request(after_answer) == Err::<
                                    AuthRequestView,
                                    _,
                                >(failure.error)
                            },
                        }
                    },
                }
            }
        }),
{
    let state: HandshakeState = HandshakeState::Keyed;
    match send_host_key(stream, host_key) {
        Ok(()) => {},
        Err(e) => {
            return Err(state.failed(e));
        },
    }
    match receive_host_key_ack(stream) {
        Ok(()) => {},
        Err(e) => {
            return Err(state.failed(e));
        },
    }
    let state: HandshakeState = state.next(true);
    match receive_auth_request(stream) {
        Ok(request) => Ok(request),
        Err(e) => Err(state.failed(e)),
    }
}

/// Finishes the server's handshake: decides the authentication request
/// against what is on record for the user, tells the client, and opens the
/// session.
///
/// `stored` is the password on record for a password request and the text
/// of the user's authorized keys for a public-key request; `None` where
/// there is no record. The result holds the name of the authenticated
/// user and the session. A refused request fails with
/// `AuthenticationDenied` after the refusal was sent.
pub fn establish_session<S: ReadWrite>(
    stream: &mut S,
    session_keys: SessionKeys,
    request: &AuthRequest,
    stored: Option<&str>,
) -> (result: Result<(String, Session), PhaseError>)
    ensures
        final(stream).incoming() == old(stream).incoming(),
        final(stream).accepts_writes() == old(stream).accepts_writes(),
        fails_only_in(result, HandshakeState::HostAuthOk),
        ({
            ||| {
                &&& result matches Err(failure)
                &&& failure.error == SshError::WriteFailed
                &&& !old(stream).accepts_writes()
            }
            ||| if spec_authenticated(request@, str_view(stored)) {
                &&& result matches Ok((username, session))
                &&& username@ == request.username@
                &&& session.encryption_context.fresh_from(session_keys)
                &&& final(stream).outgoing() == old(stream).outgoing() + frame(success_payload())
            } else {
                &&& result matches Err(failure)
                &&& failure.error == SshError::AuthenticationDenied
                &&& final(stream).outgoing() == old(stream).outgoing() + frame(failure_payload())
            }
        }),
{
    let state: HandshakeState = HandshakeState::HostAuthOk;
    let username: String = match handle_auth_request(stream, request, stored) {
        Ok(username) => username,
        Err(e) => {
            return Err(state.failed(e));
        },
    };
    match negotiate_algorithms() {
        Ok(()) => {},
        Err(e) => {
            return Err(state.failed(e));
        },
    }
    match Session::new(session_keys) {
        Ok(session) => Ok((username, session)),
        Err(e) => Err(state.failed(e)),
    }
}

/// The message that ends an echo session.
pub open spec fn exit_message() -> Seq<u8> {
    encode_utf8("exit"@)
}

/// What the echo service puts in front of a message.
pub open spec fn echo_prefix() -> Seq<u8> {
    encode_utf8("Echo: "@)
}

/// The prefix of a reply is six bytes long.
pub proof fn lemma_echo_prefix_len()
    ensures
        echo_prefix().len() == 6,
{
    reveal_strlit("Echo: ");
    is_ascii_chars_encode_utf8("Echo: "@);
}

/// The reply of the echo service to a message: the message behind the
/// prefix, or nothing for the message that ends the session.
pub open spec fn spec_echo_reply(message: Seq<u8>) -> Option<Seq<u8>> {
    if message == exit_message() {
        None
    } else {
        Some(echo_prefix() + message)
    }
}

/// The reply of the echo service to a message.
pub fn echo_reply(message: &[u8]) -> (reply: Option<Vec<u8>>)
    ensures
        match reply {
            Some(bytes) => spec_echo_reply(message@) == Some(bytes@),
            None => spec_echo_reply(message@) is None,
        },
{
    if bytes_equal(message, "exit".as_bytes()) {
        return None;
    }
    let mut reply: Vec<u8> = "Echo: ".as_bytes_vec();
    reply.extend_from_slice(message);
    Some(reply)
}

/// How an echo session goes on a transport that accepts every write: what
/// the service writes, how it ends, what it leaves unread, and where its
/// two nonce sequences stand at the end.
pub struct EchoTrace {
    pub written: Seq<u8>,
    pub result: Result<(), SshError>,
    pub unread: Seq<u8>,
    pub opened: u64,
    pub sealed: u64,
}

/// The course of an echo session.
///
/// The server holds `key`; its opening sequence over `opening_base`
/// stands at `opened`, its sealing sequence over `sealing_base` at
/// `sealed`; `wire` holds what the client sends. The service reads one
/// message after the other and answers each with its reply. It ends
/// without error at the message that ends the session and at the first
/// message that cannot be read or opened; it ends with an error when a
/// reply cannot be sealed or does not fit a packet.
pub open spec fn spec_serve_echo(
    key: Seq<u8>,
    opening_base: Seq<u8>,
    sealing_base: Seq<u8>,
    opened: u64,
    sealed: u64,
    wire: Seq<u8>,
) -> EchoTrace
    decreases wire.len(),
{
    let nothing = Seq::<u8>::empty();
    let unread = spec_after_read_frame(wire);
    match spec_read_field(wire) {
        Err(_) => EchoTrace { written: nothing, result: Ok(()), unread, opened, sealed },
        Ok((ciphertext, _)) => match spec_decrypt(key, opening_base, opened, ciphertext) {
            Err(_) => EchoTrace {
                written: nothing,
                result: Ok(()),
                unread,
                opened: if ciphertext.len() < TAG_LEN || opened == u64::MAX {
                    opened
                } else {
                    (opened + 1) as u64
                },
                sealed,
            },
            Ok(message) => {
                let opened = (opened + 1) as u64;
                match spec_echo_reply(message) {
                    None => EchoTrace { written: nothing, result: Ok(()), unread, opened, sealed },
                    Some(reply) => if sealed == u64::MAX {
                        EchoTrace {
                            written: nothing,
                            result: Err(SshError::EncryptFailed),
                            unread,
                            opened,
                            sealed,
                        }
                    } else {
                        let next = (sealed + 1) as u64;
                        match spec_aes_256_gcm_seal(key, spec_nonce(sealing_base, sealed), reply) {
                            None => EchoTrace {
                                written: nothing,
                                result: Err(SshError::EncryptFailed),
                                unread,
                                opened,
                                sealed: next,
                            },
                            Some(sealed_reply) => if reply.len() > MAX_SENT_MESSAGE_LEN {
                                EchoTrace {
                                    written: nothing,
                                    result: Err(SshError::MalformedFrame),
                                    unread,
                                    opened,
                                    sealed: next,
                                }
                            } else {
                                let later = spec_serve_echo(
                                    key,
                                    opening_base,
                                    sealing_base,
                                    opened,
                                    next,
                                    spec_after_read_frame(wire),
                                );
                                EchoTrace {
                                    written: field_frame(sealed_reply) + later.written,
                                    result: later.result,
                                    unread: later.unread,
                                    opened: later.opened,
                                    sealed: later.sealed,
                                }
                            },
                        }
                    },
                }
            },
        },
    }
}

/// Serves the echo session: reads messages and answers each with its
/// reply, until the client sends the message that ends the session, a
/// message cannot be received, or a reply cannot be sent.
///
/// A message that cannot be received ends the service without error; a
/// reply that cannot be sent is an error: the sealing nonces are used up,
/// or the transport refuses. The session goes its course
/// unless the transport refuses a write, which can only happen where the
/// course has a reply to write and the transport does not accept every
/// write.
pub fn serve_echo<S: ReadWrite>(session: &mut Session, stream: &mut S) -> (result: Result<
    (),
    SshError,
>)
    ensures
        final(stream).accepts_writes() == old(stream).accepts_writes(),
        final(session).encryption_context.key() == old(session).encryption_context.key(),
        final(session).encryption_context.opening_base() == old(
            session,
        ).encryption_context.opening_base(),
        final(session).encryption_context.sealing_base() == old(
            session,
        ).encryption_context.sealing_base(),
        result != Err::<(), _>(SshError::MalformedFrame),
        result == Err::<(), _>(SshError::EncryptFailed)
            ==> final(session).encryption_context.sealed() == u64::MAX,
        ({
            let course = spec_serve_echo(
                old(session).encryption_context.key(),
                old(session).encryption_context.opening_base(),
                old(session).encryption_context.sealing_base(),
                old(session).encryption_context.opened(),
                old(session).encryption_context.sealed(),
                old(stream).incoming(),
            );
            ||| {
                &&& final(stream).outgoing() == old(stream).outgoing() + course.written
                &&& result == course.result
                &&& final(stream).incoming() == course.unread
                &&& final(session).encryption_context.opened() == course.opened
                &&& final(session).encryption_context.sealed() == course.sealed
            }
            ||| {
                &&& result == Err::<(), _>(SshError::WriteFailed)
                &&& !old(stream).accepts_writes()
                &&& course.written.len() > 0
            }
        }),
{
    let ghost key = session.encryption_context.key();
    let ghost opening_base = session.encryption_context.opening_base();
    let ghost sealing_base = session.encryption_context.sealing_base();
    let ghost course = spec_serve_echo(
        key,
        opening_base,
        sealing_base,
        session.encryption_context.opened(),
        session.encryption_context.sealed(),
        stream.incoming(),
    );
    assert(stream.outgoing() + course.written == old(stream).outgoing() + course.written);
    loop
        invariant
            key == old(session).encryption_context.key(),
            opening_base == old(session).encryption_context.opening_base(),
            sealing_base == old(session).encryption_context.sealing_base(),
            session.encryption_context.key() == key,
            session.encryption_context.opening_base() == opening_base,
            session.encryption_context.sealing_base() == sealing_base,
            stream.accepts_writes() == old(stream).accepts_writes(),
            stream.outgoing().len() >= old(stream).outgoing().len(),
            course == spec_serve_echo(
                old(session).encryption_context.key(),
                old(session).encryption_context.opening_base(),
                old(session).encryption_context.sealing_base(),
                old(session).encryption_context.opened(),
                old(session).encryption_context.sealed(),
                old(stream).incoming(),
            ),
            ({
                let rest = spec_serve_echo(
                    key,
                    opening_base,
                    sealing_base,
                    session.encryption_context.opened(),
                    session.encryption_context.sealed(),
                    stream.incoming(),
                );
                &&& old(stream).outgoing() + course.written == stream.outgoing() + rest.written
                &&& course.result == rest.result
                &&& course.unread == rest.unread
                &&& course.opened == rest.opened
                &&& course.sealed == rest.sealed
            }),
        decreases stream.incoming().len(),
    {
        let ghost wire = stream.incoming();
        let ghost written = stream.outgoing();
        let ghost opened = session.encryption_context.opened();
        let ghost sealed = session.encryption_context.sealed();
        let ghost here = spec_serve_echo(key, opening_base, sealing_base, opened, sealed, wire);
        let message: Vec<u8> = match session.receive_encrypted(stream) {
            Ok(message) => message,
            Err(_) => {
                assert(here.written == Seq::<u8>::empty());
                assert(written + here.written == written);
                return Ok(());
            },
        };
        let reply: Vec<u8> = match echo_reply(message.as_slice()) {
            Some(reply) => reply,
            None => {
                assert(written + here.written == written);
                return Ok(());
            },
        };
        proof {
            lemma_echo_prefix_len();
        }
        match session.send_encrypted(stream, reply.as_slice()) {
            Ok(()) => {},
            Err(e) => {
                proof {
                    if e == SshError::WriteFailed {
                        let sealed_reply = spec_aes_256_gcm_seal(
                            key,
                            spec_nonce(sealing_base, sealed),
                            reply@,
                        )->Some_0;
                        lemma_field_frame_len(sealed_reply);
                        assert((old(stream).outgoing() + course.written).len() == (written
                            + here.written).len());
                    } else {
                        assert(written + here.written == written);
                    }
                }
                return Err(e);
            },
        }
        proof {
            let sealed_reply = spec_aes_256_gcm_seal(
                key,
                spec_nonce(sealing_base, sealed),
                reply@,
            )->Some_0;
            let later = spec_serve_echo(
                key,
                opening_base,
                sealing_base,
                (opened + 1) as u64,
                (sealed + 1) as u64,
                spec_after_read_frame(wire),
            );
            assert(here.written == field_frame(sealed_reply) + later.written);
            assert(stream.outgoing() == written + field_frame(sealed_reply));
            assert(written + (field_frame(sealed_reply) + later.written) == written + field_frame(
                sealed_reply,
            ) + later.written);
        }
    }
}

} // verus!
