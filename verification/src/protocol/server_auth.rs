//! Server authentication: the host key and its trust on first use.
//!
//! The server sends its public key as a length-prefixed field. The client
//! looks the key up in its known hosts, a text with one line
//! `<hostname> <hex of the key>` per pinned host, pins what it does not
//! find, and acknowledges with the payload `OK`. An unrecognized key is
//! accepted too, but it is told apart from the first contact.

use vstd::prelude::*;
use vstd::utf8::*;
use crate::crypto::keys::HostKeyPair;
use crate::error::SshError;
use crate::utils::bytes::bytes_equal;
use crate::utils::hex::{
    hex_encode, hex_string, lemma_hex_string_chars, lemma_hex_string_injective,
};
use crate::utils::packet::{
    field_frame, frame, lemma_frame_round_trip, read_field, spec_after_read_frame,
    spec_read_field, spec_read_frame, write_field, Packet,
};
use crate::utils::stream::ReadWrite;
use crate::utils::text::{
    chars_equal, chars_of, lemma_terminated_line, line_views, lines, split_lines, str_view,
    text_view,
};

verus! {

/// How a presented host key relates to the known hosts.
#[derive(Clone, Copy, Debug, PartialEq, Eq, Structural)]
pub enum HostKeyStatus {
    /// There were no known hosts at all: the key is pinned.
    FirstContact,
    /// The key is pinned for this host already.
    Known,
    /// There are known hosts, but no line pins this key for this host: the
    /// host is new, or it presents another key than before. The key is
    /// pinned in addition.
    Unrecognized,
}

/// What the client decided about a host key.
#[derive(Debug, Clone, PartialEq, Eq)]
pub struct HostKeyVerification {
    /// The key that the server presented.
    pub host_key: Vec<u8>,
    /// How the key relates to the known hosts.
    pub status: HostKeyStatus,
    /// The text that the known hosts must hold from now on; `None` when
    /// they stay as they are.
    pub known_hosts: Option<String>,
}

/// The line that pins `key` for `hostname`.
pub open spec fn host_entry(hostname: Seq<char>, key: Seq<u8>) -> Seq<char> {
    hostname + seq![' '] + hex_string(key)
}

/// How `key` relates to the known hosts. A host is known by a line that
/// equals its entry exactly.
pub open spec fn spec_host_key_status(
    known_hosts: Option<Seq<char>>,
    hostname: Seq<char>,
    key: Seq<u8>,
) -> HostKeyStatus {
    match known_hosts {
        None => HostKeyStatus::FirstContact,
        Some(text) => if lines(text).contains(host_entry(hostname, key)) {
            HostKeyStatus::Known
        } else {
            HostKeyStatus::Unrecognized
        },
    }
}

/// `text`, ended by a line feed if it does not end in one.
pub open spec fn with_final_newline(text: Seq<char>) -> Seq<char> {
    if text.len() > 0 && text.last() == '\n' {
        text
    } else {
        text.push('\n')
    }
}

/// The text that the known hosts must hold after `key` was presented:
/// nothing new for a known key, else the old text with the entry appended
/// on a line of its own.
pub open spec fn spec_known_hosts_update(
    known_hosts: Option<Seq<char>>,
    hostname: Seq<char>,
    key: Seq<u8>,
) -> Option<Seq<char>> {
    match known_hosts {
        None => Some(host_entry(hostname, key).push('\n')),
        Some(text) => if lines(text).contains(host_entry(hostname, key)) {
            None
        } else {
            Some(with_final_newline(text) + host_entry(hostname, key).push('\n'))
        },
    }
}

/// Where the known hosts pin one key for a host and the host presents
/// another, the key is told apart as unrecognized, the old line is kept
/// first and the line of the new key follows it.
pub proof fn lemma_changed_key_is_appended(hostname: Seq<char>, other: Seq<u8>, key: Seq<u8>)
    requires
        other != key,
        forall|i: int| 0 <= i < hostname.len() ==> hostname[i] != '\n',
    ensures
        spec_host_key_status(Some(host_entry(hostname, other).push('\n')), hostname, key)
            == HostKeyStatus::Unrecognized,
        spec_known_hosts_update(Some(host_entry(hostname, other).push('\n')), hostname, key)
            == Some(
            host_entry(hostname, other).push('\n') + host_entry(hostname, key).push('\n'),
        ),
{
    let pinned = host_entry(hostname, other);
    let presented = host_entry(hostname, key);
    let known = pinned.push('\n');
    let n = hostname.len() as int;
    lemma_hex_string_chars(other);
    assert forall|i: int| 0 <= i < pinned.len() implies pinned[i] != '\n' by {
        if i > n {
            assert(pinned[i] == hex_string(other)[i - n - 1]);
        }
    }
    assert(pinned.last() != '\r') by {
        if other.len() > 0 {
            assert(pinned.last() == hex_string(other).last());
        }
    }
    lemma_terminated_line(pinned);
    if pinned == presented {
        assert(pinned.skip(n + 1) == hex_string(other));
        assert(presented.skip(n + 1) == hex_string(key));
        lemma_hex_string_injective(other, key);
    }
    assert(lines(known)[0] == pinned);
    assert(!lines(known).contains(presented));
    assert(with_final_newline(known) == known);
}

/// Looks `key` up in the known hosts of the client and says what they must
/// hold afterwards. `known_hosts` is `None` when the client has none.
pub fn check_known_hosts(known_hosts: Option<&str>, hostname: &str, key: &[u8]) -> (decision: (
    HostKeyStatus,
    Option<String>,
))
    ensures
        decision.0 == spec_host_key_status(str_view(known_hosts), hostname@, key@),
        text_view(decision.1) == spec_known_hosts_update(str_view(known_hosts), hostname@, key@),
{
    proof {
        reveal_strlit(" ");
        reveal_strlit("\n");
    }
    let mut entry: String = String::from_str(hostname);
    entry.append(" ");
    entry.append(hex_encode(key).as_str());
    assert(entry@ == host_entry(hostname@, key@));
    let text: &str = match known_hosts {
        Some(text) => text,
        None => {
            entry.append("\n");
            assert(entry@ == host_entry(hostname@, key@).push('\n'));
            return (HostKeyStatus::FirstContact, Some(entry));
        },
    };
    let chars: Vec<char> = chars_of(text);
    let wanted: Vec<char> = chars_of(entry.as_str());
    let listed: Vec<Vec<char>> = split_lines(&chars);
    let mut i: usize = 0;
    while i < listed.len()
        invariant
            i <= listed@.len(),
            known_hosts == Some(text),
            line_views(listed@) == lines(text@),
            wanted@ == host_entry(hostname@, key@),
            forall|j: int| 0 <= j < i ==> #[trigger] lines(text@)[j] != wanted@,
        decreases listed@.len() - i,
    {
        assert(listed@[i as int]@ == line_views(listed@)[i as int]);
        if chars_equal(&listed[i], &wanted) {
            assert(lines(text@)[i as int] == host_entry(hostname@, key@));
            return (HostKeyStatus::Known, None);
        }
        i = i + 1;
    }
    assert(!lines(text@).contains(host_entry(hostname@, key@)));
    let mut content: String = String::from_str(text);
    if !(chars.len() > 0 && chars[chars.len() - 1] == '\n') {
        content.append("\n");
    }
    assert(content@ == with_final_newline(text@));
    content.append(entry.as_str());
    content.append("\n");
    assert(content@ == with_final_newline(text@) + host_entry(hostname@, key@).push('\n'));
    (HostKeyStatus::Unrecognized, Some(content))
}

/// The payload with which the client acknowledges the host key.
pub open spec fn ack_payload() -> Seq<u8> {
    encode_utf8("OK"@)
}

/// The acknowledgment is two bytes long.
pub proof fn lemma_ack_payload_len()
    ensures
        ack_payload().len() == 2,
{
    reveal_strlit("OK");
    is_ascii_chars_encode_utf8("OK"@);
}

/// Sends the host's public key to the client.
pub fn send_host_key<S: ReadWrite>(stream: &mut S, host_key: &HostKeyPair) -> (result: Result<
    (),
    SshError,
>)
    ensures
        final(stream).incoming() == old(stream).incoming(),
        final(stream).accepts_writes() == old(stream).accepts_writes(),
        match result {
            Ok(()) => result == Ok::<(), SshError>(()) && final(stream).outgoing() == old(
                stream,
            ).outgoing() + field_frame(host_key.public_key()),
            Err(e) => e == SshError::WriteFailed && !old(stream).accepts_writes(),
        },
{
    let public_key: Vec<u8> = host_key.public_key_bytes();
    write_field(stream, public_key.as_slice())
}

/// Receives the host key, checks it against the known hosts and
/// acknowledges it.
///
/// `known_hosts` is the text of the client's known hosts, `None` when
/// there are none. The result tells what the known hosts must hold from
/// now on; storing that is left to the caller. A key that is not pinned is
/// accepted and pinned; the status says which case it was.
pub fn receive_and_verify_host_key<S: ReadWrite>(
    stream: &mut S,
    hostname: &str,
    known_hosts: Option<&str>,
) -> (result: Result<HostKeyVerification, SshError>)
    ensures
        final(stream).accepts_writes() == old(stream).accepts_writes(),
        final(stream).incoming() == spec_after_read_frame(old(stream).incoming()),
        match spec_read_field(old(stream).incoming()) {
            Err(e) => result == Err::<HostKeyVerification, _>(e) && final(stream).outgoing()
                == old(stream).outgoing(),
            Ok((key, consumed)) => {
                &&& final(stream).incoming() == old(stream).incoming().skip(consumed)
                &&& match result {
                    Ok(verification) => {
                        &&& verification.host_key@ == key
                        &&& verification.status == spec_host_key_status(
                            str_view(known_hosts),
                            hostname@,
                            key,
                        )
                        &&& text_view(verification.known_hosts) == spec_known_hosts_update(
                            str_view(known_hosts),
                            hostname@,
                            key,
                        )
                        &&& final(stream).outgoing() == old(stream).outgoing() + frame(
                            ack_payload(),
                        )
                    },
                    Err(e) => e == SshError::WriteFailed && !old(stream).accepts_writes(),
                }
            },
        },
{
    let host_key: Vec<u8> = read_field(stream)?;
    let (status, update) = check_known_hosts(known_hosts, hostname, host_key.as_slice());
    proof {
        lemma_ack_payload_len();
    }
    Packet::new("OK".as_bytes_vec()).write(stream)?;
    Ok(HostKeyVerification { host_key, status, known_hosts: update })
}

/// What the server makes of the bytes that answer its host key: one
/// packet, which must hold the acknowledgment.
pub open spec fn spec_receive_ack(wire: Seq<u8>) -> Result<(), SshError> {
    match spec_read_frame(wire) {
        Ok((payload, _)) => if payload == ack_payload() {
            Ok(())
        } else {
            Err(SshError::HostKeyRejected)
        },
        Err(e) => Err(e),
    }
}

/// The acknowledgment that a client sent is accepted by the server, and
/// what follows it is left.
pub proof fn lemma_ack_is_accepted(rest: Seq<u8>)
    ensures
        spec_receive_ack(frame(ack_payload()) + rest) == Ok::<(), SshError>(()),
        spec_after_read_frame(frame(ack_payload()) + rest) == rest,
{
    lemma_ack_payload_len();
    lemma_frame_round_trip(ack_payload(), rest);
}

/// Receives the client's acknowledgment of the host key.
pub fn receive_host_key_ack<S: ReadWrite>(stream: &mut S) -> (result: Result<(), SshError>)
    ensures
        final(stream).outgoing() == old(stream).outgoing(),
        final(stream).accepts_writes() == old(stream).accepts_writes(),
        final(stream).incoming() == spec_after_read_frame(old(stream).incoming()),
        result == spec_receive_ack(old(stream).incoming()),
{
    let packet: Packet = Packet::read(stream)?;
    if bytes_equal(packet.payload.as_slice(), "OK".as_bytes()) {
        Ok(())
    } else {
        Err(SshError::HostKeyRejected)
    }
}

} // verus!
