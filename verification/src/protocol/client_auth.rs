//! Client authentication: the request, its checks, and the verdict.
//!
//! The request payload is the length-prefixed user name, one method byte
//! (0 for a password, 1 for a public key) and the length-prefixed secret.

use vstd::prelude::*;
use vstd::slice::slice_subrange;
use vstd::utf8::*;
use crate::error::SshError;
use crate::utils::bytes::{
    bytes_equal, decode_length_prefixed, encode_length_prefixed, lemma_length_prefixed_cut_short,
    lemma_length_prefixed_len, lemma_length_prefixed_round_trip, length_prefixed,
    spec_read_length_prefixed,
};
use crate::utils::hex::{hex_encode, hex_string, lemma_hex_string_chars};
use crate::utils::packet::{
    frame, lemma_frame_round_trip, spec_after_read_frame, spec_read_frame, Packet,
    MAX_PAYLOAD_LEN, MAX_WRITTEN_PAYLOAD_LEN,
};
use crate::utils::stream::ReadWrite;
use crate::utils::text::{
    chars_equal, chars_of, lemma_single_line, lemma_terminated_line, lemma_trim_keeps, line_views,
    lines, split_lines, str_view, string_from_utf8, text_equal, trim, trimmed,
};

verus! {

/// How a client proves who it is.
#[derive(Debug, Clone, PartialEq, Eq)]
pub enum AuthMethod {
    /// The password, as text.
    Password(String),
    /// The raw public key.
    PublicKey(Vec<u8>),
}

/// An `AuthMethod` as a mathematical value.
pub enum AuthMethodView {
    Password(Seq<char>),
    PublicKey(Seq<u8>),
}

impl View for AuthMethod {
    type V = AuthMethodView;

    open spec fn view(&self) -> AuthMethodView {
        match self {
            AuthMethod::Password(password) => AuthMethodView::Password(password@),
            AuthMethod::PublicKey(key) => AuthMethodView::PublicKey(key@),
        }
    }
}

/// An authentication request as the server reads it.
#[derive(Debug, Clone, PartialEq, Eq)]
pub struct AuthRequest {
    pub username: String,
    pub method: AuthMethod,
}

/// An `AuthRequest` as a mathematical value.
pub struct AuthRequestView {
    pub username: Seq<char>,
    pub method: AuthMethodView,
}

impl View for AuthRequest {
    type V = AuthRequestView;

    open spec fn view(&self) -> AuthRequestView {
        AuthRequestView { username: self.username@, method: self.method@ }
    }
}

/// The method byte on the wire.
pub open spec fn method_byte(method: AuthMethodView) -> u8 {
    match method {
        AuthMethodView::Password(_) => 0,
        AuthMethodView::PublicKey(_) => 1,
    }
}

/// The secret on the wire: the password in UTF-8, or the key.
pub open spec fn secret_bytes(method: AuthMethodView) -> Seq<u8> {
    match method {
        AuthMethodView::Password(password) => encode_utf8(password),
        AuthMethodView::PublicKey(key) => key,
    }
}

/// Whether both lengths of a request fit their 32-bit fields.
pub open spec fn auth_encodable(username: Seq<char>, method: AuthMethodView) -> bool {
    encode_utf8(username).len() <= u32::MAX && secret_bytes(method).len() <= u32::MAX
}

/// The payload of an authentication request.
pub open spec fn auth_payload(username: Seq<char>, method: AuthMethodView) -> Seq<u8>
    recommends
        auth_encodable(username, method),
{
    length_prefixed(encode_utf8(username)) + seq![method_byte(method)] + length_prefixed(
        secret_bytes(method),
    )
}

/// What the server makes of a request payload. Every length is checked
/// before the bytes it announces are touched; bytes after the secret are
/// ignored.
pub open spec fn spec_parse_auth(payload: Seq<u8>) -> Result<AuthRequestView, SshError> {
    match spec_read_length_prefixed(payload) {
        None => Err(SshError::MalformedAuth),
        Some(name) => {
            let rest = payload.skip(4 + name.len() as int);
            if !valid_utf8(name) {
                Err(SshError::InvalidUtf8)
            } else if rest.len() == 0 || rest[0] > 1 {
                Err(SshError::MalformedAuth)
            } else {
                match spec_read_length_prefixed(rest.skip(1)) {
                    None => Err(SshError::MalformedAuth),
                    Some(secret) => if rest[0] == 1 {
                        Ok(
                            AuthRequestView {
                                username: decode_utf8(name),
                                method: AuthMethodView::PublicKey(secret),
                            },
                        )
                    } else if !valid_utf8(secret) {
                        Err(SshError::InvalidUtf8)
                    } else {
                        Ok(
                            AuthRequestView {
                                username: decode_utf8(name),
                                method: AuthMethodView::Password(decode_utf8(secret)),
                            },
                        )
                    },
                }
            }
        },
    }
}

/// The server reads back what the client wrote.
pub proof fn lemma_auth_round_trip(username: Seq<char>, method: AuthMethodView)
    requires
        auth_encodable(username, method),
    ensures
        spec_parse_auth(auth_payload(username, method)) == Ok::<_, SshError>(
            AuthRequestView { username, method },
        ),
{
    let name = encode_utf8(username);
    let secret = secret_bytes(method);
    let tail = seq![method_byte(method)] + length_prefixed(secret);
    let payload = auth_payload(username, method);
    encode_utf8_valid_utf8(username);
    encode_utf8_decode_utf8(username);
    match method {
        AuthMethodView::Password(password) => {
            encode_utf8_valid_utf8(password);
            encode_utf8_decode_utf8(password);
        },
        AuthMethodView::PublicKey(_) => {},
    }
    lemma_length_prefixed_len(name);
    lemma_length_prefixed_len(secret);
    assert(payload == length_prefixed(name) + tail);
    lemma_length_prefixed_round_trip(name, tail);
    let rest = payload.skip(4 + name.len() as int);
    assert(rest == tail);
    assert(rest[0] == method_byte(method));
    assert(rest.skip(1) == length_prefixed(secret) + Seq::<u8>::empty());
    lemma_length_prefixed_round_trip(secret, Seq::empty());
}

/// A request cut short anywhere is malformed: no proper prefix of a
/// request payload is accepted, and none is read past its end.
pub proof fn lemma_truncated_auth_is_malformed(
    username: Seq<char>,
    method: AuthMethodView,
    k: int,
)
    requires
        auth_encodable(username, method),
        0 <= k < auth_payload(username, method).len(),
    ensures
        spec_parse_auth(auth_payload(username, method).take(k)) == Err::<AuthRequestView, _>(
            SshError::MalformedAuth,
        ),
{
    let name = encode_utf8(username);
    let secret = secret_bytes(method);
    let tail = seq![method_byte(method)] + length_prefixed(secret);
    let payload = auth_payload(username, method);
    let cut = payload.take(k);
    encode_utf8_valid_utf8(username);
    lemma_length_prefixed_len(name);
    lemma_length_prefixed_len(secret);
    assert(payload == length_prefixed(name) + tail);
    if k < 4 + name.len() {
        assert(cut == length_prefixed(name).take(k));
        lemma_length_prefixed_cut_short(name, k);
    } else {
        let tail_cut = tail.take(k - 4 - name.len());
        assert(cut == length_prefixed(name) + tail_cut);
        lemma_length_prefixed_round_trip(name, tail_cut);
        let rest = cut.skip(4 + name.len() as int);
        assert(rest == tail_cut);
        if rest.len() > 0 {
            assert(rest.skip(1) == length_prefixed(secret).take(k - 5 - name.len()));
            lemma_length_prefixed_cut_short(secret, k - 5 - name.len());
        }
    }
}

/// The payload of the request for `username` with `method`.
pub fn encode_auth_request(username: &str, method: &AuthMethod) -> (result: Result<
    Vec<u8>,
    SshError,
>)
    ensures
        match result {
            Ok(payload) => auth_encodable(username@, method@) && payload@ == auth_payload(
                username@,
                method@,
            ),
            Err(e) => e == SshError::MalformedAuth && !auth_encodable(username@, method@),
        },
{
    let name_field: Option<Vec<u8>> = encode_length_prefixed(username.as_bytes());
    let secret_field: Option<Vec<u8>> = match method {
        AuthMethod::Password(password) => encode_length_prefixed(password.as_str().as_bytes()),
        AuthMethod::PublicKey(key) => encode_length_prefixed(key.as_slice()),
    };
    let tag: u8 = match method {
        AuthMethod::Password(_) => 0,
        AuthMethod::PublicKey(_) => 1,
    };
    match (name_field, secret_field) {
        (Some(name), Some(secret)) => {
            let mut payload: Vec<u8> = name;
            payload.push(tag);
            payload.extend_from_slice(secret.as_slice());
            Ok(payload)
        },
        _ => Err(SshError::MalformedAuth),
    }
}

/// Reads a request payload.
pub fn parse_auth_request(payload: &[u8]) -> (result: Result<AuthRequest, SshError>)
    ensures
        match result {
            Ok(request) => spec_parse_auth(payload@) == Ok::<_, SshError>(request@),
            Err(e) => spec_parse_auth(payload@) == Err::<AuthRequestView, _>(e),
        },
{
    let total: usize = payload.len();
    let name: Vec<u8> = match decode_length_prefixed(payload) {
        Some(bytes) => bytes,
        None => {
            return Err(SshError::MalformedAuth);
        },
    };
    assert(payload@.len() >= 4 + name@.len());
    let method_offset: usize = 4 + name.len();
    let username: String = match string_from_utf8(name) {
        Some(text) => text,
        None => {
            return Err(SshError::InvalidUtf8);
        },
    };
    if total <= method_offset {
        return Err(SshError::MalformedAuth);
    }
    let tag: u8 = payload[method_offset];
    if tag > 1 {
        return Err(SshError::MalformedAuth);
    }
    let after_tag: &[u8] = slice_subrange(payload, method_offset + 1, total);
    assert(after_tag@ == payload@.skip(method_offset as int).skip(1));
    let secret: Vec<u8> = match decode_length_prefixed(after_tag) {
        Some(bytes) => bytes,
        None => {
            return Err(SshError::MalformedAuth);
        },
    };
    if tag == 1 {
        return Ok(AuthRequest { username, method: AuthMethod::PublicKey(secret) });
    }
    match string_from_utf8(secret) {
        Some(password) => Ok(AuthRequest { username, method: AuthMethod::Password(password) }),
        None => Err(SshError::InvalidUtf8),
    }
}

/// Whether the password on record for a user is the one presented. With
/// no record the answer is no. The comparison is exact.
pub fn authenticate_password(stored_password: Option<&str>, password: &str) -> (accepted: bool)
    ensures
        accepted == (stored_password matches Some(stored) && stored@ == password@),
{
    match stored_password {
        Some(stored) => text_equal(stored, password),
        None => false,
    }
}

/// Whether some line of `authorized_keys`, without the white space around
/// it, is the hexadecimal text of `key`.
pub open spec fn key_is_authorized(authorized_keys: Seq<char>, key: Seq<u8>) -> bool {
    exists|i: int|
        0 <= i < lines(authorized_keys).len() && trim(#[trigger] lines(authorized_keys)[i])
            == hex_string(key)
}

/// A key is authorized by authorized keys that hold its hexadecimal text
/// and nothing else, with or without a line feed at the end.
pub proof fn lemma_listed_key_is_authorized(key: Seq<u8>)
    requires
        key.len() > 0,
    ensures
        key_is_authorized(hex_string(key), key),
        key_is_authorized(hex_string(key).push('\n'), key),
{
    let text = hex_string(key);
    lemma_hex_string_chars(key);
    lemma_single_line(text);
    lemma_terminated_line(text);
    lemma_trim_keeps(text);
    assert(trim(lines(text)[0]) == hex_string(key));
    assert(trim(lines(text.push('\n'))[0]) == hex_string(key));
}

/// Whether the user's authorized keys hold the presented key. Without
/// authorized keys the answer is no.
pub fn authenticate_public_key(authorized_keys: Option<&str>, public_key: &[u8]) -> (accepted:
    bool)
    ensures
        accepted == (authorized_keys matches Some(text) && key_is_authorized(
            text@,
            public_key@,
        )),
{
    let text: &str = match authorized_keys {
        Some(text) => text,
        None => {
            return false;
        },
    };
    let wanted: Vec<char> = chars_of(hex_encode(public_key).as_str());
    let listed: Vec<Vec<char>> = split_lines(&chars_of(text));
    let mut i: usize = 0;
    while i < listed.len()
        invariant
            i <= listed@.len(),
            authorized_keys == Some(text),
            line_views(listed@) == lines(text@),
            wanted@ == hex_string(public_key@),
            forall|j: int| 0 <= j < i ==> trim(#[trigger] lines(text@)[j]) != wanted@,
        decreases listed@.len() - i,
    {
        let candidate: Vec<char> = trimmed(&listed[i]);
        assert(listed@[i as int]@ == line_views(listed@)[i as int]);
        if chars_equal(&candidate, &wanted) {
            assert(trim(lines(text@)[i as int]) == hex_string(public_key@));
            return true;
        }
        i = i + 1;
    }
    false
}

/// The name of the file that holds a user's authorized keys.
pub fn authorized_keys_file_name(username: &str) -> (name: String)
    ensures
        name@ == "authorized_keys_"@ + username@,
{
    let mut name: String = String::from_str("authorized_keys_");
    name.append(username);
    name
}

/// The payload with which the server accepts a request.
pub open spec fn success_payload() -> Seq<u8> {
    encode_utf8("SUCCESS"@)
}

/// The payload with which the server refuses a request.
pub open spec fn failure_payload() -> Seq<u8> {
    encode_utf8("FAILURE"@)
}

/// What a response payload means to the client.
pub open spec fn spec_auth_verdict(response: Seq<u8>) -> Result<(), SshError> {
    if response == success_payload() {
        Ok(())
    } else if response == failure_payload() {
        Err(SshError::AuthenticationDenied)
    } else {
        Err(SshError::ProtocolError)
    }
}

/// Reads the server's verdict from its response payload.
pub fn auth_verdict(response: &[u8]) -> (result: Result<(), SshError>)
    ensures
        result == spec_auth_verdict(response@),
{
    if bytes_equal(response, "SUCCESS".as_bytes()) {
        Ok(())
    } else if bytes_equal(response, "FAILURE".as_bytes()) {
        Err(SshError::AuthenticationDenied)
    } else {
        Err(SshError::ProtocolError)
    }
}

/// What the client makes of the bytes that answer its request: one packet,
/// read as a verdict.
pub open spec fn spec_receive_verdict(wire: Seq<u8>) -> Result<(), SshError> {
    match spec_read_frame(wire) {
        Ok((response, _)) => spec_auth_verdict(response),
        Err(e) => Err(e),
    }
}

/// Sends the authentication request and reads the server's verdict.
///
/// A request that cannot be encoded or framed fails before anything is
/// written. Every other request is written, unless the transport refuses;
/// the result is then the verdict that the incoming bytes hold.
pub fn send_auth_request<S: ReadWrite>(
    stream: &mut S,
    username: &str,
    method: &AuthMethod,
) -> (result: Result<(), SshError>)
    ensures
        final(stream).accepts_writes() == old(stream).accepts_writes(),
        if !auth_encodable(username@, method@) {
            &&& result == Err::<(), _>(SshError::MalformedAuth)
            &&& final(stream).outgoing() == old(stream).outgoing()
            &&& final(stream).incoming() == old(stream).incoming()
        } else if auth_payload(username@, method@).len() > MAX_WRITTEN_PAYLOAD_LEN {
            &&& result == Err::<(), _>(SshError::MalformedFrame)
            &&& final(stream).outgoing() == old(stream).outgoing()
            &&& final(stream).incoming() == old(stream).incoming()
        } else {
            ||| {
                &&& result == Err::<(), _>(SshError::WriteFailed)
                &&& !old(stream).accepts_writes()
                &&& final(stream).incoming() == old(stream).incoming()
            }
            ||| {
                &&& final(stream).outgoing() == old(stream).outgoing() + frame(
                    auth_payload(username@, method@),
                )
                &&& result == spec_receive_verdict(old(stream).incoming())
                &&& final(stream).incoming() == spec_after_read_frame(old(stream).incoming())
            }
        },
{
    let payload: Vec<u8> = encode_auth_request(username, method)?;
    Packet::new(payload).write(stream)?;
    let response: Packet = Packet::read(stream)?;
    auth_verdict(response.payload.as_slice())
}

/// What the server makes of the bytes that carry a request: one packet,
/// parsed as a request.
pub open spec fn spec_receive_auth_request(wire: Seq<u8>) -> Result<AuthRequestView, SshError> {
    match spec_read_frame(wire) {
        Ok((payload, _)) => spec_parse_auth(payload),
        Err(e) => Err(e),
    }
}

/// The request that a client sent is the request that the server
/// receives, whatever follows it.
pub proof fn lemma_request_is_received(username: Seq<char>, method: AuthMethodView, rest: Seq<u8>)
    requires
        auth_encodable(username, method),
        auth_payload(username, method).len() <= MAX_PAYLOAD_LEN,
    ensures
        spec_receive_auth_request(frame(auth_payload(username, method)) + rest) == Ok::<
            _,
            SshError,
        >(AuthRequestView { username, method }),
        spec_after_read_frame(frame(auth_payload(username, method)) + rest) == rest,
{
    lemma_frame_round_trip(auth_payload(username, method), rest);
    lemma_auth_round_trip(username, method);
}

/// The verdict that the server sent is the verdict that the client reads,
/// whatever follows it: success as success, a refusal as
/// `AuthenticationDenied`.
pub proof fn lemma_verdict_is_read(rest: Seq<u8>)
    ensures
        spec_receive_verdict(frame(success_payload()) + rest) == Ok::<(), SshError>(()),
        spec_receive_verdict(frame(failure_payload()) + rest) == Err::<(), _>(
            SshError::AuthenticationDenied,
        ),
        spec_after_read_frame(frame(success_payload()) + rest) == rest,
        spec_after_read_frame(frame(failure_payload()) + rest) == rest,
{
    lemma_verdict_payloads_are_short();
    lemma_frame_round_trip(success_payload(), rest);
    lemma_frame_round_trip(failure_payload(), rest);
}

/// Reads the client's authentication request.
pub fn receive_auth_request<S: ReadWrite>(stream: &mut S) -> (result: Result<AuthRequest, SshError>)
    ensures
        final(stream).outgoing() == old(stream).outgoing(),
        final(stream).accepts_writes() == old(stream).accepts_writes(),
        final(stream).incoming() == spec_after_read_frame(old(stream).incoming()),
        match result {
            Ok(request) => spec_receive_auth_request(old(stream).incoming()) == Ok::<_, SshError>(
                request@,
            ),
            Err(e) => spec_receive_auth_request(old(stream).incoming()) == Err::<
                AuthRequestView,
                _,
            >(e),
        },
{
    let packet: Packet = Packet::read(stream)?;
    parse_auth_request(packet.payload.as_slice())
}

/// Whether a request is granted, given what the server has on record for
/// its user: the password for a password request, the text of the
/// authorized keys for a public-key request, nothing where there is no
/// record.
pub open spec fn spec_authenticated(request: AuthRequestView, stored: Option<Seq<char>>) -> bool {
    match (stored, request.method) {
        (Some(record), AuthMethodView::Password(password)) => record == password,
        (Some(record), AuthMethodView::PublicKey(key)) => key_is_authorized(record, key),
        (None, _) => false,
    }
}

/// Decides a request against the stored record and tells the client.
///
/// The response is `SUCCESS` or `FAILURE`. A granted request gives the
/// user's name back; a refused one fails with `AuthenticationDenied` after
/// the refusal was sent.
pub fn handle_auth_request<S: ReadWrite>(
    stream: &mut S,
    request: &AuthRequest,
    stored: Option<&str>,
) -> (result: Result<String, SshError>)
    ensures
        final(stream).incoming() == old(stream).incoming(),
        final(stream).accepts_writes() == old(stream).accepts_writes(),
        match result {
            Ok(username) => {
                &&& spec_authenticated(request@, str_view(stored))
                &&& username@ == request.username@
                &&& final(stream).outgoing() == old(stream).outgoing() + frame(success_payload())
            },
            Err(e) => {
                ||| e == SshError::WriteFailed && !old(stream).accepts_writes()
                ||| {
                    &&& e == SshError::AuthenticationDenied
                    &&& !spec_authenticated(request@, str_view(stored))
                    &&& final(stream).outgoing() == old(stream).outgoing() + frame(
                        failure_payload(),
                    )
                }
            },
        },
{
    let authenticated: bool = match &request.method {
        AuthMethod::Password(password) => authenticate_password(stored, password.as_str()),
        AuthMethod::PublicKey(key) => authenticate_public_key(stored, key.as_slice()),
    };
    let response: Vec<u8> = if authenticated {
        "SUCCESS".as_bytes_vec()
    } else {
        "FAILURE".as_bytes_vec()
    };
    proof {
        lemma_verdict_payloads_are_short();
    }
    Packet::new(response).write(stream)?;
    if authenticated {
        Ok(request.username.clone())
    } else {
        Err(SshError::AuthenticationDenied)
    }
}

/// The two verdicts are seven bytes each.
pub proof fn lemma_verdict_payloads_are_short()
    ensures
        success_payload().len() == 7,
        failure_payload().len() == 7,
        success_payload() != failure_payload(),
{
    reveal_strlit("SUCCESS");
    reveal_strlit("FAILURE");
    is_ascii_chars_encode_utf8("SUCCESS"@);
    is_ascii_chars_encode_utf8("FAILURE"@);
    assert(success_payload()[0] == 'S' as u8);
    assert(failure_payload()[0] == 'F' as u8);
}

} // verus!
