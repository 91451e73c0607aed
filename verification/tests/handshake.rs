use ssh_impl::client::connection::{client_turn, connect, Turn};
use ssh_impl::crypto::dh::{derive_session_keys, EphemeralKeyPair, SessionKeys};
use ssh_impl::crypto::keys::{HostKeyPair, KeyData};
use ssh_impl::error::SshError;
use ssh_impl::protocol::client_auth::{encode_auth_request, AuthMethod, AuthRequest};
use ssh_impl::protocol::handshake::{HandshakeState, PhaseError};
use ssh_impl::protocol::key_exchange::{
    client_key_exchange, client_key_exchange_with, complete_key_exchange, server_key_exchange,
    server_key_exchange_with,
};
use ssh_impl::protocol::server_auth::HostKeyStatus;
use ssh_impl::server::handler::{handle_connection, present_host_key, serve_echo};
use ssh_impl::utils::packet::{read_field, Packet};
use ssh_impl::utils::stream::MemoryStream;

fn framed(payload: &[u8]) -> Vec<u8> {
    Packet::new(payload.to_vec()).encode().unwrap()
}

fn field_packet(data: &[u8]) -> Vec<u8> {
    let mut payload = (data.len() as u32).to_be_bytes().to_vec();
    payload.extend_from_slice(data);
    framed(&payload)
}

fn host_key() -> HostKeyPair {
    let seed: Vec<u8> = (0u8..32).collect();
    HostKeyPair::load(&KeyData { private_key: seed, public_key: Vec::new() }).unwrap()
}

fn same_keys(a: &SessionKeys, b: &SessionKeys) -> bool {
    a.encryption_key == b.encryption_key && a.mac_key == b.mac_key && a.iv == b.iv
}

fn failure(state: HandshakeState, error: SshError) -> PhaseError {
    PhaseError { state, error }
}

fn server_handshake(
    stream: &mut MemoryStream,
    host: &HostKeyPair,
) -> Result<(SessionKeys, AuthRequest), PhaseError> {
    let keys = handle_connection(stream)?;
    let request = present_host_key(stream, host)?;
    Ok((keys, request))
}

fn password(text: &str) -> AuthMethod {
    AuthMethod::Password(text.to_string())
}

fn alice_with(text: &str) -> AuthRequest {
    AuthRequest { username: "alice".to_string(), method: password(text) }
}

fn auth_packet(username: &str, text: &str) -> Vec<u8> {
    framed(&encode_auth_request(username, &password(text)).unwrap())
}

const ALL_STATES: [HandshakeState; 7] = [
    HandshakeState::Init,
    HandshakeState::Versioned,
    HandshakeState::Keyed,
    HandshakeState::HostAuthOk,
    HandshakeState::UserAuthOk,
    HandshakeState::Session,
    HandshakeState::Closed,
];

#[test]
fn successful_phases_pass_through_the_states_in_order() {
    let mut state = HandshakeState::Init;
    for expected in &ALL_STATES[1..] {
        state = state.next(true);
        assert_eq!(state, *expected);
    }
    assert_eq!(state.next(true), HandshakeState::Closed);
}

#[test]
fn failed_phase_closes_from_every_state() {
    for state in ALL_STATES {
        assert_eq!(state.next(false), HandshakeState::Closed);
    }
}

#[test]
fn no_transition_goes_backward() {
    for (rank, state) in ALL_STATES.iter().enumerate() {
        for outcome in [true, false] {
            let after = state.next(outcome);
            let rank_after = ALL_STATES.iter().position(|s| *s == after).unwrap();
            assert!(rank_after >= rank);
            if *state != HandshakeState::Closed {
                assert!(rank_after > rank);
            }
        }
    }
}

#[test]
fn phase_error_names_state_and_error() {
    assert_eq!(
        HandshakeState::Keyed.failed(SshError::WriteFailed),
        failure(HandshakeState::Keyed, SshError::WriteFailed)
    );
}

#[test]
fn key_exchange_completes_to_the_same_keys_on_both_sides() {
    let server = EphemeralKeyPair::generate().unwrap();
    let client = EphemeralKeyPair::generate().unwrap();
    let at_server = complete_key_exchange(server.private_key, &client.public_key).unwrap();
    let at_client = complete_key_exchange(client.private_key, &server.public_key).unwrap();
    assert!(same_keys(&at_server, &at_client));
}

#[test]
fn completed_key_exchange_derives_from_the_shared_secret() {
    let server = EphemeralKeyPair::generate().unwrap();
    let client = EphemeralKeyPair::generate().unwrap();
    let server_public = server.public_key.clone();
    let keys = complete_key_exchange(server.private_key, &client.public_key).unwrap();
    let secret = EphemeralKeyPair::compute_shared_secret(client.private_key, &server_public).unwrap();
    assert!(same_keys(&keys, &derive_session_keys(&secret).unwrap()));
}

#[test]
fn key_exchange_refuses_bad_peer_keys() {
    let pair = EphemeralKeyPair::generate().unwrap();
    assert!(matches!(
        complete_key_exchange(pair.private_key, &[1; 31]),
        Err(SshError::InvalidPublicKey)
    ));
    let pair = EphemeralKeyPair::generate().unwrap();
    assert!(matches!(
        complete_key_exchange(pair.private_key, &[0; 32]),
        Err(SshError::AgreementFailed)
    ));
}

#[test]
fn server_key_exchange_sends_its_key_and_agrees_with_the_client() {
    let client = EphemeralKeyPair::generate().unwrap();
    let mut stream = MemoryStream::new(field_packet(&client.public_key));
    let at_server = server_key_exchange(&mut stream).unwrap();
    assert_eq!(stream.remaining(), 0);
    assert_eq!(stream.output().len(), 45);
    let mut sent = MemoryStream::new(stream.output().clone());
    let server_public = read_field(&mut sent).unwrap();
    assert_eq!(server_public.len(), 32);
    let at_client = complete_key_exchange(client.private_key, &server_public).unwrap();
    assert!(same_keys(&at_server, &at_client));
}

#[test]
fn client_key_exchange_sends_its_key_and_agrees_with_the_server() {
    let server = EphemeralKeyPair::generate().unwrap();
    let mut stream = MemoryStream::new(field_packet(&server.public_key));
    let at_client = client_key_exchange(&mut stream).unwrap();
    let mut sent = MemoryStream::new(stream.output().clone());
    let client_public = read_field(&mut sent).unwrap();
    let at_server = complete_key_exchange(server.private_key, &client_public).unwrap();
    assert!(same_keys(&at_server, &at_client));
}

#[test]
fn server_key_exchange_with_a_pair_sends_that_pairs_public_key() {
    let server = EphemeralKeyPair::generate().unwrap();
    let client = EphemeralKeyPair::generate().unwrap();
    let server_public = server.public_key.clone();
    let mut stream = MemoryStream::new(field_packet(&client.public_key));
    let at_server = server_key_exchange_with(&mut stream, server).unwrap();
    assert_eq!(stream.output(), &field_packet(&server_public));
    assert_eq!(stream.output().len(), 45);
    assert_eq!(&stream.output()[..9], &[0, 0, 0, 41, 4, 0, 0, 0, 32]);
    assert_eq!(stream.remaining(), 0);
    let at_client = complete_key_exchange(client.private_key, &server_public).unwrap();
    assert!(same_keys(&at_server, &at_client));
}

#[test]
fn client_key_exchange_with_a_pair_sends_that_pairs_public_key() {
    let server = EphemeralKeyPair::generate().unwrap();
    let client = EphemeralKeyPair::generate().unwrap();
    let client_public = client.public_key.clone();
    let mut stream = MemoryStream::new(b"untouched".to_vec());
    let at_client = client_key_exchange_with(&mut stream, client, &server.public_key).unwrap();
    assert_eq!(stream.output(), &field_packet(&client_public));
    assert_eq!(stream.remaining(), 9);
    let at_server = complete_key_exchange(server.private_key, &client_public).unwrap();
    assert!(same_keys(&at_server, &at_client));
}

#[test]
fn key_exchange_with_a_pair_refuses_bad_peer_keys() {
    let pair = EphemeralKeyPair::generate().unwrap();
    let mut stream = MemoryStream::new(field_packet(&[5; 31]));
    assert!(matches!(
        server_key_exchange_with(&mut stream, pair),
        Err(SshError::InvalidPublicKey)
    ));
    assert_eq!(stream.output().len(), 45);
    let pair = EphemeralKeyPair::generate().unwrap();
    let mut stream = MemoryStream::new(Vec::new());
    assert!(matches!(
        server_key_exchange_with(&mut stream, pair),
        Err(SshError::MalformedFrame)
    ));
    assert_eq!(stream.output().len(), 45);
    let pair = EphemeralKeyPair::generate().unwrap();
    let mut stream = MemoryStream::new(Vec::new());
    assert!(matches!(
        client_key_exchange_with(&mut stream, pair, &[0; 32]),
        Err(SshError::AgreementFailed)
    ));
    assert_eq!(stream.output().len(), 45);
}

#[test]
fn key_exchange_with_both_sides_over_one_exchange_of_packets() {
    let mut to_client = MemoryStream::new(Vec::new());
    let server = EphemeralKeyPair::generate().unwrap();
    let mut probe = MemoryStream::new(Vec::new());
    ssh_impl::utils::packet::write_field(&mut probe, &server.public_key).unwrap();
    to_client.feed(probe.output());
    let at_client = client_key_exchange(&mut to_client).unwrap();
    let mut to_server = MemoryStream::new(to_client.output().clone());
    let at_server = server_key_exchange_with(&mut to_server, server).unwrap();
    assert_eq!(to_server.output(), probe.output());
    assert!(same_keys(&at_server, &at_client));
}

#[test]
fn key_exchange_errors_are_told_apart() {
    let mut stream = MemoryStream::new(field_packet(&[1; 16]));
    assert!(matches!(server_key_exchange(&mut stream), Err(SshError::InvalidPublicKey)));
    let mut stream = MemoryStream::new(field_packet(&[0; 32]));
    assert!(matches!(server_key_exchange(&mut stream), Err(SshError::AgreementFailed)));
    let mut stream = MemoryStream::new(framed(&[0, 0, 0, 32, 1]));
    assert!(matches!(server_key_exchange(&mut stream), Err(SshError::MalformedFrame)));
    let mut stream = MemoryStream::new(Vec::new());
    assert!(matches!(client_key_exchange(&mut stream), Err(SshError::MalformedFrame)));
    assert!(stream.output().is_empty());
    let mut stream = MemoryStream::new(field_packet(&[1; 33]));
    assert!(matches!(client_key_exchange(&mut stream), Err(SshError::InvalidPublicKey)));
    assert_eq!(stream.output().len(), 45);
}

fn server_bytes(server_public: &[u8], host_public: &[u8]) -> Vec<u8> {
    [
        b"SSH-2.0-EduSSH-1.0\r\n".to_vec(),
        field_packet(server_public),
        field_packet(host_public),
    ]
    .concat()
}

#[test]
fn client_handshake_reads_and_writes_the_phases_in_order() {
    let server = EphemeralKeyPair::generate().unwrap();
    let host = host_key();
    let mut stream = MemoryStream::new(server_bytes(&server.public_key, &host.public_key_bytes()));
    let (keys, verification) = connect(&mut stream, "localhost", None).unwrap();
    assert_eq!(stream.remaining(), 0);
    assert_eq!(verification.host_key, host.public_key_bytes());
    assert_eq!(verification.status, HostKeyStatus::FirstContact);
    assert_eq!(
        verification.known_hosts,
        Some(format!("localhost {}\n", hex::encode(host.public_key_bytes())))
    );

    let mut sent = MemoryStream::new(stream.output().clone());
    assert_eq!(
        ssh_impl::utils::io::read_line_crlf(&mut sent),
        Ok("SSH-2.0-EduSSH-Client-1.0".to_string())
    );
    let client_public = read_field(&mut sent).unwrap();
    assert_eq!(Packet::read(&mut sent), Ok(Packet::new(b"OK".to_vec())));
    assert_eq!(sent.remaining(), 0);
    let at_server = complete_key_exchange(server.private_key, &client_public).unwrap();
    assert!(same_keys(&keys, &at_server));
}

#[test]
fn server_handshake_reads_and_writes_the_phases_in_order() {
    let client = EphemeralKeyPair::generate().unwrap();
    let host = host_key();
    let wire = [
        b"SSH-2.0-EduSSH-Client-1.0\r\n".to_vec(),
        field_packet(&client.public_key),
        framed(b"OK"),
        auth_packet("alice", "pw"),
        b"later".to_vec(),
    ]
    .concat();
    let mut stream = MemoryStream::new(wire);
    let (keys, request) = server_handshake(&mut stream, &host).unwrap();
    assert_eq!(stream.remaining(), 5);
    assert_eq!(request, alice_with("pw"));

    let mut sent = MemoryStream::new(stream.output().clone());
    assert_eq!(
        ssh_impl::utils::io::read_line_crlf(&mut sent),
        Ok("SSH-2.0-EduSSH-1.0".to_string())
    );
    let server_public = read_field(&mut sent).unwrap();
    assert_eq!(read_field(&mut sent), Ok(host.public_key_bytes()));
    assert_eq!(sent.remaining(), 0);
    let at_client = complete_key_exchange(client.private_key, &server_public).unwrap();
    assert!(same_keys(&keys, &at_client));
}

#[test]
fn client_handshake_names_the_state_of_a_failure() {
    let host = host_key().public_key_bytes();
    let server = EphemeralKeyPair::generate().unwrap().public_key;

    let mut stream = MemoryStream::new(b"SSH-2.0-EduSSH-1.0".to_vec());
    assert_eq!(
        connect(&mut stream, "localhost", None).err(),
        Some(failure(HandshakeState::Init, SshError::ShortRead))
    );
    assert!(stream.output().is_empty());

    let mut stream = MemoryStream::new(vec![0xFF, b'\r', b'\n']);
    assert_eq!(
        connect(&mut stream, "localhost", None).err(),
        Some(failure(HandshakeState::Init, SshError::InvalidUtf8))
    );

    let mut wire = server_bytes(&server, &host);
    wire[4] = b'1';
    let mut stream = MemoryStream::new(wire);
    assert_eq!(
        connect(&mut stream, "localhost", None).err(),
        Some(failure(HandshakeState::Init, SshError::VersionMismatch))
    );
    assert_eq!(stream.output(), &b"SSH-2.0-EduSSH-Client-1.0\r\n".to_vec());

    let mut stream = MemoryStream::new(b"SSH-2.0-EduSSH-1.0\r\n\x00\x00\x00".to_vec());
    assert_eq!(
        connect(&mut stream, "localhost", None).err(),
        Some(failure(HandshakeState::Versioned, SshError::MalformedFrame))
    );

    let mut stream = MemoryStream::new(server_bytes(&[7; 31], &host));
    assert_eq!(
        connect(&mut stream, "localhost", None).err(),
        Some(failure(HandshakeState::Versioned, SshError::InvalidPublicKey))
    );

    let mut stream = MemoryStream::new(server_bytes(&[0; 32], &host));
    assert_eq!(
        connect(&mut stream, "localhost", None).err(),
        Some(failure(HandshakeState::Versioned, SshError::AgreementFailed))
    );

    let wire = [b"SSH-2.0-EduSSH-1.0\r\n".to_vec(), field_packet(&server), framed(&[0, 0, 0, 32])]
        .concat();
    let mut stream = MemoryStream::new(wire);
    assert_eq!(
        connect(&mut stream, "localhost", None).err(),
        Some(failure(HandshakeState::Keyed, SshError::MalformedFrame))
    );
}

#[test]
fn server_handshake_names_the_state_of_a_failure() {
    let host = host_key();
    let client = EphemeralKeyPair::generate().unwrap().public_key;

    let mut stream = MemoryStream::new(b"SSH-1.99-EduSSH-Client-1.0\r\n".to_vec());
    assert_eq!(
        server_handshake(&mut stream, &host).err(),
        Some(failure(HandshakeState::Init, SshError::VersionMismatch))
    );
    assert_eq!(stream.output(), &b"SSH-2.0-EduSSH-1.0\r\n".to_vec());

    let mut stream = MemoryStream::new(b"SSH-2.0-x".to_vec());
    assert_eq!(
        server_handshake(&mut stream, &host).err(),
        Some(failure(HandshakeState::Init, SshError::ShortRead))
    );

    let mut stream = MemoryStream::new(b"SSH-2.0-x\r\n".to_vec());
    assert_eq!(
        server_handshake(&mut stream, &host).err(),
        Some(failure(HandshakeState::Versioned, SshError::MalformedFrame))
    );

    let wire = [b"SSH-2.0-x\r\n".to_vec(), field_packet(&[3; 40])].concat();
    let mut stream = MemoryStream::new(wire);
    assert_eq!(
        server_handshake(&mut stream, &host).err(),
        Some(failure(HandshakeState::Versioned, SshError::InvalidPublicKey))
    );

    let wire = [b"SSH-2.0-x\r\n".to_vec(), field_packet(&client), framed(b"NO")].concat();
    let mut stream = MemoryStream::new(wire);
    assert_eq!(
        server_handshake(&mut stream, &host).err(),
        Some(failure(HandshakeState::Keyed, SshError::HostKeyRejected))
    );

    let wire = [b"SSH-2.0-x\r\n".to_vec(), field_packet(&client)].concat();
    let mut stream = MemoryStream::new(wire);
    assert_eq!(
        server_handshake(&mut stream, &host).err(),
        Some(failure(HandshakeState::Keyed, SshError::MalformedFrame))
    );

    let wire = [b"SSH-2.0-x\r\n".to_vec(), field_packet(&client), framed(b"OK")].concat();
    let mut stream = MemoryStream::new(wire);
    assert_eq!(
        server_handshake(&mut stream, &host).err(),
        Some(failure(HandshakeState::HostAuthOk, SshError::MalformedFrame))
    );

    let wire =
        [b"SSH-2.0-x\r\n".to_vec(), field_packet(&client), framed(b"OK"), framed(&[0, 0, 0, 9])]
            .concat();
    let mut stream = MemoryStream::new(wire);
    assert_eq!(
        server_handshake(&mut stream, &host).err(),
        Some(failure(HandshakeState::HostAuthOk, SshError::MalformedAuth))
    );
}

#[test]
fn version_mismatch_ends_the_server_handshake_with_only_the_banner_written() {
    let mut stream = MemoryStream::new(b"SSH-1.99-x\r\nmore".to_vec());
    assert_eq!(
        handle_connection(&mut stream).err(),
        Some(failure(HandshakeState::Init, SshError::VersionMismatch))
    );
    assert_eq!(stream.output(), &b"SSH-2.0-EduSSH-1.0\r\n".to_vec());
    assert_eq!(stream.remaining(), 4);
}

#[test]
fn server_agrees_on_keys_before_it_presents_its_host_key() {
    let client = EphemeralKeyPair::generate().unwrap();
    let wire = [b"SSH-2.0-c\r\n".to_vec(), field_packet(&client.public_key), framed(b"OK")]
        .concat();
    let mut stream = MemoryStream::new(wire);
    assert!(handle_connection(&mut stream).is_ok());
    assert_eq!(stream.remaining(), framed(b"OK").len());
    assert_eq!(stream.output().len(), 20 + 45);
}

#[test]
fn client_writes_nothing_before_it_has_read_the_banner() {
    for input in [&b""[..], b"SSH-2.0-x", b"SSH-2.0-x\r", b"\xff\r\n"] {
        let mut stream = MemoryStream::new(input.to_vec());
        assert!(connect(&mut stream, "localhost", None).is_err());
        assert!(stream.output().is_empty());
    }
    let mut stream = MemoryStream::new(b"SSH-2.0-x\r\n".to_vec());
    assert_eq!(
        connect(&mut stream, "localhost", None).err(),
        Some(failure(HandshakeState::Versioned, SshError::MalformedFrame))
    );
    assert_eq!(stream.output(), &b"SSH-2.0-EduSSH-Client-1.0\r\n".to_vec());
}

#[test]
fn client_session_is_established_on_success_only() {
    let keys = derive_session_keys(&[1, 2, 3]).unwrap();
    let mut stream = MemoryStream::new(framed(b"SUCCESS"));
    let session = ssh_impl::client::connection::establish_session(
        &mut stream,
        keys,
        "alice",
        &password("pw"),
    );
    assert!(session.is_ok());
    assert_eq!(stream.output(), &auth_packet("alice", "pw"));

    for (answer, error) in [
        (framed(b"FAILURE"), SshError::AuthenticationDenied),
        (framed(b"WHAT"), SshError::ProtocolError),
        (Vec::new(), SshError::MalformedFrame),
    ] {
        let keys = derive_session_keys(&[1, 2, 3]).unwrap();
        let mut stream = MemoryStream::new(answer);
        let result = ssh_impl::client::connection::establish_session(
            &mut stream,
            keys,
            "alice",
            &password("nope"),
        );
        assert_eq!(result.err(), Some(failure(HandshakeState::HostAuthOk, error)));
    }
}

#[test]
fn server_session_is_established_for_a_granted_request_only() {
    let keys = derive_session_keys(&[1, 2, 3]).unwrap();
    let mut stream = MemoryStream::new(Vec::new());
    let (username, _session) = ssh_impl::server::handler::establish_session(
        &mut stream,
        keys,
        &alice_with("pw"),
        Some("pw"),
    )
    .ok()
    .unwrap();
    assert_eq!(username, "alice");
    assert_eq!(stream.output(), &framed(b"SUCCESS"));

    for stored in [Some("other"), None] {
        let keys = derive_session_keys(&[1, 2, 3]).unwrap();
        let mut stream = MemoryStream::new(Vec::new());
        let result = ssh_impl::server::handler::establish_session(
            &mut stream,
            keys,
            &alice_with("pw"),
            stored,
        );
        assert_eq!(
            result.err(),
            Some(failure(HandshakeState::HostAuthOk, SshError::AuthenticationDenied))
        );
        assert_eq!(stream.output(), &framed(b"FAILURE"));
    }
}

#[test]
fn client_handshake_appends_a_changed_host_key_and_proceeds() {
    let server = EphemeralKeyPair::generate().unwrap();
    let host = host_key();
    let known = "localhost 00112233\n";
    let mut stream = MemoryStream::new(server_bytes(&server.public_key, &host.public_key_bytes()));
    let (_, verification) = connect(&mut stream, "localhost", Some(known)).unwrap();
    assert_eq!(verification.status, HostKeyStatus::Unrecognized);
    assert_eq!(
        verification.known_hosts,
        Some(format!("localhost 00112233\nlocalhost {}\n", hex::encode(host.public_key_bytes())))
    );
}

#[test]
fn end_to_end_with_a_password() {
    let host = host_key();

    // The client runs first against a server whose messages are prepared;
    // the server then completes the agreement with the key that the
    // client sent, and reads what the client wrote.
    let server_pair = EphemeralKeyPair::generate().unwrap();
    let mut client_stream =
        MemoryStream::new(server_bytes(&server_pair.public_key, &host.public_key_bytes()));
    let (client_keys, verification) = connect(&mut client_stream, "localhost", None).unwrap();
    assert_eq!(verification.status, HostKeyStatus::FirstContact);
    assert_eq!(
        verification.known_hosts,
        Some(format!("localhost {}\n", hex::encode(host.public_key_bytes())))
    );
    let mut from_client = MemoryStream::new(client_stream.output().clone());
    ssh_impl::utils::io::read_line_crlf(&mut from_client).unwrap();
    let client_public = read_field(&mut from_client).unwrap();
    let server_keys = complete_key_exchange(server_pair.private_key, &client_public).unwrap();
    assert!(same_keys(&client_keys, &server_keys));

    let mut server_stream = MemoryStream::new(Vec::new());
    client_stream.feed(&framed(b"SUCCESS"));
    let written_before = client_stream.output().len();
    let mut client_session = ssh_impl::client::connection::establish_session(
        &mut client_stream,
        client_keys,
        "alice",
        &password("pw"),
    )
    .ok()
    .unwrap();
    server_stream.feed(&client_stream.output()[written_before..]);
    let request = ssh_impl::protocol::client_auth::receive_auth_request(&mut server_stream).unwrap();
    assert_eq!(request, alice_with("pw"));
    let (username, mut server_session) = ssh_impl::server::handler::establish_session(
        &mut server_stream,
        server_keys,
        &request,
        Some("pw"),
    )
    .ok()
    .unwrap();
    assert_eq!(username, "alice");
    assert_eq!(server_stream.output(), &framed(b"SUCCESS"));

    let mut outbox = MemoryStream::new(Vec::new());
    client_session.send_encrypted(&mut outbox, b"hello").unwrap();
    let mut at_server = MemoryStream::new(outbox.output().clone());
    assert_eq!(serve_echo(&mut server_session, &mut at_server), Ok(()));
    let mut at_client = MemoryStream::new(at_server.output().clone());
    assert_eq!(client_session.receive_encrypted(&mut at_client), Ok(b"Echo: hello".to_vec()));

    assert_eq!(client_turn(&mut client_session, &mut at_client, "exit"), Ok(Turn::Closed));
    let mut at_server = MemoryStream::new(at_client.output().clone());
    assert_eq!(serve_echo(&mut server_session, &mut at_server), Ok(()));
    assert!(at_server.output().is_empty());
    assert_eq!(at_server.remaining(), 0);
}

#[test]
fn end_to_end_with_a_wrong_password() {
    let keys = derive_session_keys(&[9; 32]).unwrap();
    let mut server_stream = MemoryStream::new(auth_packet("alice", "nope"));
    let request = ssh_impl::protocol::client_auth::receive_auth_request(&mut server_stream).unwrap();
    let refused = ssh_impl::server::handler::establish_session(
        &mut server_stream,
        keys,
        &request,
        Some("pw"),
    );
    assert_eq!(
        refused.err(),
        Some(failure(HandshakeState::HostAuthOk, SshError::AuthenticationDenied))
    );
    let keys = derive_session_keys(&[9; 32]).unwrap();
    let mut client_stream = MemoryStream::new(server_stream.output().clone());
    let denied = ssh_impl::client::connection::establish_session(
        &mut client_stream,
        keys,
        "alice",
        &password("nope"),
    );
    assert_eq!(
        denied.err(),
        Some(failure(HandshakeState::HostAuthOk, SshError::AuthenticationDenied))
    );
}

#[test]
fn end_to_end_from_the_server_side() {
    let host = host_key();
    let client_pair = EphemeralKeyPair::generate().unwrap();
    let wire = [
        b"SSH-2.0-EduSSH-Client-1.0\r\n".to_vec(),
        field_packet(&client_pair.public_key),
        framed(b"OK"),
        auth_packet("alice", "pw"),
    ]
    .concat();
    let mut server_stream = MemoryStream::new(wire);
    let (server_keys, request) = server_handshake(&mut server_stream, &host).unwrap();
    let mut from_server = MemoryStream::new(server_stream.output().clone());
    ssh_impl::utils::io::read_line_crlf(&mut from_server).unwrap();
    let server_public = read_field(&mut from_server).unwrap();
    let client_keys = complete_key_exchange(client_pair.private_key, &server_public).unwrap();
    let (_, mut server_session) = ssh_impl::server::handler::establish_session(
        &mut server_stream,
        server_keys,
        &request,
        Some("pw"),
    )
    .ok()
    .unwrap();
    let mut client_session = ssh_impl::protocol::session::Session::new(client_keys).unwrap();

    let mut to_client = MemoryStream::new(Vec::new());
    server_session.send_encrypted(&mut to_client, b"from the server").unwrap();
    let mut at_client = MemoryStream::new(to_client.output().clone());
    assert_eq!(client_session.receive_encrypted(&mut at_client), Ok(b"from the server".to_vec()));
    let mut to_server = MemoryStream::new(Vec::new());
    client_session.send_encrypted(&mut to_server, b"from the client").unwrap();
    let mut at_server = MemoryStream::new(to_server.output().clone());
    assert_eq!(server_session.receive_encrypted(&mut at_server), Ok(b"from the client".to_vec()));
}
