use ssh_impl::client::connection::{client_turn, Turn};
use ssh_impl::crypto::dh::derive_session_keys;
use ssh_impl::error::SshError;
use ssh_impl::protocol::session::{
    negotiate_algorithms, Session, MAX_MESSAGE_LEN, MAX_SENT_MESSAGE_LEN,
};
use ssh_impl::server::handler::{echo_reply, serve_echo};
use ssh_impl::utils::packet::Packet;
use ssh_impl::utils::stream::MemoryStream;

fn session() -> Session {
    let secret: Vec<u8> = (0u8..32).collect();
    Session::new(derive_session_keys(&secret).unwrap()).unwrap()
}

fn framed(payload: &[u8]) -> Vec<u8> {
    Packet::new(payload.to_vec()).encode().unwrap()
}

fn sent_by(sender: &mut Session, message: &[u8]) -> Vec<u8> {
    let mut stream = MemoryStream::new(Vec::new());
    sender.send_encrypted(&mut stream, message).unwrap();
    stream.output().clone()
}

#[test]
fn algorithm_announcement_always_succeeds() {
    assert_eq!(negotiate_algorithms(), Ok(()));
}

#[test]
fn message_travels_as_a_length_prefixed_ciphertext_in_one_packet() {
    let mut sender = session();
    let wire = sent_by(&mut sender, b"hello");
    let ciphertext = hex::decode("c15fd7fc7abd1836bb636214c8f24890e1132247a9").unwrap();
    let mut payload = vec![0, 0, 0, 21];
    payload.extend_from_slice(&ciphertext);
    assert_eq!(wire, framed(&payload));
    assert_eq!(wire.len(), 4 + 1 + 25 + 7);
}

#[test]
fn message_sent_by_one_peer_is_received_by_the_other() {
    let mut alice = session();
    let mut bob = session();
    for message in [&b"hello"[..], b"", b"\x00\x01\x02", b"a somewhat longer message"] {
        let mut to_bob = MemoryStream::new(sent_by(&mut alice, message));
        assert_eq!(bob.receive_encrypted(&mut to_bob), Ok(message.to_vec()));
        assert_eq!(to_bob.remaining(), 0);
    }
}

#[test]
fn messages_round_trip_in_the_reverse_direction() {
    let mut alice = session();
    let mut bob = session();
    let mut to_bob = MemoryStream::new(sent_by(&mut alice, b"ping"));
    assert_eq!(bob.receive_encrypted(&mut to_bob), Ok(b"ping".to_vec()));
    let mut to_alice = MemoryStream::new(sent_by(&mut bob, b"pong"));
    assert_eq!(alice.receive_encrypted(&mut to_alice), Ok(b"pong".to_vec()));
    let mut to_alice = MemoryStream::new(sent_by(&mut bob, b"pong again"));
    assert_eq!(alice.receive_encrypted(&mut to_alice), Ok(b"pong again".to_vec()));
}

#[test]
fn several_messages_are_received_in_order_from_one_stream() {
    let mut alice = session();
    let mut bob = session();
    let mut wire = Vec::new();
    for message in [&b"one"[..], b"two", b"three"] {
        wire.extend_from_slice(&sent_by(&mut alice, message));
    }
    let mut to_bob = MemoryStream::new(wire);
    assert_eq!(bob.receive_encrypted(&mut to_bob), Ok(b"one".to_vec()));
    assert_eq!(bob.receive_encrypted(&mut to_bob), Ok(b"two".to_vec()));
    assert_eq!(bob.receive_encrypted(&mut to_bob), Ok(b"three".to_vec()));
    assert_eq!(bob.receive_encrypted(&mut to_bob), Err(SshError::MalformedFrame));
}

#[test]
fn lost_message_ends_the_session_with_a_failed_authentication() {
    let mut alice = session();
    let mut bob = session();
    let _lost = sent_by(&mut alice, b"one");
    let mut to_bob = MemoryStream::new(sent_by(&mut alice, b"two"));
    assert_eq!(bob.receive_encrypted(&mut to_bob), Err(SshError::AuthFailed));
}

#[test]
fn tampered_packet_fails_authentication() {
    let mut alice = session();
    let mut bob = session();
    let mut wire = sent_by(&mut alice, b"hello");
    wire[12] ^= 1;
    let mut to_bob = MemoryStream::new(wire);
    assert_eq!(bob.receive_encrypted(&mut to_bob), Err(SshError::AuthFailed));
}

#[test]
fn packet_with_a_bad_inner_length_is_malformed() {
    let mut bob = session();
    let mut stream = MemoryStream::new(framed(&[0, 0]));
    assert_eq!(bob.receive_encrypted(&mut stream), Err(SshError::MalformedFrame));
    let mut stream = MemoryStream::new(framed(&[0, 0, 0, 40, 1, 2, 3]));
    assert_eq!(bob.receive_encrypted(&mut stream), Err(SshError::MalformedFrame));
    let mut stream = MemoryStream::new(Vec::new());
    assert_eq!(bob.receive_encrypted(&mut stream), Err(SshError::MalformedFrame));
}

#[test]
fn packet_with_less_than_a_tag_is_too_short() {
    let mut bob = session();
    let mut stream = MemoryStream::new(framed(&[0, 0, 0, 3, 1, 2, 3]));
    assert_eq!(bob.receive_encrypted(&mut stream), Err(SshError::TooShort));
    let mut alice = session();
    let mut stream = MemoryStream::new(sent_by(&mut alice, b"still in step"));
    assert_eq!(bob.receive_encrypted(&mut stream), Ok(b"still in step".to_vec()));
}

#[test]
fn longest_message_that_a_receiver_accepts_round_trips() {
    let mut alice = session();
    let mut stream = MemoryStream::new(Vec::new());
    assert_eq!(alice.send_encrypted(&mut stream, &vec![0; MAX_MESSAGE_LEN]), Ok(()));
    let mut bob = session();
    let mut to_bob = MemoryStream::new(stream.output().clone());
    assert_eq!(bob.receive_encrypted(&mut to_bob).map(|m| m.len()), Ok(MAX_MESSAGE_LEN));
}

#[test]
fn message_over_the_receivers_limit_is_sent_and_refused_by_the_receiver() {
    assert_eq!(MAX_SENT_MESSAGE_LEN as u64, u32::MAX as u64 - 29);
    let mut alice = session();
    let mut stream = MemoryStream::new(Vec::new());
    assert_eq!(alice.send_encrypted(&mut stream, &vec![0; MAX_MESSAGE_LEN + 8]), Ok(()));
    assert_eq!(stream.output().len(), 4 + 1 + 4 + MAX_MESSAGE_LEN + 8 + 16 + 8);
    let mut bob = session();
    let mut to_bob = MemoryStream::new(stream.output().clone());
    assert_eq!(bob.receive_encrypted(&mut to_bob), Err(SshError::MalformedFrame));
}

#[test]
fn five_byte_message_makes_a_frame_of_37_bytes() {
    let keys = ssh_impl::crypto::dh::SessionKeys {
        encryption_key: [0; 32],
        mac_key: [0; 32],
        iv: [0; 12],
    };
    let mut sender = Session::new(keys).unwrap();
    let mut stream = MemoryStream::new(Vec::new());
    assert_eq!(sender.send_encrypted(&mut stream, b"hello"), Ok(()));
    let wire = stream.output();
    assert_eq!(wire.len(), 37);
    assert_eq!(&wire[..4], &[0, 0, 0, 33]);
    assert_eq!(wire[4], 7);
    assert_eq!(&wire[5..9], &[0, 0, 0, 21]);
    assert_eq!(&wire[30..], &[0; 7]);
}

#[test]
fn echo_reply_prefixes_the_message() {
    assert_eq!(echo_reply(b"hello"), Some(b"Echo: hello".to_vec()));
    assert_eq!(echo_reply(b""), Some(b"Echo: ".to_vec()));
    assert_eq!(echo_reply(b"exit "), Some(b"Echo: exit ".to_vec()));
    assert_eq!(echo_reply(b"EXIT"), Some(b"Echo: EXIT".to_vec()));
    assert_eq!(echo_reply(&[0xFF, 0x00]), Some(vec![b'E', b'c', b'h', b'o', b':', b' ', 0xFF, 0x00]));
}

#[test]
fn echo_reply_to_exit_is_none() {
    assert_eq!(echo_reply(b"exit"), None);
}

#[test]
fn echo_server_answers_until_exit() {
    let mut client = session();
    let mut wire = Vec::new();
    for message in [&b"hello"[..], b"again", b"exit", b"never read"] {
        wire.extend_from_slice(&sent_by(&mut client, message));
    }
    let unread = sent_by(&mut session(), b"x").len();
    let mut server = session();
    let mut stream = MemoryStream::new(wire);
    assert_eq!(serve_echo(&mut server, &mut stream), Ok(()));
    assert!(stream.remaining() > 0 && stream.remaining() >= unread);
    let mut replies = MemoryStream::new(stream.output().clone());
    assert_eq!(client.receive_encrypted(&mut replies), Ok(b"Echo: hello".to_vec()));
    assert_eq!(client.receive_encrypted(&mut replies), Ok(b"Echo: again".to_vec()));
    assert_eq!(replies.remaining(), 0);
}

#[test]
fn echo_server_ends_quietly_when_the_transport_closes() {
    let mut client = session();
    let mut server = session();
    let mut stream = MemoryStream::new(sent_by(&mut client, b"hello"));
    assert_eq!(serve_echo(&mut server, &mut stream), Ok(()));
    let mut replies = MemoryStream::new(stream.output().clone());
    assert_eq!(client.receive_encrypted(&mut replies), Ok(b"Echo: hello".to_vec()));
    let mut empty = MemoryStream::new(Vec::new());
    assert_eq!(serve_echo(&mut server, &mut empty), Ok(()));
    assert!(empty.output().is_empty());
}

#[test]
fn echo_server_ends_quietly_on_a_failed_authentication() {
    let mut client = session();
    let mut server = session();
    let mut wire = sent_by(&mut client, b"hello");
    let last = wire.len() - 9;
    wire[last] ^= 0x80;
    wire.extend_from_slice(&sent_by(&mut client, b"more"));
    let mut stream = MemoryStream::new(wire);
    assert_eq!(serve_echo(&mut server, &mut stream), Ok(()));
    assert!(stream.output().is_empty());
}

#[test]
fn echo_reply_over_the_receivers_limit_is_sent_all_the_same() {
    let mut client = session();
    let mut server = session();
    let mut stream = MemoryStream::new(sent_by(&mut client, &vec![b'a'; MAX_MESSAGE_LEN + 4]));
    assert_eq!(serve_echo(&mut server, &mut stream), Ok(()));
    assert_eq!(stream.output().len(), 4 + 1 + 4 + MAX_MESSAGE_LEN + 4 + 6 + 16 + 6);
    let mut replies = MemoryStream::new(stream.output().clone());
    assert_eq!(client.receive_encrypted(&mut replies), Err(SshError::MalformedFrame));
}

struct RefusesWrites(Vec<u8>);

impl ssh_impl::utils::stream::ReadWrite for RefusesWrites {
    fn read_exact(&mut self, n: usize) -> Option<Vec<u8>> {
        if n > self.0.len() {
            self.0.clear();
            return None;
        }
        let rest = self.0.split_off(n);
        Some(std::mem::replace(&mut self.0, rest))
    }

    fn write_all(&mut self, _data: &[u8]) -> bool {
        false
    }

    fn flush(&mut self) -> bool {
        false
    }
}

#[test]
fn refused_reply_is_a_write_failure() {
    let mut client = session();
    let mut server = session();
    let mut stream = RefusesWrites(sent_by(&mut client, b"hello"));
    assert_eq!(serve_echo(&mut server, &mut stream), Err(SshError::WriteFailed));
}

#[test]
fn closing_message_needs_no_write() {
    let mut client = session();
    let mut server = session();
    let mut stream = RefusesWrites(sent_by(&mut client, b"exit"));
    assert_eq!(serve_echo(&mut server, &mut stream), Ok(()));
    let mut stream = RefusesWrites(Vec::new());
    assert_eq!(serve_echo(&mut server, &mut stream), Ok(()));
}

#[test]
fn line_that_cannot_be_sent_is_an_error() {
    let mut client = session();
    let mut stream = RefusesWrites(Vec::new());
    assert_eq!(client_turn(&mut client, &mut stream, "hello"), Err(SshError::WriteFailed));
    assert_eq!(client_turn(&mut client, &mut stream, "  "), Ok(Turn::Skipped));
}

#[test]
fn blank_input_is_skipped() {
    let mut client = session();
    let mut stream = MemoryStream::new(Vec::new());
    for line in ["", " ", "\n", " \t\r\n"] {
        assert_eq!(client_turn(&mut client, &mut stream, line), Ok(Turn::Skipped));
    }
    assert!(stream.output().is_empty());
    assert_eq!(sent_by(&mut client, b"hello"), sent_by(&mut session(), b"hello"));
}

#[test]
fn exit_is_sent_and_ends_the_session() {
    let mut client = session();
    let mut stream = MemoryStream::new(Vec::new());
    assert_eq!(client_turn(&mut client, &mut stream, "exit\n"), Ok(Turn::Closed));
    let mut server = session();
    let mut to_server = MemoryStream::new(stream.output().clone());
    assert_eq!(server.receive_encrypted(&mut to_server), Ok(b"exit".to_vec()));
}

#[test]
fn input_is_sent_trimmed_and_the_answer_is_returned() {
    let mut server = session();
    let mut to_server = MemoryStream::new(sent_by(&mut session(), b"hello"));
    serve_echo(&mut server, &mut to_server).unwrap();
    let mut client = session();
    let mut stream = MemoryStream::new(to_server.output().clone());
    assert_eq!(
        client_turn(&mut client, &mut stream, "  hello \r\n"),
        Ok(Turn::Answered(b"Echo: hello".to_vec()))
    );
    assert_eq!(stream.output(), &sent_by(&mut session(), b"hello"));
}

#[test]
fn missing_answer_is_reported_after_the_message_was_sent() {
    let mut client = session();
    let mut stream = MemoryStream::new(Vec::new());
    assert_eq!(
        client_turn(&mut client, &mut stream, "hello"),
        Ok(Turn::Lost(SshError::MalformedFrame))
    );
    assert_eq!(stream.output(), &sent_by(&mut session(), b"hello"));
    let mut client = session();
    let mut stream = MemoryStream::new(framed(&[0, 0, 0, 16, 1, 2, 3, 4, 5, 6, 7, 8, 9, 10, 11, 12, 13, 14, 15, 16]));
    assert_eq!(
        client_turn(&mut client, &mut stream, "hello"),
        Ok(Turn::Lost(SshError::AuthFailed))
    );
}

#[test]
fn happy_path_session_echoes_and_closes() {
    let mut server = session();
    let mut client = session();
    let mut to_server = MemoryStream::new(Vec::new());
    let mut to_client = MemoryStream::new(Vec::new());

    let mut outbox = MemoryStream::new(Vec::new());
    client.send_encrypted(&mut outbox, b"hello").unwrap();
    to_server.feed(outbox.output());
    assert_eq!(serve_echo(&mut server, &mut to_server), Ok(()));
    to_client.feed(to_server.output());
    assert_eq!(client.receive_encrypted(&mut to_client), Ok(b"Echo: hello".to_vec()));

    assert_eq!(client_turn(&mut client, &mut to_client, "exit"), Ok(Turn::Closed));
    to_server.feed(to_client.output());
    let written_before = to_server.output().len();
    assert_eq!(serve_echo(&mut server, &mut to_server), Ok(()));
    assert_eq!(to_server.output().len(), written_before);
    assert_eq!(to_server.remaining(), 0);
}
