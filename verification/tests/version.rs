use ssh_impl::error::SshError;
use ssh_impl::protocol::version::{
    negotiate_version, parse_version, receive_version_string, send_version_string,
    CLIENT_VERSION, SERVER_VERSION, SUPPORTED_MAJOR,
};
use ssh_impl::utils::stream::MemoryStream;

#[test]
fn banners_are_the_documented_ones() {
    assert_eq!(SERVER_VERSION, "SSH-2.0-EduSSH-1.0");
    assert_eq!(CLIENT_VERSION, "SSH-2.0-EduSSH-Client-1.0");
    assert_eq!(SUPPORTED_MAJOR, 2);
}

#[test]
fn own_banners_announce_major_version_two() {
    assert_eq!(parse_version(SERVER_VERSION), Ok(2));
    assert_eq!(parse_version(CLIENT_VERSION), Ok(2));
    assert_eq!(negotiate_version(CLIENT_VERSION, SERVER_VERSION), Ok(()));
}

#[test]
fn major_version_is_read_from_well_shaped_banners() {
    assert_eq!(parse_version("SSH-2.0-OpenSSH_9.6"), Ok(2));
    assert_eq!(parse_version("SSH-1.99-legacy"), Ok(1));
    assert_eq!(parse_version("SSH-0.1-x"), Ok(0));
    assert_eq!(parse_version("SSH-255.0-x"), Ok(255));
    assert_eq!(parse_version("SSH-7.anything at all-rest-with-hyphens.and.dots"), Ok(7));
    assert_eq!(parse_version("SSH-2.-"), Ok(2));
}

#[test]
fn every_u8_is_read_from_a_banner_of_the_shape() {
    for major in 0u8..=255 {
        let banner = format!("SSH-{}.0-tag", major);
        assert_eq!(parse_version(&banner), Ok(major));
        let banner = format!("SSH-{}.x.y-a-b", major);
        assert_eq!(parse_version(&banner), Ok(major));
    }
}

#[test]
fn minor_version_and_tag_may_be_missing() {
    assert_eq!(parse_version("SSH-2"), Ok(2));
    assert_eq!(parse_version("SSH-2.0"), Ok(2));
    assert_eq!(parse_version("SSH-2-tag"), Ok(2));
    assert_eq!(parse_version("SSH-2-1.0"), Ok(2));
}

#[test]
fn major_version_is_read_as_the_standard_library_reads_a_u8() {
    assert_eq!(parse_version("SSH-+2.0-x"), Ok(2));
    assert_eq!(parse_version("SSH-002.0-x"), Ok(2));
    assert_eq!(parse_version("SSH-0000000000000000000255.0-x"), Ok(255));
    for text in ["", "+", "-", "+-1", "++1", "1+", " 1", "1 ", "256", "0256", "999999999999", "2a", "a2", "\u{0662}"] {
        let banner = format!("SSH-{}.0-x", text);
        let expected = text.split('-').next().unwrap().parse::<u8>().ok();
        assert_eq!(parse_version(&banner).ok(), expected, "{:?}", text);
    }
}

#[test]
fn malformed_banners_are_refused() {
    for banner in [
        "",
        "SSH",
        "SSH-",
        "ssh-2.0-x",
        "SSH_2.0-x",
        " SSH-2.0-x",
        "HTTP/1.1 200 OK",
        "SSH--2.0",
        "SSH-.0-x",
        "SSH-256.0-x",
        "SSH-two.0-x",
        "SSH-2x.0-x",
        "SSH- 2.0-x",
    ] {
        assert_eq!(parse_version(banner), Err(SshError::ProtocolError), "{:?}", banner);
    }
}

#[test]
fn negotiation_needs_major_version_two_on_both_sides() {
    assert_eq!(negotiate_version("SSH-2.0-a", "SSH-2.0-b"), Ok(()));
    assert_eq!(negotiate_version("SSH-2.9-a", "SSH-2.0-b"), Ok(()));
    assert_eq!(negotiate_version("SSH-1.99-a", "SSH-2.0-b"), Err(SshError::VersionMismatch));
    assert_eq!(negotiate_version("SSH-2.0-a", "SSH-1.99-b"), Err(SshError::VersionMismatch));
    assert_eq!(negotiate_version("SSH-1.0-a", "SSH-1.0-b"), Err(SshError::VersionMismatch));
    assert_eq!(negotiate_version("SSH-3.0-a", "SSH-3.0-b"), Err(SshError::VersionMismatch));
}

#[test]
fn negotiation_with_an_unreadable_banner_is_a_mismatch() {
    assert_eq!(negotiate_version("garbage", "SSH-2.0-b"), Err(SshError::VersionMismatch));
    assert_eq!(negotiate_version("SSH-2.0-a", ""), Err(SshError::VersionMismatch));
}

#[test]
fn version_mismatch_aborts_both_sides() {
    let client_banner = "SSH-1.99-EduSSH-Client-1.0";
    let server_banner = SERVER_VERSION;
    assert_eq!(negotiate_version(client_banner, server_banner), Err(SshError::VersionMismatch));
}

#[test]
fn banner_is_sent_with_crlf() {
    let mut stream = MemoryStream::new(Vec::new());
    assert_eq!(send_version_string(&mut stream, true), Ok(()));
    assert_eq!(stream.output(), &b"SSH-2.0-EduSSH-1.0\r\n".to_vec());
    let mut stream = MemoryStream::new(Vec::new());
    assert_eq!(send_version_string(&mut stream, false), Ok(()));
    assert_eq!(stream.output(), &b"SSH-2.0-EduSSH-Client-1.0\r\n".to_vec());
}

#[test]
fn banner_is_received_without_crlf() {
    let mut stream = MemoryStream::new(b"SSH-2.0-EduSSH-1.0\r\n\x00\x00".to_vec());
    assert_eq!(receive_version_string(&mut stream), Ok("SSH-2.0-EduSSH-1.0".to_string()));
    assert_eq!(stream.remaining(), 2);
}

#[test]
fn banner_that_ends_early_is_short_read() {
    let mut stream = MemoryStream::new(b"SSH-2.0-EduSSH-1.0".to_vec());
    assert_eq!(receive_version_string(&mut stream), Err(SshError::ShortRead));
}

#[test]
fn sent_banner_is_received_by_the_peer() {
    let mut server = MemoryStream::new(Vec::new());
    assert_eq!(send_version_string(&mut server, true), Ok(()));
    let mut client = MemoryStream::new(server.output().clone());
    let received = receive_version_string(&mut client).unwrap();
    assert_eq!(received, SERVER_VERSION);
    assert_eq!(negotiate_version(CLIENT_VERSION, &received), Ok(()));
}
