use thther::proto::handshake::{
    check_offset, client_recv, client_send, random_nonce, server_recv, server_send_err,
    server_send_ok, HandshakeError, Rejection, STATUS_BAD_OFFSET, STATUS_NO_SESSION,
    STATUS_VERSION_MISMATCH, VERSION,
};
use thther::proto::Step;

#[test]
fn a_hello_is_read_as_it_was_sent() {
    let hello = client_send("12345678", &[3; 32], 0x0102).unwrap();
    let mut expected = b"THT1\x0212345678".to_vec();
    expected.extend_from_slice(&[3; 32]);
    expected.extend_from_slice(&[0, 0, 0, 0, 0, 0, 1, 2]);
    assert_eq!(hello, expected);
    for k in 0..hello.len() {
        match server_recv(&hello[..k]).unwrap() {
            Step::Need(n) => assert!(0 < n && n <= hello.len() - k),
            Step::Done { .. } => panic!("read from {k} bytes"),
        }
    }
    let mut more = hello.clone();
    more.push(9);
    match server_recv(&more).unwrap() {
        Step::Done { value, used } => {
            assert_eq!(used, 53);
            assert_eq!(value.session_id, "12345678");
            assert_eq!(value.client_nonce, [3; 32]);
            assert_eq!(value.offset, 0x0102);
        }
        Step::Need(_) => panic!("a whole hello was not read"),
    }
}

#[test]
fn session_ids_are_eight_bytes_of_text() {
    assert_eq!(client_send("1234567", &[0; 32], 0), Err(HandshakeError::BadIdLength));
    assert_eq!(client_send("123456789", &[0; 32], 0), Err(HandshakeError::BadIdLength));
    // Eight bytes, not eight characters.
    assert!(client_send("\u{e9}\u{e9}\u{e9}\u{e9}", &[0; 32], 0).is_ok());
    let mut bad = b"THT1\x02".to_vec();
    bad.extend_from_slice(&[0xff; 8]);
    let error = server_recv(&bad).err().unwrap();
    assert_eq!(error, HandshakeError::BadId(u64::MAX));
    assert_eq!(error.message(), String::from_utf8(vec![0xff; 8]).unwrap_err().to_string());
    let mut cut = b"THT1\x02abcdefg".to_vec();
    cut.push(0xc3);
    let error = server_recv(&cut).err().unwrap();
    assert_eq!(error.message(), String::from_utf8(b"abcdefg\xc3".to_vec()).unwrap_err().to_string());
}

#[test]
fn strangers_and_other_versions_are_refused_early() {
    assert!(matches!(server_recv(b"HTTP"), Err(HandshakeError::BadMagic)));
    for version in [0, 1, VERSION + 1, 255] {
        let hello = [b'T', b'H', b'T', b'1', version];
        assert!(matches!(
            server_recv(&hello),
            Err(HandshakeError::Rejected(Rejection::VersionMismatch))
        ));
    }
}

#[test]
fn a_reply_is_read_as_it_was_sent() {
    let reply = server_send_ok(&[4; 32], 1 << 40);
    assert_eq!(reply.len(), 41);
    assert_eq!(reply[0], 0);
    for k in 0..reply.len() {
        assert!(matches!(client_recv(&reply[..k]), Ok(Step::Need(n)) if n <= reply.len() - k));
    }
    match client_recv(&reply).unwrap() {
        Step::Done { value, used } => {
            assert_eq!(value, ([4; 32], 1 << 40));
            assert_eq!(used, 41);
        }
        Step::Need(_) => panic!("a whole reply was not read"),
    }
}

#[test]
fn refusals_reach_the_client() {
    for (status, error) in [
        (STATUS_NO_SESSION, HandshakeError::NoSession),
        (STATUS_VERSION_MISMATCH, HandshakeError::Rejected(Rejection::VersionMismatch)),
        (STATUS_BAD_OFFSET, HandshakeError::Rejected(Rejection::BadOffset)),
        (77, HandshakeError::UnknownStatus(77)),
    ] {
        let reply = server_send_err(status);
        assert_eq!(reply, vec![status]);
        assert_eq!(client_recv(&reply).unwrap_err(), error);
    }
}

#[test]
fn a_client_cannot_be_ahead_of_the_session() {
    assert_eq!(check_offset(5, 5), Ok(()));
    assert_eq!(check_offset(6, 5), Err(Rejection::BadOffset));
}

#[test]
fn handshake_errors_read_as_documented() {
    assert_eq!(HandshakeError::BadIdLength.message(), "session id must be 8 chars");
    assert_eq!(HandshakeError::BadMagic.message(), "bad magic");
    assert_eq!(HandshakeError::NoSession.message(), "server: no such session");
    assert_eq!(HandshakeError::UnknownStatus(9).message(), "server: unknown status 9");
    assert_eq!(Rejection::VersionMismatch.message(), "protocol version mismatch");
    assert_eq!(
        HandshakeError::Rejected(Rejection::BadOffset).message(),
        "resume offset exceeds session output"
    );
}

#[test]
fn nonces_are_drawn_anew() {
    assert_ne!(random_nonce(), random_nonce());
}
