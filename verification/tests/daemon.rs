use thther::config::{Config, Port};
use thther::proto::control::{ControlRequest, ControlResponse};
use thther::proto::crypto::{
    derive_key, Opener, Sealer, DIR_CLIENT_TO_SERVER, DIR_SERVER_TO_CLIENT,
};
use thther::proto::frame::{read_frame, write_frame, Frame, MAX_OUTPUT_BYTES};
use thther::proto::handshake::{self, HandshakeError, Rejection};
use thther::proto::Step;
use thther::server::admission::{
    authenticate, handle_tcp, handle_tcp_with, AuthStep, Authenticated, Greeting, Pending,
};
use thther::server::daemon::{
    activate, bind_failure, bind_tcp, bind_tcp_in_range, execute_control, execute_control_with,
    finish_create, fresh_id, new_session_id, server_reader, ControlAction, ReaderAction,
    ServerWriter, Wakeup, WriterAction,
};
use thther::server::registry::Registry;
use thther::server::session::{spawn_session, PtyMsg, SessionShared};

fn respond(action: ControlAction) -> ControlResponse {
    match action {
        ControlAction::Respond(r) => r,
        ControlAction::Kill { response, .. } => response,
        ControlAction::Spawn { .. } => panic!("a shell was to be started"),
    }
}

fn failure(action: ControlAction) -> String {
    match action {
        ControlAction::Respond(ControlResponse::Failure { message }) => message,
        _ => panic!("the request was accepted"),
    }
}

fn on_port(port: u16, request: ControlRequest) -> ControlRequest {
    ControlRequest::OnPort { port, request: Box::new(request) }
}

fn on_protocol(version: u8, request: ControlRequest) -> ControlRequest {
    ControlRequest::OnProtocol { version, request: Box::new(request) }
}

fn attach(id: &str) -> ControlRequest {
    on_protocol(handshake::VERSION, ControlRequest::Attach { id: id.to_string() })
}

fn hello(id: &str, offset: u64) -> Vec<u8> {
    handshake::client_send(id, &[1; 32], offset).unwrap()
}

fn accepted(g: Greeting) -> (Vec<u8>, Pending) {
    match g {
        Greeting::Accept { reply, pending } => (reply, pending),
        other => panic!("{}", refused(other).1),
    }
}

/// A peer of the session that has proved that it knows the key.
fn peer(registry: &Registry, id: &str) -> Authenticated {
    let key = registry.get(id).unwrap().current_psk();
    let (_, pending) = accepted(handle_tcp_with(&hello(id, 0), registry, &[2; 32]));
    let client = derive_key(&key, &[1; 32], &[2; 32]);
    let mut wire = Vec::new();
    write_frame(&mut wire, &mut Sealer::new(&client, DIR_CLIENT_TO_SERVER), &Frame::Hello)
        .unwrap();
    match authenticate(pending, &wire) {
        AuthStep::Accept { peer, .. } => peer,
        _ => panic!("not let in"),
    }
}

/// A peer of a session like this one.
fn peer_of(session: &SessionShared) -> Authenticated {
    let mut registry = Registry::new();
    spawn_session(session.id().into(), "sh", 0, 1, &mut registry);
    peer(&registry, session.id())
}

/// Change a session in the registry.
fn change<R>(registry: &mut Registry, id: &str, f: impl FnOnce(&mut SessionShared) -> R) -> R {
    let mut session = registry.remove(id).unwrap();
    let r = f(&mut session);
    registry.insert(session);
    r
}

fn refused(g: Greeting) -> (Vec<u8>, String) {
    match g {
        Greeting::Refuse { reply, reason } => (reply, reason),
        Greeting::Accept { .. } => panic!("accepted"),
        Greeting::Read(n) => panic!("{n} bytes are missing"),
    }
}

#[test]
fn occupied_fixed_port_never_falls_back_to_range() {
    let port = 62000;
    let cfg = Config { port: Port::new(port), ..Config::default() };
    assert_eq!(bind_tcp(&cfg).unwrap(), vec![port]);
    assert_eq!(bind_failure(&cfg, "in use"), format!("bind TCP port {port}: in use"));
}

#[test]
fn invalid_ranges_are_rejected() {
    for range in [[0, 0], [0, 60000], [61000, 60000]] {
        assert!(bind_tcp_in_range(range)
            .unwrap_err()
            .to_string()
            .contains("invalid TCP port range"));
    }
    assert_eq!(
        bind_tcp_in_range([61000, 60000]).unwrap_err(),
        "invalid TCP port range 61000-60000; expected 1 <= low <= high <= 65535"
    );
}

#[test]
fn a_range_is_tried_in_order() {
    assert_eq!(bind_tcp_in_range([65533, 65535]).unwrap(), vec![65533, 65534, 65535]);
    assert_eq!(bind_tcp_in_range([5, 5]).unwrap(), vec![5]);
    let cfg = Config { port_range: [7, 9], ..Config::default() };
    assert_eq!(bind_tcp(&cfg).unwrap(), vec![7, 8, 9]);
    assert_eq!(bind_failure(&cfg, "in use"), "no free TCP port in range 7-9");
}

#[test]
fn wrong_port_preserves_sessions_and_keys() {
    let mut registry = Registry::new();
    let cfg = Config::default();
    let key = spawn_session("port-test".into(), "/bin/sh", 0, cfg.ring_bytes, &mut registry);
    for request in [
        ControlRequest::Create { cols: 80, rows: 24 },
        ControlRequest::Attach { id: "port-test".into() },
        ControlRequest::Ls,
        ControlRequest::Kill { id: "port-test".into() },
    ] {
        let message = failure(execute_control(on_port(62001, request), &mut registry, 62000));
        assert!(message.contains("62000") && message.contains("62001"));
        assert_eq!(
            message,
            "daemon is listening on TCP port 62000, but TCP port 62001 was requested; \
             use port 62000 or manually restart the daemon to change ports \
             (restarting ends its sessions)"
        );
        assert_eq!(registry.list().len(), 1);
        let session = registry.get("port-test").unwrap();
        assert_eq!(session.current_psk(), key);
        assert!(!session.is_ended());
    }
    let response =
        respond(execute_control(on_port(62000, attach("port-test")), &mut registry, 62000));
    match response {
        ControlResponse::Bootstrap { port, id, psk_hex } => {
            assert_eq!(port, 62000);
            assert_eq!(id, "port-test");
            assert_eq!(psk_hex, hex::encode(registry.get("port-test").unwrap().current_psk()));
        }
        _ => panic!("the attach was refused"),
    }
    assert_ne!(registry.get("port-test").unwrap().current_psk(), key);
    assert!(matches!(
        respond(execute_control(ControlRequest::Ls, &mut registry, 62000)),
        ControlResponse::Ls { sessions } if sessions.len() == 1
    ));
}

#[test]
fn protocol_rejection_preserves_sessions_and_keys() {
    let mut registry = Registry::new();
    let key = spawn_session("protocol".into(), "/bin/sh", 0, 128, &mut registry);
    for version in [None, Some(1), Some(handshake::VERSION + 1)] {
        for mut request in [
            ControlRequest::Create { cols: 80, rows: 24 },
            ControlRequest::Attach { id: "protocol".into() },
        ] {
            if let Some(version) = version {
                request = on_protocol(version, request);
            }
            // A correct outer wrapper must not hide an incorrect inner one.
            if version.is_some() {
                request = on_protocol(handshake::VERSION, request);
            }
            let message = failure(execute_control(request, &mut registry, 62000));
            assert!(message.contains("protocol version mismatch"));
            assert_eq!(registry.list().len(), 1);
            let session = registry.get("protocol").unwrap();
            assert_eq!(session.current_psk(), key);
            assert!(!session.is_busy());
        }
    }
}

#[test]
fn wrong_port_requests_leave_the_running_daemon_intact() {
    let mut registry = Registry::new();
    let key = spawn_session("12345678".into(), "/bin/sh", 0, 16, &mut registry);
    let (wanted, wrong) = (62000, 62001);
    for request in [
        on_protocol(handshake::VERSION, ControlRequest::Create { cols: 80, rows: 24 }),
        attach("12345678"),
        ControlRequest::Ls,
        ControlRequest::Kill { id: "12345678".into() },
    ] {
        let error = failure(execute_control(on_port(wrong, request), &mut registry, wanted));
        assert!(error.contains("62000") && error.contains("62001"), "{error}");
        let listed = registry.list();
        assert_eq!(listed.len(), 1);
        assert_eq!(listed[0].id, "12345678");
        assert_eq!(registry.get("12345678").unwrap().current_psk(), key);
    }
}

#[test]
fn create_starts_a_shell_on_a_terminal_that_has_cells() {
    let mut registry = Registry::new();
    for (cols, rows, expected) in [(80, 24, (80, 24)), (0, 0, (1, 1)), (0, 7, (1, 7))] {
        let request = on_protocol(handshake::VERSION, ControlRequest::Create { cols, rows });
        match execute_control(request, &mut registry, 1) {
            ControlAction::Spawn { cols, rows } => assert_eq!((cols, rows), expected),
            _ => panic!("no shell was to be started"),
        }
        assert!(registry.list().is_empty());
    }
}

#[test]
fn create_is_finished_by_registering_the_session() {
    let mut registry = Registry::new();
    let response =
        finish_create(Ok(()), "0000abcd".into(), "/bin/zsh", 42, 10, &mut registry, 62000);
    match response {
        ControlResponse::Bootstrap { port, id, psk_hex } => {
            assert_eq!((port, id.as_str()), (62000, "0000abcd"));
            assert_eq!(psk_hex, hex::encode(registry.get("0000abcd").unwrap().current_psk()));
        }
        _ => panic!("the session was not created"),
    }
    let listed = registry.list();
    assert_eq!(listed.len(), 1);
    assert_eq!(listed[0].started, 42);
    assert_eq!(listed[0].cmd, "/bin/zsh");
    assert_eq!(listed[0].status, "detached");
    let response =
        finish_create(Err("no pty".into()), "11111111".into(), "sh", 0, 10, &mut registry, 1);
    assert!(matches!(
        response,
        ControlResponse::Failure { message } if message == "spawn failed: no pty"
    ));
    assert_eq!(registry.list().len(), 1);
}

#[test]
fn attach_needs_a_free_session_and_rotates_its_key() {
    let mut registry = Registry::new();
    let key = spawn_session("12345678".into(), "/bin/sh", 0, 16, &mut registry);
    assert_eq!(failure(execute_control(attach("nobody"), &mut registry, 1)), "no such session");
    let active = peer(&registry, "12345678");
    let epoch = change(&mut registry, "12345678", |s| s.become_active(active));
    assert_eq!(
        failure(execute_control(attach("12345678"), &mut registry, 1)),
        "session busy (already attached)"
    );
    assert_eq!(registry.get("12345678").unwrap().current_psk(), key);
    change(&mut registry, "12345678", |s| s.leave(epoch));
    let fresh = [0xab; 32];
    match execute_control_with(attach("12345678"), &mut registry, 5, fresh) {
        ControlAction::Respond(ControlResponse::Bootstrap { port, id, psk_hex }) => {
            assert_eq!(port, 5);
            assert_eq!(id, "12345678");
            assert_eq!(psk_hex, "ab".repeat(32));
        }
        _ => panic!("a free session was refused"),
    }
    assert_eq!(registry.get("12345678").unwrap().current_psk(), fresh);
    change(&mut registry, "12345678", |s| s.mark_ended());
    assert_eq!(failure(execute_control(attach("12345678"), &mut registry, 1)), "session ended");
}

#[test]
fn kill_and_ls_need_no_protocol() {
    let mut registry = Registry::new();
    assert!(matches!(
        respond(execute_control(ControlRequest::Ls, &mut registry, 1)),
        ControlResponse::Ls { sessions } if sessions.is_empty()
    ));
    let kill = || ControlRequest::Kill { id: "12345678".into() };
    assert_eq!(failure(execute_control(kill(), &mut registry, 1)), "no such session");
    spawn_session("12345678".into(), "/bin/sh", 0, 16, &mut registry);
    match execute_control(kill(), &mut registry, 1) {
        ControlAction::Kill { id, response } => {
            assert_eq!(id, "12345678");
            assert!(matches!(response, ControlResponse::Success));
        }
        _ => panic!("the session was not to be killed"),
    }
}

#[test]
fn sessions_are_listed_oldest_first() {
    let mut registry = Registry::new();
    for (id, started) in
        [("c0000000", 30), ("a0000000", 10), ("d0000000", 40), ("b0000000", 20), ("e0000000", 40)]
    {
        registry.insert(SessionShared::new(id.into(), "sh", started, 1, [0; 32]));
    }
    let active = peer(&registry, "b0000000");
    change(&mut registry, "b0000000", |s| s.become_active(active));
    let listed = registry.list();
    let started: Vec<u64> = listed.iter().map(|s| s.started).collect();
    assert_eq!(started, [10, 20, 30, 40, 40]);
    let mut ids: Vec<&str> = listed.iter().map(|s| &s.id[..1]).collect();
    assert_eq!(&ids[..3], ["a", "b", "c"]);
    ids.sort();
    assert_eq!(ids, ["a", "b", "c", "d", "e"]);
    assert_eq!(listed[1].status, "attached");
    assert_eq!(listed[0].status, "detached");
}

#[test]
fn the_registry_is_a_table_by_id() {
    let mut registry = Registry::new();
    assert!(!registry.contains("a"));
    assert!(registry.get("a").is_none());
    assert!(registry.remove("a").is_none());
    registry.insert(SessionShared::new("a".into(), "one", 1, 1, [1; 32]));
    registry.insert(SessionShared::new("b".into(), "two", 2, 1, [2; 32]));
    registry.insert(SessionShared::new("a".into(), "three", 3, 1, [3; 32]));
    assert_eq!(registry.list().len(), 2);
    assert_eq!(registry.get("a").unwrap().cmd(), "three");
    assert_eq!(registry.get("b").unwrap().cmd(), "two");
    assert_eq!(registry.get("b").unwrap().id(), "b");
    assert_eq!(registry.get("b").unwrap().started(), 2);
    assert_eq!(registry.remove("a").unwrap().cmd(), "three");
    assert!(!registry.contains("a") && registry.contains("b"));
    let over = registry.mark_ended("b").unwrap();
    assert!(over.is_ended());
    assert!(registry.mark_ended("b").is_none());
    assert!(registry.list().is_empty());
}

#[test]
fn drawn_ids_are_eight_digits_and_free() {
    let mut registry = Registry::new();
    assert_eq!(fresh_id(&registry, 0xabc).unwrap(), "00000abc");
    registry.insert(SessionShared::new("00000abc".into(), "sh", 0, 1, [0; 32]));
    // One that is taken makes way for the next; after the last comes the first.
    assert_eq!(fresh_id(&registry, 0xabc).unwrap(), "00000abd");
    registry.insert(SessionShared::new("ffffffff".into(), "sh", 0, 1, [0; 32]));
    assert_eq!(fresh_id(&registry, u32::MAX).unwrap(), "00000000");
    let id = new_session_id(&registry).unwrap();
    assert_eq!(id.len(), 8);
    assert!(id.bytes().all(|b| b.is_ascii_hexdigit()));
    assert!(handshake::client_send(&id, &[0; 32], 0).is_ok());
    assert_ne!(new_session_id(&registry), Some(id));
}

#[test]
fn a_hello_is_refused_without_touching_the_session() {
    let mut registry = Registry::new();
    let key = spawn_session("12345678".into(), "/bin/sh", 0, 16, &mut registry);
    change(&mut registry, "12345678", |s| s.append(b"output"));
    assert!(matches!(handle_tcp(&[], &registry), Greeting::Read(4)));
    assert!(matches!(handle_tcp(&hello("12345678", 0)[..50], &registry), Greeting::Read(3)));
    assert_eq!(
        refused(handle_tcp(&hello("87654321", 0), &registry)),
        (vec![handshake::STATUS_NO_SESSION], "no such session 87654321".to_string())
    );
    assert_eq!(
        refused(handle_tcp(&hello("12345678", 7), &registry)),
        (
            vec![handshake::STATUS_BAD_OFFSET],
            "resume offset exceeds session output".to_string()
        )
    );
    assert_eq!(
        refused(handle_tcp(b"THT1\x03", &registry)),
        (
            vec![handshake::STATUS_VERSION_MISMATCH],
            "protocol version mismatch".to_string()
        )
    );
    assert_eq!(
        refused(handle_tcp(b"HTTP/1.1", &registry)),
        (Vec::new(), "bad magic".to_string())
    );
    let session = registry.get("12345678").unwrap();
    assert_eq!(session.current_psk(), key);
    assert!(!session.is_busy());
    change(&mut registry, "12345678", |s| s.mark_ended());
    assert_eq!(
        refused(handle_tcp(&hello("12345678", 0), &registry)).0,
        vec![handshake::STATUS_NO_SESSION]
    );
    // Ending it again changes nothing.
    assert!(registry.mark_ended("12345678").is_none());
    assert!(registry.contains("12345678"));
    // Once it has left the table, it can be neither resumed nor attached to.
    assert!(registry.remove("12345678").is_some());
    assert_eq!(
        refused(handle_tcp(&hello("12345678", 0), &registry)).0,
        vec![handshake::STATUS_NO_SESSION]
    );
    assert_eq!(failure(execute_control(attach("12345678"), &mut registry, 1)), "no such session");
}

#[test]
fn only_a_client_that_knows_the_key_is_let_in() {
    let mut registry = Registry::new();
    let key = spawn_session("12345678".into(), "/bin/sh", 0, 16, &mut registry);
    for (psk, frame, good) in [
        (key, Frame::Hello, true),
        ([0; 32], Frame::Hello, false),
        (key, Frame::Ping, false),
    ] {
        let before = registry.get("12345678").unwrap().epoch();
        let (reply, pending) =
            accepted(handle_tcp_with(&hello("12345678", 0), &registry, &[2; 32]));
        assert_eq!(pending.id(), "12345678");
        let nonce = match handshake::client_recv(&reply).unwrap() {
            Step::Done { value: (nonce, total), .. } => {
                assert_eq!(total, 0);
                nonce
            }
            Step::Need(_) => panic!("half a reply"),
        };
        assert_eq!(nonce, [2; 32]);
        let client = derive_key(&psk, &[1; 32], &nonce);
        let mut wire = Vec::new();
        write_frame(&mut wire, &mut Sealer::new(&client, DIR_CLIENT_TO_SERVER), &frame).unwrap();
        let pending = match authenticate(pending, &wire[..3]) {
            AuthStep::Read { pending, need: 1 } => pending,
            _ => panic!("judged too early"),
        };
        match authenticate(pending, &wire) {
            AuthStep::Accept { peer, reply, used, .. } => {
                assert!(good);
                assert_eq!(used, wire.len());
                assert!(matches!(
                    read_frame(&reply, &mut Opener::new(&client, DIR_SERVER_TO_CLIENT)),
                    Ok(Step::Done { value: Frame::Hello, .. })
                ));
                assert_eq!((peer.id(), peer.offset()), ("12345678", 0));
                let writer =
                    change(&mut registry, "12345678", |s| activate(s, peer)).unwrap();
                assert_eq!(writer.epoch, before + 1);
            }
            AuthStep::Read { .. } => panic!("asked for more"),
            AuthStep::Refuse { reason } => {
                assert!(!good);
                assert_eq!(reason, "auth failed");
                assert_eq!(registry.get("12345678").unwrap().epoch(), before);
            }
        }
    }
}

#[test]
fn a_peer_of_another_session_is_not_activated() {
    let mut registry = Registry::new();
    spawn_session("12345678".into(), "sh", 0, 1, &mut registry);
    let mut other = SessionShared::new("87654321".into(), "sh", 0, 1, [0; 32]);
    assert!(activate(&mut other, peer(&registry, "12345678")).is_none());
    assert_eq!(other.epoch(), 0);
    assert!(!other.is_busy());
}

#[test]
fn client_frames_reach_the_pty() {
    let session = SessionShared::new("12345678".into(), "sh", 0, 1, [0; 32]);
    assert!(matches!(
        server_reader(Frame::Data(b"ls\n".to_vec()), &session),
        ReaderAction::Tell(PtyMsg::Input(b)) if b == b"ls\n"
    ));
    assert!(matches!(
        server_reader(Frame::Resize { cols: 3, rows: 4 }, &session),
        ReaderAction::Tell(PtyMsg::Resize { cols: 3, rows: 4 })
    ));
    assert!(matches!(server_reader(Frame::Ping, &session), ReaderAction::Pong));
    for frame in [Frame::Pong, Frame::Ack(5), Frame::Hello, Frame::Ended] {
        assert!(matches!(server_reader(frame, &session), ReaderAction::Nothing));
    }
}

#[test]
fn the_writer_sends_waits_ends_and_yields() {
    let mut session = SessionShared::new("12345678".into(), "sh", 0, 4, [0; 32]);
    let active = peer_of(&session);
    let mut writer = activate(&mut session, active).unwrap();
    assert_eq!((writer.cursor, writer.epoch), (0, 1));
    assert!(matches!(writer.step(&session), WriterAction::Wait));
    session.append(b"abcdef");
    match writer.step(&session) {
        WriterAction::Send(Frame::Output { offset, data }) => {
            assert_eq!((offset, data), (2, b"cdef".to_vec()));
        }
        _ => panic!("nothing was sent"),
    }
    assert_eq!(writer.cursor, 6);
    session.mark_ended();
    assert!(matches!(writer.step(&session), WriterAction::SendLast(Frame::Ended)));
    let active = peer_of(&session);
    session.become_active(active);
    assert!(matches!(writer.step(&session), WriterAction::Stop));
    // A session that retains nothing still reports the gap.
    let mut session = SessionShared::new("12345678".into(), "sh", 0, 0, [0; 32]);
    let active = peer_of(&session);
    let mut writer = activate(&mut session, active).unwrap();
    session.append(b"gone");
    assert!(matches!(
        writer.step(&session),
        WriterAction::Send(Frame::Output { offset: 4, data }) if data.is_empty()
    ));
    assert!(matches!(ServerWriter::woken(Wakeup::DataReady), WriterAction::Proceed));
    assert!(matches!(ServerWriter::woken(Wakeup::PongWanted), WriterAction::Send(Frame::Pong)));
    assert!(matches!(ServerWriter::woken(Wakeup::ReaderGone), WriterAction::Stop));
    assert!(matches!(ServerWriter::woken(Wakeup::Tick), WriterAction::Send(Frame::Ping)));
}

#[test]
fn a_takeover_keeps_the_session_busy() {
    let mut session = SessionShared::new("12345678".into(), "sh", 0, 4, [0; 32]);
    assert!(!session.is_busy());
    let (a, b) = (peer_of(&session), peer_of(&session));
    let first = session.become_active(a);
    let second = session.become_active(b);
    assert_eq!(session.epoch(), second);
    assert!(!session.is_current(first) && session.is_current(second));
    session.leave(first);
    assert!(session.is_busy());
    assert_eq!(session.status_str(), "attached");
    session.leave(second);
    assert!(!session.is_busy());
    assert_eq!(session.status_str(), "detached");
    let active = peer_of(&session);
    session.become_active(active);
    assert!(session.mark_ended());
    assert!(!session.mark_ended());
    assert!(!session.is_busy());
    let old = session.current_psk();
    assert_eq!(session.rotate_psk(), session.current_psk());
    assert_ne!(session.current_psk(), old);
}

#[test]
fn real_pty_replay_uses_absolute_offsets_across_tcp_reconnects() {
    let mut registry = Registry::new();
    let key_before = spawn_session("12345678".into(), "/bin/sh", 0, 256, &mut registry);
    let marker = b"\r\n__OUTPUT_DONE__\r\n";
    let query = b"\x1b]10;?\x07";
    let mut shell_output = vec![b'0'; 1024];
    shell_output.extend_from_slice(b"\x1b]10;?\x07\x1b[6n\x1b[?12$p");
    shell_output.extend_from_slice(marker);
    change(&mut registry, "12345678", |s| s.append(&shell_output));
    assert!(registry.get("12345678").unwrap().current_total() > 256);
    // Version rejection must not make the session busy or rotate keys.
    let (reply, _) = refused(handle_tcp(b"THT1\x01", &registry));
    assert!(matches!(
        handshake::client_recv(&reply),
        Err(HandshakeError::Rejected(Rejection::VersionMismatch))
    ));
    let (reply, _) = refused(handle_tcp(&hello("12345678", u64::MAX), &registry));
    assert!(matches!(
        handshake::client_recv(&reply),
        Err(HandshakeError::Rejected(Rejection::BadOffset))
    ));
    assert_eq!(registry.get("12345678").unwrap().current_psk(), key_before);
    assert!(!registry.get("12345678").unwrap().is_busy());
    let mut cursor = 0;
    let mut query_count = 0;
    for connection in 0..3 {
        let nonce = handshake::random_nonce();
        let sent = handshake::client_send("12345678", &nonce, cursor).unwrap();
        let (reply, pending) = accepted(handle_tcp(&sent, &registry));
        let server_nonce = match handshake::client_recv(&reply).unwrap() {
            Step::Done { value, .. } => value.0,
            Step::Need(_) => panic!("half a reply"),
        };
        let key = derive_key(&key_before, &nonce, &server_nonce);
        let mut sealer = Sealer::new(&key, DIR_CLIENT_TO_SERVER);
        let mut opener = Opener::new(&key, DIR_SERVER_TO_CLIENT);
        let mut wire = Vec::new();
        write_frame(&mut wire, &mut sealer, &Frame::Hello).unwrap();
        let (peer, answer, mut server_sealer) = match authenticate(pending, &wire) {
            AuthStep::Accept { peer, reply, sealer, .. } => (peer, reply, sealer),
            _ => panic!("not let in"),
        };
        assert!(matches!(
            read_frame(&answer, &mut opener),
            Ok(Step::Done { value: Frame::Hello, .. })
        ));
        let mut writer = change(&mut registry, "12345678", |s| activate(s, peer)).unwrap();
        let epoch = writer.epoch;
        let mut output = Vec::new();
        loop {
            let frame = match writer.step(registry.get("12345678").unwrap()) {
                WriterAction::Send(frame) => frame,
                WriterAction::Wait => break,
                _ => panic!("the writer stopped"),
            };
            let mut wire = Vec::new();
            write_frame(&mut wire, &mut server_sealer, &frame).unwrap();
            match read_frame(&wire, &mut opener).unwrap() {
                Step::Done { value: Frame::Output { offset, data }, .. } => {
                    assert!(data.len() <= MAX_OUTPUT_BYTES);
                    if connection == 0 && cursor == 0 {
                        assert!(offset > 0);
                    } else {
                        assert_eq!(offset, cursor, "replayed already received output");
                    }
                    cursor = offset + data.len() as u64;
                    output.extend(data);
                }
                other => panic!("unexpected frame {other:?}"),
            }
        }
        change(&mut registry, "12345678", |s| s.leave(epoch));
        query_count += output.windows(query.len()).filter(|w| *w == query).count();
        assert_eq!(query_count, 1);
        if connection != 0 {
            assert!(output.is_empty(), "idle shell output replayed");
        }
    }
}
