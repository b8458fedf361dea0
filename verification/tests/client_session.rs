use thther::client::session::{
    client_reader, client_writer, establish, open_connection, settle, take_reply,
    take_server_hello, ConnectError, Delivery, DriveStep, Driver, FatalSessionError, Incoming,
    InputFilter, Outcome, ProtocolError, ReaderStep, SessionOutput, WriterEvent, WriterStep,
    DETACH_KEY, DETACH_PREFIX,
};
use thther::proto::crypto::{
    derive_key, Opener, Sealer, DIR_CLIENT_TO_SERVER, DIR_SERVER_TO_CLIENT,
};
use thther::proto::frame::{read_frame, write_frame, Frame};
use thther::proto::handshake::{self, Rejection};
use thther::proto::Step;
use thther::server::daemon::{ServerWriter, WriterAction};
use thther::server::session::SessionShared;

const QUERIES: &[u8] = b"\x1b]10;?\x07\x1b]11;?\x1b\\\x1b[6n\x1b[?12$p";

const QUERY_REPLIES: [(&[u8], &[u8]); 4] = [
    (b"\x1b]10;?\x07", b"\x1b]10;rgb:cccc/dddd/eeee\x07"),
    (b"\x1b]11;?\x1b\\", b"\x1b]11;rgb:0000/0000/0000\x1b\\"),
    (b"\x1b[6n", b"\x1b[2;3R"),
    (b"\x1b[?12$p", b"\x1b[?12;2$y"),
];

/// A terminal that takes all that it is given.
struct Screen {
    bytes: Vec<u8>,
    output: SessionOutput,
}

impl Screen {
    fn new() -> Self {
        Screen { bytes: Vec::new(), output: SessionOutput::new() }
    }

    fn deliver(&mut self, d: Delivery) {
        self.bytes.extend_from_slice(&d.bytes);
        self.output.commit(&d);
    }

    fn accept(&mut self, offset: u64, data: &[u8]) -> Result<(), FatalSessionError> {
        if let Some(d) = self.output.accept(offset, data)? {
            self.deliver(d);
        }
        Ok(())
    }
}

fn done<T>(step: Step<T>) -> T {
    match step {
        Step::Done { value, .. } => value,
        Step::Need(n) => panic!("{n} bytes are missing"),
    }
}

/// A terminal that answers the queries written to it.
struct ReplyingTerminal {
    screen: Screen,
    replies: [usize; 4],
    input: Vec<Vec<u8>>,
}

impl ReplyingTerminal {
    fn deliver(&mut self, d: Delivery) {
        // Deliberately split queries across stdout writes.
        for piece in d.bytes.chunks(2) {
            self.screen.bytes.extend_from_slice(piece);
            for (i, (query, reply)) in QUERY_REPLIES.iter().enumerate() {
                let count =
                    self.screen.bytes.windows(query.len()).filter(|w| *w == *query).count();
                for _ in self.replies[i]..count {
                    self.input.push(reply.to_vec());
                }
                self.replies[i] = count;
            }
        }
        self.screen.output.commit(&d);
    }
}

#[test]
fn reconnect_at_shell_prompt_does_not_generate_extra_terminal_replies() {
    let psk = [7; 32];
    let base = 1_000_000;
    let prompt = b"\r\nbash$ ";
    let first_end = base + (QUERIES.len() + prompt.len()) as u64;
    let mut terminal =
        ReplyingTerminal { screen: Screen::new(), replies: [0; 4], input: Vec::new() };
    for connection in 0..4 {
        // Both sides greet each other.
        let client_nonce = handshake::random_nonce();
        let offset = terminal.screen.output.received;
        let sent =
            open_connection("12345678", &client_nonce, &terminal.screen.output).ok().unwrap();
        let hello = done(handshake::server_recv(&sent).unwrap());
        assert_eq!(hello.offset, if connection == 0 { 0 } else { first_end });
        let nonce = handshake::random_nonce();
        let reply = handshake::server_send_ok(&nonce, first_end);
        let key = derive_key(&psk, &hello.client_nonce, &nonce);
        let mut server_opener = Opener::new(&key, DIR_CLIENT_TO_SERVER);
        let mut server_sealer = Sealer::new(&key, DIR_SERVER_TO_CLIENT);
        let keyed = done(take_reply(&reply, &psk, &client_nonce, offset).ok().unwrap());
        let (mut sealer, mut opener) = (keyed.sealer, keyed.opener);
        let greeting = done(read_frame(&keyed.hello, &mut server_opener).unwrap());
        assert!(matches!(greeting, Frame::Hello));
        let mut wire = Vec::new();
        write_frame(&mut wire, &mut server_sealer, &Frame::Hello).unwrap();
        let size = take_server_hello(&wire, &mut opener, &mut sealer, Some((80, 24)));
        assert!(matches!(
            done(read_frame(&done(size.ok().unwrap()), &mut server_opener).unwrap()),
            Frame::Resize { cols: 80, rows: 24 }
        ));
        // What the server sends on this connection.
        let mut sends = Vec::new();
        if connection == 0 || connection == 3 {
            let mut data = QUERIES.to_vec();
            if connection == 0 {
                data.extend_from_slice(prompt);
            }
            let offset = if connection == 0 { base } else { first_end };
            sends.push(Frame::Output { offset, data });
        }
        sends.push(Frame::Ping);
        if connection == 3 {
            sends.push(Frame::Ended);
        }
        let mut filter = InputFilter::new();
        let mut outcome = Outcome::Disconnected;
        let mut replies = Vec::new();
        let mut pongs = 0;
        for frame in sends {
            let mut wire = Vec::new();
            write_frame(&mut wire, &mut server_sealer, &frame).unwrap();
            let frame = done(read_frame(&wire, &mut opener).unwrap());
            let mut events = Vec::new();
            match client_reader(Incoming::Frame(frame), &terminal.screen.output) {
                ReaderStep::Deliver(d) => terminal.deliver(d),
                ReaderStep::Pong => events.push(WriterEvent::PongWanted),
                ReaderStep::Nothing => {}
                ReaderStep::Finish(o) => outcome = o,
                ReaderStep::Fail(e) => panic!("{}", e.message()),
            }
            events.extend(terminal.input.drain(..).map(WriterEvent::Input));
            for event in events {
                let frames = match client_writer(&mut filter, event) {
                    WriterStep::Send(frames) => frames,
                    WriterStep::Finish(_) => panic!("the client finished"),
                };
                for frame in frames {
                    let mut wire = Vec::new();
                    write_frame(&mut wire, &mut sealer, &frame).unwrap();
                    match done(read_frame(&wire, &mut server_opener).unwrap()) {
                        Frame::Pong => pongs += 1,
                        Frame::Data(data) => replies.extend(data),
                        other => panic!("unexpected frame {other:?}"),
                    }
                }
            }
        }
        let expected: Vec<u8> = if connection == 0 || connection == 3 {
            QUERY_REPLIES.iter().flat_map(|(_, reply)| reply.iter().copied()).collect()
        } else {
            Vec::new()
        };
        assert_eq!(replies, expected);
        assert_eq!(pongs, 1);
        assert_eq!(
            outcome,
            if connection == 3 { Outcome::Ended } else { Outcome::Disconnected }
        );
        assert_eq!(terminal.replies, if connection == 3 { [2; 4] } else { [1; 4] });
    }
}

#[test]
fn overlaps_and_gaps_use_absolute_offsets() {
    let mut output = Screen::new();
    output.accept(0, b"hello").ok().unwrap();
    output.accept(0, b"hello").ok().unwrap();
    output.accept(3, b"lo world").ok().unwrap();
    assert_eq!(output.bytes, b"hello world");
    assert_eq!(output.output.received, 11);
    output.accept(20, b"!").ok().unwrap();
    output.accept(20, b"!").ok().unwrap();
    assert_eq!(
        output.bytes,
        b"hello world\x18\r\n[thther] output gap: 9 bytes unavailable\r\n!"
    );
    assert_eq!(output.output.received, 21);
    // A zero-capacity server can report a gap with no retained payload.
    output.accept(30, b"").ok().unwrap();
    assert_eq!(output.output.received, 30);
    output.accept(30, QUERIES).ok().unwrap();
    assert!(output.bytes.ends_with(QUERIES));
}

#[test]
fn stopping_reader_finishes_partial_writes_and_flush_before_committing() {
    let key = [9; 32];
    let mut wire = Vec::new();
    let frame = Frame::Output { offset: 0, data: QUERIES.to_vec() };
    write_frame(&mut wire, &mut Sealer::new(&key, DIR_SERVER_TO_CLIENT), &frame).unwrap();
    let mut opener = Opener::new(&key, DIR_SERVER_TO_CLIENT);
    let mut output = Screen::new();
    let frame = done(read_frame(&wire, &mut opener).unwrap());
    let delivery = match client_reader(Incoming::Frame(frame), &output.output) {
        ReaderStep::Deliver(d) => d,
        _ => panic!("nothing was delivered"),
    };
    // Nothing counts as received until it has been written and flushed.
    assert_eq!(output.output.received, 0);
    output.deliver(delivery);
    assert!(matches!(
        client_reader(Incoming::Stopped, &output.output),
        ReaderStep::Finish(Outcome::Disconnected)
    ));
    assert_eq!(output.output.received, QUERIES.len() as u64);
    assert_eq!(output.bytes, QUERIES);
    // Even an overlapping retransmission must not trigger the queries again.
    output.accept(0, QUERIES).ok().unwrap();
    assert_eq!(output.bytes, QUERIES);
}

#[test]
fn stdout_errors_are_fatal_and_never_commit_the_frame() {
    let output = SessionOutput::new();
    assert!(matches!(output.accept(0, QUERIES), Ok(Some(_))));
    // The write failed: there is nothing to commit, and no reconnect.
    assert_eq!(output.received, 0);
    let mut driver = Driver::new();
    assert!(matches!(driver.drive(Ok(Outcome::Disconnected), "x"), DriveStep::Retry { .. }));
    let error = FatalSessionError::Output("broken pipe".into());
    assert_eq!(error.message(), "terminal output failed: broken pipe");
    assert!(matches!(
        driver.drive(Err(ConnectError::Fatal(error)), "x"),
        DriveStep::Fail(ConnectError::Fatal(FatalSessionError::Output(_)))
    ));
}

#[test]
fn a_truncated_encrypted_frame_never_reaches_stdout() {
    let key = [6; 32];
    let mut wire = Vec::new();
    let frame = Frame::Output { offset: 0, data: QUERIES.to_vec() };
    write_frame(&mut wire, &mut Sealer::new(&key, DIR_SERVER_TO_CLIENT), &frame).unwrap();
    wire.truncate(wire.len() - 3);
    let output = SessionOutput::new();
    let mut opener = Opener::new(&key, DIR_SERVER_TO_CLIENT);
    // The rest never comes.
    assert!(matches!(read_frame(&wire, &mut opener), Ok(Step::Need(3))));
    assert!(matches!(
        client_reader(Incoming::Broken, &output),
        ReaderStep::Finish(Outcome::Disconnected)
    ));
    assert_eq!(output.received, 0);
}

#[test]
fn detach_waits_for_output_commit_before_returning() {
    let mut output = Screen::new();
    let delivery = output.output.accept(0, QUERIES).ok().unwrap().unwrap();
    let mut filter = InputFilter::new();
    let wo = match client_writer(&mut filter, WriterEvent::Input(vec![DETACH_PREFIX, DETACH_KEY])) {
        WriterStep::Finish(o) => o,
        WriterStep::Send(_) => panic!("not detached"),
    };
    assert_eq!(output.output.received, 0);
    output.deliver(delivery);
    let ro = match client_reader(Incoming::Stopped, &output.output) {
        ReaderStep::Finish(o) => o,
        _ => panic!("the reader went on"),
    };
    assert_eq!(settle(ro, wo), Outcome::Detached);
    assert_eq!(output.output.received, QUERIES.len() as u64);
    assert_eq!(output.bytes, QUERIES);
}

fn sent(step: WriterStep) -> Vec<Frame> {
    match step {
        WriterStep::Send(frames) => frames,
        WriterStep::Finish(o) => panic!("finished: {o:?}"),
    }
}

#[test]
fn input_preserves_queries_keys_and_paste_with_split_detach_prefix() {
    let key = [4; 32];
    let mut sealer = Sealer::new(&key, DIR_CLIENT_TO_SERVER);
    let mut opener = Opener::new(&key, DIR_CLIENT_TO_SERVER);
    let bytes =
        b"\x1b[A\x1b[200~echo hello\x1b[201~\x1b]10;rgb:ffff/ffff/ffff\x07\x1b[2;3R\x1b[?12;2$y";
    let mut filter = InputFilter::new();
    let frames = sent(client_writer(&mut filter, WriterEvent::Input(bytes.to_vec())));
    assert_eq!(frames.len(), 1);
    let mut wire = Vec::new();
    write_frame(&mut wire, &mut sealer, &frames[0]).unwrap();
    match done(read_frame(&wire, &mut opener).unwrap()) {
        Frame::Data(data) => assert_eq!(data, bytes),
        other => panic!("unexpected frame {other:?}"),
    }
    assert!(sent(client_writer(&mut filter, WriterEvent::Input(vec![DETACH_PREFIX]))).is_empty());
    assert!(matches!(
        client_writer(&mut filter, WriterEvent::Input(vec![DETACH_KEY])),
        WriterStep::Finish(Outcome::Detached)
    ));
}

#[test]
fn the_detach_filter_holds_back_only_the_prefix() {
    let p = DETACH_PREFIX;
    for (input, expected, pending) in [
        (vec![], Some(vec![]), false),
        (vec![b'a', p], Some(vec![b'a']), true),
        (vec![p, b'x'], Some(vec![p, b'x']), false),
        (vec![p, p], Some(vec![p]), true),
        (vec![p, p, b'd'], None, false),
        (vec![b'a', p, b'd', b'b'], None, false),
        (vec![b'd'], Some(vec![b'd']), false),
    ] {
        let mut filter = InputFilter::new();
        assert_eq!(filter.feed(&input), expected);
        assert_eq!(filter.prefix_pending, pending);
        // However the input is cut, the outcome is the same.
        for cut in 0..=input.len() {
            let mut filter = InputFilter::new();
            let mut out = filter.feed(&input[..cut]);
            if let Some(first) = &mut out {
                match filter.feed(&input[cut..]) {
                    Some(second) => first.extend(second),
                    None => out = None,
                }
            }
            assert_eq!(out, expected);
            assert_eq!(filter.prefix_pending, pending);
        }
    }
}

#[test]
fn local_events_become_frames() {
    let mut filter = InputFilter::new();
    let mut step = |event| client_writer(&mut filter, event);
    assert!(matches!(
        sent(step(WriterEvent::Resized { cols: 3, rows: 4 }))[..],
        [Frame::Resize { cols: 3, rows: 4 }]
    ));
    assert!(matches!(sent(step(WriterEvent::PongWanted))[..], [Frame::Pong]));
    assert!(matches!(
        sent(step(WriterEvent::Tick { received: 9 }))[..],
        [Frame::Ack(9), Frame::Ping]
    ));
    assert!(matches!(
        step(WriterEvent::InputClosed),
        WriterStep::Finish(Outcome::Detached)
    ));
    assert!(matches!(
        step(WriterEvent::ReaderGone),
        WriterStep::Finish(Outcome::Disconnected)
    ));
}

#[test]
fn server_frames_are_judged() {
    let output = SessionOutput::new();
    let read = |frame| client_reader(Incoming::Frame(frame), &output);
    assert!(matches!(read(Frame::Ended), ReaderStep::Finish(Outcome::Ended)));
    assert!(matches!(read(Frame::Ping), ReaderStep::Pong));
    assert!(matches!(read(Frame::Pong), ReaderStep::Nothing));
    assert!(matches!(
        read(Frame::Output { offset: 0, data: vec![] }),
        ReaderStep::Nothing
    ));
    for frame in [Frame::Hello, Frame::Ack(1), Frame::Data(vec![1])] {
        match read(frame) {
            ReaderStep::Fail(e) => {
                assert_eq!(e.message(), "terminal protocol error: unexpected server frame");
            }
            _ => panic!("accepted"),
        }
    }
    match read(Frame::Output { offset: u64::MAX, data: vec![1] }) {
        ReaderStep::Fail(e) => {
            assert_eq!(e.message(), "terminal protocol error: output offset overflow");
        }
        _ => panic!("accepted"),
    }
}

#[test]
fn a_server_that_forgot_output_is_rejected() {
    let refused = establish(&[1; 32], &[2; 32], 6, &[3; 32], 5);
    assert!(matches!(refused, Err(Rejection::BadOffset)));
    assert!(establish(&[1; 32], &[2; 32], 5, &[3; 32], 5).is_ok());
}

#[test]
fn the_client_refuses_what_is_not_a_greeting() {
    let output = SessionOutput::new();
    assert!(matches!(
        open_connection("short", &[0; 32], &output),
        Err(ConnectError::Other(m)) if m == "session id must be 8 chars"
    ));
    let reply = |bytes: &[u8]| take_reply(bytes, &[1; 32], &[2; 32], 6);
    assert!(matches!(reply(&[]), Ok(Step::Need(1))));
    assert!(matches!(reply(&[0]), Ok(Step::Need(32))));
    assert!(matches!(
        reply(&[handshake::STATUS_NO_SESSION]),
        Err(ConnectError::Other(m)) if m == "server: no such session"
    ));
    assert!(matches!(
        reply(&[handshake::STATUS_VERSION_MISMATCH]),
        Err(ConnectError::Rejected(Rejection::VersionMismatch))
    ));
    assert!(matches!(
        reply(&handshake::server_send_ok(&[3; 32], 5)),
        Err(ConnectError::Rejected(Rejection::BadOffset))
    ));
    let key = [8; 32];
    let greet = |wire: &[u8], size| {
        let mut opener = Opener::new(&key, DIR_SERVER_TO_CLIENT);
        let mut sealer = Sealer::new(&key, DIR_CLIENT_TO_SERVER);
        take_server_hello(wire, &mut opener, &mut sealer, size)
    };
    let record = |frame: &Frame| {
        let mut wire = Vec::new();
        write_frame(&mut wire, &mut Sealer::new(&key, DIR_SERVER_TO_CLIENT), frame).unwrap();
        wire
    };
    assert!(done(greet(&record(&Frame::Hello), None).ok().unwrap()).is_empty());
    match greet(&record(&Frame::Ping), None) {
        Err(ConnectError::Fatal(e)) => {
            assert_eq!(e.message(), "terminal protocol error: bad server hello");
        }
        _ => panic!("accepted"),
    }
    let mut tampered = record(&Frame::Hello);
    tampered[9] ^= 1;
    assert!(matches!(
        greet(&tampered, None),
        Err(ConnectError::Other(m)) if m == "decrypt/auth failed"
    ));
}

#[test]
fn an_ended_session_outweighs_a_detach() {
    assert_eq!(settle(Outcome::Ended, Outcome::Detached), Outcome::Ended);
    assert_eq!(settle(Outcome::Disconnected, Outcome::Detached), Outcome::Detached);
    assert_eq!(settle(Outcome::Disconnected, Outcome::Disconnected), Outcome::Disconnected);
}

#[test]
fn only_repairable_failures_are_retried() {
    let other = || Err(ConnectError::Other("refused".into()));
    // The first failure is final.
    assert!(matches!(
        Driver::new().drive(other(), "x"),
        DriveStep::Fail(ConnectError::Other(_))
    ));
    let mut driver = Driver::new();
    assert!(matches!(
        driver.drive(Ok(Outcome::Disconnected), "x"),
        DriveStep::Retry { after: 250 }
    ));
    for expected in [500, 1000, 2000, 4000, 5000, 5000] {
        match driver.drive(other(), "x") {
            DriveStep::Retry { after } => assert_eq!(after, expected),
            _ => panic!("gave up"),
        }
    }
    // A connection restarts the schedule.
    assert!(matches!(
        driver.drive(Ok(Outcome::Disconnected), "x"),
        DriveStep::Retry { after: 250 }
    ));
    assert!(matches!(
        driver.drive(Err(ConnectError::Rejected(Rejection::BadOffset)), "x"),
        DriveStep::Fail(ConnectError::Rejected(Rejection::BadOffset))
    ));
    let fatal = FatalSessionError::Protocol(ProtocolError::UnexpectedFrame);
    assert!(matches!(
        driver.drive(Err(ConnectError::Fatal(fatal)), "x"),
        DriveStep::Fail(ConnectError::Fatal(_))
    ));
    assert!(matches!(
        driver.drive(Ok(Outcome::Ended), "x"),
        DriveStep::Finish(m) if m == "\r\n[thther] session ended\r\n"
    ));
    assert!(matches!(
        driver.drive(Ok(Outcome::Detached), "12345678"),
        DriveStep::Finish(m) if m == "\r\n[thther] detached (session 12345678 still running)\r\n"
    ));
}

#[test]
fn resuming_is_exact_within_the_retained_output() {
    let mut session = SessionShared::new("12345678".into(), "sh", 0, 6, [0; 32]);
    session.append(b"0123456789");
    for (received, expected) in [
        (0, "\u{18}\r\n[thther] output gap: 4 bytes unavailable\r\n456789"),
        (3, "\u{18}\r\n[thther] output gap: 1 bytes unavailable\r\n456789"),
        (4, "456789"),
        (7, "789"),
        (10, ""),
    ] {
        let mut screen = Screen::new();
        screen.output.received = received;
        let mut writer = ServerWriter { cursor: received, epoch: session.epoch() };
        loop {
            match writer.step(&session) {
                WriterAction::Send(Frame::Output { offset, data }) => {
                    screen.accept(offset, &data).ok().unwrap();
                    // Client and writer stay in step.
                    assert_eq!(screen.output.received, writer.cursor);
                }
                WriterAction::Wait => break,
                _ => panic!("the writer stopped"),
            }
        }
        assert_eq!(screen.bytes, expected.as_bytes());
        assert_eq!(screen.output.received, 10);
    }
}

#[test]
fn gaps_in_a_run_are_counted_and_nothing_is_shown_twice() {
    let history = b"0123456789";
    let mut output = Screen::new();
    for (from, to) in [(0, 2), (4, 6), (1, 5), (6, 7), (9, 9), (3, 10)] {
        output.accept(from as u64, &history[from..to]).ok().unwrap();
    }
    let gap = "\u{18}\r\n[thther] output gap: 2 bytes unavailable\r\n";
    assert_eq!(output.bytes, format!("01{gap}456{gap}9").as_bytes());
    assert_eq!(output.output.received, 10);
}

#[test]
fn retransmissions_after_blips_show_every_byte_once() {
    let history: Vec<u8> = (0..200).collect();
    let mut output = Screen::new();
    for (from, to) in [(0, 10), (0, 10), (5, 40), (40, 41), (0, 41), (41, 41), (30, 200)] {
        output.accept(from as u64, &history[from..to]).ok().unwrap();
    }
    assert_eq!(output.bytes, history);
    assert_eq!(output.output.received, 200);
}
