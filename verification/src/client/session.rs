//! The interactive client session: raw-mode terminal bridged to the encrypted
//! TCP channel, with automatic reconnect on network blips and offset-based
//! resume within the server's retained history. Missing history is reported.

use vstd::prelude::*;
use vstd::slice::slice_subrange;
use vstd::string::*;
use vstd::utf8::encode_utf8;

use super::reconnect::{following, Backoff, FIRST_DELAY};
use crate::bytes::{lemma_widths, push_all};
use crate::proto::crypto::{
    derive_key, session_key, Channel, CryptoError, Opener, Sealer, DIR_CLIENT_TO_SERVER,
    DIR_SERVER_TO_CLIENT, NONCE_LEN,
};
use crate::proto::frame::{
    encoded, frame_error_text, lemma_hello_length, read_frame, reading, record, takes_record,
    write_frame, Frame, FrameError, FrameView, Reading,
};
use crate::proto::handshake::{
    check_offset, client_recv, client_send, handshake_error_text, hello_bytes, law_reply_arrives,
    ok_bytes, reply_reading, HandshakeError, HelloView, Rejection, ReplyReading, SESSION_ID_LEN,
};
use crate::proto::Step;
use crate::server::admission::{admits, Admission};
use crate::server::daemon::{writes, ServerWriter, WriterAction};
use crate::server::registry::Sessions;
use crate::server::session::{
    law_read_gives_the_output_at_its_offset, RingState, SessionState,
};
use crate::text::{decimal, decimal_text};

verus! {

/// The detach prefix key: Ctrl-\ (0x1c), followed by 'd'.
pub const DETACH_PREFIX: u8 = 0x1c;

pub const DETACH_KEY: u8 = 0x64;

/// How often the client says that it is there, in seconds.
pub const HEARTBEAT: u64 = 3;

/// How a connection came to its end.
#[derive(Debug, Clone, Copy, PartialEq, Eq, Structural)]
pub enum Outcome {
    /// Shell exited on the server.
    Ended,
    /// User pressed the detach sequence.
    Detached,
    /// Network dropped; caller should reconnect.
    Disconnected,
}

/// How the peer broke the terminal protocol.
#[derive(Debug, Clone, Copy, PartialEq, Eq, Structural)]
pub enum ProtocolError {
    OutputOverflow,
    BadServerHello,
    UnexpectedFrame,
}

/// These errors cannot be repaired by reconnecting to the network.
pub enum FatalSessionError {
    /// The terminal could not be written to, in the system's words.
    Output(String),
    Protocol(ProtocolError),
}

/// How a fatal error reads.
pub open spec fn fatal_text(e: FatalSessionError) -> Seq<char> {
    match e {
        FatalSessionError::Output(cause) => "terminal output failed: "@ + cause@,
        FatalSessionError::Protocol(ProtocolError::OutputOverflow) => {
            "terminal protocol error: output offset overflow"@
        },
        FatalSessionError::Protocol(ProtocolError::BadServerHello) => {
            "terminal protocol error: bad server hello"@
        },
        FatalSessionError::Protocol(ProtocolError::UnexpectedFrame) => {
            "terminal protocol error: unexpected server frame"@
        },
    }
}

impl FatalSessionError {
    pub fn message(&self) -> (r: String)
        ensures
            r@ == fatal_text(*self),
    {
        match self {
            FatalSessionError::Output(cause) => {
                let mut m = "terminal output failed: ".to_owned();
                m.append(cause.as_str());
                m
            },
            FatalSessionError::Protocol(ProtocolError::OutputOverflow) => {
                "terminal protocol error: output offset overflow".to_owned()
            },
            FatalSessionError::Protocol(ProtocolError::BadServerHello) => {
                "terminal protocol error: bad server hello".to_owned()
            },
            FatalSessionError::Protocol(ProtocolError::UnexpectedFrame) => {
                "terminal protocol error: unexpected server frame".to_owned()
            },
        }
    }
}

/// The local notice of output that is gone. CAN cancels a possible incomplete
/// escape sequence before it. Notice bytes are never counted as remote output.
pub open spec fn gap_notice(received: nat, offset: nat) -> Seq<u8> {
    if offset > received {
        encode_utf8(
            "\x18\r\n[thther] output gap: "@ + decimal((offset - received) as nat)
                + " bytes unavailable\r\n"@,
        )
    } else {
        Seq::empty()
    }
}

/// What output at an absolute offset adds to what a client shows, and how far
/// it then has received. Output that it has had adds nothing.
pub open spec fn shown(received: nat, offset: nat, data: Seq<u8>) -> (Seq<u8>, nat) {
    let end = offset + data.len();
    if end <= received {
        (Seq::empty(), received)
    } else {
        let skip = if offset < received {
            received - offset
        } else {
            0
        };
        (gap_notice(received, offset) + data.skip(skip), end)
    }
}

/// Bytes to be written to the terminal, and the offset to commit once they
/// have been written and flushed.
pub struct Delivery {
    pub bytes: Vec<u8>,
    pub end: u64,
}

/// One committed offset for the entire client session.
pub struct SessionOutput {
    pub received: u64,
}

/// Whether `r` is how a client that has received so much takes output.
pub open spec fn accepts(
    received: u64,
    offset: u64,
    data: Seq<u8>,
    r: Result<Option<Delivery>, FatalSessionError>,
) -> bool {
    if offset + data.len() > u64::MAX {
        r matches Err(FatalSessionError::Protocol(ProtocolError::OutputOverflow))
    } else if offset + data.len() <= received {
        r matches Ok(None)
    } else {
        &&& r matches Ok(Some(d))
        &&& d.bytes@ == shown(received as nat, offset as nat, data).0
        &&& d.end == shown(received as nat, offset as nat, data).1
    }
}

/// Whether `after` is what a client has received once the bytes of a delivery
/// have been written and flushed.
pub open spec fn commits(before: u64, delivery: Delivery, after: u64) -> bool {
    after == delivery.end
}

impl SessionOutput {
    pub fn new() -> (r: Self)
        ensures
            r.received == 0,
    {
        SessionOutput { received: 0 }
    }

    /// What to do with output at an absolute offset. Nothing is counted as
    /// received until it is committed.
    pub fn accept(&self, offset: u64, data: &[u8]) -> (r: Result<
        Option<Delivery>,
        FatalSessionError,
    >)
        ensures
            accepts(self.received, offset, data@, r),
    {
        let end = match offset.checked_add(data.len() as u64) {
            Some(end) => end,
            None => {
                return Err(FatalSessionError::Protocol(ProtocolError::OutputOverflow));
            },
        };
        let received = self.received;
        if end <= received {
            return Ok(None);
        }
        let mut bytes: Vec<u8> = Vec::new();
        if offset > received {
            let mut notice = "\x18\r\n[thther] output gap: ".to_owned();
            notice.append(decimal_text(offset - received).as_str());
            notice.append(" bytes unavailable\r\n");
            push_all(&mut bytes, notice.as_str().as_bytes());
        }
        let skip: usize = if received > offset {
            (received - offset) as usize
        } else {
            0
        };
        assert(bytes@ =~= gap_notice(received as nat, offset as nat));
        push_all(&mut bytes, slice_subrange(data, skip, data.len()));
        assert(data@.subrange(skip as int, data@.len() as int) =~= data@.skip(skip as int));
        assert(bytes@ =~= shown(received as nat, offset as nat, data@).0);
        Ok(Some(Delivery { bytes, end }))
    }

    /// The bytes of a delivery have been written and flushed.
    pub fn commit(&mut self, delivery: &Delivery)
        ensures
            commits(old(self).received, *delivery, final(self).received),
    {
        self.received = delivery.end;
    }
}

/// What reaches the reading side of the client.
pub enum Incoming {
    Frame(Frame),
    /// The connection broke, or a record was not authentic.
    Broken,
    /// The writing side has finished.
    Stopped,
}

/// What the reading side of the client does next.
pub enum ReaderStep {
    /// Write and flush this, then commit it.
    Deliver(Delivery),
    /// Ask the writing side for a pong.
    Pong,
    Nothing,
    Finish(Outcome),
    Fail(FatalSessionError),
}

/// Whether `step` is what a client that has received so much does about what
/// reached it.
pub open spec fn reads(received: u64, incoming: Incoming, step: ReaderStep) -> bool {
    match incoming {
        Incoming::Stopped | Incoming::Broken => step == ReaderStep::Finish(Outcome::Disconnected),
        Incoming::Frame(f) => match f@ {
            FrameView::Output { offset, data } => match step {
                ReaderStep::Deliver(d) => accepts(received, offset, data, Ok(Some(d))),
                ReaderStep::Nothing => accepts(received, offset, data, Ok(None)),
                ReaderStep::Fail(e) => accepts(received, offset, data, Err(e)),
                _ => false,
            },
            FrameView::Ended => step == ReaderStep::Finish(Outcome::Ended),
            FrameView::Ping => step is Pong,
            FrameView::Pong => step is Nothing,
            _ => step == ReaderStep::Fail(
                FatalSessionError::Protocol(ProtocolError::UnexpectedFrame),
            ),
        },
    }
}

/// Act on what the server sent.
pub fn client_reader(incoming: Incoming, output: &SessionOutput) -> (r: ReaderStep)
    ensures
        reads(output.received, incoming, r),
{
    match incoming {
        Incoming::Stopped | Incoming::Broken => ReaderStep::Finish(Outcome::Disconnected),
        Incoming::Frame(Frame::Output { offset, data }) => {
            match output.accept(offset, data.as_slice()) {
                Ok(Some(d)) => ReaderStep::Deliver(d),
                Ok(None) => ReaderStep::Nothing,
                Err(e) => ReaderStep::Fail(e),
            }
        },
        Incoming::Frame(Frame::Ended) => ReaderStep::Finish(Outcome::Ended),
        Incoming::Frame(Frame::Ping) => ReaderStep::Pong,
        Incoming::Frame(Frame::Pong) => ReaderStep::Nothing,
        Incoming::Frame(_) => ReaderStep::Fail(
            FatalSessionError::Protocol(ProtocolError::UnexpectedFrame),
        ),
    }
}

/// Only output moves the committed offset, and only forward: to where the
/// output ends.
pub proof fn law_only_output_moves_the_offset(received: u64, incoming: Incoming, step: ReaderStep)
    requires
        reads(received, incoming, step),
    ensures
        step matches ReaderStep::Deliver(d) ==> {
            &&& incoming matches Incoming::Frame(f)
            &&& f@ matches FrameView::Output { offset, data }
            &&& d.end == offset + data.len()
            &&& d.end > received
        },
{
}

/// Input as the filter sees it: a prefix key that it holds back comes first.
pub open spec fn pending_input(pending: bool, bytes: Seq<u8>) -> Seq<u8> {
    if pending {
        seq![DETACH_PREFIX] + bytes
    } else {
        bytes
    }
}

/// Whether the detach sequence occurs in `s`.
pub open spec fn detaches(s: Seq<u8>) -> bool {
    exists|i: int| 0 <= i < s.len() - 1 && #[trigger] s[i] == DETACH_PREFIX && s[i + 1] == DETACH_KEY
}

/// Whether the end of `s` may be the start of a detach sequence.
pub open spec fn holds_back(s: Seq<u8>) -> bool {
    s.len() > 0 && s.last() == DETACH_PREFIX
}

/// What of `s` is sent on: all of it, but for a prefix key at its end.
pub open spec fn sent_on(s: Seq<u8>) -> Seq<u8> {
    if holds_back(s) {
        s.drop_last()
    } else {
        s
    }
}

/// Whether `r` is what a filter makes of more input, and `after` whether it then
/// holds a prefix key back, as it did before where `pending` says so.
pub open spec fn filters(pending: bool, bytes: Seq<u8>, after: bool, r: Option<Vec<u8>>) -> bool {
    let s = pending_input(pending, bytes);
    if detaches(s) {
        r is None && !after
    } else {
        &&& r matches Some(out)
        &&& out@ == sent_on(s)
        &&& after == holds_back(s)
    }
}

/// Finds the detach sequence in keyboard input, even where it is split over
/// several reads.
pub struct InputFilter {
    pub prefix_pending: bool,
}

impl InputFilter {
    /// A filter that holds nothing back.
    pub fn new() -> (r: Self)
        ensures
            !r.prefix_pending,
    {
        InputFilter { prefix_pending: false }
    }

    /// Filter input: the bytes to send on, or nothing where the user detaches.
    pub fn feed(&mut self, bytes: &[u8]) -> (r: Option<Vec<u8>>)
        ensures
            filters(old(self).prefix_pending, bytes@, final(self).prefix_pending, r),
    {
        let ghost s = pending_input(self.prefix_pending, bytes@);
        let ghost ahead: int = if self.prefix_pending {
            1
        } else {
            0
        };
        let mut out: Vec<u8> = Vec::new();
        let mut i: usize = 0;
        assert(s.take(ahead) =~= pending_input(self.prefix_pending, Seq::empty()));
        while i < bytes.len()
            invariant
                i <= bytes@.len(),
                0 <= ahead <= 1,
                s == pending_input(old(self).prefix_pending, bytes@),
                ahead == (if old(self).prefix_pending {
                    1int
                } else {
                    0int
                }),
                s.len() == ahead + bytes@.len(),
                self.prefix_pending == holds_back(s.take(ahead + i)),
                out@ =~= sent_on(s.take(ahead + i)),
                !detaches(s.take(ahead + i)),
            decreases bytes@.len() - i,
        {
            let b = bytes[i];
            let ghost before = s.take(ahead + i);
            let ghost after = s.take(ahead + i + 1);
            proof {
                assert(after =~= before.push(b));
                if holds_back(before) && b == DETACH_KEY {
                    assert(s[before.len() - 1] == DETACH_PREFIX);
                    assert(s[before.len() - 1 + 1] == DETACH_KEY);
                }
                lemma_one_more_key(before, b);
            }
            if self.prefix_pending {
                self.prefix_pending = false;
                if b == DETACH_KEY {
                    return None;
                }
                out.push(DETACH_PREFIX);
                if b == DETACH_PREFIX {
                    self.prefix_pending = true;
                } else {
                    out.push(b);
                }
            } else if b == DETACH_PREFIX {
                self.prefix_pending = true;
            } else {
                out.push(b);
            }
            i = i + 1;
        }
        assert(s.take(ahead + i) =~= s);
        Some(out)
    }
}

/// One more key completes the detach sequence exactly where it is its second
/// key and the key before was its first.
proof fn lemma_one_more_key(s: Seq<u8>, b: u8)
    ensures
        detaches(s.push(b)) <==> detaches(s) || (holds_back(s) && b == DETACH_KEY),
{
    let t = s.push(b);
    if detaches(s) {
        let i = choose|i: int|
            0 <= i < s.len() - 1 && #[trigger] s[i] == DETACH_PREFIX && s[i + 1] == DETACH_KEY;
        assert(t[i] == DETACH_PREFIX && t[i + 1] == DETACH_KEY);
    }
    if holds_back(s) && b == DETACH_KEY {
        assert(t[s.len() - 1] == DETACH_PREFIX && t[s.len() - 1 + 1] == DETACH_KEY);
    }
    if detaches(t) {
        let i = choose|i: int|
            0 <= i < t.len() - 1 && #[trigger] t[i] == DETACH_PREFIX && t[i + 1] == DETACH_KEY;
        if i + 1 < s.len() {
            assert(s[i] == DETACH_PREFIX && s[i + 1] == DETACH_KEY);
        }
    }
}

/// How input is cut into reads does not matter: read in two pieces it detaches
/// exactly where it would in one, and else the same bytes are sent on, and the
/// same are held back.
pub proof fn law_input_can_be_cut_anywhere(pending: bool, a: Seq<u8>, b: Seq<u8>)
    ensures
        ({
            let whole = pending_input(pending, a + b);
            let first = pending_input(pending, a);
            let second = pending_input(holds_back(first), b);
            &&& detaches(whole) <==> detaches(first) || detaches(second)
            &&& !detaches(whole) ==> sent_on(whole) == sent_on(first) + sent_on(second)
                && holds_back(whole) == holds_back(second)
        }),
{
    let whole = pending_input(pending, a + b);
    let first = pending_input(pending, a);
    let held = holds_back(first);
    let second = pending_input(held, b);
    assert(whole =~= first + b);
    assert(whole =~= sent_on(first) + second);
    let n = sent_on(first).len() as int;
    if detaches(whole) {
        let i = choose|i: int|
            0 <= i < whole.len() - 1 && #[trigger] whole[i] == DETACH_PREFIX && whole[i + 1]
                == DETACH_KEY;
        if i >= n {
            assert(second[i - n] == DETACH_PREFIX && second[i - n + 1] == DETACH_KEY);
        } else if i + 1 < first.len() {
            assert(first[i] == DETACH_PREFIX && first[i + 1] == DETACH_KEY);
        } else {
            assert(first.last() == DETACH_PREFIX);
        }
    }
    if detaches(first) {
        let i = choose|i: int|
            0 <= i < first.len() - 1 && #[trigger] first[i] == DETACH_PREFIX && first[i + 1]
                == DETACH_KEY;
        assert(whole[i] == DETACH_PREFIX && whole[i + 1] == DETACH_KEY);
    }
    if detaches(second) {
        let i = choose|i: int|
            0 <= i < second.len() - 1 && #[trigger] second[i] == DETACH_PREFIX && second[i + 1]
                == DETACH_KEY;
        assert(whole[n + i] == DETACH_PREFIX && whole[n + i + 1] == DETACH_KEY);
    }
    assert(sent_on(whole) =~= sent_on(first) + sent_on(second));
}

/// Input without the prefix key is sent on as it is, and at once.
pub proof fn law_ordinary_input_is_sent_on(bytes: Seq<u8>)
    requires
        !bytes.contains(DETACH_PREFIX),
    ensures
        !detaches(pending_input(false, bytes)),
        sent_on(pending_input(false, bytes)) == bytes,
        !holds_back(pending_input(false, bytes)),
{
    if bytes.len() > 0 {
        assert(bytes.contains(bytes.last()));
    }
    if detaches(bytes) {
        let i = choose|i: int|
            0 <= i < bytes.len() - 1 && #[trigger] bytes[i] == DETACH_PREFIX && bytes[i + 1]
                == DETACH_KEY;
        assert(bytes.contains(bytes[i]));
    }
}

/// No input is lost: what is sent on, and a prefix key that is held back, make
/// up the input.
pub proof fn law_no_input_is_lost(pending: bool, bytes: Seq<u8>)
    ensures
        ({
            let s = pending_input(pending, bytes);
            s == sent_on(s) + (if holds_back(s) {
                seq![DETACH_PREFIX]
            } else {
                Seq::empty()
            })
        }),
{
    let s = pending_input(pending, bytes);
    assert(s =~= sent_on(s) + (if holds_back(s) {
        seq![DETACH_PREFIX]
    } else {
        Seq::empty()
    }));
}

/// What the writing side of the client is told.
pub enum WriterEvent {
    Input(Vec<u8>),
    /// The local input is closed.
    InputClosed,
    /// The terminal has a new size.
    Resized { cols: u16, rows: u16 },
    /// The reading side asks for a pong.
    PongWanted,
    /// The reading side is gone.
    ReaderGone,
    /// It is time for a heartbeat; so much has been received.
    Tick { received: u64 },
}

/// What the writing side of the client does next.
pub enum WriterStep {
    Send(Vec<Frame>),
    Finish(Outcome),
}

/// What a list of frames says.
pub open spec fn frames(v: Seq<Frame>) -> Seq<FrameView> {
    v.map_values(|f: Frame| f@)
}

/// Whether these frames, and no others, are sent.
pub open spec fn sends(step: WriterStep, fs: Seq<FrameView>) -> bool {
    step matches WriterStep::Send(v) && frames(v@) == fs
}

/// Whether `r` is what the writing side of the client does about an event, and
/// `after` whether its filter then holds a prefix key back, as it did before
/// where `pending` says so.
pub open spec fn handles(pending: bool, event: WriterEvent, after: bool, r: WriterStep) -> bool {
    &&& match event {
        WriterEvent::Input(bytes) => {
            let s = pending_input(pending, bytes@);
            if detaches(s) {
                r == WriterStep::Finish(Outcome::Detached) && !after
            } else {
                &&& sent_on(s).len() > 0 ==> sends(r, seq![FrameView::Data(sent_on(s))])
                &&& sent_on(s).len() == 0 ==> sends(r, Seq::empty())
                &&& after == holds_back(s)
            }
        },
        WriterEvent::InputClosed => r == WriterStep::Finish(Outcome::Detached),
        WriterEvent::Resized { cols, rows } => sends(r, seq![FrameView::Resize { cols, rows }]),
        WriterEvent::PongWanted => sends(r, seq![FrameView::Pong]),
        WriterEvent::ReaderGone => r == WriterStep::Finish(Outcome::Disconnected),
        WriterEvent::Tick { received } => sends(
            r,
            seq![FrameView::Ack(received), FrameView::Ping],
        ),
    }
    &&& event !is Input ==> after == pending
}

/// Act on what happened locally.
pub fn client_writer(filter: &mut InputFilter, event: WriterEvent) -> (r: WriterStep)
    ensures
        handles(old(filter).prefix_pending, event, final(filter).prefix_pending, r),
{
    let mut out: Vec<Frame> = Vec::new();
    match event {
        WriterEvent::Input(bytes) => {
            let data = match filter.feed(bytes.as_slice()) {
                None => return WriterStep::Finish(Outcome::Detached),
                Some(data) => data,
            };
            if data.len() > 0 {
                let ghost sent = data@;
                out.push(Frame::Data(data));
                assert(frames(out@) =~= seq![FrameView::Data(sent)]);
            } else {
                assert(frames(out@) =~= Seq::<FrameView>::empty());
            }
        },
        WriterEvent::InputClosed => return WriterStep::Finish(Outcome::Detached),
        WriterEvent::Resized { cols, rows } => {
            out.push(Frame::Resize { cols, rows });
            assert(frames(out@) =~= seq![FrameView::Resize { cols, rows }]);
        },
        WriterEvent::PongWanted => {
            out.push(Frame::Pong);
            assert(frames(out@) =~= seq![FrameView::Pong]);
        },
        WriterEvent::ReaderGone => return WriterStep::Finish(Outcome::Disconnected),
        WriterEvent::Tick { received } => {
            out.push(Frame::Ack(received));
            out.push(Frame::Ping);
            assert(frames(out@) =~= seq![FrameView::Ack(received), FrameView::Ping]);
        },
    }
    WriterStep::Send(out)
}

/// Whether `r` is how a connection is keyed, once the server has answered with
/// its nonce and its total.
pub open spec fn keys(
    psk: Seq<u8>,
    client_nonce: Seq<u8>,
    offset: u64,
    server_nonce: Seq<u8>,
    server_total: u64,
    r: Result<(Sealer, Opener), Rejection>,
) -> bool {
    if offset > server_total {
        r matches Err(e) && e == Rejection::BadOffset
    } else {
        let key = session_key(psk, client_nonce, server_nonce);
        &&& r matches Ok((sealer, opener))
        &&& sealer@ == Channel::start(key, DIR_CLIENT_TO_SERVER)
        &&& opener@ == Channel::start(key, DIR_SERVER_TO_CLIENT)
    }
}

/// Key both directions of a connection, once the server has answered. A server
/// that knows of less output than was received is not the same server.
pub fn establish(
    psk: &[u8; 32],
    client_nonce: &[u8; NONCE_LEN],
    offset: u64,
    server_nonce: &[u8; NONCE_LEN],
    server_total: u64,
) -> (r: Result<(Sealer, Opener), Rejection>)
    ensures
        keys(psk@, client_nonce@, offset, server_nonce@, server_total, r),
{
    match check_offset(offset, server_total) {
        Err(e) => Err(e),
        Ok(_) => {
            let key = derive_key(psk.as_slice(), client_nonce.as_slice(), server_nonce.as_slice());
            Ok((Sealer::new(&key, DIR_CLIENT_TO_SERVER), Opener::new(&key, DIR_SERVER_TO_CLIENT)))
        },
    }
}

/// Why a connection failed.
pub enum ConnectError {
    Fatal(FatalSessionError),
    Rejected(Rejection),
    /// Anything that the network or the server may get over.
    Other(String),
}

/// What a failed handshake comes to.
pub open spec fn handshake_failure(e: HandshakeError, r: ConnectError) -> bool {
    match e {
        HandshakeError::Rejected(rejection) => r == ConnectError::Rejected(rejection),
        _ => r matches ConnectError::Other(m) && m@ == handshake_error_text(e),
    }
}

/// What a failed handshake comes to.
fn fail_handshake(e: HandshakeError) -> (r: ConnectError)
    ensures
        handshake_failure(e, r),
{
    match e {
        HandshakeError::Rejected(rejection) => ConnectError::Rejected(rejection),
        _ => ConnectError::Other(e.message()),
    }
}

/// Whether `r` is how a client that has received so much opens a connection.
pub open spec fn opens(
    id: Seq<char>,
    client_nonce: Seq<u8>,
    received: u64,
    r: Result<Vec<u8>, ConnectError>,
) -> bool {
    if encode_utf8(id).len() == SESSION_ID_LEN {
        r matches Ok(b) && b@ == hello_bytes(
            HelloView { session_id: id, client_nonce, offset: received },
        )
    } else {
        r matches Err(e) && handshake_failure(HandshakeError::BadIdLength, e)
    }
}

/// Open a connection: the hello to send. It asks for the output from the
/// committed offset on.
pub fn open_connection(id: &str, client_nonce: &[u8; NONCE_LEN], output: &SessionOutput) -> (r:
    Result<Vec<u8>, ConnectError>)
    ensures
        opens(id@, client_nonce@, output.received, r),
{
    match client_send(id, client_nonce, output.received) {
        Ok(b) => Ok(b),
        Err(e) => Err(fail_handshake(e)),
    }
}

/// A connection that is keyed, and the record to send on it: the proof that the
/// client knows the session's key.
pub struct Keyed {
    pub sealer: Sealer,
    pub opener: Opener,
    pub hello: Vec<u8>,
}

/// Whether `r` is what a client that asked for `offset` makes of the server's
/// reply.
pub open spec fn takes_reply(
    received: Seq<u8>,
    psk: Seq<u8>,
    client_nonce: Seq<u8>,
    offset: u64,
    r: Result<Step<Keyed>, ConnectError>,
) -> bool {
    match reply_reading(received) {
        ReplyReading::Need(n) => r matches Ok(Step::Need(m)) && m == n,
        ReplyReading::Fail(e) => r matches Err(c) && handshake_failure(e, c),
        ReplyReading::Done { server_nonce, server_total, used } => if offset > server_total {
            r == Err::<Step<Keyed>, ConnectError>(ConnectError::Rejected(Rejection::BadOffset))
        } else {
            let key = session_key(psk, client_nonce, server_nonce);
            let chan = Channel::start(key, DIR_CLIENT_TO_SERVER);
            &&& r matches Ok(Step::Done { value, used: u })
            &&& u == used
            &&& value.sealer@ == chan.next()
            &&& value.opener@ == Channel::start(key, DIR_SERVER_TO_CLIENT)
            &&& value.hello@ == record(chan.sealed(encoded(FrameView::Hello)))
            &&& reading(chan, value.hello@) == (Reading::Done {
                frame: FrameView::Hello,
                used: value.hello@.len(),
            })
        },
    }
}

/// Take the server's reply, given what was received of it. `offset` is the one
/// that was asked for.
pub fn take_reply(
    received: &[u8],
    psk: &[u8; 32],
    client_nonce: &[u8; NONCE_LEN],
    offset: u64,
) -> (r: Result<Step<Keyed>, ConnectError>)
    ensures
        takes_reply(received@, psk@, client_nonce@, offset, r),
{
    match client_recv(received) {
        Ok(Step::Need(n)) => Ok(Step::Need(n)),
        Err(e) => Err(fail_handshake(e)),
        Ok(Step::Done { value: (server_nonce, server_total), used }) => {
            match establish(psk, client_nonce, offset, &server_nonce, server_total) {
                Err(e) => Err(ConnectError::Rejected(e)),
                Ok((sealer, opener)) => {
                    let mut sealer = sealer;
                    let mut hello: Vec<u8> = Vec::new();
                    let ghost chan = sealer@;
                    proof {
                        lemma_hello_length();
                    }
                    match write_frame(&mut hello, &mut sealer, &Frame::Hello) {
                        Ok(_) => {
                            assert(hello@ =~= record(chan.sealed(encoded(FrameView::Hello))));
                            Ok(Step::Done { value: Keyed { sealer, opener, hello }, used })
                        },
                        Err(e) => Err(ConnectError::Other(e.message())),
                    }
                },
            }
        },
    }
}

/// Whether `r` is what a client makes of the server's first record, where
/// `outbound` and `sent` are what goes to the server before and after.
pub open spec fn takes_hello(
    inbound: Channel,
    received: Seq<u8>,
    outbound: Channel,
    size: Option<(u16, u16)>,
    sent: Channel,
    r: Result<Step<Vec<u8>>, ConnectError>,
) -> bool {
    match reading(inbound, received) {
        Reading::Need(n) => (r matches Ok(Step::Need(m)) && m == n) && sent == outbound,
        Reading::Fail(e) => (r matches Err(ConnectError::Other(m)) && m@ == frame_error_text(e))
            && sent == outbound,
        Reading::Done { frame, used } => if frame != FrameView::Hello {
            r == Err::<Step<Vec<u8>>, ConnectError>(
                ConnectError::Fatal(FatalSessionError::Protocol(ProtocolError::BadServerHello)),
            ) && sent == outbound
        } else {
            match size {
                None => {
                    &&& r matches Ok(Step::Done { value, used: u })
                    &&& value@.len() == 0
                    &&& u == used
                    &&& sent == outbound
                },
                Some((cols, rows)) => if outbound.counter == u64::MAX {
                    &&& r matches Err(ConnectError::Other(m))
                    &&& m@ == frame_error_text(FrameError::Crypto(CryptoError::CounterExhausted))
                    &&& sent == outbound
                } else {
                    let f = FrameView::Resize { cols, rows };
                    &&& r matches Ok(Step::Done { value, used: u })
                    &&& value@ == record(outbound.sealed(encoded(f)))
                    &&& reading(outbound, value@) == (Reading::Done {
                        frame: f,
                        used: value@.len(),
                    })
                    &&& u == used
                    &&& sent == outbound.next()
                },
            }
        },
    }
}

/// Take the server's first record, given what was received of it: it must be a
/// hello. The value is what to send then: the size of the terminal, where it is
/// known.
pub fn take_server_hello(
    received: &[u8],
    opener: &mut Opener,
    sealer: &mut Sealer,
    size: Option<(u16, u16)>,
) -> (r: Result<Step<Vec<u8>>, ConnectError>)
    ensures
        takes_hello(old(opener)@, received@, old(sealer)@, size, final(sealer)@, r),
        takes_record(old(opener)@, received@) ==> final(opener)@ == old(opener)@.next(),
        !takes_record(old(opener)@, received@) ==> final(opener)@ == old(opener)@,
{
    match read_frame(received, opener) {
        Ok(Step::Need(n)) => Ok(Step::Need(n)),
        Err(e) => Err(ConnectError::Other(e.message())),
        Ok(Step::Done { value: Frame::Hello, used }) => {
            let mut wire: Vec<u8> = Vec::new();
            if let Some((cols, rows)) = size {
                let frame = Frame::Resize { cols, rows };
                proof {
                    lemma_widths(cols as nat, 2);
                    lemma_widths(rows as nat, 2);
                }
                match write_frame(&mut wire, sealer, &frame) {
                    Ok(_) => {
                        assert(wire@ =~= record(old(sealer)@.sealed(encoded(frame@))));
                    },
                    Err(e) => return Err(ConnectError::Other(e.message())),
                }
            }
            Ok(Step::Done { value: wire, used })
        },
        Ok(Step::Done { .. }) => Err(
            ConnectError::Fatal(FatalSessionError::Protocol(ProtocolError::BadServerHello)),
        ),
    }
}

/// What counts, once both sides of a connection have finished.
pub open spec fn settled(reader: Outcome, writer: Outcome) -> Outcome {
    if reader == Outcome::Ended {
        reader
    } else {
        writer
    }
}

/// How a connection came to its end, once both sides have finished: that the
/// session ended outweighs what the writing side says.
pub fn settle(reader: Outcome, writer: Outcome) -> (r: Outcome)
    ensures
        r == settled(reader, writer),
{
    if reader == Outcome::Ended {
        reader
    } else {
        writer
    }
}

/// What the client does once a connection is over.
pub enum DriveStep {
    /// Say this and stop.
    Finish(String),
    /// Stop with this error.
    Fail(ConnectError),
    /// Connect again after so many milliseconds.
    Retry { after: u64 },
}

/// Keeps the session going through blips.
pub struct Driver {
    pub established_once: bool,
    pub backoff: Backoff,
}

/// Whether a failure is final: initial failures, and terminal and protocol
/// errors.
pub open spec fn is_final(established_once: bool, e: ConnectError) -> bool {
    !established_once || e is Fatal || e is Rejected
}

/// Whether `r` is what follows the end of a connection, where `established` and
/// `delay` are the driver's state before, and `then_established` and
/// `next_delay` its state after.
pub open spec fn drives(
    established: bool,
    delay: u64,
    end: Result<Outcome, ConnectError>,
    id: Seq<char>,
    then_established: bool,
    next_delay: u64,
    r: DriveStep,
) -> bool {
    &&& match end {
        Ok(Outcome::Ended) => r matches DriveStep::Finish(m) && m@
            == "\r\n[thther] session ended\r\n"@,
        Ok(Outcome::Detached) => r matches DriveStep::Finish(m) && m@
            == "\r\n[thther] detached (session "@ + id + " still running)\r\n"@,
        Ok(Outcome::Disconnected) => {
            &&& r == (DriveStep::Retry { after: FIRST_DELAY })
            &&& then_established
            &&& next_delay == following(FIRST_DELAY)
        },
        Err(e) => if is_final(established, e) {
            r == DriveStep::Fail(e)
        } else {
            &&& r == (DriveStep::Retry { after: delay })
            &&& then_established
            &&& next_delay == following(delay)
        },
    }
    &&& r !is Retry ==> then_established == established && next_delay == delay
}

impl Driver {
    pub fn new() -> (r: Self)
        ensures
            !r.established_once,
            r.backoff@ == FIRST_DELAY,
    {
        Driver { established_once: false, backoff: Backoff::new() }
    }

    /// Decide what follows a connection, given how it came to its end.
    pub fn drive(&mut self, end: Result<Outcome, ConnectError>, id: &str) -> (r: DriveStep)
        ensures
            drives(
                old(self).established_once,
                old(self).backoff@,
                end,
                id@,
                final(self).established_once,
                final(self).backoff@,
                r,
            ),
    {
        match end {
            Ok(Outcome::Ended) => {
                return DriveStep::Finish("\r\n[thther] session ended\r\n".to_owned());
            },
            Ok(Outcome::Detached) => {
                let mut m = "\r\n[thther] detached (session ".to_owned();
                m.append(id);
                m.append(" still running)\r\n");
                return DriveStep::Finish(m);
            },
            Ok(Outcome::Disconnected) => {
                // We were connected, so restart the backoff schedule.
                self.established_once = true;
                self.backoff.reset();
            },
            Err(e) => {
                let repairable = match &e {
                    ConnectError::Other(_) => true,
                    _ => false,
                };
                if !self.established_once || !repairable {
                    return DriveStep::Fail(e);
                }
            },
        }
        DriveStep::Retry { after: self.backoff.next_delay() }
    }
}

/// Output that is the session's own is shown from where the client stands: what
/// it has had is passed over, what it has not had is shown in full, and only
/// bytes that were not sent at all are missing, with a notice in their place.
pub proof fn law_output_is_shown_once(
    history: Seq<u8>,
    received: nat,
    offset: nat,
    data: Seq<u8>,
)
    requires
        received <= history.len(),
        offset + data.len() <= history.len(),
        data == history.subrange(offset as int, (offset + data.len()) as int),
    ensures
        ({
            let (bytes, now) = shown(received, offset, data);
            &&& received <= now <= history.len()
            &&& offset <= received ==> bytes == history.subrange(received as int, now as int)
            &&& offset > received ==> now == offset + data.len() && bytes == gap_notice(
                received,
                offset,
            ) + history.subrange(offset as int, now as int)
        }),
{
    let (bytes, now) = shown(received, offset, data);
    if offset <= received {
        assert(bytes =~= history.subrange(received as int, now as int));
    } else {
        assert(data.skip(0) =~= data);
    }
}

/// Output that was sent, and the offset that it was sent with.
pub struct Piece {
    pub offset: nat,
    pub data: Seq<u8>,
}

/// What a client shows of pieces of output, in the order in which they come.
pub open spec fn shown_all(received: nat, pieces: Seq<Piece>) -> (Seq<u8>, nat)
    decreases pieces.len(),
{
    if pieces.len() == 0 {
        (Seq::empty(), received)
    } else {
        let (before, then) = shown_all(received, pieces.drop_last());
        let (bytes, now) = shown(then, pieces.last().offset, pieces.last().data);
        (before + bytes, now)
    }
}

/// Whether pieces are all cut from `history`.
pub open spec fn cut_from(history: Seq<u8>, pieces: Seq<Piece>) -> bool {
    forall|i: int|
        0 <= i < pieces.len() ==> {
            let p = #[trigger] pieces[i];
            &&& p.offset + p.data.len() <= history.len()
            &&& p.data == history.subrange(p.offset as int, (p.offset + p.data.len()) as int)
        }
}

/// Whether no piece comes before what precedes it has been received.
pub open spec fn resumes(received: nat, pieces: Seq<Piece>) -> bool
    decreases pieces.len(),
{
    pieces.len() > 0 ==> {
        &&& resumes(received, pieces.drop_last())
        &&& pieces.last().offset <= shown_all(received, pieces.drop_last()).1
    }
}

/// A stretch of the session's output, from one offset to another: shown as it
/// is, or replaced by a notice of how many bytes it had.
pub struct Span {
    pub from: nat,
    pub to: nat,
    pub is_gap: bool,
}

/// What of the output one piece accounts for.
pub open spec fn spans_of(received: nat, p: Piece) -> Seq<Span> {
    let end = p.offset + p.data.len();
    if end <= received {
        Seq::empty()
    } else if p.offset > received {
        seq![
            Span { from: received, to: p.offset, is_gap: true },
            Span { from: p.offset, to: end, is_gap: false },
        ]
    } else {
        seq![Span { from: received, to: end, is_gap: false }]
    }
}

/// What of the output pieces account for, in the order in which they come.
pub open spec fn spans_of_all(received: nat, pieces: Seq<Piece>) -> Seq<Span>
    decreases pieces.len(),
{
    if pieces.len() == 0 {
        Seq::empty()
    } else {
        let init = pieces.drop_last();
        spans_of_all(received, init) + spans_of(shown_all(received, init).1, pieces.last())
    }
}

/// Whether spans follow on one another from `from` to `to`: each offset in
/// between lies in exactly one of them, and a gap is never empty.
pub open spec fn covers(spans: Seq<Span>, from: nat, to: nat) -> bool
    decreases spans.len(),
{
    if spans.len() == 0 {
        from == to
    } else {
        let s = spans.last();
        &&& covers(spans.drop_last(), from, s.from)
        &&& s.from <= s.to
        &&& s.is_gap ==> s.from < s.to
        &&& s.to == to
    }
}

/// What spans of `history` look like on the terminal.
pub open spec fn rendered(history: Seq<u8>, spans: Seq<Span>) -> Seq<u8>
    decreases spans.len(),
{
    if spans.len() == 0 {
        Seq::empty()
    } else {
        let s = spans.last();
        rendered(history, spans.drop_last()) + if s.is_gap {
            gap_notice(s.from, s.to)
        } else {
            history.subrange(s.from as int, s.to as int)
        }
    }
}

/// Whether no span is a gap.
pub open spec fn gapless(spans: Seq<Span>) -> bool {
    forall|i: int| 0 <= i < spans.len() ==> !(#[trigger] spans[i]).is_gap
}

/// Whatever is sent, and sent again, after however many reconnects: each byte of
/// output from where the client stood up to where it stands is either shown,
/// once and in order, or counted by exactly one notice, in its place. Where no
/// piece came too early there is no notice, and every byte is shown exactly
/// once.
pub proof fn law_every_byte_is_shown_exactly_once(
    history: Seq<u8>,
    received: nat,
    pieces: Seq<Piece>,
)
    requires
        received <= history.len(),
        cut_from(history, pieces),
    ensures
        ({
            let (bytes, now) = shown_all(received, pieces);
            let spans = spans_of_all(received, pieces);
            &&& received <= now <= history.len()
            &&& covers(spans, received, now)
            &&& bytes == rendered(history, spans)
            &&& gapless(spans) <==> resumes(received, pieces)
            &&& resumes(received, pieces) ==> bytes == history.subrange(
                received as int,
                now as int,
            )
            &&& forall|i: int|
                0 <= i < pieces.len() ==> now >= (#[trigger] pieces[i]).offset
                    + pieces[i].data.len()
        }),
    decreases pieces.len(),
{
    let spans = spans_of_all(received, pieces);
    if pieces.len() == 0 {
        assert(history.subrange(received as int, received as int) =~= Seq::<u8>::empty());
    } else {
        let init = pieces.drop_last();
        assert(forall|i: int| 0 <= i < init.len() ==> init[i] == pieces[i]);
        assert(cut_from(history, init));
        law_every_byte_is_shown_exactly_once(history, received, init);
        let (before, then) = shown_all(received, init);
        let earlier = spans_of_all(received, init);
        let p = pieces.last();
        assert(p == pieces[pieces.len() - 1]);
        law_output_is_shown_once(history, then, p.offset, p.data);
        let (bytes, now) = shown(then, p.offset, p.data);
        let more = spans_of(then, p);
        assert(spans == earlier + more);
        if more.len() == 0 {
            assert(spans =~= earlier);
            assert(before + bytes =~= before);
            if p.offset > then {
                assert(false);
            }
        } else if more.len() == 1 {
            assert(spans.drop_last() =~= earlier);
            assert(spans.last() == more[0]);
            assert(rendered(history, spans) == rendered(history, earlier) + history.subrange(
                then as int,
                now as int,
            ));
        } else {
            let gap = more[0];
            assert(spans.drop_last() =~= earlier.push(gap));
            assert(spans.drop_last().drop_last() =~= earlier);
            assert(spans.last() == more[1]);
            assert(covers(spans.drop_last(), received, p.offset));
            let text = history.subrange(p.offset as int, now as int);
            assert(rendered(history, spans.drop_last()) == rendered(history, earlier) + gap_notice(
                then,
                p.offset,
            ));
            assert(rendered(history, spans) == rendered(history, spans.drop_last()) + text);
            assert(rendered(history, spans) =~= before + bytes);
            assert(spans[earlier.len() as int] == gap);
        }
        assert(forall|i: int| 0 <= i < earlier.len() ==> spans[i] == earlier[i]);
        assert(gapless(spans) <==> gapless(earlier) && gapless(more)) by {
            assert(forall|i: int| 0 <= i < more.len() ==> spans[earlier.len() + i] == more[i]);
            if gapless(spans) {
                assert forall|i: int| 0 <= i < more.len() implies !(#[trigger] more[i]).is_gap by {
                    assert(spans[earlier.len() + i] == more[i]);
                }
                assert forall|i: int| 0 <= i < earlier.len() implies !(
                #[trigger] earlier[i]).is_gap by {
                    assert(spans[i] == earlier[i]);
                }
            }
        }
        assert(gapless(more) <==> p.offset <= then) by {
            if more.len() == 2 {
                assert(more[0].is_gap);
            }
        }
        if resumes(received, pieces) {
            assert(before + bytes =~= history.subrange(received as int, now as int));
        }
        assert forall|i: int| 0 <= i < pieces.len() implies now >= (#[trigger] pieces[i]).offset
            + pieces[i].data.len() by {
            if i < init.len() {
                assert(init[i] == pieces[i]);
            }
        }
    }
}

/// A client that stands where the server's writer stands still does so after
/// each frame, and the frame shows it the session's output from there on, or,
/// where that is gone, a notice of exactly the bytes that are.
pub proof fn law_client_and_writer_stay_in_step(
    w: ServerWriter,
    s: SessionState,
    history: Seq<u8>,
    action: WriterAction,
    cursor: u64,
)
    requires
        s.ring.wf(),
        s.ring.holds(history),
        history.len() <= u64::MAX,
        w.cursor <= history.len(),
        writes(w, s, action, cursor),
    ensures
        action matches WriterAction::Send(f) ==> {
            &&& f@ matches FrameView::Output { offset, data }
            &&& shown(w.cursor as nat, offset as nat, data) == (
                gap_notice(w.cursor as nat, offset as nat) + history.subrange(
                    offset as int,
                    cursor as int,
                ),
                cursor as nat,
            )
        },
{
    law_read_gives_the_output_at_its_offset(s.ring, history, w.cursor as nat);
    if action is Send {
        let from = s.ring.read_start(w.cursor as nat);
        let data = s.ring.read_data(w.cursor as nat);
        assert(data.skip(0) =~= data);
    }
}

/// All that a client at `cursor` is shown while the server sends it what the
/// buffer holds.
pub open spec fn replayed(ring: RingState, cursor: nat) -> Seq<u8>
    decreases ring.total() - cursor,
{
    if cursor >= ring.total() {
        Seq::empty()
    } else {
        let from = ring.read_start(cursor);
        let data = ring.read_data(cursor);
        shown(cursor, from, data).0 + replayed(ring, from + data.len())
    }
}

/// Resuming is exact within the retained history: the client is shown all of it
/// from where it stands, once. Where that has been evicted, it is told how many
/// bytes are missing, and shown all that is left.
pub proof fn law_resume_is_exact(ring: RingState, history: Seq<u8>, cursor: nat)
    requires
        ring.wf(),
        ring.holds(history),
        cursor <= history.len(),
    ensures
        cursor >= ring.start ==> replayed(ring, cursor) == history.skip(cursor as int),
        cursor < ring.start ==> replayed(ring, cursor) == gap_notice(cursor, ring.start)
            + history.skip(ring.start as int),
    decreases ring.total() - cursor,
{
    if cursor >= ring.total() {
        assert(history.skip(cursor as int) =~= Seq::<u8>::empty());
    } else {
        law_read_gives_the_output_at_its_offset(ring, history, cursor);
        let from = ring.read_start(cursor);
        let data = ring.read_data(cursor);
        let then = from + data.len();
        assert(data.skip(0) =~= data);
        law_resume_is_exact(ring, history, then);
        assert(history.skip(from as int) =~= data + history.skip(then as int));
        assert(replayed(ring, cursor) =~= gap_notice(cursor, from) + history.skip(from as int));
    }
}

/// A client and a server that share the key of a session also share the keys of
/// the connection, each reading what the other writes; and the offset that the
/// server accepts, the client accepts too.
pub proof fn law_both_sides_derive_the_same_keys(
    sessions: Sessions,
    id: Seq<char>,
    offset: u64,
    psk: Seq<u8>,
    client_nonce: Seq<u8>,
    server_nonce: Seq<u8>,
    adm: Admission,
)
    requires
        admits(sessions, id, offset, client_nonce, server_nonce, adm),
        adm is Accept,
        sessions[id].psk == psk,
        sessions[id].ring.total() <= u64::MAX,
        server_nonce.len() == NONCE_LEN,
    ensures
        ({
            let key = session_key(psk, client_nonce, server_nonce);
            &&& adm->pending@.outbound() == Channel::start(key, DIR_SERVER_TO_CLIENT)
            &&& adm->pending@.inbound() == Channel::start(key, DIR_CLIENT_TO_SERVER)
            &&& reply_reading(adm->Accept_reply@) matches ReplyReading::Done {
                server_nonce: nonce,
                server_total,
                used,
            }
            &&& nonce == server_nonce
            &&& offset <= server_total
            &&& used == adm->Accept_reply@.len()
        }),
{
    let total = sessions[id].ring.total() as u64;
    law_reply_arrives(server_nonce, total, Seq::empty(), 0);
    assert(ok_bytes(server_nonce, total) + Seq::<u8>::empty() =~= ok_bytes(server_nonce, total));
}

/// A failure that reconnecting cannot repair is never retried, nor is the first
/// one; any other is.
pub proof fn law_only_repairable_failures_are_retried(established_once: bool, e: ConnectError)
    ensures
        e is Fatal || e is Rejected ==> is_final(established_once, e),
        !established_once ==> is_final(established_once, e),
        established_once && e is Other ==> !is_final(established_once, e),
{
}

} // verus!
