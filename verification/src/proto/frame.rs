//! Framing over the encrypted session channel.
//!
//! Wire record: [u32 BE ciphertext_len][ciphertext]. The ciphertext decrypts to
//! a plaintext frame: [u8 type][payload]. Only `Output` payload bytes advance
//! the resume offset; control frames do not.

use vstd::prelude::*;
use vstd::slice::{slice_subrange, slice_to_vec};
use vstd::string::*;
use vstd::utf8::{encode_utf8, is_ascii_chars_encode_utf8};

use super::crypto::{Channel, CryptoError, Opener, Sealer, MAX_PLAINTEXT, TAG_LEN};
use super::Step;
use crate::bytes::{
    be_bytes, be_value, lemma_be_round_trip, lemma_be_value_bound, lemma_be_value_round_trip,
    lemma_capacities, lemma_widths, push_all, push_be, read_be, same_bytes,
};
use crate::text::{decimal, decimal_text};

verus! {

const T_DATA: u8 = 0;

const T_RESIZE: u8 = 1;

const T_PING: u8 = 2;

const T_PONG: u8 = 3;

const T_ACK: u8 = 4;

const T_HELLO: u8 = 5;

const T_ENDED: u8 = 6;

const T_OUTPUT: u8 = 7;

/// Magic carried in the first encrypted `Hello` frame; a wrong PSK makes the
/// AEAD tag fail before we ever parse this, so it is a belt-and-suspenders check.
pub const HELLO_MAGIC: &'static str = "THTHER-HELLO-1";

/// Records larger than this are rejected to bound memory.
pub const MAX_RECORD: u32 = 4194304;

/// The most output that one frame carries.
pub const MAX_OUTPUT_BYTES: usize = 65536;

#[derive(Debug, Clone)]
pub enum Frame {
    /// Terminal input, client to server.
    Data(Vec<u8>),
    Resize { cols: u16, rows: u16 },
    Ping,
    Pong,
    /// Bytes the peer has received so far. The server retains them all the same,
    /// for a fresh attach to replay.
    Ack(u64),
    Hello,
    /// Session ended (shell exited); the client should stop and not reconnect.
    Ended,
    /// Terminal output, server to client, and the absolute offset it starts at.
    Output { offset: u64, data: Vec<u8> },
}

/// What a frame says.
pub enum FrameView {
    Data(Seq<u8>),
    Resize { cols: u16, rows: u16 },
    Ping,
    Pong,
    Ack(u64),
    Hello,
    Ended,
    Output { offset: u64, data: Seq<u8> },
}

impl View for Frame {
    type V = FrameView;

    open spec fn view(&self) -> FrameView {
        match *self {
            Frame::Data(b) => FrameView::Data(b@),
            Frame::Resize { cols, rows } => FrameView::Resize { cols, rows },
            Frame::Ping => FrameView::Ping,
            Frame::Pong => FrameView::Pong,
            Frame::Ack(n) => FrameView::Ack(n),
            Frame::Hello => FrameView::Hello,
            Frame::Ended => FrameView::Ended,
            Frame::Output { offset, data } => FrameView::Output { offset, data: data@ },
        }
    }
}

/// Why a frame could not be sent or read.
#[derive(Debug, Clone, Copy, PartialEq, Eq, Structural)]
pub enum FrameError {
    Empty,
    BadResize,
    BadAck,
    BadHello,
    BadOutput,
    UnknownType(u8),
    BadLength(u32),
    TooLarge,
    Crypto(CryptoError),
}

/// How a frame error reads.
pub open spec fn frame_error_text(e: FrameError) -> Seq<char> {
    match e {
        FrameError::Empty => "empty frame"@,
        FrameError::BadResize => "bad resize frame"@,
        FrameError::BadAck => "bad ack frame"@,
        FrameError::BadHello => "bad hello magic"@,
        FrameError::BadOutput => "bad output frame"@,
        FrameError::UnknownType(t) => "unknown frame type "@ + decimal(t as nat),
        FrameError::BadLength(n) => "bad record length "@ + decimal(n as nat),
        FrameError::TooLarge => "record too large"@,
        FrameError::Crypto(CryptoError::CounterExhausted) => "nonce counter exhausted"@,
        FrameError::Crypto(CryptoError::SealFailed) => "seal failed"@,
        FrameError::Crypto(CryptoError::AuthFailed) => "decrypt/auth failed"@,
    }
}

impl FrameError {
    pub fn message(&self) -> (r: String)
        ensures
            r@ == frame_error_text(*self),
    {
        match self {
            FrameError::Empty => "empty frame".to_owned(),
            FrameError::BadResize => "bad resize frame".to_owned(),
            FrameError::BadAck => "bad ack frame".to_owned(),
            FrameError::BadHello => "bad hello magic".to_owned(),
            FrameError::BadOutput => "bad output frame".to_owned(),
            FrameError::UnknownType(t) => {
                let mut m = "unknown frame type ".to_owned();
                m.append(decimal_text(*t as u64).as_str());
                m
            },
            FrameError::BadLength(n) => {
                let mut m = "bad record length ".to_owned();
                m.append(decimal_text(*n as u64).as_str());
                m
            },
            FrameError::TooLarge => "record too large".to_owned(),
            FrameError::Crypto(e) => e.message().to_owned(),
        }
    }
}

/// The plaintext of a frame: one byte for its type, then its payload.
pub open spec fn encoded(f: FrameView) -> Seq<u8> {
    match f {
        FrameView::Data(b) => seq![0u8] + b,
        FrameView::Resize { cols, rows } => seq![1u8] + be_bytes(cols as nat, 2) + be_bytes(
            rows as nat,
            2,
        ),
        FrameView::Ping => seq![2u8],
        FrameView::Pong => seq![3u8],
        FrameView::Ack(n) => seq![4u8] + be_bytes(n as nat, 8),
        FrameView::Hello => seq![5u8] + encode_utf8(HELLO_MAGIC@),
        FrameView::Ended => seq![6u8],
        FrameView::Output { offset, data } => seq![7u8] + be_bytes(offset as nat, 8) + data,
    }
}

/// The frame in a plaintext. Payload after a type that has none is ignored.
pub open spec fn decoded(pt: Seq<u8>) -> Result<FrameView, FrameError> {
    if pt.len() == 0 {
        Err(FrameError::Empty)
    } else {
        let rest = pt.skip(1);
        match pt[0] {
            0u8 => Ok(FrameView::Data(rest)),
            1u8 => if rest.len() != 4 {
                Err(FrameError::BadResize)
            } else {
                Ok(
                    FrameView::Resize {
                        cols: be_value(rest.take(2)) as u16,
                        rows: be_value(rest.skip(2)) as u16,
                    },
                )
            },
            2u8 => Ok(FrameView::Ping),
            3u8 => Ok(FrameView::Pong),
            4u8 => if rest.len() != 8 {
                Err(FrameError::BadAck)
            } else {
                Ok(FrameView::Ack(be_value(rest) as u64))
            },
            5u8 => if rest != encode_utf8(HELLO_MAGIC@) {
                Err(FrameError::BadHello)
            } else {
                Ok(FrameView::Hello)
            },
            6u8 => Ok(FrameView::Ended),
            7u8 => if rest.len() < 8 {
                Err(FrameError::BadOutput)
            } else {
                Ok(
                    FrameView::Output {
                        offset: be_value(rest.take(8)) as u64,
                        data: rest.skip(8),
                    },
                )
            },
            t => Err(FrameError::UnknownType(t)),
        }
    }
}

impl Frame {
    /// The plaintext of this frame.
    pub fn encode(&self) -> (r: Vec<u8>)
        ensures
            r@ == encoded(self@),
    {
        let mut v: Vec<u8> = Vec::new();
        match self {
            Frame::Data(b) => {
                v.push(T_DATA);
                push_all(&mut v, b.as_slice());
            },
            Frame::Resize { cols, rows } => {
                v.push(T_RESIZE);
                push_be(&mut v, *cols as u64, 2);
                push_be(&mut v, *rows as u64, 2);
            },
            Frame::Ping => {
                v.push(T_PING);
            },
            Frame::Pong => {
                v.push(T_PONG);
            },
            Frame::Ack(n) => {
                v.push(T_ACK);
                push_be(&mut v, *n, 8);
            },
            Frame::Hello => {
                v.push(T_HELLO);
                push_all(&mut v, HELLO_MAGIC.as_bytes());
            },
            Frame::Ended => {
                v.push(T_ENDED);
            },
            Frame::Output { offset, data } => {
                v.push(T_OUTPUT);
                push_be(&mut v, *offset, 8);
                push_all(&mut v, data.as_slice());
            },
        }
        assert(v@ =~= encoded(self@));
        v
    }

    /// The frame in a plaintext.
    pub fn decode(pt: &[u8]) -> (r: Result<Frame, FrameError>)
        ensures
            match decoded(pt@) {
                Ok(f) => r matches Ok(g) && g@ == f,
                Err(e) => r == Err::<Frame, FrameError>(e),
            },
    {
        if pt.len() == 0 {
            return Err(FrameError::Empty);
        }
        let t = pt[0];
        let rest = slice_subrange(pt, 1, pt.len());
        assert(rest@ =~= pt@.skip(1));
        if t == T_DATA {
            Ok(Frame::Data(slice_to_vec(rest)))
        } else if t == T_RESIZE {
            if rest.len() != 4 {
                return Err(FrameError::BadResize);
            }
            assert(rest@.subrange(0, 2) =~= rest@.take(2));
            assert(rest@.subrange(2, 4) =~= rest@.skip(2));
            proof {
                lemma_be_value_bound(rest@.take(2));
                lemma_be_value_bound(rest@.skip(2));
                lemma_capacities();
            }
            Ok(
                Frame::Resize {
                    cols: read_be(slice_subrange(rest, 0, 2)) as u16,
                    rows: read_be(slice_subrange(rest, 2, 4)) as u16,
                },
            )
        } else if t == T_PING {
            Ok(Frame::Ping)
        } else if t == T_PONG {
            Ok(Frame::Pong)
        } else if t == T_ACK {
            if rest.len() != 8 {
                return Err(FrameError::BadAck);
            }
            Ok(Frame::Ack(read_be(rest)))
        } else if t == T_HELLO {
            if !same_bytes(rest, HELLO_MAGIC.as_bytes()) {
                return Err(FrameError::BadHello);
            }
            Ok(Frame::Hello)
        } else if t == T_ENDED {
            Ok(Frame::Ended)
        } else if t == T_OUTPUT {
            if rest.len() < 8 {
                return Err(FrameError::BadOutput);
            }
            assert(rest@.subrange(0, 8) =~= rest@.take(8));
            assert(rest@.subrange(8, rest@.len() as int) =~= rest@.skip(8));
            Ok(
                Frame::Output {
                    offset: read_be(slice_subrange(rest, 0, 8)),
                    data: slice_to_vec(slice_subrange(rest, 8, rest.len())),
                },
            )
        } else {
            Err(FrameError::UnknownType(t))
        }
    }
}

/// The record of a sealed frame: its length, then the ciphertext.
pub open spec fn record(ciphertext: Seq<u8>) -> Seq<u8> {
    be_bytes(ciphertext.len(), 4) + ciphertext
}

/// How far reading the next record has come, given what was received of it.
pub enum Reading {
    Need(nat),
    Done { frame: FrameView, used: nat },
    Fail(FrameError),
}

/// What the bytes received so far say about the next record of a direction.
pub open spec fn reading(chan: Channel, received: Seq<u8>) -> Reading {
    if received.len() < 4 {
        Reading::Need((4 - received.len()) as nat)
    } else {
        let n = be_value(received.take(4));
        if n == 0 || n > MAX_RECORD {
            Reading::Fail(FrameError::BadLength(n as u32))
        } else if received.len() < 4 + n {
            Reading::Need((4 + n - received.len()) as nat)
        } else {
            match chan.opened(received.subrange(4, 4 + n as int)) {
                None => Reading::Fail(FrameError::Crypto(CryptoError::AuthFailed)),
                Some(pt) => if chan.counter == u64::MAX {
                    Reading::Fail(FrameError::Crypto(CryptoError::CounterExhausted))
                } else {
                    match decoded(pt) {
                        Ok(frame) => Reading::Done { frame, used: 4 + n },
                        Err(e) => Reading::Fail(e),
                    }
                },
            }
        }
    }
}

/// Whether the bytes received hold a whole, authentic record, so that the
/// direction moves on.
pub open spec fn takes_record(chan: Channel, received: Seq<u8>) -> bool {
    &&& received.len() >= 4
    &&& 0 < be_value(received.take(4)) <= MAX_RECORD
    &&& received.len() >= 4 + be_value(received.take(4))
    &&& chan.opened(received.subrange(4, 4 + be_value(received.take(4)) as int)) is Some
    &&& chan.counter < u64::MAX
}

/// Whether `r` is how a frame is put on the wire, where `chan` and `then` are
/// the direction before and after, and `before` and `after` what is on the wire.
pub open spec fn puts(
    chan: Channel,
    frame: FrameView,
    then: Channel,
    before: Seq<u8>,
    after: Seq<u8>,
    r: Result<(), FrameError>,
) -> bool {
    let pt = encoded(frame);
    if chan.counter == u64::MAX {
        &&& r == Err::<(), FrameError>(FrameError::Crypto(CryptoError::CounterExhausted))
        &&& then == chan
        &&& after == before
    } else if pt.len() > MAX_PLAINTEXT {
        &&& r == Err::<(), FrameError>(FrameError::Crypto(CryptoError::SealFailed))
        &&& then == chan.next()
        &&& after == before
    } else if pt.len() + TAG_LEN > MAX_RECORD {
        &&& r == Err::<(), FrameError>(FrameError::TooLarge)
        &&& then == chan.next()
        &&& after == before
    } else {
        &&& r is Ok
        &&& then == chan.next()
        &&& after == before + record(chan.sealed(pt))
        &&& record(chan.sealed(pt)).len() == 4 + pt.len() + TAG_LEN
        &&& chan.opened(chan.sealed(pt)) == Some(pt)
        &&& reading(chan, record(chan.sealed(pt))) == (Reading::Done {
            frame,
            used: record(chan.sealed(pt)).len(),
        })
    }
}

/// Seal one frame and append its record to what is to be written.
///
/// A frame that is too large still uses up its place in the direction. The
/// peer, at the same place, reads back the frame.
pub fn write_frame(wire: &mut Vec<u8>, sealer: &mut Sealer, frame: &Frame) -> (r: Result<
    (),
    FrameError,
>)
    ensures
        puts(old(sealer)@, frame@, final(sealer)@, old(wire)@, final(wire)@, r),
{
    let ct = match sealer.seal(frame.encode().as_slice()) {
        Ok(ct) => ct,
        Err(e) => return Err(FrameError::Crypto(e)),
    };
    if ct.len() as u64 > MAX_RECORD as u64 {
        return Err(FrameError::TooLarge);
    }
    push_be(wire, ct.len() as u64, 4);
    push_all(wire, ct.as_slice());
    proof {
        let chan = old(sealer)@;
        let pt = encoded(frame@);
        assert(wire@ =~= old(wire)@ + record(ct@));
        lemma_record_reads_back(chan, pt, frame@);
    }
    Ok(())
}

/// Read and open one frame, given what was received of it so far: either how
/// many bytes are still to come, or the frame. The length is judged before the
/// rest is asked for.
pub fn read_frame(received: &[u8], opener: &mut Opener) -> (r: Result<Step<Frame>, FrameError>)
    ensures
        match reading(old(opener)@, received@) {
            Reading::Need(n) => r matches Ok(Step::Need(m)) && m == n,
            Reading::Done { frame, used } => r matches Ok(Step::Done { value, used: u }) && value@
                == frame && u == used,
            Reading::Fail(e) => r matches Err(d) && d == e,
        },
        takes_record(old(opener)@, received@) ==> final(opener)@ == old(opener)@.next(),
        !takes_record(old(opener)@, received@) ==> final(opener)@ == old(opener)@,
{
    if received.len() < 4 {
        return Ok(Step::Need(4 - received.len()));
    }
    let head = slice_subrange(received, 0, 4);
    assert(head@ =~= received@.take(4));
    proof {
        lemma_be_value_bound(head@);
        lemma_capacities();
    }
    let len = read_be(head);
    if len == 0 || len > MAX_RECORD as u64 {
        return Err(FrameError::BadLength(len as u32));
    }
    let used: usize = 4 + len as usize;
    if received.len() < used {
        return Ok(Step::Need(used - received.len()));
    }
    match opener.open(slice_subrange(received, 4, used)) {
        Err(e) => Err(FrameError::Crypto(e)),
        Ok(pt) => match Frame::decode(pt.as_slice()) {
            Ok(value) => Ok(Step::Done { value, used }),
            Err(e) => Err(e),
        },
    }
}

/// How long a hello is.
pub proof fn lemma_hello_length()
    ensures
        encoded(FrameView::Hello).len() == 15,
{
    reveal_strlit("THTHER-HELLO-1");
    is_ascii_chars_encode_utf8(HELLO_MAGIC@);
}

/// Output that fits one frame always fits one record: only the counter can
/// keep the server from sending it.
pub proof fn law_output_frames_fit_a_record(offset: u64, data: Seq<u8>)
    requires
        data.len() <= MAX_OUTPUT_BYTES,
    ensures
        encoded(FrameView::Output { offset, data }).len() == 9 + data.len(),
        encoded(FrameView::Output { offset, data }).len() + TAG_LEN <= MAX_RECORD,
{
    lemma_widths(offset as nat, 8);
}

/// Decoding undoes encoding: every frame arrives as it was sent.
pub proof fn law_decode_undoes_encode(f: FrameView)
    ensures
        decoded(encoded(f)) == Ok::<FrameView, FrameError>(f),
{
    lemma_capacities();
    let e = encoded(f);
    match f {
        FrameView::Data(b) => {
            assert(e.skip(1) =~= b);
        },
        FrameView::Resize { cols, rows } => {
            lemma_widths(cols as nat, 2);
            lemma_widths(rows as nat, 2);
            lemma_be_round_trip(cols as nat, 2);
            lemma_be_round_trip(rows as nat, 2);
            assert(e.skip(1).take(2) =~= be_bytes(cols as nat, 2));
            assert(e.skip(1).skip(2) =~= be_bytes(rows as nat, 2));
        },
        FrameView::Ack(n) => {
            lemma_widths(n as nat, 8);
            lemma_be_round_trip(n as nat, 8);
            assert(e.skip(1) =~= be_bytes(n as nat, 8));
        },
        FrameView::Hello => {
            assert(e.skip(1) =~= encode_utf8(HELLO_MAGIC@));
        },
        FrameView::Output { offset, data } => {
            lemma_widths(offset as nat, 8);
            lemma_be_round_trip(offset as nat, 8);
            assert(e.skip(1).take(8) =~= be_bytes(offset as nat, 8));
            assert(e.skip(1).skip(8) =~= data);
        },
        _ => {},
    }
}

/// A plaintext that decodes is the encoding of its frame, but for bytes after
/// a frame that has no payload.
pub proof fn law_encode_undoes_decode(pt: Seq<u8>)
    requires
        decoded(pt) is Ok,
    ensures
        ({
            let f = decoded(pt)->Ok_0;
            if f is Ping || f is Pong || f is Ended {
                encoded(f) == pt.take(1)
            } else {
                encoded(f) == pt
            }
        }),
{
    let f = decoded(pt)->Ok_0;
    let rest = pt.skip(1);
    lemma_capacities();
    assert(pt =~= seq![pt[0]] + rest);
    match f {
        FrameView::Resize { cols, rows } => {
            lemma_be_value_round_trip(rest.take(2));
            lemma_be_value_round_trip(rest.skip(2));
            lemma_be_value_bound(rest.take(2));
            lemma_be_value_bound(rest.skip(2));
            assert(encoded(f) =~= pt);
        },
        FrameView::Ack(n) => {
            lemma_be_value_round_trip(rest);
            lemma_be_value_bound(rest);
        },
        FrameView::Output { offset, data } => {
            lemma_be_value_round_trip(rest.take(8));
            lemma_be_value_bound(rest.take(8));
            assert(encoded(f) =~= pt);
        },
        FrameView::Ping | FrameView::Pong | FrameView::Ended => {
            assert(encoded(f) =~= pt.take(1));
        },
        _ => {},
    }
}

/// Two frames with one encoding are one frame.
pub proof fn law_encoding_is_injective(f: FrameView, g: FrameView)
    requires
        encoded(f) == encoded(g),
    ensures
        f == g,
{
    law_decode_undoes_encode(f);
    law_decode_undoes_encode(g);
}

/// A record that opens reads back as the frame that was sealed in it.
proof fn lemma_record_reads_back(chan: Channel, pt: Seq<u8>, f: FrameView)
    requires
        pt == encoded(f),
        chan.counter < u64::MAX,
        chan.opened(chan.sealed(pt)) == Some(pt),
        0 < chan.sealed(pt).len() <= MAX_RECORD,
    ensures
        reading(chan, record(chan.sealed(pt))) == (Reading::Done {
            frame: f,
            used: record(chan.sealed(pt)).len(),
        }),
        record(chan.sealed(pt)).len() == 4 + chan.sealed(pt).len(),
{
    let ct = chan.sealed(pt);
    let rec = record(ct);
    lemma_capacities();
    lemma_widths(ct.len(), 4);
    lemma_be_round_trip(ct.len(), 4);
    assert(rec.take(4) =~= be_bytes(ct.len(), 4));
    assert(rec.subrange(4, 4 + ct.len() as int) =~= ct);
    law_decode_undoes_encode(f);
}

/// What follows a record does not change how it reads: records can be sent
/// back to back.
pub proof fn law_records_are_self_delimiting(chan: Channel, rec: Seq<u8>, tail: Seq<u8>)
    requires
        reading(chan, rec) !is Need,
    ensures
        reading(chan, rec + tail) == reading(chan, rec),
        takes_record(chan, rec + tail) == takes_record(chan, rec),
{
    assert((rec + tail).take(4) =~= rec.take(4));
    let n = be_value(rec.take(4)) as int;
    if rec.len() >= 4 + n {
        assert((rec + tail).subrange(4, 4 + n) =~= rec.subrange(4, 4 + n));
    }
}

/// A record that has not arrived in full is never read: the reader asks for
/// the rest, never for more than the rest, and its direction does not move.
pub proof fn law_truncated_record_is_not_read(chan: Channel, rec: Seq<u8>, k: nat)
    requires
        reading(chan, rec) matches Reading::Done { used, .. } && used == rec.len(),
        k < rec.len(),
    ensures
        reading(chan, rec.take(k as int)) matches Reading::Need(n) && 0 < n <= rec.len() - k,
        !takes_record(chan, rec.take(k as int)),
{
    let part = rec.take(k as int);
    if k >= 4 {
        assert(part.take(4) =~= rec.take(4));
    }
}

/// Frames on the wire, one record after the other.
pub open spec fn stream(chan: Channel, frames: Seq<FrameView>) -> Seq<u8>
    decreases frames.len(),
{
    if frames.len() == 0 {
        Seq::empty()
    } else {
        record(chan.sealed(encoded(frames[0]))) + stream(chan.next(), frames.skip(1))
    }
}

/// All frames that can be read off the wire.
pub open spec fn read_all(chan: Channel, wire: Seq<u8>) -> Seq<FrameView>
    decreases wire.len(),
{
    match reading(chan, wire) {
        Reading::Done { frame, used } => if 0 < used <= wire.len() {
            seq![frame] + read_all(chan.next(), wire.skip(used as int))
        } else {
            Seq::empty()
        },
        _ => Seq::empty(),
    }
}

/// Whether every frame, sent in turn, makes a record that reads back as it:
/// what writing it ensures.
pub open spec fn each_reads_back(chan: Channel, frames: Seq<FrameView>) -> bool
    decreases frames.len(),
{
    frames.len() > 0 ==> {
        let rec = record(chan.sealed(encoded(frames[0])));
        &&& reading(chan, rec) == (Reading::Done { frame: frames[0], used: rec.len() })
        &&& each_reads_back(chan.next(), frames.skip(1))
    }
}

/// The frames that one side writes are the frames that the other reads: all of
/// them, in order, and nothing else.
pub proof fn law_frames_arrive_in_order(chan: Channel, frames: Seq<FrameView>)
    requires
        each_reads_back(chan, frames),
    ensures
        read_all(chan, stream(chan, frames)) == frames,
    decreases frames.len(),
{
    let wire = stream(chan, frames);
    if frames.len() == 0 {
        assert(read_all(chan, wire) =~= frames);
    } else {
        let rec = record(chan.sealed(encoded(frames[0])));
        let rest = stream(chan.next(), frames.skip(1));
        law_records_are_self_delimiting(chan, rec, rest);
        lemma_widths(chan.sealed(encoded(frames[0])).len(), 4);
        assert(wire.skip(rec.len() as int) =~= rest);
        law_frames_arrive_in_order(chan.next(), frames.skip(1));
        assert(read_all(chan, wire) =~= seq![frames[0]] + frames.skip(1));
        assert(seq![frames[0]] + frames.skip(1) =~= frames);
    }
}

} // verus!
