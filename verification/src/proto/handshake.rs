//! Plaintext TCP handshake performed before switching to encrypted frames.
//!
//! The handshake carries the session id, both random nonces, and the client's
//! resume offset. PSK knowledge is proven implicitly: both sides derive the key
//! from the PSK + nonces, and the first encrypted `Hello` frame fails to open if
//! the PSK is wrong.

use vstd::prelude::*;
use vstd::slice::{slice_subrange, slice_to_vec};
use vstd::string::*;
use vstd::utf8::{
    decode_utf8, encode_utf8, encode_utf8_decode_utf8, encode_utf8_valid_utf8,
    is_ascii_chars_encode_utf8, valid_utf8,
};

use super::crypto::NONCE_LEN;
use super::Step;
use crate::bytes::{
    array32, be_bytes, be_value, lemma_be_round_trip, lemma_be_value_bound,
    lemma_be_value_round_trip, lemma_capacities, lemma_widths, push_all, push_be, read_be,
    same_bytes,
};
use crate::random::random_bytes;
use crate::text::{decimal, decimal_text};

verus! {

/// Opens every client hello.
pub const MAGIC: &'static str = "THT1";

/// The terminal protocol that both sides must speak.
pub const VERSION: u8 = 2;

pub const SESSION_ID_LEN: usize = 8;

pub const STATUS_OK: u8 = 0;

pub const STATUS_NO_SESSION: u8 = 1;

pub const STATUS_VERSION_MISMATCH: u8 = 2;

pub const STATUS_BAD_OFFSET: u8 = 3;

/// A refusal that reconnecting cannot repair.
#[derive(Debug, Clone, Copy, PartialEq, Eq, Structural)]
pub enum Rejection {
    /// The peers speak different terminal protocols.
    VersionMismatch,
    /// The client claims more output than the session ever produced.
    BadOffset,
}

/// How a rejection reads.
pub open spec fn rejection_text(r: Rejection) -> Seq<char> {
    match r {
        Rejection::VersionMismatch => "protocol version mismatch"@,
        Rejection::BadOffset => "resume offset exceeds session output"@,
    }
}

impl Rejection {
    pub fn message(&self) -> (r: &'static str)
        ensures
            r@ == rejection_text(*self),
    {
        match self {
            Rejection::VersionMismatch => "protocol version mismatch",
            Rejection::BadOffset => "resume offset exceeds session output",
        }
    }
}

/// Why a handshake failed.
#[derive(Debug, Clone, Copy, PartialEq, Eq, Structural)]
pub enum HandshakeError {
    BadIdLength,
    BadMagic,
    /// The eight bytes of the id, as a big-endian number, are not UTF-8.
    BadId(u64),
    NoSession,
    UnknownStatus(u8),
    Rejected(Rejection),
}

/// What `String::from_utf8` says of bytes that are not UTF-8.
pub uninterp spec fn utf8_complaint(bytes: Seq<u8>) -> Seq<char>;

/// The complaint about bytes that should be text; nothing where they are.
pub open spec fn not_text(bytes: Seq<u8>) -> Seq<char> {
    if valid_utf8(bytes) {
        Seq::empty()
    } else {
        utf8_complaint(bytes)
    }
}

/// Calls `String::from_utf8`, which succeeds exactly on valid UTF-8 with the
/// text that has those bytes. The words of its error are named, not described.
#[verifier::external_body]
fn utf8_text(bytes: Vec<u8>) -> (r: Result<String, String>)
    ensures
        r is Ok <==> valid_utf8(bytes@),
        r is Ok ==> encode_utf8(r->Ok_0@) == bytes@,
        r is Err ==> r->Err_0@ == utf8_complaint(bytes@),
{
    match String::from_utf8(bytes) {
        Ok(text) => Ok(text),
        Err(e) => Err(e.to_string()),
    }
}

/// How a handshake error reads.
pub open spec fn handshake_error_text(e: HandshakeError) -> Seq<char> {
    match e {
        HandshakeError::BadIdLength => "session id must be 8 chars"@,
        HandshakeError::BadMagic => "bad magic"@,
        HandshakeError::BadId(id) => not_text(be_bytes(id as nat, 8)),
        HandshakeError::NoSession => "server: no such session"@,
        HandshakeError::UnknownStatus(s) => "server: unknown status "@ + decimal(s as nat),
        HandshakeError::Rejected(r) => rejection_text(r),
    }
}

impl HandshakeError {
    pub fn message(&self) -> (r: String)
        ensures
            r@ == handshake_error_text(*self),
    {
        match self {
            HandshakeError::BadIdLength => "session id must be 8 chars".to_owned(),
            HandshakeError::BadMagic => "bad magic".to_owned(),
            HandshakeError::BadId(id) => {
                let mut bytes: Vec<u8> = Vec::new();
                push_be(&mut bytes, *id, 8);
                assert(bytes@ =~= be_bytes(*id as nat, 8));
                match utf8_text(bytes) {
                    Ok(_) => String::new(),
                    Err(complaint) => complaint,
                }
            },
            HandshakeError::NoSession => "server: no such session".to_owned(),
            HandshakeError::UnknownStatus(s) => {
                let mut m = "server: unknown status ".to_owned();
                m.append(decimal_text(*s as u64).as_str());
                m
            },
            HandshakeError::Rejected(r) => r.message().to_owned(),
        }
    }
}

pub struct ClientHello {
    pub session_id: String,
    pub client_nonce: [u8; NONCE_LEN],
    pub offset: u64,
}

/// What a client hello says.
pub struct HelloView {
    pub session_id: Seq<char>,
    pub client_nonce: Seq<u8>,
    pub offset: u64,
}

impl View for ClientHello {
    type V = HelloView;

    open spec fn view(&self) -> HelloView {
        HelloView {
            session_id: self.session_id@,
            client_nonce: self.client_nonce@,
            offset: self.offset,
        }
    }
}

/// A hello on the wire.
pub open spec fn hello_bytes(h: HelloView) -> Seq<u8> {
    encode_utf8(MAGIC@) + seq![VERSION] + encode_utf8(h.session_id) + h.client_nonce + be_bytes(
        h.offset as nat,
        8,
    )
}

/// How far a hello has been received.
pub enum HelloReading {
    Need(nat),
    Done { hello: HelloView, used: nat },
    Fail(HandshakeError),
}

/// What the bytes received so far say about a hello. Each part is judged as
/// soon as it is there: a peer of another version is refused on its fifth byte.
pub open spec fn hello_reading(received: Seq<u8>) -> HelloReading {
    let len = received.len();
    if len < 4 {
        HelloReading::Need((4 - len) as nat)
    } else if received.take(4) != encode_utf8(MAGIC@) {
        HelloReading::Fail(HandshakeError::BadMagic)
    } else if len < 5 {
        HelloReading::Need(1)
    } else if received[4] != VERSION {
        HelloReading::Fail(HandshakeError::Rejected(Rejection::VersionMismatch))
    } else if len < 13 {
        HelloReading::Need((13 - len) as nat)
    } else if !valid_utf8(received.subrange(5, 13)) {
        HelloReading::Fail(HandshakeError::BadId(be_value(received.subrange(5, 13)) as u64))
    } else if len < 45 {
        HelloReading::Need((45 - len) as nat)
    } else if len < 53 {
        HelloReading::Need((53 - len) as nat)
    } else {
        HelloReading::Done {
            hello: HelloView {
                session_id: decode_utf8(received.subrange(5, 13)),
                client_nonce: received.subrange(13, 45),
                offset: be_value(received.subrange(45, 53)) as u64,
            },
            used: 53,
        }
    }
}

/// How far the server's reply has been received.
pub enum ReplyReading {
    Need(nat),
    Done { server_nonce: Seq<u8>, server_total: u64, used: nat },
    Fail(HandshakeError),
}

/// What a status byte other than success means.
pub open spec fn refusal(status: u8) -> HandshakeError {
    if status == STATUS_NO_SESSION {
        HandshakeError::NoSession
    } else if status == STATUS_VERSION_MISMATCH {
        HandshakeError::Rejected(Rejection::VersionMismatch)
    } else if status == STATUS_BAD_OFFSET {
        HandshakeError::Rejected(Rejection::BadOffset)
    } else {
        HandshakeError::UnknownStatus(status)
    }
}

/// What the bytes received so far say about the server's reply.
pub open spec fn reply_reading(received: Seq<u8>) -> ReplyReading {
    let len = received.len();
    if len < 1 {
        ReplyReading::Need(1)
    } else if received[0] != STATUS_OK {
        ReplyReading::Fail(refusal(received[0]))
    } else if len < 33 {
        ReplyReading::Need((33 - len) as nat)
    } else if len < 41 {
        ReplyReading::Need((41 - len) as nat)
    } else {
        ReplyReading::Done {
            server_nonce: received.subrange(1, 33),
            server_total: be_value(received.subrange(33, 41)) as u64,
            used: 41,
        }
    }
}

/// The server's reply to a hello it accepts.
pub open spec fn ok_bytes(server_nonce: Seq<u8>, server_total: u64) -> Seq<u8> {
    seq![STATUS_OK] + server_nonce + be_bytes(server_total as nat, 8)
}

/// A fresh nonce for one connection.
pub fn random_nonce() -> (r: [u8; NONCE_LEN]) {
    random_bytes()
}

/// Whether `r` is how a hello is sent.
pub open spec fn greets_with(h: HelloView, r: Result<Vec<u8>, HandshakeError>) -> bool {
    if encode_utf8(h.session_id).len() != SESSION_ID_LEN {
        r == Err::<Vec<u8>, HandshakeError>(HandshakeError::BadIdLength)
    } else {
        r matches Ok(b) && b@ == hello_bytes(h)
    }
}

/// Client side: the hello to send. The id must be eight bytes long.
pub fn client_send(session_id: &str, client_nonce: &[u8; NONCE_LEN], offset: u64) -> (r: Result<
    Vec<u8>,
    HandshakeError,
>)
    ensures
        greets_with(
            HelloView { session_id: session_id@, client_nonce: client_nonce@, offset },
            r,
        ),
{
    let id = session_id.as_bytes();
    if id.len() != SESSION_ID_LEN {
        return Err(HandshakeError::BadIdLength);
    }
    let mut buf: Vec<u8> = Vec::new();
    push_all(&mut buf, MAGIC.as_bytes());
    buf.push(VERSION);
    push_all(&mut buf, id);
    push_all(&mut buf, client_nonce.as_slice());
    push_be(&mut buf, offset, 8);
    assert(buf@ =~= hello_bytes(
        HelloView { session_id: session_id@, client_nonce: client_nonce@, offset },
    ));
    Ok(buf)
}

/// Client side: read the server response, given what was received of it so
/// far. It holds the server's nonce and its total.
pub fn client_recv(received: &[u8]) -> (r: Result<Step<([u8; NONCE_LEN], u64)>, HandshakeError>)
    ensures
        match reply_reading(received@) {
            ReplyReading::Need(n) => r matches Ok(Step::Need(m)) && m == n,
            ReplyReading::Done { server_nonce, server_total, used } => r matches Ok(
                Step::Done { value, used: u },
            ) && value.0@ == server_nonce && value.1 == server_total && u == used,
            ReplyReading::Fail(e) => r matches Err(d) && d == e,
        },
{
    let len = received.len();
    if len < 1 {
        return Ok(Step::Need(1));
    }
    let status = received[0];
    if status == STATUS_NO_SESSION {
        return Err(HandshakeError::NoSession);
    }
    if status == STATUS_VERSION_MISMATCH {
        return Err(HandshakeError::Rejected(Rejection::VersionMismatch));
    }
    if status == STATUS_BAD_OFFSET {
        return Err(HandshakeError::Rejected(Rejection::BadOffset));
    }
    if status != STATUS_OK {
        return Err(HandshakeError::UnknownStatus(status));
    }
    if len < 33 {
        return Ok(Step::Need(33 - len));
    }
    if len < 41 {
        return Ok(Step::Need(41 - len));
    }
    let nonce = array32(slice_subrange(received, 1, 33));
    let total = read_be(slice_subrange(received, 33, 41));
    Ok(Step::Done { value: (nonce, total), used: 41 })
}

/// Server side: read the client hello, given what was received of it so far.
pub fn server_recv(received: &[u8]) -> (r: Result<Step<ClientHello>, HandshakeError>)
    ensures
        match hello_reading(received@) {
            HelloReading::Need(n) => r matches Ok(Step::Need(m)) && m == n,
            HelloReading::Done { hello, used } => r matches Ok(Step::Done { value, used: u })
                && value@ == hello && u == used,
            HelloReading::Fail(e) => r matches Err(d) && d == e,
        },
{
    let len = received.len();
    if len < 4 {
        return Ok(Step::Need(4 - len));
    }
    let magic = slice_subrange(received, 0, 4);
    assert(magic@ =~= received@.take(4));
    if !same_bytes(magic, MAGIC.as_bytes()) {
        return Err(HandshakeError::BadMagic);
    }
    if len < 5 {
        return Ok(Step::Need(1));
    }
    if received[4] != VERSION {
        return Err(HandshakeError::Rejected(Rejection::VersionMismatch));
    }
    if len < 13 {
        return Ok(Step::Need(13 - len));
    }
    let id = slice_subrange(received, 5, 13);
    let session_id = match utf8_text(slice_to_vec(id)) {
        Ok(s) => s,
        Err(_) => return Err(HandshakeError::BadId(read_be(id))),
    };
    proof {
        encode_utf8_decode_utf8(session_id@);
    }
    if len < 45 {
        return Ok(Step::Need(45 - len));
    }
    if len < 53 {
        return Ok(Step::Need(53 - len));
    }
    let client_nonce = array32(slice_subrange(received, 13, 45));
    let offset = read_be(slice_subrange(received, 45, 53));
    Ok(Step::Done { value: ClientHello { session_id, client_nonce, offset }, used: 53 })
}

/// Server side: the OK reply, with our nonce + current total offset.
pub fn server_send_ok(server_nonce: &[u8; NONCE_LEN], server_total: u64) -> (r: Vec<u8>)
    ensures
        r@ == ok_bytes(server_nonce@, server_total),
{
    let mut buf: Vec<u8> = Vec::new();
    buf.push(STATUS_OK);
    push_all(&mut buf, server_nonce.as_slice());
    push_be(&mut buf, server_total, 8);
    assert(buf@ =~= ok_bytes(server_nonce@, server_total));
    buf
}

/// Server side: the reply with an error status.
pub fn server_send_err(status: u8) -> (r: Vec<u8>)
    ensures
        r@ == seq![status],
{
    let mut buf: Vec<u8> = Vec::new();
    buf.push(status);
    assert(buf@ =~= seq![status]);
    buf
}

/// Whether an offset can be resumed from: a client cannot have received more
/// than the session produced.
pub fn check_offset(offset: u64, total: u64) -> (r: Result<(), Rejection>)
    ensures
        offset > total ==> r == Err::<(), Rejection>(Rejection::BadOffset),
        offset <= total ==> r is Ok,
{
    if offset > total {
        Err(Rejection::BadOffset)
    } else {
        Ok(())
    }
}

/// The magic is four bytes long.
proof fn lemma_magic()
    ensures
        encode_utf8(MAGIC@).len() == 4,
{
    reveal_strlit("THT1");
    is_ascii_chars_encode_utf8(MAGIC@);
}

/// The server reads the hello that the client sent, whatever comes after it.
pub proof fn law_hello_arrives(h: HelloView, tail: Seq<u8>)
    requires
        encode_utf8(h.session_id).len() == SESSION_ID_LEN,
        h.client_nonce.len() == NONCE_LEN,
    ensures
        hello_bytes(h).len() == 53,
        hello_reading(hello_bytes(h) + tail) == (HelloReading::Done { hello: h, used: 53 }),
{
    lemma_magic();
    lemma_capacities();
    lemma_widths(h.offset as nat, 8);
    lemma_be_round_trip(h.offset as nat, 8);
    encode_utf8_valid_utf8(h.session_id);
    encode_utf8_decode_utf8(h.session_id);
    let b = hello_bytes(h) + tail;
    assert(b.take(4) =~= encode_utf8(MAGIC@));
    assert(b.subrange(5, 13) =~= encode_utf8(h.session_id));
    assert(b.subrange(13, 45) =~= h.client_nonce);
    assert(b.subrange(45, 53) =~= be_bytes(h.offset as nat, 8));
}

/// Of a hello that has not arrived in full, the server asks for more, and
/// never for more than is still to come.
pub proof fn law_partial_hello_waits(h: HelloView, k: nat)
    requires
        encode_utf8(h.session_id).len() == SESSION_ID_LEN,
        h.client_nonce.len() == NONCE_LEN,
        k < 53,
    ensures
        hello_reading(hello_bytes(h).take(k as int)) matches HelloReading::Need(n) && 0 < n <= 53
            - k,
{
    law_hello_arrives(h, Seq::empty());
    lemma_magic();
    encode_utf8_valid_utf8(h.session_id);
    let b = hello_bytes(h);
    let part = b.take(k as int);
    if k >= 4 {
        assert(part.take(4) =~= encode_utf8(MAGIC@));
    }
    if k >= 13 {
        assert(part.subrange(5, 13) =~= encode_utf8(h.session_id));
    }
}

/// A peer that speaks another version is told so as soon as its version byte
/// is there, whatever else it sends.
pub proof fn law_other_versions_are_rejected(version: u8, rest: Seq<u8>)
    requires
        version != VERSION,
    ensures
        hello_reading(encode_utf8(MAGIC@) + seq![version] + rest) == HelloReading::Fail(
            HandshakeError::Rejected(Rejection::VersionMismatch),
        ),
        reply_reading(seq![STATUS_VERSION_MISMATCH]) == ReplyReading::Fail(
            HandshakeError::Rejected(Rejection::VersionMismatch),
        ),
{
    lemma_magic();
    let b = encode_utf8(MAGIC@) + seq![version] + rest;
    assert(b.take(4) =~= encode_utf8(MAGIC@));
}

/// A hello whose id is not UTF-8 is refused once the id is there, with what
/// `String::from_utf8` says of those bytes.
pub proof fn law_ids_that_are_not_text_are_refused(id: Seq<u8>, rest: Seq<u8>)
    requires
        id.len() == SESSION_ID_LEN,
        !valid_utf8(id),
    ensures
        hello_reading(encode_utf8(MAGIC@) + seq![VERSION] + id + rest) matches HelloReading::Fail(e)
            && handshake_error_text(e) == utf8_complaint(id),
{
    lemma_magic();
    lemma_capacities();
    lemma_be_value_bound(id);
    lemma_be_value_round_trip(id);
    let b = encode_utf8(MAGIC@) + seq![VERSION] + id + rest;
    assert(b.take(4) =~= encode_utf8(MAGIC@));
    assert(b.subrange(5, 13) =~= id);
}

/// The client reads the reply that the server sent, whatever comes after it,
/// and waits while it is incomplete.
pub proof fn law_reply_arrives(server_nonce: Seq<u8>, server_total: u64, tail: Seq<u8>, k: nat)
    requires
        server_nonce.len() == NONCE_LEN,
        k < 41,
    ensures
        ok_bytes(server_nonce, server_total).len() == 41,
        reply_reading(ok_bytes(server_nonce, server_total) + tail) == (ReplyReading::Done {
            server_nonce,
            server_total,
            used: 41,
        }),
        reply_reading(ok_bytes(server_nonce, server_total).take(k as int)) matches
            ReplyReading::Need(n) && 0 < n <= 41 - k,
{
    lemma_capacities();
    lemma_widths(server_total as nat, 8);
    lemma_be_round_trip(server_total as nat, 8);
    let b = ok_bytes(server_nonce, server_total) + tail;
    assert(b.subrange(1, 33) =~= server_nonce);
    assert(b.subrange(33, 41) =~= be_bytes(server_total as nat, 8));
}

/// Every error status reaches the client as the refusal it stands for.
pub proof fn law_refusal_arrives(status: u8, tail: Seq<u8>)
    requires
        status != STATUS_OK,
    ensures
        reply_reading(seq![status] + tail) == ReplyReading::Fail(refusal(status)),
{
}

} // verus!
