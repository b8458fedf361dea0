//! What stands on the wire, byte by byte, and what is made of it.

use vstd::prelude::*;
use vstd::utf8::{decode_utf8_encode_utf8, encode_utf8, is_ascii_chars_encode_utf8, valid_utf8};

use crate::bytes::{
    be_bytes, be_value, capacity, le_bytes, lemma_be_value_bound, lemma_be_value_round_trip,
    lemma_capacities, lemma_widths,
};
use crate::proto::crypto::{
    chacha_open, chacha_seal, hkdf_sha256, nonce_bytes, session_key, Channel, CryptoError,
};
use crate::proto::frame::{
    decoded, encoded, law_records_are_self_delimiting, puts, reading, takes_record, FrameError,
    FrameView, Reading,
};
use crate::proto::handshake::{
    greets_with, hello_bytes, hello_reading, ok_bytes, reply_reading, HandshakeError, HelloReading,
    HelloView, Rejection, ReplyReading,
};
use crate::psk::{first_bad, hex_reading, nibble, psk_reading, HexError, PskError};
use crate::text::{decimal, digit};

verus! {

proof fn lemma_capacity_is_positive(n: nat)
    ensures
        capacity(n) > 0,
    decreases n,
{
    if n > 0 {
        lemma_capacity_is_positive((n - 1) as nat);
    }
}

/// A number stands on the wire with its most significant byte first.
pub proof fn law_numbers_are_big_endian(x: nat, n: nat, i: nat)
    requires
        i < n,
    ensures
        be_bytes(x, n).len() == n,
        be_bytes(x, n)[i as int] == (x / capacity((n - 1 - i) as nat)) % 256,
    decreases n,
{
    lemma_widths(x, n);
    lemma_widths(x / 256, (n - 1) as nat);
    if i < n - 1 {
        let k = (n - 2 - i) as nat;
        law_numbers_are_big_endian(x / 256, (n - 1) as nat, i);
        lemma_capacity_is_positive(k);
        vstd::arithmetic::div_mod::lemma_div_denominator(x as int, 256, capacity(k) as int);
        assert(capacity((n - 1 - i) as nat) == 256 * capacity(k));
    } else {
        assert(capacity(0) == 1);
        assert(x / 1 == x);
    }
}

/// The counter in a nonce stands with its least significant byte first.
pub proof fn law_counters_are_little_endian(x: nat, n: nat, i: nat)
    requires
        i < n,
    ensures
        le_bytes(x, n).len() == n,
        le_bytes(x, n)[i as int] == (x / capacity(i)) % 256,
    decreases n,
{
    lemma_widths(x, n);
    lemma_widths(x / 256, (n - 1) as nat);
    if i > 0 {
        let k = (i - 1) as nat;
        law_counters_are_little_endian(x / 256, (n - 1) as nat, k);
        lemma_capacity_is_positive(k);
        vstd::arithmetic::div_mod::lemma_div_denominator(x as int, 256, capacity(k) as int);
        assert(capacity(i) == 256 * capacity(k));
    } else {
        assert(capacity(0) == 1);
        assert(x / 1 == x);
    }
}

/// Reading bytes gives the number that they are the bytes of.
pub proof fn law_numbers_are_read_as_they_are_written(s: Seq<u8>)
    ensures
        be_bytes(be_value(s), s.len()) == s,
        be_value(s) < capacity(s.len()),
{
    lemma_be_value_round_trip(s);
    lemma_be_value_bound(s);
}

/// A nonce holds the direction, the counter and three zeros, in this order.
pub proof fn law_nonce_layout(dir: u8, counter: u64)
    ensures
        ({
            let n = nonce_bytes(dir, counter);
            &&& n.len() == 12
            &&& n[0] == dir
            &&& n.subrange(1, 9) == le_bytes(counter as nat, 8)
            &&& n[9] == 0 && n[10] == 0 && n[11] == 0
        }),
{
    lemma_widths(counter as nat, 8);
    assert(nonce_bytes(dir, counter).subrange(1, 9) =~= le_bytes(counter as nat, 8));
}

/// Each record of a direction is sealed and opened under the direction's key and
/// the nonce of its own place; the first place is zero, and each record moves on
/// by one.
pub proof fn law_records_are_numbered(key: Seq<u8>, dir: u8, chan: Channel, bytes: Seq<u8>)
    ensures
        Channel::start(key, dir) == (Channel { key, dir, counter: 0 }),
        chan.counter < u64::MAX ==> chan.next().counter == chan.counter + 1,
        chan.next().key == chan.key,
        chan.next().dir == chan.dir,
        chan.sealed(bytes) == chacha_seal(chan.key, nonce_bytes(chan.dir, chan.counter), bytes),
        bytes.len() <= 4194304 ==> chan.opened(bytes) == chacha_open(
            chan.key,
            nonce_bytes(chan.dir, chan.counter),
            bytes,
        ),
{
}

/// The key of a connection comes from the session's key, salted by the client's
/// nonce and, behind it, the server's.
pub proof fn law_connection_key(psk: Seq<u8>, client_nonce: Seq<u8>, server_nonce: Seq<u8>)
    ensures
        session_key(psk, client_nonce, server_nonce) == hkdf_sha256(
            client_nonce + server_nonce,
            psk,
            encode_utf8("thther-v1-session-key"@),
        ),
{
}

proof fn lemma_magic()
    ensures
        encode_utf8("THT1"@) == seq![0x54u8, 0x48, 0x54, 0x31],
{
    reveal_strlit("THT1");
    is_ascii_chars_encode_utf8("THT1"@);
    assert(encode_utf8("THT1"@) =~= seq![0x54u8, 0x48, 0x54, 0x31]);
}

/// A hello is `THT1`, the version 2, eight bytes of id, thirty-two of nonce, and
/// eight of offset; an id of another length is not sent at all.
pub proof fn law_hello_layout(h: HelloView, r: Result<Vec<u8>, HandshakeError>)
    requires
        h.client_nonce.len() == 32,
        greets_with(h, r),
    ensures
        r is Ok <==> encode_utf8(h.session_id).len() == 8,
        r matches Err(e) ==> e == HandshakeError::BadIdLength,
        r matches Ok(b) ==> {
            &&& b@.len() == 53
            &&& b@[0] == 0x54 && b@[1] == 0x48 && b@[2] == 0x54 && b@[3] == 0x31
            &&& b@[4] == 2
            &&& b@.subrange(5, 13) == encode_utf8(h.session_id)
            &&& b@.subrange(13, 45) == h.client_nonce
            &&& b@.subrange(45, 53) == be_bytes(h.offset as nat, 8)
        },
{
    lemma_magic();
    lemma_widths(h.offset as nat, 8);
    if r is Ok {
        let b = r->Ok_0@;
        assert(b.subrange(5, 13) =~= encode_utf8(h.session_id));
        assert(b.subrange(13, 45) =~= h.client_nonce);
        assert(b.subrange(45, 53) =~= be_bytes(h.offset as nat, 8));
    }
}

/// Only a hello is read as one: what the server makes of 53 bytes is exactly
/// what a client must have put into them. Anything else is told apart by the
/// first part that is wrong, as soon as that part is there, and until then the
/// server asks for what is missing of it.
pub proof fn law_only_a_hello_is_read_as_one(b: Seq<u8>)
    ensures
        ({
            let magic = b.len() >= 4 && b.subrange(0, 4) == seq![0x54u8, 0x48, 0x54, 0x31];
            let version = magic && b.len() >= 5 && b[4] == 2;
            let id = version && b.len() >= 13 && valid_utf8(b.subrange(5, 13));
            let r = hello_reading(b);
            &&& r is Done <==> id && b.len() >= 53
            &&& r matches HelloReading::Done { hello, used } ==> {
                &&& used == 53
                &&& hello_bytes(hello) == b.subrange(0, 53)
                &&& encode_utf8(hello.session_id) == b.subrange(5, 13)
                &&& hello.client_nonce == b.subrange(13, 45)
                &&& be_bytes(hello.offset as nat, 8) == b.subrange(45, 53)
            }
            &&& r == HelloReading::Fail(HandshakeError::BadMagic) <==> b.len() >= 4 && !magic
            &&& r == HelloReading::Fail(HandshakeError::Rejected(Rejection::VersionMismatch))
                <==> magic && b.len() >= 5 && !version
            &&& (r matches HelloReading::Fail(e) && e is BadId) <==> version && b.len() >= 13 && !id
            &&& r matches HelloReading::Fail(e) ==> e == HandshakeError::BadMagic || e
                == HandshakeError::Rejected(Rejection::VersionMismatch) || e is BadId
            &&& r matches HelloReading::Need(n) ==> n > 0 && (b.len() + n == 4 || b.len() + n == 5
                || b.len() + n == 13 || b.len() + n == 45 || b.len() + n == 53)
        }),
{
    lemma_magic();
    lemma_capacities();
    if b.len() >= 4 {
        assert(b.take(4) =~= b.subrange(0, 4));
    }
    if hello_reading(b) is Done {
        let hello = hello_reading(b)->hello;
        let offset = b.subrange(45, 53);
        lemma_be_value_round_trip(offset);
        lemma_be_value_bound(offset);
        decode_utf8_encode_utf8(b.subrange(5, 13));
        lemma_widths(hello.offset as nat, 8);
        assert(hello_bytes(hello) =~= b.subrange(0, 53));
    }
}

/// An accepting reply is a zero, thirty-two bytes of nonce, and eight of total.
/// What a client makes of a reply is told by its first byte: zero accepts, one
/// means that there is no such session, two that the protocols differ, three
/// that the offset is bad, and nothing else is known.
pub proof fn law_reply_layout(server_nonce: Seq<u8>, server_total: u64, b: Seq<u8>)
    requires
        server_nonce.len() == 32,
    ensures
        ({
            let ok = ok_bytes(server_nonce, server_total);
            &&& ok.len() == 41
            &&& ok[0] == 0
            &&& ok.subrange(1, 33) == server_nonce
            &&& ok.subrange(33, 41) == be_bytes(server_total as nat, 8)
        }),
        b.len() >= 1 ==> {
            let r = reply_reading(b);
            &&& r is Fail <==> b[0] != 0
            &&& b[0] == 1 ==> r == ReplyReading::Fail(HandshakeError::NoSession)
            &&& b[0] == 2 ==> r == ReplyReading::Fail(
                HandshakeError::Rejected(Rejection::VersionMismatch),
            )
            &&& b[0] == 3 ==> r == ReplyReading::Fail(
                HandshakeError::Rejected(Rejection::BadOffset),
            )
            &&& b[0] > 3 ==> r == ReplyReading::Fail(HandshakeError::UnknownStatus(b[0]))
            &&& r is Done <==> b[0] == 0 && b.len() >= 41
            &&& r matches ReplyReading::Done { server_nonce: nonce, server_total: total, used } ==> {
                &&& used == 41
                &&& nonce == b.subrange(1, 33)
                &&& be_bytes(total as nat, 8) == b.subrange(33, 41)
            }
            &&& r matches ReplyReading::Need(n) ==> n > 0 && (b.len() + n == 33 || b.len() + n
                == 41)
        },
        b.len() == 0 ==> reply_reading(b) == ReplyReading::Need(1),
{
    lemma_widths(server_total as nat, 8);
    lemma_capacities();
    let ok = ok_bytes(server_nonce, server_total);
    assert(ok.subrange(1, 33) =~= server_nonce);
    assert(ok.subrange(33, 41) =~= be_bytes(server_total as nat, 8));
    if b.len() >= 41 {
        lemma_be_value_round_trip(b.subrange(33, 41));
        lemma_be_value_bound(b.subrange(33, 41));
    }
}

/// The text that proves a key.
pub open spec fn hello_text() -> Seq<u8> {
    encode_utf8("THTHER-HELLO-1"@)
}

/// Each frame is its number and its payload: input and output as they are,
/// numbers with their most significant byte first.
pub proof fn law_frame_layout(f: FrameView)
    ensures
        encoded(f).len() >= 1,
        ({
            let (t, rest) = (encoded(f)[0], encoded(f).skip(1));
            match f {
                FrameView::Data(b) => t == 0 && rest == b,
                FrameView::Resize { cols, rows } => t == 1 && rest.len() == 4 && rest.subrange(0, 2)
                    == be_bytes(cols as nat, 2) && rest.subrange(2, 4) == be_bytes(rows as nat, 2),
                FrameView::Ping => t == 2 && rest.len() == 0,
                FrameView::Pong => t == 3 && rest.len() == 0,
                FrameView::Ack(n) => t == 4 && rest == be_bytes(n as nat, 8),
                FrameView::Hello => t == 5 && rest == hello_text(),
                FrameView::Ended => t == 6 && rest.len() == 0,
                FrameView::Output { offset, data } => t == 7 && rest.len() == 8 + data.len()
                    && rest.subrange(0, 8) == be_bytes(offset as nat, 8) && rest.skip(8) == data,
            }
        }),
{
    let rest = encoded(f).skip(1);
    match f {
        FrameView::Data(b) => {
            assert(rest =~= b);
        },
        FrameView::Resize { cols, rows } => {
            lemma_widths(cols as nat, 2);
            lemma_widths(rows as nat, 2);
            assert(rest.subrange(0, 2) =~= be_bytes(cols as nat, 2));
            assert(rest.subrange(2, 4) =~= be_bytes(rows as nat, 2));
        },
        FrameView::Ack(n) => {
            assert(rest =~= be_bytes(n as nat, 8));
        },
        FrameView::Hello => {
            assert(rest =~= hello_text());
        },
        FrameView::Output { offset, data } => {
            lemma_widths(offset as nat, 8);
            assert(rest.subrange(0, 8) =~= be_bytes(offset as nat, 8));
            assert(rest.skip(8) =~= data);
        },
        _ => {},
    }
}

/// Of any number and payload, exactly these are frames: every input, a size of
/// four bytes, a ping, a pong or an end whatever follows it, an offset of eight
/// bytes, the text that proves a key, and output behind eight bytes of offset.
/// All else is told apart by what is wrong with it.
pub proof fn law_what_is_a_frame(t: u8, rest: Seq<u8>)
    ensures
        decoded(Seq::empty()) == Err::<FrameView, FrameError>(FrameError::Empty),
        ({
            let r = decoded(seq![t] + rest);
            &&& t == 0 ==> r == Ok::<FrameView, FrameError>(FrameView::Data(rest))
            &&& t == 1 ==> (if rest.len() == 4 {
                r matches Ok(FrameView::Resize { cols, rows }) && be_bytes(cols as nat, 2)
                    == rest.subrange(0, 2) && be_bytes(rows as nat, 2) == rest.subrange(2, 4)
            } else {
                r == Err::<FrameView, FrameError>(FrameError::BadResize)
            })
            &&& t == 2 ==> r == Ok::<FrameView, FrameError>(FrameView::Ping)
            &&& t == 3 ==> r == Ok::<FrameView, FrameError>(FrameView::Pong)
            &&& t == 4 ==> (if rest.len() == 8 {
                r matches Ok(FrameView::Ack(n)) && be_bytes(n as nat, 8) == rest
            } else {
                r == Err::<FrameView, FrameError>(FrameError::BadAck)
            })
            &&& t == 5 ==> r == (if rest == hello_text() {
                Ok::<FrameView, FrameError>(FrameView::Hello)
            } else {
                Err(FrameError::BadHello)
            })
            &&& t == 6 ==> r == Ok::<FrameView, FrameError>(FrameView::Ended)
            &&& t == 7 ==> (if rest.len() >= 8 {
                r matches Ok(FrameView::Output { offset, data }) && be_bytes(offset as nat, 8)
                    == rest.subrange(0, 8) && data == rest.skip(8)
            } else {
                r == Err::<FrameView, FrameError>(FrameError::BadOutput)
            })
            &&& t > 7 ==> r == Err::<FrameView, FrameError>(FrameError::UnknownType(t))
        }),
{
    let pt = seq![t] + rest;
    lemma_capacities();
    assert(pt.skip(1) =~= rest);
    if t == 1 && rest.len() == 4 {
        assert(rest.take(2) =~= rest.subrange(0, 2));
        assert(rest.skip(2) =~= rest.subrange(2, 4));
        lemma_be_value_round_trip(rest.subrange(0, 2));
        lemma_be_value_round_trip(rest.subrange(2, 4));
        lemma_be_value_bound(rest.subrange(0, 2));
        lemma_be_value_bound(rest.subrange(2, 4));
    }
    if t == 4 && rest.len() == 8 {
        lemma_be_value_round_trip(rest);
        lemma_be_value_bound(rest);
    }
    if t == 7 && rest.len() >= 8 {
        assert(rest.take(8) =~= rest.subrange(0, 8));
        lemma_be_value_round_trip(rest.subrange(0, 8));
        lemma_be_value_bound(rest.subrange(0, 8));
    }
}

/// A frame is put on the wire exactly where its direction has a place left and
/// its record, with length and tag, has no more than 4194304 bytes behind the
/// length. What was on the wire stays there, and the other end, at the same
/// place, reads the frame back, whatever follows. A frame that is not put leaves
/// the wire as it is.
pub proof fn law_frames_that_fit_are_put(
    chan: Channel,
    frame: FrameView,
    then: Channel,
    before: Seq<u8>,
    after: Seq<u8>,
    r: Result<(), FrameError>,
    tail: Seq<u8>,
)
    requires
        puts(chan, frame, then, before, after, r),
    ensures
        r is Ok <==> chan.counter < u64::MAX && encoded(frame).len() + 16 <= 4194304,
        r is Ok ==> {
            let rec = after.skip(before.len() as int);
            &&& after == before + rec
            &&& rec.len() == 4 + encoded(frame).len() + 16
            &&& reading(chan, rec + tail) == (Reading::Done { frame, used: rec.len() })
            &&& takes_record(chan, rec + tail)
        },
        r is Err ==> after == before,
        chan.counter == u64::MAX ==> then == chan && r == Err::<(), FrameError>(
            FrameError::Crypto(CryptoError::CounterExhausted),
        ),
        chan.counter < u64::MAX ==> then.counter == chan.counter + 1 && then.key == chan.key
            && then.dir == chan.dir,
        chan.counter < u64::MAX && 4194304 < encoded(frame).len() + 16 <= 0x3f_ffff_ff80
            ==> r == Err::<(), FrameError>(FrameError::TooLarge),
{
    if r is Ok {
        let rec = after.skip(before.len() as int);
        assert(rec =~= crate::proto::frame::record(chan.sealed(encoded(frame))));
        assert(after =~= before + rec);
        law_records_are_self_delimiting(chan, rec, tail);
    }
}

/// What is made of bytes from the wire: the first four are a length, judged as
/// soon as they are there; a record is never opened before all of it has come,
/// nor more asked for than is missing of it; and a direction moves on exactly
/// where a record was authentic, whether or not it held a frame.
pub proof fn law_records_are_read_whole(chan: Channel, b: Seq<u8>)
    ensures
        ({
            let r = reading(chan, b);
            let n = be_value(b.subrange(0, 4));
            let fits = b.len() >= 4 && 1 <= n <= 4194304;
            let whole = fits && b.len() >= 4 + n;
            let text = chan.opened(b.subrange(4, 4 + n as int));
            &&& b.len() < 4 ==> r == Reading::Need((4 - b.len()) as nat)
            &&& b.len() >= 4 && !fits ==> (r matches Reading::Fail(FrameError::BadLength(m))
                && m == n)
            &&& fits && !whole ==> r == Reading::Need((4 + n - b.len()) as nat)
            &&& whole && text is None ==> r == Reading::Fail(
                FrameError::Crypto(CryptoError::AuthFailed),
            )
            &&& whole && text is Some && chan.counter < u64::MAX ==> match decoded(text->0) {
                Ok(frame) => r == (Reading::Done { frame, used: 4 + n }),
                Err(e) => r == Reading::Fail(e),
            }
            &&& takes_record(chan, b) <==> whole && text is Some && chan.counter < u64::MAX
        }),
{
    lemma_capacities();
    if b.len() >= 4 {
        assert(b.take(4) =~= b.subrange(0, 4));
        lemma_be_value_bound(b.subrange(0, 4));
    }
}

/// What a hexadecimal digit is worth.
pub open spec fn worth(c: u8) -> int {
    if 0x30 <= c <= 0x39 {
        c - 0x30
    } else if 0x61 <= c <= 0x66 {
        c - 0x61 + 10
    } else if 0x41 <= c <= 0x46 {
        c - 0x41 + 10
    } else {
        -1
    }
}

/// A text is a session's key exactly where it is sixty-four hexadecimal digits
/// of either case; each pair of them is a byte, the high digit first. Of what is
/// not, the error tells whether the number of digits is odd, or which character
/// is the first that is no digit, or that there are too few or too many.
pub proof fn law_keys_are_sixty_four_digits(text: Seq<u8>)
    ensures
        psk_reading(text) is Ok <==> text.len() == 64 && forall|i: int|
            0 <= i < text.len() ==> worth(#[trigger] text[i]) >= 0,
        psk_reading(text) matches Ok(key) ==> key.len() == 32 && forall|i: int|
            0 <= i < 32 ==> #[trigger] key[i] == 16 * worth(text[2 * i]) + worth(text[2 * i + 1]),
        psk_reading(text) == Err::<Seq<u8>, PskError>(PskError::Hex(HexError::OddLength))
            <==> text.len() % 2 == 1,
        psk_reading(text) == Err::<Seq<u8>, PskError>(PskError::WrongLength) <==> text.len() % 2
            == 0 && text.len() != 64 && forall|i: int|
            0 <= i < text.len() ==> worth(#[trigger] text[i]) >= 0,
        text.len() % 2 == 0 ==> forall|i: int|
            0 <= i < text.len() && worth(#[trigger] text[i]) < 0 && (forall|j: int|
                0 <= j < i ==> worth(#[trigger] text[j]) >= 0) ==> psk_reading(text) == Err::<
                Seq<u8>,
                PskError,
            >(PskError::Hex(HexError::InvalidCharacter { c: text[i] as char, index: i as usize })),
{
    assert(forall|c: u8| nibble(c) is Some <==> #[trigger] worth(c) >= 0);
    assert(forall|c: u8| worth(c) >= 0 ==> #[trigger] nibble(c) == Some(worth(c)));
    if text.len() % 2 == 0 {
        if exists|i: int| 0 <= i < text.len() && worth(#[trigger] text[i]) < 0 {
            let bad = choose|i: int| 0 <= i < text.len() && worth(#[trigger] text[i]) < 0;
            lemma_there_is_a_first(text, bad);
            assert(exists|i: int| first_bad(text, i));
            let first = choose|i: int| first_bad(text, i);
            assert forall|i: int|
                0 <= i < text.len() && worth(#[trigger] text[i]) < 0 && (forall|j: int|
                    0 <= j < i ==> worth(#[trigger] text[j]) >= 0) implies i == first by {
                if i < first {
                    assert(nibble(text[i]) is Some);
                }
                if first < i {
                    assert(worth(text[first]) >= 0);
                }
            }
        } else {
            assert(forall|i: int| !first_bad(text, i)) by {
                if exists|i: int| first_bad(text, i) {
                    let i = choose|i: int| first_bad(text, i);
                    assert(worth(text[i]) < 0);
                }
            }
            let key = hex_reading(text)->Ok_0;
            assert forall|i: int| 0 <= i < key.len() implies #[trigger] key[i] == 16 * worth(
                text[2 * i],
            ) + worth(text[2 * i + 1]) by {
                assert(worth(text[2 * i]) >= 0);
                assert(worth(text[2 * i + 1]) >= 0);
            }
        }
    }
}

proof fn lemma_there_is_a_first(text: Seq<u8>, bad: int)
    requires
        0 <= bad < text.len(),
        worth(text[bad]) < 0,
    ensures
        exists|i: int| first_bad(text, i),
    decreases bad,
{
    if exists|j: int| 0 <= j < bad && worth(#[trigger] text[j]) < 0 {
        let j = choose|j: int| 0 <= j < bad && worth(#[trigger] text[j]) < 0;
        lemma_there_is_a_first(text, j);
    } else {
        assert(first_bad(text, bad));
    }
}

/// The number that a text of decimal digits spells.
pub open spec fn spelled(s: Seq<char>) -> nat
    decreases s.len(),
{
    if s.len() == 0 {
        0
    } else {
        (10 * spelled(s.drop_last()) + (s.last() as u32 - 48)) as nat
    }
}

/// A number in base ten is digits only, spells that number, and has no needless
/// zero in front.
pub proof fn law_decimals_spell_their_number(n: nat)
    ensures
        decimal(n).len() > 0,
        forall|i: int|
            0 <= i < decimal(n).len() ==> '0' <= #[trigger] decimal(n)[i] && decimal(n)[i] <= '9',
        spelled(decimal(n)) == n,
        decimal(n).len() > 1 <==> n >= 10,
        n >= 10 ==> decimal(n)[0] != '0',
    decreases n,
{
    if n < 10 {
        assert(decimal(n) == seq![digit(n)]);
        assert(decimal(n).drop_last() =~= Seq::<char>::empty());
        reveal_with_fuel(spelled, 2);
    } else {
        law_decimals_spell_their_number(n / 10);
        assert(decimal(n).drop_last() =~= decimal(n / 10));
        if n / 10 < 10 {
            assert(decimal(n / 10) == seq![digit(n / 10)]);
        }
    }
}

} // verus!
