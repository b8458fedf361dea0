//! How a client comes to be served by a session, and what it does when a
//! connection fails.

use vstd::arithmetic::power2::pow2;
use vstd::prelude::*;
use vstd::utf8::encode_utf8;

use super::admission::{law_arrived_hello_is_answered, written_by};
use super::sessions::law_takeover_serves_the_peer_from_where_it_stands;
use super::wire::{law_only_a_hello_is_read_as_one, law_reply_layout};
use crate::bytes::{be_value, lemma_be_round_trip, lemma_be_value_bound, lemma_capacities};
use crate::client::reconnect::{law_delays_double_up_to_the_longest, scheduled};
use crate::client::session::{
    drives, keys, opens, settled, takes_hello, takes_reply, ConnectError, DriveStep,
    FatalSessionError, Keyed, Outcome, ProtocolError, HEARTBEAT,
};
use crate::proto::crypto::{session_key, Channel, Opener, Sealer};
use crate::proto::frame::{
    law_records_are_self_delimiting, reading, Frame, FrameView, Reading,
};
use crate::proto::handshake::{hello_reading, HelloReading, HelloView, Rejection};
use crate::proto::Step;
use crate::server::admission::{authenticates, greets, proves, AuthStep, Greeting, Peer};
use crate::server::daemon::{
    activates, asked_by, ServerWriter, Wakeup, WriterAction, READ_IDLE, WRITER_TICK,
};
use crate::server::registry::Sessions;
use crate::server::session::SessionState;

verus! {

/// What goes from the client to the server, after `n` records.
pub open spec fn to_server(key: Seq<u8>, n: u64) -> Channel {
    Channel { key, dir: 0, counter: n }
}

/// What goes from the server to the client, after `n` records.
pub open spec fn to_client(key: Seq<u8>, n: u64) -> Channel {
    Channel { key, dir: 1, counter: n }
}

/// A connection that is not a hello is dropped as soon as that shows: one of
/// another version is told so, by a two, and any other is told nothing. One that
/// is still incomplete is read on.
pub proof fn law_other_connections_are_dropped(
    sessions: Sessions,
    b: Seq<u8>,
    server_nonce: Seq<u8>,
    g: Greeting,
)
    requires
        greets(sessions, b, server_nonce, g),
    ensures
        ({
            let magic = b.len() >= 4 && b.subrange(0, 4) == seq![0x54u8, 0x48, 0x54, 0x31];
            &&& b.len() >= 4 && !magic ==> (g matches Greeting::Refuse { reply, .. } && reply@.len()
                == 0)
            &&& magic && b.len() >= 5 && b[4] != 2 ==> (g matches Greeting::Refuse { reply, .. }
                && reply@ == seq![2u8])
            &&& g matches Greeting::Read(n) ==> n > 0 && b.len() + n <= 53
            &&& b.len() < 4 ==> g is Read
        }),
{
    law_only_a_hello_is_read_as_one(b);
}

/// A connection is let in exactly where its first record opens, under the key
/// that comes of the session's key and both nonces, to a hello. It is then sent
/// a hello that opens under the same key, and both directions have moved on by
/// one record. Whatever else comes is dropped, and what is incomplete is read
/// on, for the same peer.
pub proof fn law_first_record_decides(peer: Peer, received: Seq<u8>, step: AuthStep)
    requires
        authenticates(peer, received, step),
    ensures
        ({
            let key = session_key(peer.psk, peer.client_nonce, peer.server_nonce);
            let first = reading(to_server(key, 0), received);
            &&& step is Accept <==> (first matches Reading::Done { frame, .. } && frame is Hello)
            &&& step is Read <==> first is Need
            &&& step matches AuthStep::Read { pending, need } ==> pending@ == peer && first
                == Reading::Need(need as nat)
            &&& step matches AuthStep::Accept { peer: p, reply, sealer, opener, used } ==> {
                &&& p@.peer == peer
                &&& p@.first == received
                &&& first->used == used
                &&& reading(to_client(key, 0), reply@) == (Reading::Done {
                    frame: FrameView::Hello,
                    used: reply@.len(),
                })
                &&& sealer@ == to_client(key, 1)
                &&& opener@ == to_server(key, 1)
            }
        }),
{
}

/// What proves a key is a first record that opens to a hello, under the key that
/// comes of the session's key and both nonces.
pub proof fn law_what_proves_a_key(peer: Peer, first: Seq<u8>)
    ensures
        proves(peer, first) <==> {
            let key = session_key(peer.psk, peer.client_nonce, peer.server_nonce);
            reading(to_server(key, 0), first) matches Reading::Done { frame, .. } && frame is Hello
        },
{
}

/// New output, or the end, has a writer look again; a wanted pong is sent; a tick
/// sends a ping; and only a reading side that is gone stops it.
pub proof fn law_wakeups_are_answered(event: Wakeup)
    ensures
        event is DataReady <==> asked_by(event) is Proceed,
        event is PongWanted <==> asked_by(event) == WriterAction::Send(Frame::Pong),
        event is Tick <==> asked_by(event) == WriterAction::Send(Frame::Ping),
        event is ReaderGone <==> asked_by(event) is Stop,
{
}

/// A client that is there is heard from several times before the server gives it
/// up, and so is the server by a client.
pub proof fn law_heartbeats_come_well_before_the_timeout()
    ensures
        0 < HEARTBEAT,
        0 < WRITER_TICK,
        3 * HEARTBEAT < READ_IDLE,
        3 * WRITER_TICK < READ_IDLE,
{
}

/// A client keys a connection exactly where the server knows of all the output
/// that the client has: what it sends goes under the mark of its own direction,
/// what it reads under the other.
pub proof fn law_client_keys_both_directions(
    psk: Seq<u8>,
    client_nonce: Seq<u8>,
    offset: u64,
    server_nonce: Seq<u8>,
    server_total: u64,
    r: Result<(Sealer, Opener), Rejection>,
)
    requires
        keys(psk, client_nonce, offset, server_nonce, server_total, r),
    ensures
        r is Ok <==> offset <= server_total,
        r matches Err(e) ==> e == Rejection::BadOffset,
        r matches Ok((sealer, opener)) ==> {
            let key = session_key(psk, client_nonce, server_nonce);
            sealer@ == to_server(key, 0) && opener@ == to_client(key, 0)
        },
{
}

/// What a client makes of a reply: a refusal for a session that is not there may
/// pass, one for the protocol or the offset is final, and so is a server that
/// knows of less output than the client has. Any other whole reply keys the
/// connection, with a hello that opens at the other end.
pub proof fn law_reply_decides(
    b: Seq<u8>,
    psk: Seq<u8>,
    client_nonce: Seq<u8>,
    offset: u64,
    r: Result<Step<Keyed>, ConnectError>,
)
    requires
        takes_reply(b, psk, client_nonce, offset, r),
    ensures
        b.len() >= 1 && b[0] == 1 ==> (r matches Err(e) && e is Other),
        b.len() >= 1 && b[0] == 2 ==> r == Err::<Step<Keyed>, ConnectError>(
            ConnectError::Rejected(Rejection::VersionMismatch),
        ),
        b.len() >= 1 && b[0] == 3 ==> r == Err::<Step<Keyed>, ConnectError>(
            ConnectError::Rejected(Rejection::BadOffset),
        ),
        b.len() >= 1 && b[0] > 3 ==> (r matches Err(e) && e is Other),
        b.len() == 0 || (b[0] == 0 && b.len() < 41) ==> (r matches Ok(Step::Need(n)) && n > 0
            && b.len() + n <= 41),
        b.len() >= 41 && b[0] == 0 ==> {
            let total = be_value(b.subrange(33, 41));
            let key = session_key(psk, client_nonce, b.subrange(1, 33));
            &&& offset > total ==> r == Err::<Step<Keyed>, ConnectError>(
                ConnectError::Rejected(Rejection::BadOffset),
            )
            &&& offset <= total ==> {
                &&& r matches Ok(Step::Done { value, used })
                &&& used == 41
                &&& value.sealer@ == to_server(key, 1)
                &&& value.opener@ == to_client(key, 0)
                &&& reading(to_server(key, 0), value.hello@) == (Reading::Done {
                    frame: FrameView::Hello,
                    used: value.hello@.len(),
                })
            }
        },
{
    law_reply_layout(Seq::new(32, |i: int| 0u8), 0, b);
    lemma_capacities();
    if b.len() >= 41 {
        lemma_be_value_bound(b.subrange(33, 41));
        lemma_be_round_trip(be_value(b.subrange(33, 41)), 8);
    }
}

/// What a client makes of the server's first record: only a hello will do. It
/// then tells the size of its terminal, where it knows it, in a record that
/// opens at the other end, and else tells nothing. A record that does not open
/// may be a fault of the network; any other frame is the server's.
pub proof fn law_server_hello_decides(
    inbound: Channel,
    b: Seq<u8>,
    outbound: Channel,
    size: Option<(u16, u16)>,
    sent: Channel,
    r: Result<Step<Vec<u8>>, ConnectError>,
)
    requires
        takes_hello(inbound, b, outbound, size, sent, r),
        outbound.counter < u64::MAX,
    ensures
        ({
            let first = reading(inbound, b);
            &&& (r matches Ok(Step::Done { .. })) <==> (first matches Reading::Done { frame, .. }
                && frame is Hello)
            &&& first matches Reading::Done { frame, .. } ==> (frame !is Hello ==> r == Err::<
                Step<Vec<u8>>,
                ConnectError,
            >(ConnectError::Fatal(FatalSessionError::Protocol(ProtocolError::BadServerHello))))
            &&& first is Fail ==> (r matches Err(e) && e is Other)
            &&& first matches Reading::Need(n) ==> (r matches Ok(Step::Need(m)) && m == n)
            &&& r matches Ok(Step::Done { value, used }) ==> {
                &&& first->used == used
                &&& size is None ==> value@.len() == 0 && sent == outbound
                &&& size matches Some((cols, rows)) ==> {
                    &&& reading(outbound, value@) == (Reading::Done {
                        frame: FrameView::Resize { cols, rows },
                        used: value@.len(),
                    })
                    &&& sent == (Channel { counter: (outbound.counter + 1) as u64, ..outbound })
                }
            }
            &&& !(r matches Ok(Step::Done { .. })) ==> sent == outbound
        }),
{
}

/// A client that has a live session's key, and no more output than that session
/// wrote, gets in: its hello is accepted, the reply keys its side, its proof is
/// accepted, the server's is too, and the session is taken over by a writer that
/// stands where the client does. Both sides then stand at the same place of both
/// directions. What follows each message on the wire does not matter.
pub proof fn law_client_with_the_key_gets_in(
    sessions: Sessions,
    id: Seq<char>,
    received: u64,
    client_nonce: Seq<u8>,
    server_nonce: Seq<u8>,
    size: Option<(u16, u16)>,
    hello: Result<Vec<u8>, ConnectError>,
    greeting: Greeting,
    keyed: Result<Step<Keyed>, ConnectError>,
    auth: AuthStep,
    sent: Channel,
    taken: Result<Step<Vec<u8>>, ConnectError>,
    after: SessionState,
    writer: Option<ServerWriter>,
    tail: Seq<u8>,
)
    requires
        encode_utf8(id).len() == 8,
        client_nonce.len() == 32,
        server_nonce.len() == 32,
        sessions.contains_key(id),
        sessions[id].id == id,
        !sessions[id].ended,
        sessions[id].epoch < u64::MAX,
        received <= written_by(sessions[id]) <= u64::MAX,
        opens(id, client_nonce, received, hello),
        hello matches Ok(b) ==> greets(sessions, b@ + tail, server_nonce, greeting),
        greeting matches Greeting::Accept { reply, pending } ==> {
            &&& takes_reply(reply@ + tail, sessions[id].psk, client_nonce, received, keyed)
            &&& keyed matches Ok(Step::Done { value, .. }) ==> authenticates(
                pending@,
                value.hello@ + tail,
                auth,
            )
        },
        keyed matches Ok(Step::Done { value, .. }) ==> (auth matches AuthStep::Accept {
            peer,
            reply,
            ..
        } ==> {
            &&& takes_hello(value.opener@, reply@ + tail, value.sealer@, size, sent, taken)
            &&& activates(sessions[id], peer@, after, writer)
        }),
    ensures
        hello is Ok,
        greeting is Accept,
        keyed matches Ok(Step::Done { value, .. }) && {
            &&& auth matches AuthStep::Accept { sealer, opener, .. }
            &&& opener@ == value.sealer@
            &&& sealer@ == value.opener@.next()
            &&& taken matches Ok(Step::Done { value: size_record, .. })
            &&& size matches Some((cols, rows)) ==> reading(opener@, size_record@) == (
            Reading::Done { frame: FrameView::Resize { cols, rows }, used: size_record@.len() })
        },
        writer matches Some(w) && w.cursor == received && w.epoch == after.epoch,
        after.connected,
        after.ring == sessions[id].ring,
{
    let h = HelloView { session_id: id, client_nonce, offset: received };
    law_arrived_hello_is_answered(sessions, h, tail, server_nonce, greeting);
    let reply = greeting->Accept_reply@;
    let key = session_key(sessions[id].psk, client_nonce, server_nonce);
    let whole = reply + tail;
    assert(whole.subrange(1, 33) =~= reply.subrange(1, 33));
    assert(whole.subrange(33, 41) =~= reply.subrange(33, 41));
    law_reply_decides(whole, sessions[id].psk, client_nonce, received, keyed);
    let value = keyed->Ok_0->value;
    law_records_are_self_delimiting(to_server(key, 0), value.hello@, tail);
    law_first_record_decides(greeting->pending@, value.hello@ + tail, auth);
    let answer = auth->Accept_reply@;
    law_records_are_self_delimiting(to_client(key, 0), answer, tail);
    law_server_hello_decides(value.opener@, answer + tail, value.sealer@, size, sent, taken);
    law_takeover_serves_the_peer_from_where_it_stands(
        sessions[id],
        auth->peer@,
        after,
        writer,
    );
}

/// That the session ended counts, whatever the writing side saw; otherwise what
/// the writing side saw counts.
pub proof fn law_the_end_outweighs_all_else(reader: Outcome, writer: Outcome)
    ensures
        reader == Outcome::Ended ==> settled(reader, writer) == Outcome::Ended,
        reader != Outcome::Ended ==> settled(reader, writer) == writer,
{
}

/// A client connects again exactly where the connection was lost, or failed for
/// a reason that may pass once the session had been reached. It stops without an
/// error exactly where the session ended or the user detached, and with that
/// very error in every other case.
pub proof fn law_client_connects_again_exactly_where_it_helps(
    established: bool,
    delay: u64,
    end: Result<Outcome, ConnectError>,
    id: Seq<char>,
    then_established: bool,
    next_delay: u64,
    r: DriveStep,
)
    requires
        drives(established, delay, end, id, then_established, next_delay, r),
    ensures
        r is Retry <==> end == Ok::<Outcome, ConnectError>(Outcome::Disconnected) || (established
            && (end matches Err(e) && e is Other)),
        r is Finish <==> end == Ok::<Outcome, ConnectError>(Outcome::Ended) || end == Ok::<
            Outcome,
            ConnectError,
        >(Outcome::Detached),
        r matches DriveStep::Fail(e) ==> end == Err::<Outcome, ConnectError>(e),
        r matches DriveStep::Finish(m) ==> m@ == (if end == Ok::<Outcome, ConnectError>(
            Outcome::Ended,
        ) {
            "\r\n[thther] session ended\r\n"@
        } else {
            "\r\n[thther] detached (session "@ + id + " still running)\r\n"@
        }),
        r is Retry ==> then_established,
        r !is Retry ==> then_established == established && next_delay == delay,
{
}

/// Delay number `k`, in milliseconds: from a quarter of a second on, each is
/// twice the one before, up to five seconds.
pub open spec fn waits(k: nat) -> int {
    if 250 * pow2(k) < 5000 {
        250 * pow2(k) as int
    } else {
        5000
    }
}

/// A lost connection is tried again after a quarter of a second; each further
/// failure in a row doubles the delay, up to five seconds, however many there
/// are.
pub proof fn law_delays_double_from_a_lost_connection(
    k: nat,
    established: bool,
    delay: u64,
    end: Result<Outcome, ConnectError>,
    id: Seq<char>,
    then_established: bool,
    next_delay: u64,
    r: DriveStep,
)
    requires
        drives(established, delay, end, id, then_established, next_delay, r),
        r is Retry,
        end is Ok ==> k == 0,
        end is Err ==> delay == waits(k),
    ensures
        r matches DriveStep::Retry { after } && after == waits(k),
        next_delay == waits(k + 1),
{
    law_delays_double_up_to_the_longest(0);
    law_delays_double_up_to_the_longest(k);
    law_delays_double_up_to_the_longest(k + 1);
    assert(scheduled(k) == waits(k));
    assert(scheduled(k + 1) == waits(k + 1));
}

/// A client opens a connection for its session, from where it stands, and only
/// an id that no session can have keeps it from doing so.
pub proof fn law_client_asks_from_where_it_stands(
    id: Seq<char>,
    client_nonce: Seq<u8>,
    received: u64,
    r: Result<Vec<u8>, ConnectError>,
)
    requires
        client_nonce.len() == 32,
        opens(id, client_nonce, received, r),
    ensures
        r is Ok <==> encode_utf8(id).len() == 8,
        r matches Err(e) ==> e is Other,
        r matches Ok(b) ==> (hello_reading(b@) matches HelloReading::Done { hello, used }
            && hello.session_id == id && hello.client_nonce == client_nonce && hello.offset
            == received && used == b@.len()),
{
    if r is Ok {
        let b = r->Ok_0@;
        crate::proto::handshake::law_hello_arrives(
            HelloView { session_id: id, client_nonce, offset: received },
            Seq::empty(),
        );
        assert(b + Seq::<u8>::empty() =~= b);
    }
}

} // verus!
