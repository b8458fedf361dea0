//! Who is let in: a connection names a session, and becomes the active one only
//! once its first record proves that the peer knows the session's key.

use vstd::prelude::*;
use vstd::string::*;

use super::registry::{Registry, Sessions};
use crate::proto::crypto::{
    derive_key, session_key, Channel, Opener, Sealer, DIR_CLIENT_TO_SERVER, DIR_SERVER_TO_CLIENT,
    NONCE_LEN,
};
use crate::proto::frame::{
    encoded, lemma_hello_length, read_frame, reading, record, write_frame, Frame, FrameView, Reading,
};
use crate::proto::handshake::{
    handshake_error_text, hello_reading, ok_bytes, random_nonce, server_recv, server_send_err,
    server_send_ok, ClientHello, HandshakeError, HelloReading, STATUS_BAD_OFFSET,
    STATUS_NO_SESSION, STATUS_VERSION_MISMATCH,
};
use crate::proto::Step;

verus! {

/// The other end of a connection: the session that it asked for, from where it
/// wants to resume, the key that the session had then, and both nonces.
pub struct Peer {
    pub id: Seq<char>,
    pub offset: u64,
    pub psk: Seq<u8>,
    pub client_nonce: Seq<u8>,
    pub server_nonce: Seq<u8>,
}

impl Peer {
    /// The key of the connection.
    pub open spec fn key(self) -> Seq<u8> {
        session_key(self.psk, self.client_nonce, self.server_nonce)
    }

    /// What comes from the client, before anything has.
    pub open spec fn inbound(self) -> Channel {
        Channel::start(self.key(), DIR_CLIENT_TO_SERVER)
    }

    /// What goes to the client, before anything has.
    pub open spec fn outbound(self) -> Channel {
        Channel::start(self.key(), DIR_SERVER_TO_CLIENT)
    }
}

/// Whether `first` proves that the peer knows the key: as the first record from
/// the client, it opens to a hello.
pub open spec fn proves(peer: Peer, first: Seq<u8>) -> bool {
    reading(peer.inbound(), first) matches Reading::Done { frame, used } && frame
        == FrameView::Hello
}

/// A connection whose hello was accepted, and which has yet to prove that it
/// knows the key.
pub struct Pending {
    id: String,
    offset: u64,
    sealer: Sealer,
    opener: Opener,
    peer: Ghost<Peer>,
}

impl View for Pending {
    type V = Peer;

    closed spec fn view(&self) -> Peer {
        self.peer@
    }
}

impl Pending {
    #[verifier::type_invariant]
    spec fn wf(self) -> bool {
        &&& self.id@ == self.peer@.id
        &&& self.offset == self.peer@.offset
        &&& self.sealer@ == self.peer@.outbound()
        &&& self.opener@ == self.peer@.inbound()
    }

    /// The session that the peer asked for.
    pub fn id(&self) -> (r: &str)
        ensures
            r@ == self@.id,
    {
        proof {
            use_type_invariant(self);
        }
        self.id.as_str()
    }
}

/// A peer, and the record that proved that it knows the key.
pub struct Proven {
    pub peer: Peer,
    pub first: Seq<u8>,
}

/// A connection that has proved that it knows the key. There is no other way to
/// come by one than to prove it.
pub struct Authenticated {
    id: String,
    offset: u64,
    proven: Ghost<Proven>,
}

impl View for Authenticated {
    type V = Proven;

    closed spec fn view(&self) -> Proven {
        self.proven@
    }
}

impl Authenticated {
    #[verifier::type_invariant]
    spec fn wf(self) -> bool {
        &&& self.id@ == self.proven@.peer.id
        &&& self.offset == self.proven@.peer.offset
        &&& proves(self.proven@.peer, self.proven@.first)
    }

    /// The session that the peer has access to.
    pub fn id(&self) -> (r: &str)
        ensures
            r@ == self@.peer.id,
            proves(self@.peer, self@.first),
    {
        proof {
            use_type_invariant(self);
        }
        self.id.as_str()
    }

    /// From where the peer wants to resume.
    pub fn offset(&self) -> (r: u64)
        ensures
            r == self@.peer.offset,
            proves(self@.peer, self@.first),
    {
        proof {
            use_type_invariant(self);
        }
        self.offset
    }
}

/// The reply to a hello that could not be read, where there is one: a peer of
/// another version is told so.
fn hello_failure(e: HandshakeError) -> (r: Option<Vec<u8>>)
    ensures
        match e {
            HandshakeError::Rejected(_) => r matches Some(reply) && reply@
                == seq![STATUS_VERSION_MISMATCH],
            _ => r is None,
        },
{
    match e {
        HandshakeError::Rejected(_) => Some(server_send_err(STATUS_VERSION_MISMATCH)),
        _ => None,
    }
}

/// What the daemon does about a hello.
pub enum Admission {
    /// Send the reply and drop the connection.
    Refuse { reply: Vec<u8>, reason: String },
    /// Send the reply; both directions are keyed.
    Accept { reply: Vec<u8>, pending: Pending },
}

/// Whether `adm` is how a hello for the session `id` with this offset is
/// answered, given the nonces of both sides.
pub open spec fn admits(
    sessions: Sessions,
    id: Seq<char>,
    offset: u64,
    client_nonce: Seq<u8>,
    server_nonce: Seq<u8>,
    adm: Admission,
) -> bool {
    if !sessions.contains_key(id) || sessions[id].ended {
        &&& adm matches Admission::Refuse { reply, reason }
        &&& reply@ == seq![STATUS_NO_SESSION]
        &&& reason@ == "no such session "@ + id
    } else if offset > sessions[id].ring.total() {
        &&& adm matches Admission::Refuse { reply, reason }
        &&& reply@ == seq![STATUS_BAD_OFFSET]
        &&& reason@ == "resume offset exceeds session output"@
    } else {
        &&& adm matches Admission::Accept { reply, pending }
        &&& reply@ == ok_bytes(server_nonce, sessions[id].ring.total() as u64)
        &&& pending@ == (Peer { id, offset, psk: sessions[id].psk, client_nonce, server_nonce })
    }
}

/// Answer a hello, given the server's nonce. No session is changed: a peer that
/// has not proved that it knows the key leaves no trace.
pub fn answer_hello(registry: &Registry, hello: &ClientHello, server_nonce: &[u8; NONCE_LEN]) -> (r:
    Admission)
    ensures
        admits(
            registry@,
            hello.session_id@,
            hello.offset,
            hello.client_nonce@,
            server_nonce@,
            r,
        ),
{
    let session = match registry.get(hello.session_id.as_str()) {
        Some(s) => if s.is_ended() {
            None
        } else {
            Some(s)
        },
        None => None,
    };
    match session {
        None => {
            let mut reason = "no such session ".to_owned();
            reason.append(hello.session_id.as_str());
            Admission::Refuse { reply: server_send_err(STATUS_NO_SESSION), reason }
        },
        Some(s) => {
            let psk = s.current_psk();
            let total = s.current_total();
            if hello.offset > total {
                return Admission::Refuse {
                    reply: server_send_err(STATUS_BAD_OFFSET),
                    reason: "resume offset exceeds session output".to_owned(),
                };
            }
            let key = derive_key(
                psk.as_slice(),
                hello.client_nonce.as_slice(),
                server_nonce.as_slice(),
            );
            let ghost peer = Peer {
                id: hello.session_id@,
                offset: hello.offset,
                psk: psk@,
                client_nonce: hello.client_nonce@,
                server_nonce: server_nonce@,
            };
            let pending = Pending {
                id: hello.session_id.clone(),
                offset: hello.offset,
                sealer: Sealer::new(&key, DIR_SERVER_TO_CLIENT),
                opener: Opener::new(&key, DIR_CLIENT_TO_SERVER),
                peer: Ghost(peer),
            };
            Admission::Accept { reply: server_send_ok(server_nonce, total), pending }
        },
    }
}

/// What the daemon does about a new connection.
pub enum Greeting {
    /// Read exactly this many more bytes, then look again.
    Read(usize),
    /// Send the reply, if there is one, and drop the connection.
    Refuse { reply: Vec<u8>, reason: String },
    /// Send the reply, then authenticate the client.
    Accept { reply: Vec<u8>, pending: Pending },
}

/// Whether `g` is what the daemon does about a connection on which so much was
/// received, given the server's nonce.
pub open spec fn greets(
    sessions: Sessions,
    received: Seq<u8>,
    server_nonce: Seq<u8>,
    g: Greeting,
) -> bool {
    match hello_reading(received) {
        HelloReading::Need(n) => g matches Greeting::Read(m) && m == n,
        HelloReading::Fail(e) => {
            &&& g matches Greeting::Refuse { reply, reason }
            &&& reply@ == (if e is Rejected {
                seq![STATUS_VERSION_MISMATCH]
            } else {
                Seq::empty()
            })
            &&& reason@ == handshake_error_text(e)
        },
        HelloReading::Done { hello, used } => match g {
            Greeting::Refuse { reply, reason } => admits(
                sessions,
                hello.session_id,
                hello.offset,
                hello.client_nonce,
                server_nonce,
                Admission::Refuse { reply, reason },
            ),
            Greeting::Accept { reply, pending } => admits(
                sessions,
                hello.session_id,
                hello.offset,
                hello.client_nonce,
                server_nonce,
                Admission::Accept { reply, pending },
            ),
            Greeting::Read(_) => false,
        },
    }
}

/// Greet a client, given what was received from it and the server's nonce.
pub fn handle_tcp_with(
    received: &[u8],
    registry: &Registry,
    server_nonce: &[u8; NONCE_LEN],
) -> (r: Greeting)
    ensures
        greets(registry@, received@, server_nonce@, r),
{
    match server_recv(received) {
        Ok(Step::Need(n)) => Greeting::Read(n),
        Err(e) => {
            let reply = match hello_failure(e) {
                Some(reply) => reply,
                None => Vec::new(),
            };
            Greeting::Refuse { reply, reason: e.message() }
        },
        Ok(Step::Done { value: hello, .. }) => {
            match answer_hello(registry, &hello, server_nonce) {
                Admission::Refuse { reply, reason } => Greeting::Refuse { reply, reason },
                Admission::Accept { reply, pending } => Greeting::Accept { reply, pending },
            }
        },
    }
}

/// Greet a client, given what was received from it; the server's nonce is drawn
/// at random.
pub fn handle_tcp(received: &[u8], registry: &Registry) -> (r: Greeting)
    ensures
        exists|server_nonce: Seq<u8>|
            server_nonce.len() == NONCE_LEN && #[trigger] greets(
                registry@,
                received@,
                server_nonce,
                r,
            ),
{
    let server_nonce = random_nonce();
    let r = handle_tcp_with(received, registry, &server_nonce);
    assert(server_nonce@.len() == NONCE_LEN);
    r
}

/// What the daemon does about the first record of a connection.
pub enum AuthStep {
    /// Read exactly this many more bytes, then look again.
    Read { pending: Pending, need: usize },
    /// The peer is let in: send the reply. The record was this many bytes long.
    Accept {
        peer: Authenticated,
        reply: Vec<u8>,
        sealer: Sealer,
        opener: Opener,
        used: usize,
    },
    /// Drop the connection without a word.
    Refuse { reason: String },
}

/// Whether `step` is what the daemon does about a peer, given what was received
/// of its first record.
pub open spec fn authenticates(peer: Peer, received: Seq<u8>, step: AuthStep) -> bool {
    match reading(peer.inbound(), received) {
        Reading::Need(n) => step matches AuthStep::Read { pending, need } && pending@ == peer
            && need == n,
        Reading::Done { frame: FrameView::Hello, used } => {
            &&& step matches AuthStep::Accept { peer: p, reply, sealer, opener, used: u }
            &&& p@ == (Proven { peer, first: received })
            &&& reply@ == record(peer.outbound().sealed(encoded(FrameView::Hello)))
            &&& reading(peer.outbound(), reply@) == (Reading::Done {
                frame: FrameView::Hello,
                used: reply@.len(),
            })
            &&& sealer@ == peer.outbound().next()
            &&& opener@ == peer.inbound().next()
            &&& u == used
        },
        _ => step matches AuthStep::Refuse { reason } && reason@ == "auth failed"@,
    }
}

/// Authenticate a client, given what was received of its first record: it must
/// open to a hello. A wrong PSK fails the AEAD tag here.
pub fn authenticate(pending: Pending, received: &[u8]) -> (r: AuthStep)
    ensures
        authenticates(pending@, received@, r),
{
    proof {
        use_type_invariant(&pending);
        lemma_hello_length();
    }
    let ghost peer = pending@;
    let Pending { id, offset, mut sealer, mut opener, .. } = pending;
    match read_frame(received, &mut opener) {
        Ok(Step::Need(need)) => AuthStep::Read {
            pending: Pending { id, offset, sealer, opener, peer: Ghost(peer) },
            need,
        },
        Ok(Step::Done { value: Frame::Hello, used }) => {
            let mut reply: Vec<u8> = Vec::new();
            match write_frame(&mut reply, &mut sealer, &Frame::Hello) {
                Ok(_) => {
                    assert(reply@ =~= record(peer.outbound().sealed(encoded(FrameView::Hello))));
                    let proven = Authenticated {
                        id,
                        offset,
                        proven: Ghost(Proven { peer, first: received@ }),
                    };
                    AuthStep::Accept { peer: proven, reply, sealer, opener, used }
                },
                Err(_) => vstd::pervasive::unreached(),
            }
        },
        _ => AuthStep::Refuse { reason: "auth failed".to_owned() },
    }
}

/// A connection is let in exactly when its first record opens to a hello under
/// the key of the session that it named and the nonces of both sides. Otherwise
/// it is told nothing more, or its record is still to come.
pub proof fn law_let_in_exactly_on_proof(
    sessions: Sessions,
    received: Seq<u8>,
    server_nonce: Seq<u8>,
    greeting: Greeting,
    first: Seq<u8>,
    step: AuthStep,
)
    requires
        greets(sessions, received, server_nonce, greeting),
        greeting is Accept,
        authenticates(greeting->pending@, first, step),
    ensures
        ({
            let hello = hello_reading(received)->hello;
            let key = session_key(
                sessions[hello.session_id].psk,
                hello.client_nonce,
                server_nonce,
            );
            let chan = Channel::start(key, DIR_CLIENT_TO_SERVER);
            &&& step is Accept <==> (reading(chan, first) matches Reading::Done { frame, used }
                && frame == FrameView::Hello)
            &&& step is Read <==> reading(chan, first) is Need
            &&& step matches AuthStep::Accept { peer, .. } ==> {
                &&& peer@.peer.id == hello.session_id
                &&& peer@.peer.offset == hello.offset
                &&& peer@.peer.key() == key
                &&& proves(peer@.peer, peer@.first)
            }
        }),
{
}

} // verus!
