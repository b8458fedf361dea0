//! Who is let in, and what each is told.

use vstd::prelude::*;
use vstd::utf8::encode_utf8;

use crate::bytes::{be_value, lemma_be_round_trip, lemma_capacities, lemma_widths};
use crate::proto::handshake::{hello_bytes, law_hello_arrives, HelloView};
use crate::server::admission::{admits, greets, Admission, Greeting};
use crate::server::registry::Sessions;
use crate::server::session::SessionState;

verus! {

/// How many bytes a session ever wrote.
pub open spec fn written_by(s: SessionState) -> int {
    (s.ring.start + s.ring.data.len()) as int
}

/// Whether the session can be resumed from this offset: it is there, has not
/// ended, and wrote at least so much. What is left in its buffer does not
/// matter.
pub open spec fn resumable(sessions: Sessions, id: Seq<char>, offset: u64) -> bool {
    sessions.contains_key(id) && !sessions[id].ended && offset <= written_by(sessions[id])
}

/// A hello is accepted exactly where the table holds its session, that has not
/// ended, and the offset is no larger than what it ever wrote; the reply then
/// carries the server's nonce and that number, and what was asked for is what is
/// to be proved. It is refused with a bad offset exactly where the offset is
/// larger, and with no such session exactly where there is none or it ended.
pub proof fn law_hello_is_accepted_exactly_where_it_can_be_resumed(
    sessions: Sessions,
    id: Seq<char>,
    offset: u64,
    client_nonce: Seq<u8>,
    server_nonce: Seq<u8>,
    adm: Admission,
)
    requires
        admits(sessions, id, offset, client_nonce, server_nonce, adm),
        server_nonce.len() == 32,
        sessions.contains_key(id) ==> written_by(sessions[id]) <= u64::MAX,
    ensures
        adm is Accept <==> resumable(sessions, id, offset),
        adm matches Admission::Accept { reply, pending } ==> {
            &&& reply@.len() == 41
            &&& reply@[0] == 0
            &&& reply@.subrange(1, 33) == server_nonce
            &&& be_value(reply@.subrange(33, 41)) == written_by(sessions[id])
            &&& pending@.id == id
            &&& pending@.offset == offset
            &&& pending@.psk == sessions[id].psk
            &&& pending@.client_nonce == client_nonce
            &&& pending@.server_nonce == server_nonce
        },
        adm matches Admission::Refuse { reply, reason } ==> {
            let gone = !sessions.contains_key(id) || sessions[id].ended;
            &&& reason@ == (if gone {
                "no such session "@ + id
            } else {
                "resume offset exceeds session output"@
            })
            &&& reply@.len() == 1
            &&& reply@[0] == 1 <==> gone
            &&& reply@[0] == 3 <==> !gone && offset > written_by(sessions[id])
            &&& reply@[0] == 1 || reply@[0] == 3
        },
{
    if adm is Accept {
        let total = written_by(sessions[id]) as nat;
        let reply = adm->Accept_reply@;
        lemma_capacities();
        lemma_widths(total, 8);
        lemma_be_round_trip(total, 8);
        assert(reply.subrange(1, 33) =~= server_nonce);
        assert(reply.subrange(33, 41) =~= crate::bytes::be_bytes(total, 8));
    }
}

/// A client's hello, once it has arrived in full, is answered at once, whatever
/// follows it: accepted exactly where the session can be resumed from the
/// client's offset, and else refused.
pub proof fn law_arrived_hello_is_answered(
    sessions: Sessions,
    h: HelloView,
    tail: Seq<u8>,
    server_nonce: Seq<u8>,
    g: Greeting,
)
    requires
        encode_utf8(h.session_id).len() == 8,
        h.client_nonce.len() == 32,
        server_nonce.len() == 32,
        sessions.contains_key(h.session_id) ==> written_by(sessions[h.session_id]) <= u64::MAX,
        greets(sessions, hello_bytes(h) + tail, server_nonce, g),
    ensures
        g !is Read,
        g is Accept <==> resumable(sessions, h.session_id, h.offset),
        g matches Greeting::Accept { reply, pending } ==> {
            &&& reply@.len() == 41
            &&& reply@[0] == 0
            &&& reply@.subrange(1, 33) == server_nonce
            &&& be_value(reply@.subrange(33, 41)) == written_by(sessions[h.session_id])
            &&& pending@.id == h.session_id
            &&& pending@.offset == h.offset
            &&& pending@.psk == sessions[h.session_id].psk
            &&& pending@.client_nonce == h.client_nonce
            &&& pending@.server_nonce == server_nonce
        },
        g matches Greeting::Refuse { reply, .. } ==> {
            let gone = !sessions.contains_key(h.session_id) || sessions[h.session_id].ended;
            &&& reply@.len() == 1
            &&& reply@[0] == (if gone {
                1u8
            } else {
                3u8
            })
        },
{
    law_hello_arrives(h, tail);
    let adm = match g {
        Greeting::Accept { reply, pending } => Admission::Accept { reply, pending },
        Greeting::Refuse { reply, reason } => Admission::Refuse { reply, reason },
        Greeting::Read(_) => arbitrary(),
    };
    law_hello_is_accepted_exactly_where_it_can_be_resumed(
        sessions,
        h.session_id,
        h.offset,
        h.client_nonce,
        server_nonce,
        adm,
    );
}

} // verus!
