//! What becomes of a session: from its creation, through the connections that
//! take it over, to its end.

use vstd::prelude::*;
use vstd::utf8::encode_utf8;

use super::control::same_but_for_the_key;
use super::output::{is_tail, law_buffer_keeps_the_newest, smaller};
use crate::proto::control::{ControlResponse, ResponseView};
use crate::psk::{law_psk_text_reads_back, psk_reading, PskError};
use crate::server::admission::Proven;
use crate::server::daemon::{activates, finishes, id_after, picks, ServerWriter};
use crate::server::registry::{ends, Sessions};
use crate::server::session::{
    seconds_of, session_after, session_after_all, set_or, SessionEvent, SessionShared,
    SessionState,
};
use crate::text::{digit, hex_digits};

verus! {

/// A new session has written nothing, has the key, the start and the shell that
/// it was given, is used by nobody, and buffers as much as was asked for.
pub proof fn law_new_session_is_blank(
    id: Seq<char>,
    cmd: Seq<char>,
    started: u64,
    ring_bytes: nat,
    psk: Seq<u8>,
)
    ensures
        ({
            let s = SessionState::fresh(id, cmd, started, ring_bytes, psk);
            &&& s.id == id
            &&& s.cmd == cmd
            &&& s.started == started
            &&& s.psk == psk
            &&& is_tail(s.ring, Seq::empty())
            &&& s.ring.cap == ring_bytes
            &&& !s.ended
            &&& !s.connected
            &&& s.epoch == 0
        }),
{
    let s = SessionState::fresh(id, cmd, started, ring_bytes, psk);
    assert(s.ring.data =~= Seq::<u8>::empty().skip(0));
}

/// What the environment sets is used as it is; a session else starts `/bin/sh`
/// on an `xterm-256color`, and a clock before the epoch counts as zero.
pub proof fn law_defaults_stand_in_only_for_what_is_not_set(
    value: Option<String>,
    default: Seq<char>,
    clock: Option<u64>,
)
    ensures
        value matches Some(s) ==> set_or(value, default) == s@,
        value is None ==> set_or(value, default) == default,
        clock matches Some(n) ==> seconds_of(clock) == n,
        clock is None ==> seconds_of(clock) == 0,
{
}

/// Each event changes what it is about and nothing else. A connection that takes
/// a session over gets the next number and makes it busy; one that leaves makes
/// it free only where it is the newest; a new key, more output and the end touch
/// neither who is connected nor one another.
pub proof fn law_each_event_changes_only_its_own(s: SessionState, e: SessionEvent)
    ensures
        ({
            let t = session_after(s, e);
            &&& t.id == s.id
            &&& t.started == s.started
            &&& t.cmd == s.cmd
            &&& t.ring.cap == s.ring.cap
            &&& e matches SessionEvent::Activate(p) ==> {
                let lets_in = p.peer.id == s.id && s.epoch < u64::MAX;
                &&& t.epoch == (if lets_in {
                    s.epoch + 1
                } else {
                    s.epoch as int
                })
                &&& t.connected == (lets_in || s.connected)
            }
            &&& e matches SessionEvent::Leave(epoch) ==> t.epoch == s.epoch && t.connected == (
            s.connected && epoch != s.epoch)
            &&& e matches SessionEvent::Rekey(psk) ==> t.psk == psk
            &&& e matches SessionEvent::Output(bytes) ==> t.ring == s.ring.appended(bytes)
            &&& e is End ==> t.ended
            &&& e !is Activate && e !is Leave ==> t.epoch == s.epoch && t.connected == s.connected
            &&& e !is Rekey ==> t.psk == s.psk
            &&& e !is Output ==> t.ring == s.ring
            &&& e !is End ==> t.ended == s.ended
        }),
{
}

/// A session is busy exactly while a connection is using it and its shell is
/// running, and is listed as attached exactly then.
pub proof fn law_busy_sessions_are_listed_as_attached(s: SessionState)
    ensures
        s.busy() <==> s.connected && !s.ended,
        s.connected && !s.ended ==> s.status() == "attached"@,
        !s.connected || s.ended ==> s.status() == "detached"@,
        "attached"@ != "detached"@,
{
    reveal_strlit("attached");
    reveal_strlit("detached");
    assert("attached"@[0] != "detached"@[0]);
}

/// All output among events, in order.
pub open spec fn output_of(es: Seq<SessionEvent>) -> Seq<u8>
    decreases es.len(),
{
    if es.len() == 0 {
        Seq::empty()
    } else {
        output_of(es.drop_last()) + match es.last() {
            SessionEvent::Output(bytes) => bytes,
            _ => Seq::empty(),
        }
    }
}

/// Whether any of the events is the end.
pub open spec fn has_end(es: Seq<SessionEvent>) -> bool {
    exists|i: int| 0 <= i < es.len() && (#[trigger] es[i]) is End
}

/// The key that a session has after events that gave it new ones.
pub open spec fn newest_key(psk: Seq<u8>, es: Seq<SessionEvent>) -> Seq<u8>
    decreases es.len(),
{
    if es.len() == 0 {
        psk
    } else {
        match es.last() {
            SessionEvent::Rekey(p) => p,
            _ => newest_key(psk, es.drop_last()),
        }
    }
}

/// How many of the events let a peer of the session `id` take it over.
pub open spec fn takeovers(id: Seq<char>, es: Seq<SessionEvent>) -> nat
    decreases es.len(),
{
    if es.len() == 0 {
        0
    } else {
        takeovers(id, es.drop_last()) + match es.last() {
            SessionEvent::Activate(p) => if p.peer.id == id {
                1nat
            } else {
                0
            },
            _ => 0,
        }
    }
}

/// Whatever happens to a session, its buffer holds the end of everything that it
/// ever wrote, as much of it as fits; it has ended exactly where its end was
/// among what happened; its key is the newest that it was given; and its
/// connections are numbered without a gap.
pub proof fn law_session_is_what_happened_to_it(
    s: SessionState,
    history: Seq<u8>,
    es: Seq<SessionEvent>,
)
    requires
        is_tail(s.ring, history),
        s.ring.data.len() <= s.ring.cap,
        s.epoch + takeovers(s.id, es) <= u64::MAX,
    ensures
        ({
            let t = session_after_all(s, es);
            &&& is_tail(t.ring, history + output_of(es))
            &&& t.ring.cap == s.ring.cap
            &&& t.ring.data.len() == smaller(
                s.ring.cap as int,
                (s.ring.data.len() + output_of(es).len()) as int,
            )
            &&& t.ended <==> s.ended || has_end(es)
            &&& t.psk == newest_key(s.psk, es)
            &&& t.epoch == s.epoch + takeovers(s.id, es)
            &&& t.id == s.id
        }),
    decreases es.len(),
{
    if es.len() == 0 {
        assert(history + output_of(es) =~= history);
    } else {
        let init = es.drop_last();
        law_session_is_what_happened_to_it(s, history, init);
        let before = session_after_all(s, init);
        law_each_event_changes_only_its_own(before, es.last());
        assert(es.last() == es[es.len() - 1]);
        match es.last() {
            SessionEvent::Output(bytes) => {
                law_buffer_keeps_the_newest(before.ring, history + output_of(init), bytes);
                assert(history + output_of(init) + bytes =~= history + output_of(es));
            },
            _ => {
                assert(output_of(es) =~= output_of(init));
            },
        }
        assert(has_end(es) <==> has_end(init) || es.last() is End) by {
            if has_end(init) {
                let i = choose|i: int| 0 <= i < init.len() && (#[trigger] init[i]) is End;
                assert(es[i] is End);
            }
            if has_end(es) {
                let i = choose|i: int| 0 <= i < es.len() && (#[trigger] es[i]) is End;
                if i < init.len() {
                    assert(init[i] is End);
                }
            }
        }
    }
}

/// A peer takes over exactly the session that it asked for, and its writer
/// starts where the peer stands, as the newest connection. What the session has
/// written, its key and its end do not matter and do not change. A peer of
/// another session changes nothing.
pub proof fn law_takeover_serves_the_peer_from_where_it_stands(
    before: SessionState,
    peer: Proven,
    after: SessionState,
    r: Option<ServerWriter>,
)
    requires
        activates(before, peer, after, r),
    ensures
        r is Some <==> peer.peer.id == before.id && before.epoch < u64::MAX,
        r matches Some(w) ==> {
            &&& w.cursor == peer.peer.offset
            &&& w.epoch == after.epoch
            &&& after.epoch == before.epoch + 1
            &&& after.connected
            &&& after.id == before.id
            &&& after.started == before.started
            &&& after.cmd == before.cmd
            &&& after.ring == before.ring
            &&& after.ended == before.ended
            &&& after.psk == before.psk
        },
        r is None ==> after == before,
{
}

/// A session that ends leaves the table with all that it wrote, so that whoever
/// serves it can send it to its end, and no other session is touched. Ending one
/// that is not there, or has ended, changes nothing.
pub proof fn law_ending_takes_one_session_out(
    before: Sessions,
    after: Sessions,
    id: Seq<char>,
    r: Option<SessionShared>,
)
    requires
        ends(before, after, id, r),
    ensures
        r is Some <==> before.contains_key(id) && !before[id].ended,
        r matches Some(s) ==> {
            &&& s@.ended
            &&& s@.psk == before[id].psk
            &&& same_but_for_the_key(SessionState { ended: before[id].ended, ..s@ }, before[id])
            &&& !after.contains_key(id)
        },
        r is None ==> after == before,
        forall|other: Seq<char>| other != id ==> (#[trigger] after.contains_key(other)
            <==> before.contains_key(other)),
        forall|other: Seq<char>|
            other != id && before.contains_key(other) ==> #[trigger] after[other] == before[other],
{
}

/// A session whose shell was started stands in the table under its id, blank and
/// free, and the answer holds what a client needs to reach it: the port, the id,
/// and a key that reads as the session's own. Where the shell was not started
/// the table stays as it is, and the answer says why. No other session is
/// touched.
pub proof fn law_created_session_can_be_reached(
    opened: Result<(), String>,
    before: Sessions,
    after: Sessions,
    id: Seq<char>,
    shell: Seq<char>,
    started: u64,
    ring_bytes: usize,
    port: u16,
    psk: Seq<u8>,
    r: ControlResponse,
)
    requires
        finishes(opened, before, after, id, shell, started, ring_bytes, port, psk, r),
    ensures
        opened is Ok ==> {
            &&& after.contains_key(id)
            &&& after[id].id == id
            &&& after[id].cmd == shell
            &&& after[id].started == started
            &&& after[id].ring.cap == ring_bytes
            &&& after[id].ring.start == 0
            &&& after[id].ring.data.len() == 0
            &&& !after[id].ended
            &&& !after[id].connected
            &&& r@ matches ResponseView::Bootstrap { port: p, id: named, psk_hex }
            &&& p == port
            &&& named == id
            &&& psk_reading(encode_utf8(psk_hex)) == Ok::<Seq<u8>, PskError>(after[id].psk)
        },
        opened matches Err(reason) ==> after == before && r@ == (ResponseView::Failure {
            message: "spawn failed: "@ + reason@,
        }),
        forall|other: Seq<char>| other != id ==> (#[trigger] after.contains_key(other)
            <==> before.contains_key(other)),
        forall|other: Seq<char>|
            other != id && before.contains_key(other) ==> #[trigger] after[other] == before[other],
{
    if opened is Ok {
        law_psk_text_reads_back(psk);
    }
}

/// Whether a text consists of lower-case hexadecimal digits.
pub open spec fn is_lower_hex(s: Seq<char>) -> bool {
    forall|i: int|
        0 <= i < s.len() ==> ('0' <= #[trigger] s[i] && s[i] <= '9') || ('a' <= s[i] && s[i] <= 'f')
}

/// 16 to the power `width`: how many numbers have so many hexadecimal digits.
pub open spec fn sixteen_to(width: nat) -> nat
    decreases width,
{
    if width == 0 {
        1
    } else {
        16 * sixteen_to((width - 1) as nat)
    }
}

/// Numbers written with so many hexadecimal digits have exactly so many, and two
/// that fit and are written alike are the same.
pub proof fn law_hex_digits_tell_numbers_apart(m: nat, n: nat, width: nat)
    ensures
        hex_digits(n, width).len() == width,
        is_lower_hex(hex_digits(n, width)),
        m < sixteen_to(width) && n < sixteen_to(width) && hex_digits(m, width) == hex_digits(
            n,
            width,
        ) ==> m == n,
    decreases width,
{
    if width > 0 {
        law_hex_digits_tell_numbers_apart(m / 16, n / 16, (width - 1) as nat);
        let (a, b) = (hex_digits(m, width), hex_digits(n, width));
        if a == b {
            assert(a.drop_last() =~= hex_digits(m / 16, (width - 1) as nat));
            assert(b.drop_last() =~= hex_digits(n / 16, (width - 1) as nat));
            assert(a.last() == digit(m % 16) && b.last() == digit(n % 16));
        }
    }
}

/// The id that is picked for a new session belongs to no session, and is eight
/// hexadecimal digits long. It is the one that the number makes wherever that is
/// free, and there is none only where every number's is taken.
pub proof fn law_picked_id_is_free(sessions: Sessions, n: u32, r: Option<String>)
    requires
        picks(sessions, n, r),
    ensures
        r matches Some(id) ==> !sessions.contains_key(id@) && id@.len() == 8 && is_lower_hex(id@),
        !sessions.contains_key(hex_digits(n as nat, 8)) ==> (r matches Some(id) && id@
            == hex_digits(n as nat, 8)),
        (exists|m: u32| !sessions.contains_key(#[trigger] hex_digits(m as nat, 8))) <==> r is Some,
{
    assert(id_after(n, 0) == hex_digits(n as nat, 8));
    if r is Some {
        let id = r->0;
        let k = choose|k: nat|
            {
                &&& k < crate::server::daemon::ID_COUNT
                &&& id@ == #[trigger] id_after(n, k)
                &&& !sessions.contains_key(id@)
                &&& forall|j: nat| j < k ==> sessions.contains_key(#[trigger] id_after(n, j))
            };
        let m = ((n + k) % (crate::server::daemon::ID_COUNT as int)) as nat;
        law_hex_digits_tell_numbers_apart(m, m, 8);
        assert(id@ == hex_digits((m as u32) as nat, 8));
        if k > 0 {
            assert(sessions.contains_key(id_after(n, 0)));
        }
    }
}

} // verus!
