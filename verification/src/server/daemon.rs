//! The persistent per-user daemon: one TCP listener (single-port multiplexing),
//! one unix control socket, and all live sessions. What it decides stands here;
//! the sockets are the program's.

use vstd::prelude::*;
use vstd::string::*;
use vstd::utf8::{encode_utf8, is_ascii_chars_encode_utf8};

use super::admission::{admits, proves, Admission, Authenticated, Proven};
use super::registry::{is_listing, keyed, Registry, Sessions};
use super::session::{
    random_psk, session_after, spawn_session, PtyMsg, SessionEvent, SessionShared, SessionState,
};
use crate::config::Config;
use crate::proto::control::{infos, ControlRequest, ControlResponse, ResponseView};
use crate::proto::frame::{Frame, FrameView};
use crate::proto::handshake::{
    rejection_text, Rejection, SESSION_ID_LEN, STATUS_NO_SESSION, VERSION,
};
use crate::psk::{hex_encode, hex_form, law_psk_text_reads_back, psk_reading, PskError};
use crate::random::random_number;
use crate::text::{decimal, decimal_text, hex_digits, hex_text, lemma_hex_digits, same_text};

verus! {

/// Idle read timeout on a session TCP connection, in seconds; the client
/// heartbeats well under this, so hitting it means the peer is gone.
pub const READ_IDLE: u64 = 20;

/// Writer wakeup cadence, in seconds: re-checks supersede/ended and pings the
/// client.
pub const WRITER_TICK: u64 = 5;

/// What the daemon does about a control request.
pub enum ControlAction {
    /// Answer; nothing else is to be done.
    Respond(ControlResponse),
    /// Start a shell on a PTY of this size, and register its session.
    Spawn { cols: u16, rows: u16 },
    /// Kill the shell of this session, and answer.
    Kill { id: String, response: ControlResponse },
}

/// The operation that a request asks for, without what it demands of the
/// daemon.
pub open spec fn operation(req: ControlRequest) -> ControlRequest
    decreases req,
{
    match req {
        ControlRequest::OnPort { port, request } => operation(*request),
        ControlRequest::OnProtocol { version, request } => operation(*request),
        _ => req,
    }
}

/// Whether a request demands a protocol at all.
pub open spec fn names_protocol(req: ControlRequest) -> bool
    decreases req,
{
    match req {
        ControlRequest::OnPort { port, request } => names_protocol(*request),
        ControlRequest::OnProtocol { version, request } => true,
        _ => false,
    }
}

/// What a daemon on `port` says to a demand for the port `expected`.
pub open spec fn wrong_port_text(port: u16, expected: u16) -> Seq<char> {
    "daemon is listening on TCP port "@ + decimal(port as nat) + ", but TCP port "@ + decimal(
        expected as nat,
    ) + " was requested; use port "@ + decimal(port as nat)
        + " or manually restart the daemon to change ports (restarting ends its sessions)"@
}

/// The first demand, from the outside in, that a daemon on `port` does not meet.
pub open spec fn unmet_demand(req: ControlRequest, port: u16) -> Option<Seq<char>>
    decreases req,
{
    match req {
        ControlRequest::OnPort { port: expected, request } => if expected != port {
            Some(wrong_port_text(port, expected))
        } else {
            unmet_demand(*request, port)
        },
        ControlRequest::OnProtocol { version, request } => if version != VERSION {
            Some(rejection_text(Rejection::VersionMismatch))
        } else {
            unmet_demand(*request, port)
        },
        _ => None,
    }
}

/// Why a request is refused before it is looked at: a demand is not met, or
/// the client did not say which protocol it will speak with the session.
pub open spec fn refusal(req: ControlRequest, port: u16) -> Option<Seq<char>> {
    match unmet_demand(req, port) {
        Some(m) => Some(m),
        None => if !names_protocol(req) && (operation(req) is Create || operation(req) is Attach) {
            Some(rejection_text(Rejection::VersionMismatch))
        } else {
            None
        },
    }
}

/// Whether an action is the answer with this message.
pub open spec fn fails_with(action: ControlAction, message: Seq<char>) -> bool {
    action matches ControlAction::Respond(r) && r@ == (ResponseView::Failure { message })
}

/// A terminal is at least one cell wide and high.
pub open spec fn at_least_one(n: u16) -> u16 {
    if n == 0 {
        1
    } else {
        n
    }
}

/// What attaching to `id` comes to, where `fresh` is the key to hand out.
pub open spec fn attaches(
    before: Sessions,
    after: Sessions,
    id: Seq<char>,
    port: u16,
    fresh: Seq<u8>,
    action: ControlAction,
) -> bool {
    if !before.contains_key(id) {
        after == before && fails_with(action, "no such session"@)
    } else if before[id].ended {
        after == before && fails_with(action, "session ended"@)
    } else if before[id].busy() {
        after == before && fails_with(action, "session busy (already attached)"@)
    } else {
        &&& after == before.insert(id, before[id].rekeyed(fresh))
        &&& action matches ControlAction::Respond(r)
        &&& r@ == (ResponseView::Bootstrap { port, id, psk_hex: hex_form(fresh) })
    }
}

/// Whether `action` is what a daemon on `port` does about `req`, and `after`
/// the table of sessions that it leaves. `fresh` is the key that it would hand
/// out.
pub open spec fn executes(
    before: Sessions,
    after: Sessions,
    req: ControlRequest,
    port: u16,
    fresh: Seq<u8>,
    action: ControlAction,
) -> bool {
    match refusal(req, port) {
        Some(message) => after == before && fails_with(action, message),
        None => match operation(req) {
            ControlRequest::Create { cols, rows } => after == before && action == (
            ControlAction::Spawn { cols: at_least_one(cols), rows: at_least_one(rows) }),
            ControlRequest::Attach { id } => attaches(before, after, id@, port, fresh, action),
            ControlRequest::Ls => {
                &&& after == before
                &&& action matches ControlAction::Respond(ControlResponse::Ls { sessions })
                &&& is_listing(infos(sessions@), before)
            },
            ControlRequest::Kill { id } => if before.contains_key(id@) {
                &&& after == before
                &&& action matches ControlAction::Kill { id: killed, response }
                &&& killed@ == id@
                &&& response@ == ResponseView::Success
            } else {
                after == before && fails_with(action, "no such session"@)
            },
            _ => false,
        },
    }
}

fn fail(message: &str) -> (r: ControlAction)
    ensures
        fails_with(r, message@),
{
    ControlAction::Respond(ControlResponse::Failure { message: message.to_owned() })
}

/// Answer a control request, given the key that an attach would hand out.
///
/// Every demand is checked before a PTY is created, a key rotated, or a session
/// touched. Create and attach requests that name no protocol fail too.
pub fn execute_control_with(
    req: ControlRequest,
    registry: &mut Registry,
    port: u16,
    fresh: [u8; 32],
) -> (r: ControlAction)
    ensures
        executes(old(registry)@, final(registry)@, req, port, fresh@, r),
{
    let mut inner = req;
    let mut protocol_checked = false;
    loop
        invariant
            operation(inner) == operation(req),
            unmet_demand(inner, port) == unmet_demand(req, port),
            names_protocol(req) == (protocol_checked || names_protocol(inner)),
            registry@ == old(registry)@,
        ensures
            inner == operation(req),
            unmet_demand(req, port) is None,
            names_protocol(req) == protocol_checked,
            registry@ == old(registry)@,
            inner !is OnPort,
            inner !is OnProtocol,
        decreases inner,
    {
        match inner {
            ControlRequest::OnPort { port: expected, request } => {
                if expected != port {
                    let mut m = "daemon is listening on TCP port ".to_owned();
                    m.append(decimal_text(port as u64).as_str());
                    m.append(", but TCP port ");
                    m.append(decimal_text(expected as u64).as_str());
                    m.append(" was requested; use port ");
                    m.append(decimal_text(port as u64).as_str());
                    m.append(
                        " or manually restart the daemon to change ports (restarting ends its sessions)",
                    );
                    assert(m@ =~= wrong_port_text(port, expected));
                    return ControlAction::Respond(ControlResponse::Failure { message: m });
                }
                inner = *request;
            },
            ControlRequest::OnProtocol { version, request } => {
                if version != VERSION {
                    return fail(Rejection::VersionMismatch.message());
                }
                protocol_checked = true;
                inner = *request;
            },
            other => {
                inner = other;
                break;
            },
        }
    }
    match inner {
        ControlRequest::Create { cols, rows } => {
            if !protocol_checked {
                return fail(Rejection::VersionMismatch.message());
            }
            ControlAction::Spawn {
                cols: if cols == 0 { 1 } else { cols },
                rows: if rows == 0 { 1 } else { rows },
            }
        },
        ControlRequest::Attach { id } => {
            if !protocol_checked {
                return fail(Rejection::VersionMismatch.message());
            }
            let mut s = match registry.remove(id.as_str()) {
                None => {
                    assert(old(registry)@.remove(id@) =~= old(registry)@);
                    return fail("no such session");
                },
                Some(s) => s,
            };
            let ended = s.is_ended();
            let busy = s.is_busy();
            if !ended && !busy {
                s.set_psk(fresh);
            }
            let ghost now = s@;
            registry.insert(s);
            assert(registry@ =~= old(registry)@.insert(id@, now));
            assert(now == old(registry)@[id@] ==> registry@ =~= old(registry)@);
            if ended {
                return fail("session ended");
            }
            if busy {
                return fail("session busy (already attached)");
            }
            ControlAction::Respond(
                ControlResponse::Bootstrap { port, id, psk_hex: hex_encode(&fresh) },
            )
        },
        ControlRequest::Ls => ControlAction::Respond(
            ControlResponse::Ls { sessions: registry.list() },
        ),
        ControlRequest::Kill { id } => {
            if registry.contains(id.as_str()) {
                ControlAction::Kill { id, response: ControlResponse::Success }
            } else {
                fail("no such session")
            }
        },
        _ => vstd::pervasive::unreached(),
    }
}

/// Answer a control request; an attach hands out a key drawn at random.
pub fn execute_control(req: ControlRequest, registry: &mut Registry, port: u16) -> (r:
    ControlAction)
    ensures
        exists|fresh: Seq<u8>|
            fresh.len() == 32 && #[trigger] executes(
                old(registry)@,
                final(registry)@,
                req,
                port,
                fresh,
                r,
            ),
{
    let fresh = random_psk();
    let r = execute_control_with(req, registry, port, fresh);
    assert(fresh@.len() == 32);
    r
}

/// How many ids there are.
pub const ID_COUNT: u64 = 0x1_0000_0000;

/// The id that lies `k` after the one that `n` makes; after the last comes the
/// first.
pub open spec fn id_after(n: u32, k: nat) -> Seq<char> {
    hex_digits(((n + k) % (ID_COUNT as int)) as nat, 8)
}

/// Whether `r` is the first id from that of `n` on that no session has; none
/// where every id is taken.
pub open spec fn picks(sessions: Sessions, n: u32, r: Option<String>) -> bool {
    match r {
        Some(id) => exists|k: nat|
            {
                &&& k < ID_COUNT
                &&& id@ == #[trigger] id_after(n, k)
                &&& !sessions.contains_key(id@)
                &&& forall|j: nat| j < k ==> sessions.contains_key(#[trigger] id_after(n, j))
            },
        None => forall|m: u32| sessions.contains_key(#[trigger] hex_digits(m as nat, 8)),
    }
}

/// The first id from that of `n` on that no session has; none where every id is
/// taken.
pub fn fresh_id(registry: &Registry, n: u32) -> (r: Option<String>)
    ensures
        picks(registry@, n, r),
{
    let mut k: u64 = 0;
    while k < ID_COUNT
        invariant
            k <= ID_COUNT,
            forall|j: nat| j < k ==> registry@.contains_key(#[trigger] id_after(n, j)),
        decreases ID_COUNT - k,
    {
        let id = hex_text((n as u64 + k) % ID_COUNT, 8);
        assert(id@ == id_after(n, k as nat));
        if !registry.contains(id.as_str()) {
            return Some(id);
        }
        k = k + 1;
    }
    assert forall|m: u32| registry@.contains_key(#[trigger] hex_digits(m as nat, 8)) by {
        let j: int = if m >= n {
            m - n
        } else {
            m - n + ID_COUNT
        };
        assert((n + j) % (ID_COUNT as int) == m);
        assert(id_after(n, j as nat) == hex_digits(m as nat, 8));
    }
    None
}

/// An id for a new session: one drawn at random, or, where a session has that
/// one, the next that is free. There is none only where every id is taken.
pub fn new_session_id(registry: &Registry) -> (r: Option<String>)
    ensures
        match r {
            Some(id) => !registry@.contains_key(id@) && exists|n: u32|
                id@ == #[trigger] hex_digits(n as nat, 8),
            None => forall|n: u32| registry@.contains_key(#[trigger] hex_digits(n as nat, 8)),
        },
        exists|n: u32| #[trigger] picks(registry@, n, r),
{
    let n = random_number();
    let r = fresh_id(registry, n);
    proof {
        if r is Some {
            let k = choose|k: nat| k < ID_COUNT && r->0@ == #[trigger] id_after(n, k);
            let m = ((n + k) % (ID_COUNT as int)) as u32;
            assert(r->0@ == hex_digits(m as nat, 8));
        }
    }
    r
}

/// Every id that is drawn for a session fits the handshake.
pub proof fn law_drawn_ids_fit_the_handshake(n: u32)
    ensures
        encode_utf8(hex_digits(n as nat, 8)).len() == SESSION_ID_LEN,
{
    lemma_hex_digits(n as nat, 8);
    is_ascii_chars_encode_utf8(hex_digits(n as nat, 8));
}

/// Whether `after` is the table, and `r` the answer, once the shell of a create
/// request has been started or has failed to; `psk` is the session's key.
pub open spec fn finishes(
    opened: Result<(), String>,
    before: Sessions,
    after: Sessions,
    id: Seq<char>,
    shell: Seq<char>,
    started: u64,
    ring_bytes: usize,
    port: u16,
    psk: Seq<u8>,
    r: ControlResponse,
) -> bool {
    match opened {
        Ok(_) => {
            &&& psk.len() == 32
            &&& after == before.insert(
                id,
                SessionState::fresh(id, shell, started, ring_bytes as nat, psk),
            )
            &&& r@ == (ResponseView::Bootstrap { port, id, psk_hex: hex_form(psk) })
        },
        Err(reason) => after == before && r@ == (ResponseView::Failure {
            message: "spawn failed: "@ + reason@,
        }),
    }
}

/// Complete a create request, once its shell has been started or has failed
/// to: register the session and answer.
pub fn finish_create(
    opened: Result<(), String>,
    id: String,
    shell: &str,
    started: u64,
    ring_bytes: usize,
    registry: &mut Registry,
    port: u16,
) -> (r: ControlResponse)
    ensures
        exists|psk: Seq<u8>| #[trigger]
            finishes(
                opened,
                old(registry)@,
                final(registry)@,
                id@,
                shell@,
                started,
                ring_bytes,
                port,
                psk,
                r,
            ),
{
    match opened {
        Ok(_) => {
            let copy = id.clone();
            let psk = spawn_session(id, shell, started, ring_bytes, registry);
            let r = ControlResponse::Bootstrap { port, id: copy, psk_hex: hex_encode(&psk) };
            assert(finishes(
                opened,
                old(registry)@,
                registry@,
                id@,
                shell@,
                started,
                ring_bytes,
                port,
                psk@,
                r,
            ));
            r
        },
        Err(reason) => {
            let mut message = "spawn failed: ".to_owned();
            message.append(reason.as_str());
            let r = ControlResponse::Failure { message };
            assert(finishes(
                opened,
                old(registry)@,
                registry@,
                id@,
                shell@,
                started,
                ring_bytes,
                port,
                Seq::empty(),
                r,
            ));
            r
        },
    }
}

/// Whether a request demands the port `p`, at any depth.
pub open spec fn demands_port(req: ControlRequest, p: u16) -> bool
    decreases req,
{
    match req {
        ControlRequest::OnPort { port, request } => port == p || demands_port(*request, p),
        ControlRequest::OnProtocol { version, request } => demands_port(*request, p),
        _ => false,
    }
}

/// Whether a request demands the protocol `v`, at any depth.
pub open spec fn demands_protocol(req: ControlRequest, v: u8) -> bool
    decreases req,
{
    match req {
        ControlRequest::OnPort { port, request } => demands_protocol(*request, v),
        ControlRequest::OnProtocol { version, request } => version == v || demands_protocol(
            *request,
            v,
        ),
        _ => false,
    }
}

/// A request for another port is refused, however it is wrapped: a demand that
/// is met does not hide one that is not.
pub proof fn law_wrong_port_is_refused(req: ControlRequest, p: u16, port: u16)
    requires
        demands_port(req, p),
        p != port,
    ensures
        unmet_demand(req, port) is Some,
        refusal(req, port) is Some,
    decreases req,
{
    match req {
        ControlRequest::OnPort { port: q, request } => {
            if q == port {
                law_wrong_port_is_refused(*request, p, port);
            }
        },
        ControlRequest::OnProtocol { version, request } => {
            law_wrong_port_is_refused(*request, p, port);
        },
        _ => {},
    }
}

/// A request for another protocol is refused, however it is wrapped.
pub proof fn law_wrong_protocol_is_refused(req: ControlRequest, v: u8, port: u16)
    requires
        demands_protocol(req, v),
        v != VERSION,
    ensures
        unmet_demand(req, port) is Some,
        refusal(req, port) is Some,
    decreases req,
{
    match req {
        ControlRequest::OnPort { port: q, request } => {
            law_wrong_protocol_is_refused(*request, v, port);
        },
        ControlRequest::OnProtocol { version, request } => {
            if version == VERSION {
                law_wrong_protocol_is_refused(*request, v, port);
            }
        },
        _ => {},
    }
}

/// A request whose every demand is met, and which names the protocol where it
/// must, is heard.
pub proof fn law_fitting_requests_are_heard(req: ControlRequest, port: u16)
    requires
        forall|p: u16| demands_port(req, p) ==> p == port,
        forall|v: u8| demands_protocol(req, v) ==> v == VERSION,
        names_protocol(req) || operation(req) is Ls || operation(req) is Kill,
    ensures
        refusal(req, port) is None,
{
    lemma_fitting_demands_are_met(req, port);
}

proof fn lemma_fitting_demands_are_met(req: ControlRequest, port: u16)
    requires
        forall|p: u16| demands_port(req, p) ==> p == port,
        forall|v: u8| demands_protocol(req, v) ==> v == VERSION,
    ensures
        unmet_demand(req, port) is None,
    decreases req,
{
    match req {
        ControlRequest::OnPort { port: q, request } => {
            assert(demands_port(req, q));
            assert forall|p: u16| demands_port(*request, p) implies p == port by {
                assert(demands_port(req, p));
            }
            assert forall|v: u8| demands_protocol(*request, v) implies v == VERSION by {
                assert(demands_protocol(req, v));
            }
            lemma_fitting_demands_are_met(*request, port);
        },
        ControlRequest::OnProtocol { version, request } => {
            assert(demands_protocol(req, version));
            assert forall|p: u16| demands_port(*request, p) implies p == port by {
                assert(demands_port(req, p));
            }
            assert forall|v: u8| demands_protocol(*request, v) implies v == VERSION by {
                assert(demands_protocol(req, v));
            }
            lemma_fitting_demands_are_met(*request, port);
        },
        _ => {},
    }
}

/// A refused request changes no session and no key, starts no shell and kills
/// none: it is only answered.
pub proof fn law_refused_requests_change_nothing(
    before: Sessions,
    after: Sessions,
    req: ControlRequest,
    port: u16,
    fresh: Seq<u8>,
    action: ControlAction,
)
    requires
        refusal(req, port) is Some,
        executes(before, after, req, port, fresh, action),
    ensures
        after == before,
        action matches ControlAction::Respond(r) && r@ is Failure,
{
}

/// A request touches at most the key of the session that it attaches to: every
/// other session, and all else about that one, stays as it is.
pub proof fn law_requests_touch_only_the_attached_key(
    before: Sessions,
    after: Sessions,
    req: ControlRequest,
    port: u16,
    fresh: Seq<u8>,
    action: ControlAction,
    id: Seq<char>,
)
    requires
        executes(before, after, req, port, fresh, action),
        before.contains_key(id),
    ensures
        after.dom() == before.dom(),
        after[id].rekeyed(before[id].psk) == before[id],
        after[id].psk != before[id].psk ==> {
            &&& operation(req) matches ControlRequest::Attach { id: attached }
            &&& attached@ == id
            &&& after[id].psk == fresh
        },
{
    match operation(req) {
        ControlRequest::Attach { id: attached } => {
            if before.contains_key(attached@) {
                assert(before.insert(
                    attached@,
                    before[attached@].rekeyed(fresh),
                ).dom() =~= before.dom());
            }
        },
        _ => {},
    }
}

/// Requests leave every session under its own id, and the answer to an attach
/// names the session that was asked for.
pub proof fn law_requests_keep_ids(
    before: Sessions,
    after: Sessions,
    req: ControlRequest,
    port: u16,
    fresh: Seq<u8>,
    action: ControlAction,
)
    requires
        keyed(before),
        executes(before, after, req, port, fresh, action),
    ensures
        keyed(after),
        action matches ControlAction::Respond(ControlResponse::Bootstrap { port: p, id, psk_hex })
            ==> {
            &&& p == port
            &&& operation(req) matches ControlRequest::Attach { id: asked }
            &&& id@ == asked@
        },
{
}

/// A session that a connection is using cannot be attached to; one that is free
/// can, and the key handed out is then the only one that it has.
pub proof fn law_attach_needs_a_free_session(
    before: Sessions,
    after: Sessions,
    id: Seq<char>,
    port: u16,
    fresh: Seq<u8>,
    action: ControlAction,
)
    requires
        attaches(before, after, id, port, fresh, action),
    ensures
        (action matches ControlAction::Respond(r) && r@ is Bootstrap) <==> before.contains_key(id)
            && !before[id].ended && !before[id].connected,
        (action matches ControlAction::Respond(r) && r@ is Bootstrap) ==> after[id].psk == fresh,
        !(action matches ControlAction::Respond(r) && r@ is Bootstrap) ==> after == before,
{
}

/// The key that a client reads out of the answer to an attach is the key that
/// the session then has.
pub proof fn law_attach_hands_over_the_new_key(
    before: Sessions,
    after: Sessions,
    id: Seq<char>,
    port: u16,
    fresh: Seq<u8>,
    response: ControlResponse,
)
    requires
        fresh.len() == 32,
        attaches(before, after, id, port, fresh, ControlAction::Respond(response)),
    ensures
        response@ matches ResponseView::Bootstrap { psk_hex, .. } ==> psk_reading(
            encode_utf8(psk_hex),
        ) == Ok::<Seq<u8>, PskError>(after[id].psk),
{
    law_psk_text_reads_back(fresh);
}

/// What is said of a range of ports that cannot be used.
pub open spec fn invalid_range_text(lo: u16, hi: u16) -> Seq<char> {
    "invalid TCP port range "@ + decimal(lo as nat) + "-"@ + decimal(hi as nat)
        + "; expected 1 <= low <= high <= 65535"@
}

/// All ports from `lo` to `hi`.
pub open spec fn ports_between(lo: u16, hi: u16) -> Seq<u16> {
    Seq::new((hi - lo + 1) as nat, |i: int| (lo + i) as u16)
}

/// The ports of a range, in the order in which the daemon tries to bind them;
/// none where the range cannot be used.
pub open spec fn range_plan(lo: u16, hi: u16) -> Option<Seq<u16>> {
    if lo == 0 || lo > hi {
        None
    } else {
        Some(ports_between(lo, hi))
    }
}

/// The ports of a range, in the order in which the daemon tries to bind them.
pub fn bind_tcp_in_range(range: [u16; 2]) -> (r: Result<Vec<u16>, String>)
    ensures
        match range_plan(range@[0], range@[1]) {
            Some(ports) => r matches Ok(v) && v@ == ports,
            None => r matches Err(m) && m@ == invalid_range_text(range@[0], range@[1]),
        },
{
    let (lo, hi): (u16, u16) = (range[0], range[1]);
    if lo == 0 || lo > hi {
        let mut m = "invalid TCP port range ".to_owned();
        m.append(decimal_text(lo as u64).as_str());
        m.append("-");
        m.append(decimal_text(hi as u64).as_str());
        m.append("; expected 1 <= low <= high <= 65535");
        assert(m@ =~= invalid_range_text(lo, hi));
        return Err(m);
    }
    let mut v: Vec<u16> = Vec::new();
    let mut port: u32 = lo as u32;
    while port <= hi as u32
        invariant
            lo <= port <= hi + 1,
            v@ =~= Seq::new((port - lo) as nat, |i: int| (lo + i) as u16),
        decreases hi + 1 - port,
    {
        v.push(port as u16);
        port = port + 1;
    }
    Ok(v)
}

/// The ports that the daemon tries to bind, in order; none where the range
/// cannot be used. A fixed port is the only one: where it is taken, the range
/// does not help out.
pub open spec fn bind_plan(cfg: Config) -> Option<Seq<u16>> {
    match cfg.port {
        Some(port) => Some(seq![port@]),
        None => range_plan(cfg.port_range@[0], cfg.port_range@[1]),
    }
}

/// The ports that the daemon tries to bind, in order.
pub fn bind_tcp(cfg: &Config) -> (r: Result<Vec<u16>, String>)
    ensures
        match bind_plan(*cfg) {
            Some(ports) => r matches Ok(v) && v@ == ports,
            None => r matches Err(m) && m@ == invalid_range_text(
                cfg.port_range@[0],
                cfg.port_range@[1],
            ),
        },
{
    if let Some(port) = cfg.port {
        let mut v: Vec<u16> = Vec::new();
        v.push(port.get());
        return Ok(v);
    }
    bind_tcp_in_range(cfg.port_range)
}

/// What is said where none of the ports could be bound. Of a fixed port, the
/// system's own words follow.
pub open spec fn bind_failure_text(cfg: Config, cause: Seq<char>) -> Seq<char> {
    match cfg.port {
        Some(port) => "bind TCP port "@ + decimal(port@ as nat) + ": "@ + cause,
        None => "no free TCP port in range "@ + decimal(cfg.port_range@[0] as nat) + "-"@ + decimal(
            cfg.port_range@[1] as nat,
        ),
    }
}

/// What is said where none of the ports could be bound.
pub fn bind_failure(cfg: &Config, cause: &str) -> (r: String)
    ensures
        r@ == bind_failure_text(*cfg, cause@),
{
    match cfg.port {
        Some(port) => {
            let mut m = "bind TCP port ".to_owned();
            m.append(decimal_text(port.get() as u64).as_str());
            m.append(": ");
            m.append(cause);
            m
        },
        None => {
            let mut m = "no free TCP port in range ".to_owned();
            m.append(decimal_text(cfg.port_range[0] as u64).as_str());
            m.append("-");
            m.append(decimal_text(cfg.port_range[1] as u64).as_str());
            m
        },
    }
}

/// The ports tried lie in the range, and all of the range is tried, each port
/// once and in ascending order.
pub proof fn law_whole_range_is_tried(lo: u16, hi: u16)
    requires
        0 < lo <= hi,
    ensures
        forall|p: u16| ports_between(lo, hi).contains(p) <==> lo <= p <= hi,
        forall|i: int, j: int|
            0 <= i < j < ports_between(lo, hi).len() ==> ports_between(lo, hi)[i] < ports_between(
                lo,
                hi,
            )[j],
        ports_between(lo, hi).first() == lo,
{
    let s = ports_between(lo, hi);
    assert forall|p: u16| lo <= p <= hi implies s.contains(p) by {
        assert(s[p - lo] == p);
    }
}

/// A session that has ended, and so left the table, can be neither resumed nor
/// attached to.
pub proof fn law_ended_sessions_are_gone(
    sessions: Sessions,
    after: Sessions,
    id: Seq<char>,
    offset: u64,
    client_nonce: Seq<u8>,
    server_nonce: Seq<u8>,
    adm: Admission,
    port: u16,
    fresh: Seq<u8>,
    action: ControlAction,
)
    requires
        admits(sessions.remove(id), id, offset, client_nonce, server_nonce, adm),
        attaches(sessions.remove(id), after, id, port, fresh, action),
    ensures
        adm matches Admission::Refuse { reply, .. } && reply@ == seq![STATUS_NO_SESSION],
        fails_with(action, "no such session"@),
        after == sessions.remove(id),
{
}

/// What the daemon does about a frame from an authenticated client.
pub enum ReaderAction {
    /// Hand this to the PTY.
    Tell(PtyMsg),
    /// Ask the writer for a pong.
    Pong,
    Nothing,
}

/// Whether `r` is what a frame from the client comes to.
pub open spec fn obeys(frame: Frame, r: ReaderAction) -> bool {
    match frame {
        Frame::Data(b) => r == ReaderAction::Tell(PtyMsg::Input(b)),
        Frame::Resize { cols, rows } => r == ReaderAction::Tell(PtyMsg::Resize { cols, rows }),
        Frame::Ping => r == ReaderAction::Pong,
        _ => r == ReaderAction::Nothing,
    }
}

/// Act on a frame from the client: input and resizes go to the PTY, pings are
/// answered, everything else is let pass.
pub fn server_reader(frame: Frame, session: &SessionShared) -> (r: ReaderAction)
    ensures
        obeys(frame, r),
{
    match frame {
        Frame::Data(b) => ReaderAction::Tell(session.send_input(b)),
        Frame::Resize { cols, rows } => ReaderAction::Tell(session.resize(cols, rows)),
        Frame::Ping => ReaderAction::Pong,
        _ => ReaderAction::Nothing,
    }
}

/// What the writing side of a connection does next.
pub enum WriterAction {
    /// Look again at the session.
    Proceed,
    /// Wait until something happens.
    Wait,
    Send(Frame),
    /// Send this, then stop.
    SendLast(Frame),
    Stop,
}

/// Whether `after` is what becomes of a session that a peer asks to take over,
/// and `r` the writer that serves it.
pub open spec fn activates(
    before: SessionState,
    peer: Proven,
    after: SessionState,
    r: Option<ServerWriter>,
) -> bool {
    if peer.peer.id != before.id || before.epoch == u64::MAX {
        r is None && after == before
    } else {
        &&& r matches Some(w)
        &&& w.cursor == peer.peer.offset
        &&& w.epoch == after.epoch
        &&& after == before.activated()
    }
}

/// Make a connection that has proved that it knows the key the active one,
/// superseding any other. Its writer starts where the client stands. Where the
/// session is another, or connections can no longer be numbered, nothing
/// changes.
pub fn activate(session: &mut SessionShared, peer: Authenticated) -> (r: Option<ServerWriter>)
    ensures
        proves(peer@.peer, peer@.first),
        activates(old(session)@, peer@, final(session)@, r),
        final(session)@ == session_after(old(session)@, SessionEvent::Activate(peer@)),
{
    let cursor = peer.offset();
    if session.epoch() == u64::MAX || !same_text(peer.id(), session.id()) {
        return None;
    }
    let epoch = session.become_active(peer);
    Some(ServerWriter { cursor, epoch })
}

/// What wakes the writing side of a connection.
pub enum Wakeup {
    /// There is new output, or the session has ended.
    DataReady,
    /// The reading side asks for a pong.
    PongWanted,
    /// The reading side is gone.
    ReaderGone,
    /// Nothing happened for a while.
    Tick,
}

/// The writing side of a connection: where in the output it stands, and as
/// which connection it was activated.
pub struct ServerWriter {
    pub cursor: u64,
    pub epoch: u64,
}

/// What the writing side does about a session, and where it stands then.
pub open spec fn writes(
    w: ServerWriter,
    s: SessionState,
    action: WriterAction,
    cursor: u64,
) -> bool {
    let from = s.ring.read_start(w.cursor as nat);
    let data = s.ring.read_data(w.cursor as nat);
    if s.epoch != w.epoch {
        action is Stop && cursor == w.cursor
    } else if data.len() > 0 || from > w.cursor {
        &&& action matches WriterAction::Send(f)
        &&& f@ == (FrameView::Output { offset: from as u64, data })
        &&& cursor == from + data.len()
    } else if s.ended {
        action == WriterAction::SendLast(Frame::Ended) && cursor == w.cursor
    } else {
        action is Wait && cursor == w.cursor
    }
}

/// What a wakeup asks of the writing side.
pub open spec fn asked_by(event: Wakeup) -> WriterAction {
    match event {
        Wakeup::DataReady => WriterAction::Proceed,
        Wakeup::PongWanted => WriterAction::Send(Frame::Pong),
        Wakeup::ReaderGone => WriterAction::Stop,
        Wakeup::Tick => WriterAction::Send(Frame::Ping),
    }
}

impl ServerWriter {
    /// The next thing to do: stop once superseded by a newer connection; send
    /// what is still to be sent; once the session is over and all is sent, say
    /// so; else wait. An empty output frame can still report a gap, where the
    /// session retains nothing.
    pub fn step(&mut self, session: &SessionShared) -> (r: WriterAction)
        ensures
            writes(*old(self), session@, r, final(self).cursor),
            final(self).epoch == old(self).epoch,
    {
        if !session.is_current(self.epoch) {
            return WriterAction::Stop;
        }
        let (offset, data) = session.read_from(self.cursor);
        if data.len() > 0 || offset > self.cursor {
            self.cursor = offset + data.len() as u64;
            return WriterAction::Send(Frame::Output { offset, data });
        }
        if session.is_ended() {
            return WriterAction::SendLast(Frame::Ended);
        }
        WriterAction::Wait
    }

    /// What a wakeup asks for. The ping on a tick lets a silently dead client
    /// trip the peer's read timeout.
    pub fn woken(event: Wakeup) -> (r: WriterAction)
        ensures
            r == asked_by(event),
    {
        match event {
            Wakeup::DataReady => WriterAction::Proceed,
            Wakeup::PongWanted => WriterAction::Send(Frame::Pong),
            Wakeup::ReaderGone => WriterAction::Stop,
            Wakeup::Tick => WriterAction::Send(Frame::Ping),
        }
    }
}

/// Each output frame carries the session's own output from where the last one
/// stopped, or, where that has been evicted, from the oldest byte left; the
/// writer then stands where the frame ends. It never goes back.
pub proof fn law_writer_sends_the_output_in_order(
    w: ServerWriter,
    s: SessionState,
    history: Seq<u8>,
    action: WriterAction,
    cursor: u64,
)
    requires
        s.ring.wf(),
        s.ring.holds(history),
        history.len() <= u64::MAX,
        w.cursor <= history.len(),
        writes(w, s, action, cursor),
    ensures
        w.cursor <= cursor <= history.len(),
        action matches WriterAction::Send(f) ==> {
            &&& f@ matches FrameView::Output { offset, data }
            &&& w.cursor <= offset
            &&& offset > w.cursor ==> offset == s.ring.start
            &&& cursor == offset + data.len()
            &&& data == history.subrange(offset as int, cursor as int)
            &&& cursor > w.cursor
        },
        action is SendLast ==> w.cursor == history.len() && s.ended,
        action is Wait ==> w.cursor == history.len() && !s.ended,
{
    super::session::law_read_gives_the_output_at_its_offset(s.ring, history, w.cursor as nat);
}

/// A connection that a newer one has superseded sends nothing more.
pub proof fn law_superseded_writer_stops(
    w: ServerWriter,
    s: SessionState,
    action: WriterAction,
    cursor: u64,
)
    requires
        s.epoch < u64::MAX,
        w.epoch <= s.epoch,
        writes(w, s.activated(), action, cursor),
    ensures
        action is Stop,
{
}

} // verus!
