//! What the daemon does about control requests.

use vstd::prelude::*;
use vstd::utf8::encode_utf8;

use crate::proto::control::{infos, ControlRequest, ControlResponse, InfoView};
use crate::psk::{law_psk_text_reads_back, psk_reading, PskError};
use crate::server::daemon::{
    demands_port, demands_protocol, executes, names_protocol, operation, refusal, unmet_demand,
    ControlAction,
};
use crate::server::registry::Sessions;
use crate::server::session::SessionState;

verus! {

/// Whether an action is only to answer, with this failure.
pub open spec fn answers_failure(action: ControlAction, message: Seq<char>) -> bool {
    action matches ControlAction::Respond(ControlResponse::Failure { message: m }) && m@ == message
}

/// Whether two sessions differ in nothing but their keys.
pub open spec fn same_but_for_the_key(a: SessionState, b: SessionState) -> bool {
    &&& a.id == b.id
    &&& a.started == b.started
    &&& a.cmd == b.cmd
    &&& a.ring == b.ring
    &&& a.ended == b.ended
    &&& a.epoch == b.epoch
    &&& a.connected == b.connected
}

/// A request to attach that is heard succeeds exactly where the session is
/// there, has not ended, and no connection is using it, whatever it has written
/// and however often it was attached to before. The answer then names this port,
/// this session, and a key that reads as the one that the session now has, and
/// nothing else has changed. Otherwise nothing changes at all, and the failure
/// tells which of the three it is.
pub proof fn law_attach_succeeds_exactly_on_a_free_session(
    before: Sessions,
    after: Sessions,
    req: ControlRequest,
    id: String,
    port: u16,
    fresh: Seq<u8>,
    action: ControlAction,
)
    requires
        fresh.len() == 32,
        refusal(req, port) is None,
        operation(req) == (ControlRequest::Attach { id }),
        executes(before, after, req, port, fresh, action),
    ensures
        action matches ControlAction::Respond(r),
        (action matches ControlAction::Respond(r) && r@ is Bootstrap) <==> before.contains_key(id@)
            && !before[id@].ended && !before[id@].connected,
        action matches ControlAction::Respond(
            ControlResponse::Bootstrap { port: p, id: named, psk_hex },
        ) ==> {
            &&& p == port
            &&& named@ == id@
            &&& psk_reading(encode_utf8(psk_hex@)) == Ok::<Seq<u8>, PskError>(fresh)
            &&& after.dom() == before.dom()
            &&& after[id@].psk == fresh
            &&& same_but_for_the_key(after[id@], before[id@])
            &&& forall|other: Seq<char>|
                other != id@ && before.contains_key(other) ==> #[trigger] after[other]
                    == before[other]
        },
        !before.contains_key(id@) ==> answers_failure(action, "no such session"@),
        before.contains_key(id@) && before[id@].ended ==> answers_failure(action, "session ended"@),
        before.contains_key(id@) && !before[id@].ended && before[id@].connected ==> answers_failure(
            action,
            "session busy (already attached)"@,
        ),
        !before.contains_key(id@) || before[id@].ended || before[id@].connected ==> after == before,
{
    law_psk_text_reads_back(fresh);
    if before.contains_key(id@) {
        assert(before.insert(id@, after[id@]).dom() =~= before.dom());
    }
}

/// A request to kill that is heard kills exactly the session that it names, and
/// is told that it succeeded, whether or not a connection is using that session;
/// there is no such session only where the table holds none. The table itself
/// stays as it is: the session leaves it once its shell has exited.
pub proof fn law_kill_reaches_every_session(
    before: Sessions,
    after: Sessions,
    req: ControlRequest,
    id: String,
    port: u16,
    fresh: Seq<u8>,
    action: ControlAction,
)
    requires
        refusal(req, port) is None,
        operation(req) == (ControlRequest::Kill { id }),
        executes(before, after, req, port, fresh, action),
    ensures
        after == before,
        before.contains_key(id@) ==> (action matches ControlAction::Kill { id: killed, response }
            && killed@ == id@ && response is Success),
        !before.contains_key(id@) ==> answers_failure(action, "no such session"@),
{
}

/// A request to create that is heard starts a shell on a terminal of the size
/// that was asked for, where no side is shorter than one cell.
pub proof fn law_create_starts_a_shell_of_the_size_asked_for(
    before: Sessions,
    after: Sessions,
    req: ControlRequest,
    cols: u16,
    rows: u16,
    port: u16,
    fresh: Seq<u8>,
    action: ControlAction,
)
    requires
        refusal(req, port) is None,
        operation(req) == (ControlRequest::Create { cols, rows }),
        executes(before, after, req, port, fresh, action),
    ensures
        after == before,
        action matches ControlAction::Spawn { cols: c, rows: r } && c >= 1 && r >= 1 && (cols >= 1
            ==> c == cols) && (rows >= 1 ==> r == rows) && (cols == 0 ==> c == 1) && (rows == 0
            ==> r == 1),
{
}

/// Whether a listing tells of a session as it stands.
pub open spec fn tells_of(list: Seq<InfoView>, s: SessionState, i: int) -> bool {
    &&& 0 <= i < list.len()
    &&& list[i].id == s.id
    &&& list[i].started == s.started
    &&& list[i].cmd == s.cmd
    &&& list[i].status == (if s.connected && !s.ended {
        "attached"@
    } else {
        "detached"@
    })
}

/// A request to list that is heard is answered with every session of the table,
/// each once and as it stands, the oldest first, and with nothing else.
pub proof fn law_listing_tells_of_every_session(
    before: Sessions,
    after: Sessions,
    req: ControlRequest,
    port: u16,
    fresh: Seq<u8>,
    action: ControlAction,
)
    requires
        forall|id: Seq<char>| #[trigger] before.contains_key(id) ==> before[id].id == id,
        refusal(req, port) is None,
        operation(req) is Ls,
        executes(before, after, req, port, fresh, action),
    ensures
        after == before,
        action matches ControlAction::Respond(ControlResponse::Ls { sessions }) && ({
            let list = infos(sessions@);
            &&& forall|id: Seq<char>| #[trigger]
                before.contains_key(id) ==> exists|i: int| tells_of(list, before[id], i)
            &&& forall|i: int|
                0 <= i < list.len() ==> before.contains_key((#[trigger] list[i]).id) && tells_of(
                    list,
                    before[list[i].id],
                    i,
                )
            &&& forall|i: int, j: int|
                0 <= i < j < list.len() ==> (#[trigger] list[i]).id != (#[trigger] list[j]).id
            &&& forall|i: int, j: int|
                0 <= i < j < list.len() ==> (#[trigger] list[i]).started <= (
                #[trigger] list[j]).started
        }),
{
    let sessions = action->Respond_0->sessions;
    let list = infos(sessions@);
    assert forall|i: int| 0 <= i < list.len() implies before.contains_key((#[trigger] list[i]).id)
        && tells_of(list, before[list[i].id], i) by {}
    assert forall|id: Seq<char>| #[trigger] before.contains_key(id) implies exists|i: int|
        tells_of(list, before[id], i) by {
        assert(crate::server::registry::is_listed(list, id));
        let i = choose|i: int| 0 <= i < list.len() && (#[trigger] list[i]).id == id;
        assert(tells_of(list, before[id], i));
    }
}

/// Whether `inner` is what a request asks for inside its demands.
pub open spec fn wraps(req: ControlRequest, inner: ControlRequest) -> bool
    decreases req,
{
    match req {
        ControlRequest::OnPort { port, request } => wraps(*request, inner),
        ControlRequest::OnProtocol { version, request } => wraps(*request, inner),
        _ => req == inner,
    }
}

/// However often demands are wrapped around an operation, that operation is what
/// is asked for.
pub proof fn law_demands_wrap_one_operation(req: ControlRequest, inner: ControlRequest)
    ensures
        wraps(req, inner) <==> operation(req) == inner,
        operation(req) !is OnPort,
        operation(req) !is OnProtocol,
    decreases req,
{
    match req {
        ControlRequest::OnPort { port, request } => {
            law_demands_wrap_one_operation(*request, inner);
        },
        ControlRequest::OnProtocol { version, request } => {
            law_demands_wrap_one_operation(*request, inner);
        },
        _ => {},
    }
}

/// A daemon hears a request exactly where it listens on every port that the
/// request demands, speaks every protocol that it demands, and the request
/// demands a protocol at all where it would have a client talk to a session.
pub proof fn law_requests_are_heard_exactly_where_they_fit(req: ControlRequest, port: u16)
    ensures
        refusal(req, port) is None <==> {
            &&& forall|p: u16| #[trigger] demands_port(req, p) ==> p == port
            &&& forall|v: u8| #[trigger] demands_protocol(req, v) ==> v == 2
            &&& (operation(req) is Create || operation(req) is Attach) ==> exists|v: u8|
                demands_protocol(req, v)
        },
{
    lemma_demands(req, port);
}

proof fn lemma_demands(req: ControlRequest, port: u16)
    ensures
        names_protocol(req) <==> exists|v: u8| demands_protocol(req, v),
        unmet_demand(req, port) is None <==> {
            &&& forall|p: u16| #[trigger] demands_port(req, p) ==> p == port
            &&& forall|v: u8| #[trigger] demands_protocol(req, v) ==> v == 2
        },
    decreases req,
{
    match req {
        ControlRequest::OnPort { port: q, request } => {
            lemma_demands(*request, port);
            assert(forall|v: u8|
                #![trigger demands_protocol(req, v)]
                #![trigger demands_protocol(*request, v)]
                demands_protocol(req, v) == demands_protocol(*request, v));
            assert(forall|p: u16|
                #![trigger demands_port(req, p)]
                #![trigger demands_port(*request, p)]
                demands_port(req, p) == (p == q || demands_port(*request, p)));
            assert(demands_port(req, q));
        },
        ControlRequest::OnProtocol { version, request } => {
            lemma_demands(*request, port);
            assert(forall|p: u16|
                #![trigger demands_port(req, p)]
                #![trigger demands_port(*request, p)]
                demands_port(req, p) == demands_port(*request, p));
            assert(forall|v: u8|
                #![trigger demands_protocol(req, v)]
                #![trigger demands_protocol(*request, v)]
                demands_protocol(req, v) == (v == version || demands_protocol(*request, v)));
            assert(demands_protocol(req, version));
        },
        _ => {},
    }
}

/// A request that is not heard is answered with a failure, and has no other
/// effect. A lone demand for another port is told which port there is; one for
/// another protocol, or for none, that the protocols differ.
pub proof fn law_unheard_requests_only_fail(
    before: Sessions,
    after: Sessions,
    req: ControlRequest,
    port: u16,
    fresh: Seq<u8>,
    action: ControlAction,
)
    requires
        refusal(req, port) is Some,
        executes(before, after, req, port, fresh, action),
    ensures
        after == before,
        action matches ControlAction::Respond(r) && r@ is Failure,
        (forall|p: u16| #[trigger] demands_port(req, p) ==> p == port) ==> answers_failure(
            action,
            "protocol version mismatch"@,
        ),
        (forall|v: u8| #[trigger] demands_protocol(req, v) ==> v == 2) && (exists|p: u16|
            demands_port(req, p) && p != port) ==> exists|p: u16|
            p != port && demands_port(req, p) && answers_failure(
                action,
                #[trigger] crate::server::daemon::wrong_port_text(port, p),
            ),
{
    lemma_complaints(req, port);
    lemma_demands(req, port);
    let m = refusal(req, port)->0;
    if (forall|v: u8| #[trigger] demands_protocol(req, v) ==> v == 2) && (exists|p: u16|
        demands_port(req, p) && p != port) {
        assert(unmet_demand(req, port) is Some);
        let p = choose|p: u16|
            p != port && demands_port(req, p) && m
                == #[trigger] crate::server::daemon::wrong_port_text(port, p);
        assert(answers_failure(action, crate::server::daemon::wrong_port_text(port, p)));
    }
}

proof fn lemma_complaints(req: ControlRequest, port: u16)
    ensures
        unmet_demand(req, port) matches Some(m) ==> {
            ||| m == "protocol version mismatch"@ && exists|v: u8|
                demands_protocol(req, v) && v != 2
            ||| exists|p: u16|
                p != port && demands_port(req, p) && m
                    == #[trigger] crate::server::daemon::wrong_port_text(port, p)
        },
    decreases req,
{
    match req {
        ControlRequest::OnPort { port: q, request } => {
            lemma_complaints(*request, port);
            if q != port {
                assert(demands_port(req, q));
                assert(unmet_demand(req, port)->0 == crate::server::daemon::wrong_port_text(
                    port,
                    q,
                ));
            } else {
                assert(forall|v: u8| demands_protocol(*request, v) ==> demands_protocol(req, v));
                assert(forall|p: u16| demands_port(*request, p) ==> demands_port(req, p));
            }
        },
        ControlRequest::OnProtocol { version, request } => {
            lemma_complaints(*request, port);
            if version != 2 {
                assert(demands_protocol(req, version));
            } else {
                assert(forall|v: u8| demands_protocol(*request, v) ==> demands_protocol(req, v));
                assert(forall|p: u16| demands_port(*request, p) ==> demands_port(req, p));
            }
        },
        _ => {},
    }
}

} // verus!
