//! What messages tell: the numbers, names and reasons that they are about.

use vstd::prelude::*;

use crate::client::bootstrap::{announced, ssh_failure_text, Dial};
use crate::client::session::{fatal_text, handshake_failure, ConnectError, FatalSessionError};
use crate::config::{config_path_of, daemon_log_of, no_target_message, Environment, Port};
use crate::proto::control::ControlRequest;
use crate::proto::frame::{frame_error_text, FrameError};
use crate::proto::handshake::{handshake_error_text, rejection_text, HandshakeError, Rejection};
use crate::server::agent::{exchange_failure, startup_failure_text};
use crate::server::daemon::{invalid_range_text, wrong_port_text};
use crate::text::{decimal, trimmed};

verus! {

/// Whether `part` stands somewhere in `s`.
pub open spec fn mentions(s: Seq<char>, part: Seq<char>) -> bool {
    exists|i: int| mentions_at(s, part, i)
}

/// Whether `part` stands in `s` at `i`.
pub open spec fn mentions_at(s: Seq<char>, part: Seq<char>, i: int) -> bool {
    0 <= i && i + part.len() <= s.len() && s.subrange(i, i + part.len()) == part
}

/// A text mentions what is put at its end, and still does once more follows.
proof fn lemma_mentions(a: Seq<char>, part: Seq<char>, b: Seq<char>)
    ensures
        mentions(a + part, part),
        mentions(a + part + b, part),
{
    assert((a + part).subrange(a.len() as int, (a.len() + part.len()) as int) =~= part);
    assert(mentions_at(a + part, part, a.len() as int));
    let s = a + part + b;
    assert(s.subrange(a.len() as int, (a.len() + part.len()) as int) =~= part);
    assert(mentions_at(s, part, a.len() as int));
}

/// What a text mentions it still does once more follows.
proof fn lemma_still_mentions(s: Seq<char>, part: Seq<char>, b: Seq<char>)
    requires
        mentions(s, part),
    ensures
        mentions(s + b, part),
{
    let i = choose|i: int| mentions_at(s, part, i);
    assert((s + b).subrange(i, i + part.len()) =~= part);
    assert(mentions_at(s + b, part, i));
}

/// What a text mentions it still does once something stands before it.
proof fn lemma_mentions_behind(a: Seq<char>, s: Seq<char>, part: Seq<char>)
    requires
        mentions(s, part),
    ensures
        mentions(a + s, part),
{
    let i = choose|i: int| mentions_at(s, part, i);
    assert((a + s).subrange(a.len() + i, a.len() + i + part.len()) =~= part);
    assert(mentions_at(a + s, part, a.len() + i));
}

/// A demand for another port is told the port that there is, and the one that
/// was asked for.
pub proof fn law_wrong_port_names_both_ports(port: u16, expected: u16)
    ensures
        mentions(wrong_port_text(port, expected), decimal(port as nat)),
        mentions(wrong_port_text(port, expected), decimal(expected as nat)),
{
    let first = "daemon is listening on TCP port "@;
    let (p, e) = (decimal(port as nat), decimal(expected as nat));
    let end = " or manually restart the daemon to change ports (restarting ends its sessions)"@;
    let s1 = first + p + ", but TCP port "@;
    lemma_mentions(s1, e, " was requested; use port "@);
    let s2 = s1 + e + " was requested; use port "@;
    lemma_still_mentions(s2, e, p);
    lemma_still_mentions(s2 + p, e, end);
    lemma_mentions(s2, p, end);
}

/// A range that cannot be used is told by both of its ends.
pub proof fn law_bad_range_names_both_ends(lo: u16, hi: u16)
    ensures
        mentions(invalid_range_text(lo, hi), decimal(lo as nat)),
        mentions(invalid_range_text(lo, hi), decimal(hi as nat)),
{
    let (l, h) = (decimal(lo as nat), decimal(hi as nat));
    let end = "; expected 1 <= low <= high <= 65535"@;
    let s = "invalid TCP port range "@ + l + "-"@;
    lemma_mentions("invalid TCP port range "@, l, "-"@);
    lemma_still_mentions(s, l, h);
    lemma_still_mentions(s + h, l, end);
    lemma_mentions(s, h, end);
}

/// An exchange that failed is told with its reason, and where a port was
/// demanded with that port.
pub proof fn law_failed_exchange_names_its_reason(req: ControlRequest, cause: Seq<char>)
    ensures
        mentions(exchange_failure(req, cause), cause),
        req matches ControlRequest::OnPort { port, .. } ==> mentions(
            exchange_failure(req, cause),
            decimal(port as nat),
        ),
{
    match req {
        ControlRequest::OnPort { port, request } => {
            let first = "daemon could not process the request for TCP port "@;
            let p = decimal(port as nat);
            let hint =
                "; if it is an older version, upgrade and manually restart it (restarting ends its sessions): "@;
            lemma_mentions(first, p, hint);
            lemma_still_mentions(first + p + hint, p, cause);
            lemma_mentions(first + p + hint, cause, Seq::empty());
        },
        _ => {
            lemma_mentions("daemon control request failed: "@, cause, Seq::empty());
        },
    }
}

/// A daemon that could not be started is told with its port or its range, the
/// place of its log, and the reason.
pub proof fn law_failed_start_names_port_log_and_reason(
    port: Option<Port>,
    range: Seq<u16>,
    env: Environment,
    cause: Seq<char>,
)
    ensures
        ({
            let m = startup_failure_text(port, range, env, cause);
            &&& port matches Some(p) ==> mentions(m, decimal(p@ as nat))
            &&& port is None ==> mentions(m, decimal(range[0] as nat)) && mentions(
                m,
                decimal(range[1] as nat),
            )
            &&& mentions(m, daemon_log_of(env))
            &&& mentions(m, cause)
        }),
{
    let sel = crate::server::agent::selection(port, range);
    let first = "starting daemon on "@;
    let s1 = first + sel;
    let s2 = s1 + "; see server log "@;
    let s3 = s2 + daemon_log_of(env);
    let s4 = s3 + ": "@;
    lemma_mentions(s2, daemon_log_of(env), ": "@);
    lemma_still_mentions(s4, daemon_log_of(env), cause);
    lemma_mentions(s4, cause, Seq::empty());
    match port {
        Some(p) => {
            let d = decimal(p@ as nat);
            lemma_mentions("TCP port "@, d, Seq::empty());
            lemma_selection_is_told(sel, d, env, cause);
        },
        None => {
            let (lo, hi) = (decimal(range[0] as nat), decimal(range[1] as nat));
            lemma_mentions("TCP port range "@, lo, "-"@);
            lemma_still_mentions("TCP port range "@ + lo + "-"@, lo, hi);
            lemma_mentions("TCP port range "@ + lo + "-"@, hi, Seq::empty());
            lemma_selection_is_told(sel, lo, env, cause);
            lemma_selection_is_told(sel, hi, env, cause);
        },
    }
}

proof fn lemma_selection_is_told(
    sel: Seq<char>,
    part: Seq<char>,
    env: Environment,
    cause: Seq<char>,
)
    requires
        mentions(sel, part),
    ensures
        mentions(
            "starting daemon on "@ + sel + "; see server log "@ + daemon_log_of(env) + ": "@ + cause,
            part,
        ),
{
    let s1 = "starting daemon on "@ + sel;
    lemma_mentions_behind("starting daemon on "@, sel, part);
    lemma_still_mentions(s1, part, "; see server log "@);
    lemma_still_mentions(s1 + "; see server log "@, part, daemon_log_of(env));
    lemma_still_mentions(s1 + "; see server log "@ + daemon_log_of(env), part, ": "@);
    lemma_still_mentions(s1 + "; see server log "@ + daemon_log_of(env) + ": "@, part, cause);
}

/// An `ssh` that failed is told with its target, its status, and what it said.
pub proof fn law_failed_ssh_names_target_status_and_reason(
    target: Seq<char>,
    status: Seq<char>,
    stderr: Seq<char>,
)
    ensures
        ({
            let m = ssh_failure_text(target, status, stderr);
            mentions(m, target) && mentions(m, status) && mentions(m, trimmed(stderr))
        }),
{
    let said = trimmed(stderr);
    let s1 = "ssh to '"@ + target + "' failed ("@;
    let s2 = s1 + status + "): "@;
    lemma_mentions("ssh to '"@, target, "' failed ("@);
    lemma_still_mentions(s1, target, status);
    lemma_still_mentions(s1 + status, target, "): "@);
    lemma_still_mentions(s2, target, said);
    lemma_mentions(s1, status, "): "@);
    lemma_still_mentions(s2, status, said);
    lemma_mentions(s2, said, Seq::empty());
}

/// What is said before a session is dialled names the session and the place; and
/// a missing target is told with the file where it can be set.
pub proof fn law_announcement_names_session_and_place(
    dial: Dial,
    host: Seq<char>,
    reattach: bool,
    env: Environment,
)
    ensures
        mentions(announced(dial, host, reattach), dial.id@),
        mentions(announced(dial, host, reattach), host + ":"@ + decimal(dial.port as nat)),
        mentions(no_target_message(env), config_path_of(env)),
{
    let first = if reattach {
        "[thther] reattaching to "@
    } else {
        "[thther] session "@
    };
    let place = host + ":"@ + decimal(dial.port as nat);
    lemma_mentions(first, dial.id@, " on "@);
    lemma_still_mentions(first + dial.id@ + " on "@, dial.id@, place);
    lemma_mentions(first + dial.id@ + " on "@, place, Seq::empty());
    lemma_mentions(
        "no ssh target; pass -t user@host or set ssh_target in "@,
        config_path_of(env),
        Seq::empty(),
    );
}

/// An error about a value tells that value, and a terminal that could not be
/// written to the system's reason.
pub proof fn law_errors_tell_their_values(t: u8, n: u32, status: u8, cause: String)
    ensures
        mentions(frame_error_text(FrameError::UnknownType(t)), decimal(t as nat)),
        mentions(frame_error_text(FrameError::BadLength(n)), decimal(n as nat)),
        mentions(
            handshake_error_text(HandshakeError::UnknownStatus(status)),
            decimal(status as nat),
        ),
        mentions(fatal_text(FatalSessionError::Output(cause)), cause@),
{
    lemma_mentions("unknown frame type "@, decimal(t as nat), Seq::empty());
    lemma_mentions("bad record length "@, decimal(n as nat), Seq::empty());
    lemma_mentions("server: unknown status "@, decimal(status as nat), Seq::empty());
    lemma_mentions("terminal output failed: "@, cause@, Seq::empty());
}

/// A handshake that the peer rejected is final for the client, and reads as the
/// rejection; any other that failed may pass, and reads as what went wrong.
pub proof fn law_rejections_stay_rejections(e: HandshakeError, r: ConnectError)
    requires
        handshake_failure(e, r),
    ensures
        r is Rejected <==> e is Rejected,
        r matches ConnectError::Rejected(x) ==> e == HandshakeError::Rejected(x),
        r is Other <==> e !is Rejected,
        r matches ConnectError::Other(m) ==> m@ == handshake_error_text(e),
        rejection_text(Rejection::VersionMismatch) != rejection_text(Rejection::BadOffset),
{
    reveal_strlit("protocol version mismatch");
    reveal_strlit("resume offset exceeds session output");
    assert(rejection_text(Rejection::VersionMismatch).len() != rejection_text(
        Rejection::BadOffset,
    ).len());
}

} // verus!
