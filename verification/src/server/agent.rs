//! The `__serve` agent: runs on the server, invoked by the client over SSH.
//! It talks to the (possibly just-spawned) daemon via the unix control socket,
//! then prints the daemon's JSON response to stdout for the client to parse.

use vstd::prelude::*;
use vstd::string::*;

use super::daemon::{names_protocol, operation, refusal, unmet_demand};
use crate::config::{daemon_log_of, daemon_log_path, Config, Environment, Port};
use crate::proto::control::{
    infos, ControlRequest, ControlResponse, InfoView, ResponseView, SessionInfo,
};
use crate::proto::handshake::VERSION;
use crate::text::{decimal, decimal_text, push_words, texts};

verus! {

/// How often a daemon that was just started is tried.
pub const STARTUP_POLLS: u32 = 40;

/// How long to wait before each try, in milliseconds.
pub const STARTUP_WAIT: u64 = 100;

/// How long the daemon may take over one request, in seconds.
pub const REQUEST_TIMEOUT: u64 = 5;

/// The request that is sent for an operation: create and attach name the
/// protocol, and a port that was asked for is demanded before all else.
pub open spec fn demanding(req: ControlRequest, port: Option<Port>) -> ControlRequest {
    let versioned = if req is Create || req is Attach {
        ControlRequest::OnProtocol { version: VERSION, request: Box::new(req) }
    } else {
        req
    };
    match port {
        Some(p) => ControlRequest::OnPort { port: p@, request: Box::new(versioned) },
        None => versioned,
    }
}

/// The request that is sent for an operation.
pub fn demand(req: ControlRequest, port: Option<Port>) -> (r: ControlRequest)
    ensures
        r == demanding(req, port),
{
    let versioned = match req {
        ControlRequest::Create { .. } | ControlRequest::Attach { .. } => {
            ControlRequest::OnProtocol { version: VERSION, request: Box::new(req) }
        },
        _ => req,
    };
    match port {
        Some(p) => ControlRequest::OnPort { port: p.get(), request: Box::new(versioned) },
        None => versioned,
    }
}

/// How an attempt to talk to the daemon went. Texts are the system's own words.
pub enum Attempt {
    /// There is no control socket.
    NotFound,
    /// Nobody listens on the control socket.
    Refused,
    /// The control socket could not be reached for another reason.
    Unreachable(String),
    /// The daemon was reached, but gave no answer in time.
    TimedOut(String),
    /// The daemon was reached, but the exchange failed.
    Failed(String),
    Answered(ControlResponse),
}

/// What an attempt comes to.
pub enum Contact {
    Answered(ControlResponse),
    /// There is no daemon.
    NoListener,
    /// There may be a daemon, and it may already have performed the operation.
    Failed(String),
}

/// The complaint about an exchange with a daemon that failed.
pub open spec fn exchange_failure(req: ControlRequest, cause: Seq<char>) -> Seq<char> {
    match req {
        ControlRequest::OnPort { port, request } => {
            "daemon could not process the request for TCP port "@ + decimal(port as nat)
                + "; if it is an older version, upgrade and manually restart it (restarting ends its sessions): "@
                + cause
        },
        _ => "daemon control request failed: "@ + cause,
    }
}

/// The complaint about an exchange with a daemon that failed.
fn exchange_failure_text(req: &ControlRequest, cause: &str) -> (r: String)
    ensures
        r@ == exchange_failure(*req, cause@),
{
    match req {
        ControlRequest::OnPort { port, .. } => {
            let mut m = "daemon could not process the request for TCP port ".to_owned();
            m.append(decimal_text(*port as u64).as_str());
            m.append(
                "; if it is an older version, upgrade and manually restart it (restarting ends its sessions): ",
            );
            m.append(cause);
            m
        },
        _ => {
            let mut m = "daemon control request failed: ".to_owned();
            m.append(cause);
            m
        },
    }
}

/// Whether `contact` is what an attempt to send `req` to `sock` comes to.
pub open spec fn comes_to(
    attempt: Attempt,
    sock: Seq<char>,
    req: ControlRequest,
    contact: Contact,
) -> bool {
    match attempt {
        Attempt::NotFound | Attempt::Refused => contact is NoListener,
        Attempt::Unreachable(e) => contact matches Contact::Failed(m) && m@ == "connect to "@ + sock
            + ": "@ + e@,
        Attempt::TimedOut(e) => contact matches Contact::Failed(m) && m@ == exchange_failure(
            req,
            "daemon control request timed out: "@ + e@,
        ),
        Attempt::Failed(e) => contact matches Contact::Failed(m) && m@ == exchange_failure(req, e@),
        Attempt::Answered(response) => contact == Contact::Answered(response),
    }
}

/// Judge an attempt. Only a missing or refused control socket means that there
/// is no daemon; once connected, failures are errors rather than a reason to
/// retry: the daemon may already have performed the operation.
pub fn try_request_at(attempt: Attempt, sock: &str, req: &ControlRequest) -> (r: Contact)
    ensures
        comes_to(attempt, sock@, *req, r),
{
    match attempt {
        Attempt::NotFound | Attempt::Refused => Contact::NoListener,
        Attempt::Unreachable(e) => {
            let mut m = "connect to ".to_owned();
            m.append(sock);
            m.append(": ");
            m.append(e.as_str());
            Contact::Failed(m)
        },
        Attempt::TimedOut(e) => {
            let mut cause = "daemon control request timed out: ".to_owned();
            cause.append(e.as_str());
            Contact::Failed(exchange_failure_text(req, cause.as_str()))
        },
        Attempt::Failed(e) => Contact::Failed(exchange_failure_text(req, e.as_str())),
        Attempt::Answered(response) => Contact::Answered(response),
    }
}

/// What the agent does once it has tried to reach the daemon.
pub enum Next {
    /// Hand this to the client.
    Return(ControlResponse),
    /// Start a daemon, then ask it.
    Start,
    /// Wait, then try the daemon again.
    Again,
    /// Tell the client what went wrong.
    Fail(String),
}

/// Whether `next` is what follows from trying to reach a daemon for `req`.
pub open spec fn follows(req: ControlRequest, contact: Contact, next: Next) -> bool {
    match contact {
        Contact::Answered(response) => next == Next::Return(response),
        Contact::Failed(m) => next matches Next::Fail(f) && f@ == m@,
        Contact::NoListener => match req {
            ControlRequest::Create { cols, rows } => next is Start,
            ControlRequest::Ls => next matches Next::Return(r) && r@ == (ResponseView::Ls {
                sessions: Seq::empty(),
            }),
            _ => next matches Next::Fail(f) && f@ == "no daemon running"@,
        },
    }
}

/// Decide what to do for an operation, given how reaching the daemon went. Only
/// a create request starts a daemon, and only where there is none.
pub fn obtain(req: &ControlRequest, contact: Contact) -> (r: Next)
    ensures
        follows(*req, contact, r),
{
    match contact {
        Contact::Answered(response) => Next::Return(response),
        Contact::Failed(m) => Next::Fail(m),
        Contact::NoListener => match req {
            ControlRequest::Create { .. } => Next::Start,
            ControlRequest::Ls => {
                let sessions: Vec<SessionInfo> = Vec::new();
                assert(infos(sessions@) =~= Seq::<InfoView>::empty());
                Next::Return(ControlResponse::Ls { sessions })
            },
            _ => Next::Fail("no daemon running".to_owned()),
        },
    }
}

/// What has become of a daemon that was started.
pub enum Exit {
    Running,
    /// It stepped aside: another daemon is there.
    Success,
    /// It failed, with this status.
    Failure(String),
}

/// Whether `r` is what follows from trying to reach a daemon that was just
/// started, after it was tried so often before.
pub open spec fn polls(polled: u32, contact: Contact, exit: Exit, r: Next) -> bool {
    match contact {
        Contact::Answered(response) => r == Next::Return(response),
        Contact::Failed(m) => r matches Next::Fail(f) && f@ == m@,
        Contact::NoListener => match exit {
            Exit::Failure(status) => r matches Next::Fail(f) && f@ == "daemon exited with "@
                + status@,
            _ => if polled + 1 >= STARTUP_POLLS {
                r matches Next::Fail(f) && f@ == "daemon did not come up"@
            } else {
                r is Again
            },
        },
    }
}

/// Decide what to do about a daemon that was just started, given how trying to
/// reach it went and what has become of its process. `polled` is how often it
/// was tried before.
pub fn start_and_request(polled: u32, contact: Contact, exit: Exit) -> (r: Next)
    ensures
        polls(polled, contact, exit, r),
{
    match contact {
        Contact::Answered(response) => Next::Return(response),
        Contact::Failed(m) => Next::Fail(m),
        Contact::NoListener => match exit {
            Exit::Failure(status) => {
                let mut m = "daemon exited with ".to_owned();
                m.append(status.as_str());
                Next::Fail(m)
            },
            _ => if polled >= STARTUP_POLLS - 1 {
                Next::Fail("daemon did not come up".to_owned())
            } else {
                Next::Again
            },
        },
    }
}

/// The port or ports that a daemon is started on.
pub open spec fn selection(port: Option<Port>, range: Seq<u16>) -> Seq<char> {
    match port {
        Some(p) => "TCP port "@ + decimal(p@ as nat),
        None => "TCP port range "@ + decimal(range[0] as nat) + "-"@ + decimal(range[1] as nat),
    }
}

/// How a daemon that could not be started reads.
pub open spec fn startup_failure_text(
    port: Option<Port>,
    range: Seq<u16>,
    env: Environment,
    cause: Seq<char>,
) -> Seq<char> {
    "starting daemon on "@ + selection(port, range) + "; see server log "@ + daemon_log_of(env)
        + ": "@ + cause
}

/// The complaint about a daemon that could not be started. It names the port
/// and the server's log.
pub fn startup_failure(
    port: Option<Port>,
    cfg: &Config,
    env: &Environment,
    cause: &str,
) -> (r: String)
    ensures
        r@ == startup_failure_text(port, cfg.port_range@, *env, cause@),
{
    let mut m = "starting daemon on ".to_owned();
    match port {
        Some(p) => {
            m.append("TCP port ");
            m.append(decimal_text(p.get() as u64).as_str());
            assert(m@ =~= "starting daemon on "@ + selection(port, cfg.port_range@));
        },
        None => {
            m.append("TCP port range ");
            m.append(decimal_text(cfg.port_range[0] as u64).as_str());
            m.append("-");
            m.append(decimal_text(cfg.port_range[1] as u64).as_str());
            assert(m@ =~= "starting daemon on "@ + selection(port, cfg.port_range@));
        },
    }
    m.append("; see server log ");
    m.append(daemon_log_path(env).as_str());
    m.append(": ");
    m.append(cause);
    m
}

/// The arguments that a daemon is started with.
pub open spec fn daemon_args(port: Option<Port>) -> Seq<Seq<char>> {
    match port {
        Some(p) => seq!["__daemon"@, "--port"@, decimal(p@ as nat)],
        None => seq!["__daemon"@],
    }
}

/// The arguments that a daemon is started with.
pub fn spawn_daemon(port: Option<Port>) -> (r: Vec<String>)
    ensures
        texts(r@) == daemon_args(port),
{
    let mut args: Vec<String> = Vec::new();
    push_words(&mut args, &["__daemon"]);
    if let Some(p) = port {
        let text = decimal_text(p.get() as u64);
        push_words(&mut args, &["--port", text.as_str()]);
        assert(texts(args@) =~= seq!["__daemon"@, "--port"@, decimal(p@ as nat)]);
    }
    assert(port is None ==> texts(args@) =~= seq!["__daemon"@]);
    args
}

/// Whether `r` is what the agent prints.
pub open spec fn prints(result: Result<ControlResponse, String>, r: ControlResponse) -> bool {
    match result {
        Ok(response) => r == response,
        Err(m) => r@ == (ResponseView::Failure { message: m@ }),
    }
}

/// What the agent prints: the response, or what went wrong.
pub fn printed(result: Result<ControlResponse, String>) -> (r: ControlResponse)
    ensures
        prints(result, r),
{
    match result {
        Ok(response) => response,
        Err(message) => ControlResponse::Failure { message },
    }
}

/// A daemon is only ever started where there is none, and only to create a
/// session: whatever went wrong once the daemon was reached is reported, and
/// the operation is not tried again.
pub proof fn law_only_a_missing_daemon_is_started(
    attempt: Attempt,
    sock: Seq<char>,
    req: ControlRequest,
    sent: ControlRequest,
    contact: Contact,
    next: Next,
)
    requires
        comes_to(attempt, sock, sent, contact),
        follows(req, contact, next),
    ensures
        next is Start <==> (attempt is NotFound || attempt is Refused) && req is Create,
        attempt is Unreachable || attempt is TimedOut || attempt is Failed ==> next is Fail,
        next !is Again,
{
}

/// What the agent asks of a daemon of its own version is heard, unless it asks
/// for another port; then it is refused.
pub proof fn law_agent_requests_are_heard(req: ControlRequest, asked: Option<Port>, port: u16)
    requires
        req !is OnPort,
        req !is OnProtocol,
    ensures
        operation(demanding(req, asked)) == req,
        refusal(demanding(req, asked), port) is None <==> (asked matches Some(p) ==> p@ == port),
{
    reveal_with_fuel(operation, 3);
    reveal_with_fuel(unmet_demand, 3);
    reveal_with_fuel(names_protocol, 3);
}

} // verus!
