//! How a session is asked for: what the configuration says, how the daemon comes
//! up, and how the agent and the client get its answer.

use vstd::prelude::*;
use vstd::utf8::encode_utf8;

use super::control::law_attach_succeeds_exactly_on_a_free_session;
use super::output::larger;
use super::sessions::law_created_session_can_be_reached;
use crate::client::bootstrap::{
    commands, connects_to, create_words, leads_to, responds, session_row, session_table,
    session_words, shows_kill, shows_sessions, Dial, ResponseError, Route,
};
use crate::config::{
    base_dir_of, config_path_of, configures, control_socket_of, daemon_log_of, host_part, overrides,
    resolves, Config, Environment, Port, RawConfig,
};
use crate::proto::control::{infos, ControlRequest, ControlResponse, ResponseView, SessionInfo};
use crate::psk::psk_reading;
use crate::server::agent::{
    comes_to, daemon_args, demanding, follows, polls, prints, Attempt, Contact, Exit, Next,
};
use crate::server::daemon::{
    bind_plan, demands_port, demands_protocol, executes, finishes, operation, range_plan, refusal,
    ControlAction,
};
use crate::server::registry::Sessions;
use crate::server::startup::{next_step, step_after, EventView, StartupView};
use crate::text::{
    decimal, first_line, is_blank, is_white, joined, last_text_line, later_lines,
    law_last_printed_line_is_found, law_line_ends_do_not_matter, line_end, padded, texts, trimmed,
};

verus! {

/// Whether `host` is what `target` names without any user: its longest end
/// without an `@`.
pub open spec fn is_host_of(target: Seq<char>, host: Seq<char>) -> bool {
    let at = target.len() - host.len();
    &&& 0 <= at
    &&& host == target.skip(at)
    &&& forall|i: int| at <= i < target.len() ==> #[trigger] target[i] != '@'
    &&& at > 0 ==> target[at - 1] == '@'
}

proof fn lemma_host_part(target: Seq<char>)
    ensures
        is_host_of(target, host_part(target)),
    decreases target.len(),
{
    let host = host_part(target);
    if target.len() > 0 && target.last() != '@' {
        let init = target.drop_last();
        lemma_host_part(init);
        let at = target.len() - host.len();
        assert(host =~= target.skip(at));
        assert forall|i: int| at <= i < target.len() implies #[trigger] target[i] != '@' by {
            if i < init.len() {
                assert(init[i] == target[i]);
            }
        }
    } else {
        assert(host =~= target.skip(target.len() as int));
    }
}

/// What a file says stands; what it leaves out is the default: no target, no
/// host, no port, the ports from 60000 to 61000, and 256 KiB to replay.
pub proof fn law_file_is_taken_at_its_word(raw: RawConfig, c: Config)
    requires
        configures(raw, c),
    ensures
        c.ssh_target == raw.ssh_target,
        c.tcp_host == raw.tcp_host,
        c.port == raw.port,
        raw.port_range matches Some(range) ==> c.port_range@[0] == range@[0] && c.port_range@[1]
            == range@[1],
        raw.port_range is None ==> c.port_range@[0] == 60000 && c.port_range@[1] == 61000,
        raw.ring_bytes matches Some(n) ==> c.ring_bytes == n,
        raw.ring_bytes is None ==> c.ring_bytes == 262144,
{
}

/// A target on the command line is the one that is dialled: the host that the
/// file names belongs to another target, and no longer counts. Without one the
/// file decides: its host where it names one, else that of its target. A port on
/// the command line wins over the file's. What only the server reads stays.
pub proof fn law_command_line_decides_what_is_dialled(
    cfg: Config,
    target: Option<String>,
    port: Option<Port>,
    r: Config,
    env: Environment,
    host: Result<String, String>,
)
    requires
        overrides(cfg, target, port, r),
        resolves(r, env, host),
    ensures
        target matches Some(t) ==> (r.ssh_target matches Some(s) && s@ == t@) && (host matches Ok(h)
            && is_host_of(t@, h@)),
        target is None ==> r.ssh_target == cfg.ssh_target && r.tcp_host == cfg.tcp_host,
        target is None && cfg.tcp_host is Some ==> (host matches Ok(h) && h@ == cfg.tcp_host->0@),
        target is None && cfg.tcp_host is None && cfg.ssh_target is Some ==> (host matches Ok(h)
            && is_host_of(cfg.ssh_target->0@, h@)),
        host is Err <==> target is None && cfg.tcp_host is None && cfg.ssh_target is None,
        r.port == (if port is Some {
            port
        } else {
            cfg.port
        }),
        r.port_range == cfg.port_range,
        r.ring_bytes == cfg.ring_bytes,
{
    if r.ssh_target is Some {
        lemma_host_part(r.ssh_target->0@);
    }
}

/// The path of a name in a directory is the directory, the name, and exactly one
/// slash between them.
pub proof fn law_paths_are_joined_by_one_slash(base: Seq<char>, name: Seq<char>)
    ensures
        base.len() > 0 && base[base.len() - 1] != '/' ==> joined(base, name) == base + seq!['/']
            + name,
        base.len() > 0 && base[base.len() - 1] == '/' ==> joined(base, name) == base + name,
        base.len() == 0 ==> joined(base, name) == name,
{
    assert(base.push('/') + name =~= base + seq!['/'] + name);
    if base.len() == 0 {
        assert(base + name =~= name);
    }
}

/// Where files stand: the base directory is `.thther` in the home directory, the
/// configuration and the log are in it, and the control socket is in the runtime
/// directory where there is one, and else in the base directory too.
pub proof fn law_where_files_stand(env: Environment, home: Seq<char>, run: Seq<char>)
    requires
        env.home matches Some(h) && h@ == home,
        home.len() > 0,
        home[home.len() - 1] != '/',
        run.len() > 0,
        run[run.len() - 1] != '/',
    ensures
        base_dir_of(env) == home + seq!['/'] + ".thther"@,
        config_path_of(env) == base_dir_of(env) + seq!['/'] + "config.toml"@,
        daemon_log_of(env) == base_dir_of(env) + seq!['/'] + "daemon.log"@,
        env.xdg_runtime_dir is None ==> control_socket_of(env) == base_dir_of(env) + seq!['/']
            + "control.sock"@,
        (env.xdg_runtime_dir matches Some(d) && d@ == run) ==> control_socket_of(env) == run + seq![
            '/',
        ] + "thther"@ + seq!['/'] + "control.sock"@,
{
    reveal_strlit(".thther");
    reveal_strlit("thther");
    law_paths_are_joined_by_one_slash(home, ".thther"@);
    let base = base_dir_of(env);
    assert(base[base.len() - 1] == 'r');
    law_paths_are_joined_by_one_slash(base, "config.toml"@);
    law_paths_are_joined_by_one_slash(base, "daemon.log"@);
    law_paths_are_joined_by_one_slash(base, "control.sock"@);
    law_paths_are_joined_by_one_slash(run, "thther"@);
    let dir = run + seq!['/'] + "thther"@;
    assert(dir[dir.len() - 1] == 'r');
    law_paths_are_joined_by_one_slash(dir, "control.sock"@);
}

/// Without a home directory the base directory is in `/tmp`.
pub proof fn law_base_without_a_home(env: Environment)
    requires
        env.home is None,
    ensures
        base_dir_of(env) == "/tmp/.thther"@,
        config_path_of(env) == "/tmp/.thther"@ + seq!['/'] + "config.toml"@,
        daemon_log_of(env) == "/tmp/.thther"@ + seq!['/'] + "daemon.log"@,
{
    reveal_strlit("/tmp/.thther");
    law_paths_are_joined_by_one_slash("/tmp/.thther"@, "config.toml"@);
    law_paths_are_joined_by_one_slash("/tmp/.thther"@, "daemon.log"@);
}

/// Whether `port` is number `k`, from zero on, of those that a configuration has
/// the daemon try: a fixed port alone, or all of a range from its low end up.
pub open spec fn is_tried(cfg: Config, k: nat, port: int) -> bool {
    match cfg.port {
        Some(p) => k == 0 && port == p@,
        None => {
            &&& 0 < cfg.port_range@[0] <= cfg.port_range@[1]
            &&& port == cfg.port_range@[0] + k
            &&& port <= cfg.port_range@[1]
        },
    }
}

/// How many ports a configuration has the daemon try.
pub open spec fn tried_in_all(cfg: Config) -> int {
    match cfg.port {
        Some(_) => 1,
        None => if 0 < cfg.port_range@[0] <= cfg.port_range@[1] {
            cfg.port_range@[1] - cfg.port_range@[0] + 1
        } else {
            0
        },
    }
}

/// The ports that are tried are those, in that order, and no others.
pub proof fn law_ports_are_tried_in_order(cfg: Config)
    ensures
        bind_plan(cfg) is None <==> tried_in_all(cfg) == 0,
        bind_plan(cfg) matches Some(ports) ==> ports.len() == tried_in_all(cfg) && forall|k: nat|
            k < ports.len() ==> is_tried(cfg, k, #[trigger] ports[k as int] as int),
        cfg.port is None ==> bind_plan(cfg) == range_plan(cfg.port_range@[0], cfg.port_range@[1]),
{
}

/// The end of startup once so many ports could not be bound, for these reasons.
pub open spec fn after_failures(causes: Seq<Seq<char>>) -> Seq<EventView> {
    seq![EventView::Succeeded, EventView::Succeeded, EventView::Absent] + Seq::new(
        causes.len(),
        |i: int| EventView::Failed(causes[i]),
    )
}

proof fn lemma_one_more_event(
    cfg: Config,
    dir: Seq<char>,
    sock: Seq<char>,
    events: Seq<EventView>,
    e: EventView,
)
    ensures
        step_after(cfg, dir, sock, events.push(e)) == next_step(
            cfg,
            dir,
            sock,
            step_after(cfg, dir, sock, events),
            e,
        ),
{
    assert(events.push(e).drop_last() =~= events);
}

proof fn lemma_binding_goes_on(
    cfg: Config,
    dir: Seq<char>,
    sock: Seq<char>,
    causes: Seq<Seq<char>>,
)
    requires
        causes.len() < tried_in_all(cfg),
    ensures
        step_after(cfg, dir, sock, after_failures(causes)) == (StartupView::Bind {
            ports: bind_plan(cfg)->0,
            at: causes.len(),
        }),
    decreases causes.len(),
{
    law_ports_are_tried_in_order(cfg);
    if causes.len() == 0 {
        let none = Seq::<EventView>::empty();
        lemma_one_more_event(cfg, dir, sock, none, EventView::Succeeded);
        let one = none.push(EventView::Succeeded);
        lemma_one_more_event(cfg, dir, sock, one, EventView::Succeeded);
        let two = one.push(EventView::Succeeded);
        lemma_one_more_event(cfg, dir, sock, two, EventView::Absent);
        assert(after_failures(causes) =~= two.push(EventView::Absent));
    } else {
        let init = causes.drop_last();
        lemma_binding_goes_on(cfg, dir, sock, init);
        lemma_one_more_event(
            cfg,
            dir,
            sock,
            after_failures(init),
            EventView::Failed(causes.last()),
        );
        assert(after_failures(causes) =~= after_failures(init).push(
            EventView::Failed(causes.last()),
        ));
    }
}

/// Where the directory and the lock can be had and no other daemon answers, the
/// daemon serves on the first port of its plan that can be bound, once that is
/// bound and the control socket is published, however many could not be bound
/// before it.
pub proof fn law_daemon_serves_on_the_first_free_port(
    cfg: Config,
    dir: Seq<char>,
    sock: Seq<char>,
    causes: Seq<Seq<char>>,
    port: u16,
)
    requires
        is_tried(cfg, causes.len(), port as int),
    ensures
        step_after(cfg, dir, sock, after_failures(causes)) is Bind,
        step_after(cfg, dir, sock, after_failures(causes).push(EventView::Succeeded)) == (
        StartupView::Publish { port }),
        step_after(
            cfg,
            dir,
            sock,
            after_failures(causes).push(EventView::Succeeded).push(EventView::Succeeded),
        ) == (StartupView::Serve { port }),
{
    law_ports_are_tried_in_order(cfg);
    lemma_binding_goes_on(cfg, dir, sock, causes);
    let events = after_failures(causes);
    assert(is_tried(cfg, causes.len(), bind_plan(cfg)->0[causes.len() as int] as int));
    lemma_one_more_event(cfg, dir, sock, events, EventView::Succeeded);
    lemma_one_more_event(
        cfg,
        dir,
        sock,
        events.push(EventView::Succeeded),
        EventView::Succeeded,
    );
}

/// Where none of the ports can be bound, the daemon fails after the last of
/// them, and says which port, with the system's reason, or which range it was.
/// A range that cannot be used fails before any port is tried.
pub proof fn law_daemon_fails_once_no_port_is_left(
    cfg: Config,
    dir: Seq<char>,
    sock: Seq<char>,
    causes: Seq<Seq<char>>,
)
    requires
        causes.len() == tried_in_all(cfg),
    ensures
        step_after(cfg, dir, sock, after_failures(causes)) matches StartupView::Fail { message }
            && match cfg.port {
            Some(p) => message == "bind TCP port "@ + decimal(p@ as nat) + ": "@ + causes.last(),
            None => if tried_in_all(cfg) > 0 {
                message == "no free TCP port in range "@ + decimal(cfg.port_range@[0] as nat) + "-"@
                    + decimal(cfg.port_range@[1] as nat)
            } else {
                message == "invalid TCP port range "@ + decimal(cfg.port_range@[0] as nat) + "-"@
                    + decimal(cfg.port_range@[1] as nat)
                    + "; expected 1 <= low <= high <= 65535"@
            },
        },
{
    law_ports_are_tried_in_order(cfg);
    if causes.len() == 0 {
        let none = Seq::<EventView>::empty();
        lemma_one_more_event(cfg, dir, sock, none, EventView::Succeeded);
        let one = none.push(EventView::Succeeded);
        lemma_one_more_event(cfg, dir, sock, one, EventView::Succeeded);
        let two = one.push(EventView::Succeeded);
        lemma_one_more_event(cfg, dir, sock, two, EventView::Absent);
        assert(after_failures(causes) =~= two.push(EventView::Absent));
    } else {
        let init = causes.drop_last();
        lemma_binding_goes_on(cfg, dir, sock, init);
        lemma_one_more_event(
            cfg,
            dir,
            sock,
            after_failures(init),
            EventView::Failed(causes.last()),
        );
        assert(after_failures(causes) =~= after_failures(init).push(
            EventView::Failed(causes.last()),
        ));
    }
}

/// Another daemon that answers makes this one step aside, before it binds
/// anything; and a directory, a lock or a control socket that cannot be had makes
/// it fail, with the system's reason. No other event moves it, and what it has
/// come to at the end stays.
pub proof fn law_daemon_steps_aside_or_fails(
    cfg: Config,
    dir: Seq<char>,
    sock: Seq<char>,
    cause: Seq<char>,
    port: u16,
    ports: Seq<u16>,
    at: nat,
    event: EventView,
)
    ensures
        next_step(cfg, dir, sock, StartupView::Probe, EventView::Alive) == StartupView::StepAside,
        next_step(cfg, dir, sock, StartupView::MakeDir, EventView::Failed(cause)) == (
        StartupView::Fail { message: "mkdir "@ + dir + ": "@ + cause }),
        next_step(cfg, dir, sock, StartupView::TakeLock, EventView::Failed(cause)) == (
        StartupView::Fail { message: cause }),
        next_step(cfg, dir, sock, StartupView::Publish { port }, EventView::Failed(cause)) == (
        StartupView::Fail { message: "bind control socket "@ + sock + ": "@ + cause }),
        event is Alive || event is Absent ==> next_step(
            cfg,
            dir,
            sock,
            StartupView::MakeDir,
            event,
        ) == StartupView::MakeDir,
        event is Alive || event is Absent ==> next_step(
            cfg,
            dir,
            sock,
            StartupView::TakeLock,
            event,
        ) == StartupView::TakeLock,
        event is Alive || event is Absent ==> next_step(
            cfg,
            dir,
            sock,
            StartupView::Publish { port },
            event,
        ) == (StartupView::Publish { port }),
        event is Succeeded || event is Failed ==> next_step(
            cfg,
            dir,
            sock,
            StartupView::Probe,
            event,
        ) == StartupView::Probe,
        event is Alive || event is Absent ==> next_step(
            cfg,
            dir,
            sock,
            StartupView::Bind { ports, at },
            event,
        ) == (StartupView::Bind { ports, at }),
{
}

/// The agent demands protocol 2, and no other, of a daemon that it asks to create
/// or to attach, and of no other; and exactly the port that it was told to use,
/// where it was told one. The operation is the one that was asked for.
pub proof fn law_agent_demands_what_it_needs(
    req: ControlRequest,
    asked: Option<Port>,
    v: u8,
    p: u16,
)
    requires
        req !is OnPort,
        req !is OnProtocol,
    ensures
        demands_protocol(demanding(req, asked), v) <==> v == 2 && (req is Create || req is Attach),
        demands_port(demanding(req, asked), p) <==> (asked matches Some(q) && q@ == p),
        operation(demanding(req, asked)) == req,
{
    reveal_with_fuel(demands_protocol, 3);
    reveal_with_fuel(demands_port, 3);
    reveal_with_fuel(operation, 3);
}

/// What the agent does about an attempt to reach the daemon: an answer is handed
/// on as it is; where there is no daemon, a create starts one, a list is empty,
/// and anything else fails; whatever else went wrong is reported with its cause,
/// and nothing is started or tried again.
pub proof fn law_agent_hands_on_the_answer(
    attempt: Attempt,
    sock: Seq<char>,
    req: ControlRequest,
    sent: ControlRequest,
    contact: Contact,
    next: Next,
)
    requires
        comes_to(attempt, sock, sent, contact),
        follows(req, contact, next),
    ensures
        attempt matches Attempt::Answered(response) ==> next == Next::Return(response),
        ({
            let nobody = attempt is NotFound || attempt is Refused;
            &&& contact is NoListener <==> nobody
            &&& nobody && req is Create ==> next is Start
            &&& nobody && req is Ls ==> (next matches Next::Return(ControlResponse::Ls { sessions })
                && sessions@.len() == 0)
            &&& nobody && req !is Create && req !is Ls ==> (next matches Next::Fail(m) && m@
                == "no daemon running"@)
        }),
        attempt matches Attempt::Unreachable(e) ==> (next matches Next::Fail(m) && ends_in(
            m@,
            e@,
        )),
        attempt matches Attempt::TimedOut(e) ==> (next matches Next::Fail(m) && ends_in(m@, e@)),
        attempt matches Attempt::Failed(e) ==> (next matches Next::Fail(m) && ends_in(m@, e@)),
{
    match attempt {
        Attempt::Unreachable(e) => {
            lemma_ends_in("connect to "@ + sock + ": "@, e@);
        },
        Attempt::TimedOut(e) => {
            let cause = "daemon control request timed out: "@ + e@;
            lemma_ends_in("daemon control request timed out: "@, e@);
            lemma_complaint_ends_in_its_cause(sent, cause);
            let m = crate::server::agent::exchange_failure(sent, cause);
            lemma_ends_in_the_end_of_its_end(m, cause, e@);
        },
        Attempt::Failed(e) => {
            lemma_complaint_ends_in_its_cause(sent, e@);
        },
        _ => {},
    }
    if (attempt is NotFound || attempt is Refused) && req is Ls {
        let sessions = next->Return_0->sessions;
        assert(infos(sessions@).len() == sessions@.len());
    }
}

/// Whether `s` ends in `end`.
pub open spec fn ends_in(s: Seq<char>, end: Seq<char>) -> bool {
    s.len() >= end.len() && s.skip(s.len() - end.len()) == end
}

proof fn lemma_ends_in(a: Seq<char>, b: Seq<char>)
    ensures
        ends_in(a + b, b),
{
    assert((a + b).skip(a.len() as int) =~= b);
}

proof fn lemma_ends_in_the_end_of_its_end(s: Seq<char>, end: Seq<char>, tail: Seq<char>)
    requires
        ends_in(s, end),
        ends_in(end, tail),
    ensures
        ends_in(s, tail),
{
    assert(s.skip(s.len() - tail.len()) =~= end.skip(end.len() - tail.len()));
}

proof fn lemma_complaint_ends_in_its_cause(req: ControlRequest, cause: Seq<char>)
    ensures
        ends_in(crate::server::agent::exchange_failure(req, cause), cause),
{
    match req {
        ControlRequest::OnPort { port, request } => {
            lemma_ends_in(
                "daemon could not process the request for TCP port "@ + decimal(port as nat)
                    + "; if it is an older version, upgrade and manually restart it (restarting ends its sessions): "@,
                cause,
            );
        },
        _ => {
            lemma_ends_in("daemon control request failed: "@, cause);
        },
    }
}

/// A daemon that was just started is tried forty times. Its answer is handed on
/// as it is, whatever has become of the process by then; what goes wrong once it
/// is reached is reported; and a process that failed is not waited for.
pub proof fn law_started_daemon_is_tried_forty_times(
    polled: u32,
    contact: Contact,
    exit: Exit,
    r: Next,
)
    requires
        polls(polled, contact, exit, r),
    ensures
        contact matches Contact::Answered(response) ==> r == Next::Return(response),
        contact matches Contact::Failed(m) ==> (r matches Next::Fail(f) && f@ == m@),
        r is Again <==> contact is NoListener && exit !is Failure && polled < 39,
        contact is NoListener && exit is Failure ==> (r matches Next::Fail(f) && f@
            == "daemon exited with "@ + exit->Failure_0@),
        contact is NoListener && exit !is Failure && polled >= 39 ==> (r matches Next::Fail(f) && f@
            == "daemon did not come up"@),
        r !is Start,
{
}

/// A client that reads the answer to an attach that succeeded dials that daemon
/// and that session, with the key that the session has by then; and any failure
/// reads as the daemon put it.
pub proof fn law_attach_leads_to_the_session(
    before: Sessions,
    after: Sessions,
    req: ControlRequest,
    id: String,
    port: u16,
    fresh: Seq<u8>,
    response: ControlResponse,
    r: Result<Dial, ResponseError>,
)
    requires
        fresh.len() == 32,
        refusal(req, port) is None,
        operation(req) == (ControlRequest::Attach { id }),
        executes(before, after, req, port, fresh, ControlAction::Respond(response)),
        leads_to(response, r),
    ensures
        r is Ok <==> before.contains_key(id@) && !before[id@].ended && !before[id@].connected,
        r matches Ok(d) ==> d.port == port && d.id@ == id@ && d.psk@ == after[id@].psk,
        r matches Err(e) ==> (e matches ResponseError::Message(m) && response@ == (
        ResponseView::Failure { message: m@ })),
{
    law_attach_succeeds_exactly_on_a_free_session(
        before,
        after,
        req,
        id,
        port,
        fresh,
        ControlAction::Respond(response),
    );
}

/// A client that reads the answer to a create dials the new session, with its
/// key, exactly where the shell was started.
pub proof fn law_create_leads_to_the_session(
    opened: Result<(), String>,
    before: Sessions,
    after: Sessions,
    id: Seq<char>,
    shell: Seq<char>,
    started: u64,
    ring_bytes: usize,
    port: u16,
    psk: Seq<u8>,
    response: ControlResponse,
    r: Result<Dial, ResponseError>,
)
    requires
        finishes(opened, before, after, id, shell, started, ring_bytes, port, psk, response),
        leads_to(response, r),
    ensures
        r is Ok <==> opened is Ok,
        r matches Ok(d) ==> d.port == port && d.id@ == id && after.contains_key(id) && d.psk@
            == after[id].psk,
{
    law_created_session_can_be_reached(
        opened,
        before,
        after,
        id,
        shell,
        started,
        ring_bytes,
        port,
        psk,
        response,
    );
}

/// What a client makes of an answer: only what belongs to the operation will do.
/// A failure reads as it was put, and anything else is unexpected.
pub proof fn law_other_answers_are_failures(
    resp: ControlResponse,
    id: Seq<char>,
    dialled: Result<Dial, ResponseError>,
    listed: Result<Vec<String>, String>,
    killed: Result<String, String>,
)
    requires
        leads_to(resp, dialled),
        shows_sessions(resp, listed),
        shows_kill(resp, id, killed),
    ensures
        dialled is Ok ==> resp is Bootstrap,
        resp matches ControlResponse::Bootstrap { port, id: named, psk_hex } ==> match psk_reading(
            encode_utf8(psk_hex@),
        ) {
            Ok(psk) => dialled matches Ok(d) && d.port == port && d.id@ == named@ && d.psk@ == psk,
            Err(e) => dialled matches Err(ResponseError::Psk(f)) && f == e,
        },
        listed is Ok <==> resp is Ls,
        killed is Ok <==> resp is Success,
        killed matches Ok(line) ==> line@ == "killed "@ + id,
        ({
            let words = match resp {
                ControlResponse::Failure { message } => message@,
                _ => "unexpected response"@,
            };
            &&& resp !is Bootstrap ==> (dialled matches Err(ResponseError::Message(m)) && m@
                == words)
            &&& resp !is Ls ==> (listed matches Err(m) && m@ == words)
            &&& resp !is Success ==> (killed matches Err(m) && m@ == words)
        }),
{
}

/// A column is as wide as it was asked to be, or as its text where that is
/// wider: the text, then spaces.
pub proof fn law_columns_hold_their_text(s: Seq<char>, width: nat)
    ensures
        padded(s, width).len() == larger(s.len() as int, width as int),
        padded(s, width).take(s.len() as int) == s,
        forall|i: int|
            s.len() <= i < padded(s, width).len() ==> #[trigger] padded(s, width)[i] == ' ',
{
    assert(padded(s, width).take(s.len() as int) =~= s);
}

/// The table of sessions has a row for every session, in the order of the list
/// and behind one row of headings, and in each row the id, the status, the start
/// and the command of its own session; an empty list says so in one line.
pub proof fn law_every_session_has_its_row(
    sessions: Vec<SessionInfo>,
    r: Result<Vec<String>, String>,
    i: int,
)
    requires
        shows_sessions(ControlResponse::Ls { sessions }, r),
    ensures
        r matches Ok(lines) && {
            &&& sessions@.len() == 0 ==> lines@.len() == 1 && lines@[0]@ == "no sessions"@
            &&& sessions@.len() > 0 ==> lines@.len() == sessions@.len() + 1 && lines@[0]@ == padded(
                "ID"@,
                10,
            ) + " "@ + padded("STATUS"@, 10) + " "@ + padded("STARTED"@, 20) + " "@ + "CMD"@
            &&& 0 <= i < sessions@.len() ==> {
                let s = sessions@[i];
                lines@[i + 1]@ == padded(s.id@, 10) + " "@ + padded(s.status@, 10) + " "@ + padded(
                    "@"@ + decimal(s.started as nat),
                    20,
                ) + " "@ + s.cmd@
            }
        },
{
    let lines = r->Ok_0@;
    let list = infos(sessions@);
    assert(list.len() == sessions@.len());
    assert(texts(lines).len() == lines.len());
    assert(forall|k: int| 0 <= k < lines.len() ==> texts(lines)[k] == (#[trigger] lines[k])@);
    assert(texts(lines)[0] == lines[0]@);
    if 0 <= i < sessions@.len() {
        assert(list[i] == sessions@[i]@);
        assert(session_table(list)[i + 1] == session_row(list[i]));
        assert(texts(lines)[i + 1] == lines[i + 1]@);
    }
}

/// What `ssh` is told: never to ask, the port where one is set, the target, and
/// to have the agent of this version do exactly what was asked for, on the port
/// where one is set. Without a target nothing is run.
pub proof fn law_ssh_runs_what_was_asked_for(
    cfg: Config,
    route: Route,
    env: Environment,
    words: Seq<Seq<char>>,
    r: Result<Vec<String>, String>,
)
    requires
        commands(cfg, route, env, words, r),
    ensures
        r is Ok <==> cfg.ssh_target is Some,
        r matches Ok(args) ==> {
            let a = texts(args@);
            let p: int = if route.ssh_port is Some {
                2
            } else {
                0
            };
            let q: int = if cfg.port is Some {
                2
            } else {
                0
            };
            &&& a.len() == 8 + p + q + words.len()
            &&& a[0] == "-T"@ && a[1] == "-o"@ && a[2] == "BatchMode=yes"@
            &&& route.ssh_port matches Some(n) ==> a[3] == "-p"@ && a[4] == decimal(n@ as nat)
            &&& a[3 + p] == cfg.ssh_target->0@
            &&& a[4 + p] == "sh"@ && a[5 + p] == "-s"@ && a[6 + p] == "--"@
            &&& a[7 + p] == route.version@
            &&& cfg.port matches Some(n) ==> a[8 + p] == "--port"@ && a[9 + p] == decimal(n@ as nat)
            &&& a.skip(8 + p + q) == words
        },
{
    if r is Ok {
        let a = texts(r->Ok_0@);
        assert(a.skip(a.len() - words.len()) =~= words);
    }
}

proof fn lemma_text_is_found(s: Seq<char>, best: Option<Seq<char>>)
    ensures
        last_text_line(s, best) is None <==> is_blank(s) && best is None,
        is_blank(s) ==> last_text_line(s, best) == best,
        last_text_line(s, best) matches Some(l) ==> Some(l) == best || !is_blank(l),
    decreases s.len(),
{
    if s.len() > 0 {
        let line = first_line(s);
        let rest = later_lines(s);
        let next = if is_blank(line) {
            best
        } else {
            Some(line)
        };
        let end = line_end(s) as int;
        lemma_line_end_in_range(s);
        lemma_text_is_found(rest, next);
        if is_blank(s) {
            assert(is_blank(line)) by {
                assert(forall|i: int| 0 <= i < line.len() ==> line[i] == s[i]);
            }
            assert(is_blank(rest)) by {
                assert(forall|i: int| 0 <= i < rest.len() ==> rest[i] == s[end + 1 + i]);
            }
        } else {
            let i = choose|i: int| 0 <= i < s.len() && !is_white(#[trigger] s[i]);
            assert(!is_white(s[i]));
            if i < end {
                assert(i < line.len()) by {
                    if i == end - 1 {
                        assert(s.take(end).last() == s[i]);
                        assert(is_white('\r'));
                    }
                }
                assert(line[i] == s[i]);
                assert(!is_blank(line));
            } else {
                assert(i != end) by {
                    assert(is_white('\n'));
                }
                assert(rest[i - end - 1] == s[i]);
                assert(!is_blank(rest));
            }
        }
    }
}

proof fn lemma_line_end_in_range(s: Seq<char>)
    ensures
        line_end(s) <= s.len(),
        line_end(s) < s.len() ==> s[line_end(s) as int] == '\n',
        forall|i: int| 0 <= i < line_end(s) ==> #[trigger] s[i] != '\n',
    decreases s.len(),
{
    if s.len() > 0 && s[0] != '\n' {
        lemma_line_end_in_range(s.skip(1));
        assert forall|i: int| 0 <= i < line_end(s) implies #[trigger] s[i] != '\n' by {
            if i > 0 {
                assert(s.skip(1)[i - 1] == s[i]);
            }
        }
    }
}

/// An agent that printed anything but white space has a response, and that
/// response is not blank; one that printed nothing else has none.
pub proof fn law_any_output_is_a_response(stdout: Seq<char>, r: Result<String, String>)
    requires
        responds(stdout, r),
    ensures
        r is Err <==> is_blank(stdout),
        r matches Ok(line) ==> !is_blank(line@),
{
    lemma_text_is_found(stdout, None);
}

/// The response is the line that the agent printed last, whatever a login shell
/// printed before it, and however the line ends.
pub proof fn law_response_is_what_was_printed_last(
    noise: Seq<char>,
    line: Seq<char>,
    r: Result<String, String>,
)
    requires
        !is_blank(line),
        !line.contains('\n'),
        line[line.len() - 1] != '\r',
        responds(noise.push('\n') + line.push('\n'), r) || responds(
            noise.push('\n') + line.push('\r').push('\n'),
            r,
        ) || responds(noise.push('\n') + line, r),
    ensures
        r matches Ok(l) && l@ == line,
{
    law_last_printed_line_is_found(noise, line);
    law_line_ends_do_not_matter(noise, line);
}

/// The agent is told the operation, and the session or the size that it is for;
/// a daemon that it starts is told the port, where there is one. What the agent
/// got it prints as it is, and what went wrong as a failure in those words.
pub proof fn law_words_are_passed_on(
    cols: u16,
    rows: u16,
    op: Seq<char>,
    id: Seq<char>,
    port: Option<Port>,
    result: Result<ControlResponse, String>,
    r: ControlResponse,
    connect: Result<u16, String>,
)
    requires
        prints(result, r),
        connects_to(port, connect),
    ensures
        ({
            let w = create_words(cols, rows);
            &&& w.len() == 6
            &&& w[0] == "__serve"@ && w[1] == "create"@
            &&& w[2] == "--cols"@ && w[3] == decimal(cols as nat)
            &&& w[4] == "--rows"@ && w[5] == decimal(rows as nat)
        }),
        ({
            let w = session_words(op, id);
            w.len() == 3 && w[0] == "__serve"@ && w[1] == op && w[2] == id
        }),
        ({
            let w = daemon_args(port);
            &&& w[0] == "__daemon"@
            &&& port is None ==> w.len() == 1
            &&& port matches Some(p) ==> w.len() == 3 && w[1] == "--port"@ && w[2] == decimal(
                p@ as nat,
            )
        }),
        result matches Ok(response) ==> r == response,
        result matches Err(m) ==> (r matches ControlResponse::Failure { message } && message@
            == m@),
        connect is Ok <==> port is Some,
        connect matches Ok(n) ==> n == port->0@,
{
}

/// A text loses the white space at its ends by trimming, all of it, and nothing
/// else.
pub proof fn law_trimming_takes_only_white_space(s: Seq<char>) -> (r: (Seq<char>, Seq<char>))
    ensures
        s == r.0 + trimmed(s) + r.1,
        is_blank(r.0),
        is_blank(r.1),
        trimmed(s).len() > 0 ==> !is_white(trimmed(s)[0]) && !is_white(
            trimmed(s)[trimmed(s).len() - 1],
        ),
    decreases s.len(),
{
    if s.len() == 0 {
        assert(s =~= Seq::<char>::empty() + trimmed(s) + Seq::<char>::empty());
        (Seq::empty(), Seq::empty())
    } else if is_white(s[0]) {
        let (a, b) = law_trimming_takes_only_white_space(s.skip(1));
        let front = seq![s[0]] + a;
        assert(s =~= seq![s[0]] + s.skip(1));
        assert(seq![s[0]] + (a + trimmed(s) + b) =~= front + trimmed(s) + b);
        (front, b)
    } else if is_white(s.last()) {
        let (a, b) = law_trimming_takes_only_white_space(s.drop_last());
        let back = b.push(s.last());
        assert(s =~= s.drop_last().push(s.last()));
        assert((a + trimmed(s) + b).push(s.last()) =~= a + trimmed(s) + back);
        (a, back)
    } else {
        assert(s =~= Seq::<char>::empty() + trimmed(s) + Seq::<char>::empty());
        (Seq::empty(), Seq::empty())
    }
}

/// Of the characters of ASCII, exactly the space and those from tab to carriage
/// return are white.
pub proof fn law_white_space_of_ascii(c: char)
    requires
        (c as u32) < 128,
    ensures
        is_white(c) <==> c == ' ' || ('\t' <= c && c <= '\r'),
{
}

} // verus!
