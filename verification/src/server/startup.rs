//! How the daemon comes up: one step after the other, so that there is never
//! more than one daemon, and none that was never reachable.

use vstd::prelude::*;
use vstd::string::*;

use super::daemon::{bind_failure, bind_failure_text, bind_plan, bind_tcp, invalid_range_text};
use crate::config::Config;

verus! {

/// A step of coming up.
pub enum Startup {
    /// Make the runtime directory.
    MakeDir,
    /// Take the startup lock, which serializes what follows across concurrent
    /// starts.
    TakeLock,
    /// Try the control socket: a daemon may own it already.
    Probe,
    /// Bind the port at this place of the plan.
    Bind { ports: Vec<u16>, at: usize },
    /// Clear any stale control socket, and publish one.
    Publish { port: u16 },
    /// Let go of the startup lock, and serve.
    Serve { port: u16 },
    /// Leave without an error: another daemon is alive.
    StepAside,
    Fail { message: String },
}

/// What a step says.
pub enum StartupView {
    MakeDir,
    TakeLock,
    Probe,
    Bind { ports: Seq<u16>, at: nat },
    Publish { port: u16 },
    Serve { port: u16 },
    StepAside,
    Fail { message: Seq<char> },
}

impl View for Startup {
    type V = StartupView;

    open spec fn view(&self) -> StartupView {
        match *self {
            Startup::MakeDir => StartupView::MakeDir,
            Startup::TakeLock => StartupView::TakeLock,
            Startup::Probe => StartupView::Probe,
            Startup::Bind { ports, at } => StartupView::Bind { ports: ports@, at: at as nat },
            Startup::Publish { port } => StartupView::Publish { port },
            Startup::Serve { port } => StartupView::Serve { port },
            Startup::StepAside => StartupView::StepAside,
            Startup::Fail { message } => StartupView::Fail { message: message@ },
        }
    }
}

/// What became of a step.
pub enum Event {
    Succeeded,
    /// It failed, in the system's words.
    Failed(String),
    /// Another daemon answered.
    Alive,
    /// No daemon answered.
    Absent,
}

/// What an event says.
pub enum EventView {
    Succeeded,
    Failed(Seq<char>),
    Alive,
    Absent,
}

impl View for Event {
    type V = EventView;

    open spec fn view(&self) -> EventView {
        match *self {
            Event::Succeeded => EventView::Succeeded,
            Event::Failed(e) => EventView::Failed(e@),
            Event::Alive => EventView::Alive,
            Event::Absent => EventView::Absent,
        }
    }
}

/// The step that follows. The control socket is published only after TCP
/// binding succeeds, so agents cannot submit session operations to a daemon
/// that failed to start. An event that does not belong to a step changes
/// nothing.
pub open spec fn next_step(
    cfg: Config,
    dir: Seq<char>,
    sock: Seq<char>,
    step: StartupView,
    event: EventView,
) -> StartupView {
    match (step, event) {
        (StartupView::MakeDir, EventView::Succeeded) => StartupView::TakeLock,
        (StartupView::MakeDir, EventView::Failed(e)) => StartupView::Fail {
            message: "mkdir "@ + dir + ": "@ + e,
        },
        (StartupView::TakeLock, EventView::Succeeded) => StartupView::Probe,
        (StartupView::TakeLock, EventView::Failed(e)) => StartupView::Fail { message: e },
        (StartupView::Probe, EventView::Alive) => StartupView::StepAside,
        (StartupView::Probe, EventView::Absent) => match bind_plan(cfg) {
            Some(ports) => StartupView::Bind { ports, at: 0 },
            None => StartupView::Fail {
                message: invalid_range_text(cfg.port_range@[0], cfg.port_range@[1]),
            },
        },
        (StartupView::Bind { ports, at }, EventView::Succeeded) => if at < ports.len() {
            StartupView::Publish { port: ports[at as int] }
        } else {
            step
        },
        (StartupView::Bind { ports, at }, EventView::Failed(e)) => if at + 1 < ports.len() {
            StartupView::Bind { ports, at: at + 1 }
        } else {
            StartupView::Fail { message: bind_failure_text(cfg, e) }
        },
        (StartupView::Publish { port }, EventView::Succeeded) => StartupView::Serve { port },
        (StartupView::Publish { port }, EventView::Failed(e)) => StartupView::Fail {
            message: "bind control socket "@ + sock + ": "@ + e,
        },
        _ => step,
    }
}

/// The complaint about something that failed.
fn failed(what: &str, name: &str, cause: &str) -> (r: Startup)
    ensures
        r@ == (StartupView::Fail { message: what@ + name@ + ": "@ + cause@ }),
{
    let mut message = what.to_owned();
    message.append(name);
    message.append(": ");
    message.append(cause);
    Startup::Fail { message }
}

impl Startup {
    /// The first step.
    pub fn begin() -> (r: Startup)
        ensures
            r@ == StartupView::MakeDir,
    {
        Startup::MakeDir
    }

    /// The step that follows, given what became of this one. `dir` is the
    /// runtime directory, `sock` the control socket.
    pub fn next(self, event: Event, cfg: &Config, dir: &str, sock: &str) -> (r: Startup)
        ensures
            r@ == next_step(*cfg, dir@, sock@, self@, event@),
    {
        match (self, event) {
            (Startup::MakeDir, Event::Succeeded) => Startup::TakeLock,
            (Startup::MakeDir, Event::Failed(e)) => failed("mkdir ", dir, e.as_str()),
            (Startup::TakeLock, Event::Succeeded) => Startup::Probe,
            (Startup::TakeLock, Event::Failed(message)) => Startup::Fail { message },
            (Startup::Probe, Event::Alive) => Startup::StepAside,
            (Startup::Probe, Event::Absent) => match bind_tcp(cfg) {
                Ok(ports) => Startup::Bind { ports, at: 0 },
                Err(message) => Startup::Fail { message },
            },
            (Startup::Bind { ports, at }, Event::Succeeded) => if at < ports.len() {
                Startup::Publish { port: ports[at] }
            } else {
                Startup::Bind { ports, at }
            },
            (Startup::Bind { ports, at }, Event::Failed(e)) => if ports.len() > 0 && at
                < ports.len() - 1 {
                Startup::Bind { ports, at: at + 1 }
            } else {
                Startup::Fail { message: bind_failure(cfg, e.as_str()) }
            },
            (Startup::Publish { port }, Event::Succeeded) => Startup::Serve { port },
            (Startup::Publish { .. }, Event::Failed(e)) => failed(
                "bind control socket ",
                sock,
                e.as_str(),
            ),
            (step, _) => step,
        }
    }
}

/// The step after a series of events.
pub open spec fn step_after(
    cfg: Config,
    dir: Seq<char>,
    sock: Seq<char>,
    events: Seq<EventView>,
) -> StartupView
    decreases events.len(),
{
    if events.len() == 0 {
        StartupView::MakeDir
    } else {
        next_step(
            cfg,
            dir,
            sock,
            step_after(cfg, dir, sock, events.drop_last()),
            events.last(),
        )
    }
}

/// Whether the startup lock was taken at `k`, a probe after that was answered
/// by nobody at `i`, and after that the port was bound at `j`.
pub open spec fn came_up(
    cfg: Config,
    dir: Seq<char>,
    sock: Seq<char>,
    events: Seq<EventView>,
    port: u16,
    k: int,
    i: int,
    j: int,
) -> bool {
    &&& 0 <= k < i < j < events.len()
    &&& step_after(cfg, dir, sock, events.take(k)) == StartupView::TakeLock
    &&& events[k] == EventView::Succeeded
    &&& step_after(cfg, dir, sock, events.take(i)) == StartupView::Probe
    &&& events[i] == EventView::Absent
    &&& step_after(cfg, dir, sock, events.take(j)) matches StartupView::Bind { ports, at }
    &&& at < ports.len()
    &&& ports[at as int] == port
    &&& events[j] == EventView::Succeeded
}

/// The control socket is published, and sessions are served, only once the port
/// is bound, and that only once it was seen, under the startup lock, that there
/// is no other daemon.
pub proof fn law_socket_is_published_only_once_bound(
    cfg: Config,
    dir: Seq<char>,
    sock: Seq<char>,
    events: Seq<EventView>,
    port: u16,
)
    requires
        step_after(cfg, dir, sock, events) == (StartupView::Publish { port }) || step_after(
            cfg,
            dir,
            sock,
            events,
        ) == (StartupView::Serve { port }),
    ensures
        exists|k: int, i: int, j: int| came_up(cfg, dir, sock, events, port, k, i, j),
    decreases events.len(),
{
    let before = events.drop_last();
    let n = events.len() - 1;
    match step_after(cfg, dir, sock, before) {
        StartupView::Bind { ports, at } => {
            let (k, i) = lemma_bind_follows_a_probe(cfg, dir, sock, before);
            assert(events.take(n) =~= before);
            assert(events.take(i) =~= before.take(i));
            assert(events.take(k) =~= before.take(k));
            assert(came_up(cfg, dir, sock, events, port, k, i, n));
        },
        _ => {
            law_socket_is_published_only_once_bound(cfg, dir, sock, before, port);
            let (k, i, j) = choose|k: int, i: int, j: int|
                came_up(cfg, dir, sock, before, port, k, i, j);
            assert(events.take(k) =~= before.take(k));
            assert(events.take(i) =~= before.take(i));
            assert(events.take(j) =~= before.take(j));
            assert(came_up(cfg, dir, sock, events, port, k, i, j));
        },
    }
}

/// Binding follows a probe that nobody answered, and that the startup lock.
proof fn lemma_bind_follows_a_probe(
    cfg: Config,
    dir: Seq<char>,
    sock: Seq<char>,
    events: Seq<EventView>,
) -> (r: (int, int))
    requires
        step_after(cfg, dir, sock, events) is Bind,
    ensures
        0 <= r.0 < r.1 < events.len(),
        step_after(cfg, dir, sock, events.take(r.0)) == StartupView::TakeLock,
        events[r.0] == EventView::Succeeded,
        step_after(cfg, dir, sock, events.take(r.1)) == StartupView::Probe,
        events[r.1] == EventView::Absent,
    decreases events.len(),
{
    let before = events.drop_last();
    let n = events.len() - 1;
    let (k, i) = match step_after(cfg, dir, sock, before) {
        StartupView::Probe => (lemma_probe_follows_the_lock(cfg, dir, sock, before), n),
        _ => lemma_bind_follows_a_probe(cfg, dir, sock, before),
    };
    assert(events.take(n) =~= before);
    assert(events.take(i) =~= before.take(i));
    assert(events.take(k) =~= before.take(k));
    (k, i)
}

/// A probe follows the taking of the startup lock.
proof fn lemma_probe_follows_the_lock(
    cfg: Config,
    dir: Seq<char>,
    sock: Seq<char>,
    events: Seq<EventView>,
) -> (k: int)
    requires
        step_after(cfg, dir, sock, events) == StartupView::Probe,
    ensures
        0 <= k < events.len(),
        step_after(cfg, dir, sock, events.take(k)) == StartupView::TakeLock,
        events[k] == EventView::Succeeded,
    decreases events.len(),
{
    let before = events.drop_last();
    let n = events.len() - 1;
    let k = match step_after(cfg, dir, sock, before) {
        StartupView::TakeLock => n,
        _ => lemma_probe_follows_the_lock(cfg, dir, sock, before),
    };
    assert(events.take(n) =~= before);
    assert(events.take(k) =~= before.take(k));
    k
}

/// Whether binding the port at place `i` of `ports` failed.
pub open spec fn bind_failed(
    cfg: Config,
    dir: Seq<char>,
    sock: Seq<char>,
    events: Seq<EventView>,
    ports: Seq<u16>,
    i: nat,
) -> bool {
    exists|k: int|
        0 <= k < events.len() && (#[trigger] events[k]) is Failed && step_after(
            cfg,
            dir,
            sock,
            events.take(k),
        ) == (StartupView::Bind { ports, at: i })
}

/// Whether `at` is a place of the plan, and all ports before it could not be
/// bound.
pub open spec fn reached(
    cfg: Config,
    dir: Seq<char>,
    sock: Seq<char>,
    events: Seq<EventView>,
    at: nat,
) -> bool {
    &&& bind_plan(cfg) matches Some(ports)
    &&& at < ports.len()
    &&& forall|i: nat| i < at ==> #[trigger] bind_failed(cfg, dir, sock, events, ports, i)
}

/// What failed stays failed.
proof fn lemma_reached_earlier(
    cfg: Config,
    dir: Seq<char>,
    sock: Seq<char>,
    events: Seq<EventView>,
    at: nat,
)
    requires
        events.len() > 0,
        reached(cfg, dir, sock, events.drop_last(), at),
    ensures
        reached(cfg, dir, sock, events, at),
{
    let before = events.drop_last();
    let ports = bind_plan(cfg)->0;
    assert forall|i: nat| i < at implies #[trigger] bind_failed(
        cfg,
        dir,
        sock,
        events,
        ports,
        i,
    ) by {
        assert(bind_failed(cfg, dir, sock, before, ports, i));
        let k = choose|k: int|
            0 <= k < before.len() && (#[trigger] before[k]) is Failed && step_after(
                cfg,
                dir,
                sock,
                before.take(k),
            ) == (StartupView::Bind { ports, at: i });
        assert(events.take(k) =~= before.take(k));
        assert(events[k] is Failed);
    }
}

/// The plan is followed in order.
proof fn lemma_bind_follows_the_plan(
    cfg: Config,
    dir: Seq<char>,
    sock: Seq<char>,
    events: Seq<EventView>,
)
    requires
        step_after(cfg, dir, sock, events) is Bind,
    ensures
        step_after(cfg, dir, sock, events) matches StartupView::Bind { ports, at } && bind_plan(cfg)
            == Some(ports) && reached(cfg, dir, sock, events, at),
    decreases events.len(),
{
    let before = events.drop_last();
    let n = events.len() - 1;
    assert(events.take(n) =~= before);
    match step_after(cfg, dir, sock, before) {
        StartupView::Bind { ports, at } => {
            lemma_bind_follows_the_plan(cfg, dir, sock, before);
            lemma_reached_earlier(cfg, dir, sock, events, at);
            if events.last() is Failed {
                assert(events[n] is Failed);
                assert(bind_failed(cfg, dir, sock, events, ports, at));
            }
        },
        _ => {},
    }
}

/// The port that is published and served is one of the plan, and the first of
/// it that could be bound: a fixed port is used exactly, or not at all.
pub proof fn law_the_first_free_port_of_the_plan_is_used(
    cfg: Config,
    dir: Seq<char>,
    sock: Seq<char>,
    events: Seq<EventView>,
    port: u16,
)
    requires
        step_after(cfg, dir, sock, events) == (StartupView::Publish { port }) || step_after(
            cfg,
            dir,
            sock,
            events,
        ) == (StartupView::Serve { port }),
    ensures
        exists|at: nat|
            #[trigger] reached(cfg, dir, sock, events, at) && bind_plan(cfg)->0[at as int] == port,
        bind_plan(cfg)->0.contains(port),
        cfg.port matches Some(fixed) ==> port == fixed@,
    decreases events.len(),
{
    let before = events.drop_last();
    match step_after(cfg, dir, sock, before) {
        StartupView::Bind { ports, at } => {
            lemma_bind_follows_the_plan(cfg, dir, sock, before);
            lemma_reached_earlier(cfg, dir, sock, events, at);
            assert(bind_plan(cfg)->0[at as int] == port);
        },
        _ => {
            law_the_first_free_port_of_the_plan_is_used(cfg, dir, sock, before, port);
            let at = choose|at: nat|
                #[trigger] reached(cfg, dir, sock, before, at) && bind_plan(cfg)->0[at as int]
                    == port;
            lemma_reached_earlier(cfg, dir, sock, events, at);
        },
    }
}

/// A daemon that finds another alive steps aside, and one that has failed or
/// serves takes no further step, whatever happens.
pub proof fn law_the_end_of_startup_is_final(
    cfg: Config,
    dir: Seq<char>,
    sock: Seq<char>,
    step: StartupView,
    event: EventView,
)
    ensures
        next_step(cfg, dir, sock, StartupView::Probe, EventView::Alive) == StartupView::StepAside,
        step is StepAside || step is Fail || step is Serve ==> next_step(
            cfg,
            dir,
            sock,
            step,
            event,
        ) == step,
{
}

} // verus!
