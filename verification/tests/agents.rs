use thther::config::{prefer, Config, Environment, Port};
use thther::proto::control::{ControlRequest, ControlResponse};
use thther::proto::handshake::VERSION;
use thther::server::agent::{
    demand, obtain, printed, spawn_daemon, start_and_request, startup_failure, try_request_at,
    Attempt, Contact, Exit, Next, STARTUP_POLLS,
};
use thther::server::daemon::{
    bind_tcp, execute_control, finish_create, new_session_id, ControlAction,
};
use thther::server::registry::Registry;

fn create() -> ControlRequest {
    ControlRequest::Create { cols: 80, rows: 24 }
}

fn env() -> Environment {
    Environment { home: Some("/home/u".into()), xdg_runtime_dir: None }
}

#[test]
fn requests_demand_the_protocol_and_then_the_port() {
    match demand(create(), Port::new(62000)) {
        ControlRequest::OnPort { port: 62000, request } => match *request {
            ControlRequest::OnProtocol { version, request } => {
                assert_eq!(version, VERSION);
                assert!(matches!(*request, ControlRequest::Create { cols: 80, rows: 24 }));
            }
            _ => panic!("no protocol was named"),
        },
        _ => panic!("no port was demanded"),
    }
    assert!(matches!(
        demand(ControlRequest::Attach { id: "a".into() }, None),
        ControlRequest::OnProtocol { .. }
    ));
    assert!(matches!(demand(ControlRequest::Ls, None), ControlRequest::Ls));
    match demand(ControlRequest::Kill { id: "a".into() }, Port::new(5)) {
        ControlRequest::OnPort { port: 5, request } => {
            assert!(matches!(*request, ControlRequest::Kill { .. }));
        }
        _ => panic!("no port was demanded"),
    }
}

#[test]
fn only_a_missing_daemon_is_started_and_only_to_create() {
    for attempt in [Attempt::NotFound, Attempt::Refused] {
        let contact = try_request_at(attempt, "/s", &create());
        assert!(matches!(obtain(&create(), contact), Next::Start));
    }
    assert!(matches!(
        obtain(&ControlRequest::Ls, Contact::NoListener),
        Next::Return(ControlResponse::Ls { sessions }) if sessions.is_empty()
    ));
    for req in
        [ControlRequest::Attach { id: "a".into() }, ControlRequest::Kill { id: "a".into() }]
    {
        assert!(matches!(
            obtain(&req, Contact::NoListener),
            Next::Fail(m) if m == "no daemon running"
        ));
    }
    let answered = Attempt::Answered(ControlResponse::Success);
    assert!(matches!(
        obtain(&create(), try_request_at(answered, "/s", &create())),
        Next::Return(ControlResponse::Success)
    ));
}

#[test]
fn older_daemon_rejection_does_not_retry_or_spawn() {
    let sent = demand(create(), Port::new(62000));
    // The operation stands inside the port demand, under the protocol it names.
    match &sent {
        ControlRequest::OnPort { port: 62000, request } => match &**request {
            ControlRequest::OnProtocol { version, request } => {
                assert_eq!(*version, VERSION);
                assert!(matches!(**request, ControlRequest::Create { cols: 80, rows: 24 }));
            }
            _ => panic!("no protocol was named"),
        },
        _ => panic!("no port was demanded"),
    }
    // Old daemons close the connection on an unknown operation.
    let attempt = Attempt::Failed("daemon closed the connection without a response".into());
    match obtain(&create(), try_request_at(attempt, "/s", &sent)) {
        Next::Fail(error) => {
            assert!(
                error.contains("older version") && error.contains("manually restart"),
                "{error}"
            );
            assert_eq!(
                error,
                "daemon could not process the request for TCP port 62000; if it is an older \
                 version, upgrade and manually restart it (restarting ends its sessions): \
                 daemon closed the connection without a response"
            );
        }
        _ => panic!("the operation was retried"),
    }
}

#[test]
fn failures_name_what_was_being_done() {
    let failed = |attempt| match try_request_at(attempt, "/run/s", &ControlRequest::Ls) {
        Contact::Failed(m) => m,
        _ => panic!("not a failure"),
    };
    assert_eq!(failed(Attempt::Unreachable("denied".into())), "connect to /run/s: denied");
    assert_eq!(
        failed(Attempt::TimedOut("deadline has elapsed".into())),
        "daemon control request failed: daemon control request timed out: deadline has elapsed"
    );
    assert_eq!(
        failed(Attempt::Failed("broken pipe".into())),
        "daemon control request failed: broken pipe"
    );
}

#[test]
fn a_started_daemon_is_polled_until_it_answers_or_fails() {
    assert!(matches!(
        start_and_request(0, Contact::NoListener, Exit::Running),
        Next::Again
    ));
    // A daemon that stepped aside for another is no failure.
    assert!(matches!(
        start_and_request(5, Contact::NoListener, Exit::Success),
        Next::Again
    ));
    assert!(matches!(
        start_and_request(0, Contact::NoListener, Exit::Failure("exit status: 1".into())),
        Next::Fail(m) if m == "daemon exited with exit status: 1"
    ));
    assert!(matches!(
        start_and_request(STARTUP_POLLS - 2, Contact::NoListener, Exit::Running),
        Next::Again
    ));
    assert!(matches!(
        start_and_request(STARTUP_POLLS - 1, Contact::NoListener, Exit::Running),
        Next::Fail(m) if m == "daemon did not come up"
    ));
    assert!(matches!(
        start_and_request(3, Contact::Answered(ControlResponse::Success), Exit::Running),
        Next::Return(ControlResponse::Success)
    ));
    assert!(matches!(
        start_and_request(3, Contact::Failed("x".into()), Exit::Running),
        Next::Fail(m) if m == "x"
    ));
}

#[test]
fn startup_failure_reports_port_and_server_log() {
    let cfg = Config::default();
    let error = startup_failure(Port::new(62000), &cfg, &env(), "daemon exited with 1");
    assert!(error.contains("62000") && error.contains("daemon.log"), "{error}");
    assert_eq!(
        error,
        "starting daemon on TCP port 62000; see server log /home/u/.thther/daemon.log: \
         daemon exited with 1"
    );
    assert_eq!(
        startup_failure(None, &cfg, &env(), "x"),
        "starting daemon on TCP port range 60000-61000; \
         see server log /home/u/.thther/daemon.log: x"
    );
}

#[test]
fn server_config_and_cli_choose_the_listener() {
    let (occupied, wanted) = (62000, 62001);
    for cli_override in [false, true] {
        let configured = if cli_override { occupied } else { wanted };
        let mut cfg = Config {
            port: Port::new(configured),
            port_range: [occupied, occupied],
            ..Config::default()
        };
        let flag = if cli_override { Port::new(wanted) } else { None };
        cfg.port = prefer(flag, cfg.port);
        assert_eq!(bind_tcp(&cfg).unwrap(), vec![wanted]);
        operations_reach_the_daemon(wanted, Port::new(wanted));
    }
}

/// Create, list, attach and kill a session as the agent asks for it, on a
/// daemon that listens on `port`.
fn operations_reach_the_daemon(port: u16, asked: Option<Port>) {
    let mut registry = Registry::new();
    let action = execute_control(demand(create(), asked), &mut registry, port);
    match action {
        ControlAction::Spawn { cols, rows } => assert_eq!((cols, rows), (80, 24)),
        _ => panic!("no shell was to be started"),
    }
    let id = new_session_id(&registry).unwrap();
    let created = finish_create(Ok(()), id.clone(), "/bin/sh", 0, 16, &mut registry, port);
    let first_key = match created {
        ControlResponse::Bootstrap { port: p, id: i, psk_hex } => {
            assert_eq!((p, i.as_str()), (port, id.as_str()));
            psk_hex
        }
        _ => panic!("the session was not created"),
    };
    match execute_control(demand(ControlRequest::Ls, asked), &mut registry, port) {
        ControlAction::Respond(ControlResponse::Ls { sessions }) => {
            assert_eq!(sessions.len(), 1);
            assert_eq!(sessions[0].id, id);
        }
        _ => panic!("no listing"),
    }
    let attach = demand(ControlRequest::Attach { id: id.clone() }, asked);
    match execute_control(attach, &mut registry, port) {
        ControlAction::Respond(ControlResponse::Bootstrap { port: p, id: i, psk_hex }) => {
            assert_eq!((p, i.as_str()), (port, id.as_str()));
            assert_ne!(psk_hex, first_key);
            assert_eq!(psk_hex, hex::encode(registry.get(&id).unwrap().current_psk()));
        }
        _ => panic!("the attach was refused"),
    }
    // Legacy requests still use the same listener and sessions.
    match execute_control(ControlRequest::Ls, &mut registry, port) {
        ControlAction::Respond(ControlResponse::Ls { sessions }) => assert_eq!(sessions.len(), 1),
        _ => panic!("no listing"),
    }
    let kill = demand(ControlRequest::Kill { id: id.clone() }, asked);
    match execute_control(kill, &mut registry, port) {
        ControlAction::Kill { id: killed, response } => {
            assert_eq!(killed, id);
            assert!(matches!(response, ControlResponse::Success));
        }
        _ => panic!("the session was not to be killed"),
    }
}

#[test]
fn what_the_agent_sends_is_heard_by_the_daemon() {
    operations_reach_the_daemon(62000, Port::new(62000));
    operations_reach_the_daemon(62000, None);
    // On another port every operation is refused.
    let mut registry = Registry::new();
    for req in [create(), ControlRequest::Ls, ControlRequest::Kill { id: "a".into() }] {
        let action = execute_control(demand(req, Port::new(62001)), &mut registry, 62000);
        assert!(matches!(
            action,
            ControlAction::Respond(ControlResponse::Failure { message })
                if message.contains("62000") && message.contains("62001")
        ));
    }
    // Without the protocol, as older agents send it, create is refused.
    let old = ControlRequest::OnPort { port: 62000, request: Box::new(create()) };
    assert!(matches!(
        execute_control(old, &mut registry, 62000),
        ControlAction::Respond(ControlResponse::Failure { message })
            if message == "protocol version mismatch"
    ));
}

#[test]
fn port_range_remains_supported_without_a_fixed_port() {
    let cfg = Config { port_range: [62000, 62000], ..Config::default() };
    assert_eq!(bind_tcp(&cfg).unwrap(), vec![62000]);
    operations_reach_the_daemon(62000, None);
}

#[test]
fn daemons_are_started_on_the_port_asked_for() {
    assert_eq!(spawn_daemon(None), vec!["__daemon"]);
    assert_eq!(spawn_daemon(Port::new(62000)), vec!["__daemon", "--port", "62000"]);
}

#[test]
fn errors_are_printed_as_responses() {
    assert!(matches!(printed(Ok(ControlResponse::Success)), ControlResponse::Success));
    assert!(matches!(
        printed(Err("bad".into())),
        ControlResponse::Failure { message } if message == "bad"
    ));
}
