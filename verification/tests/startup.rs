use thther::config::{Config, Port};
use thther::server::startup::{Event, Startup};

fn run(cfg: &Config, events: Vec<Event>) -> Startup {
    let mut step = Startup::begin();
    for event in events {
        step = step.next(event, cfg, "/run/thther", "/run/thther/control.sock");
    }
    step
}

fn failure(step: Startup) -> String {
    match step {
        Startup::Fail { message } => message,
        _ => panic!("the start did not fail"),
    }
}

#[test]
fn the_socket_is_published_after_the_port_is_bound() {
    let cfg = Config { port_range: [7, 8], ..Config::default() };
    let ok = || Event::Succeeded;
    assert!(matches!(run(&cfg, vec![]), Startup::MakeDir));
    assert!(matches!(run(&cfg, vec![ok()]), Startup::TakeLock));
    assert!(matches!(run(&cfg, vec![ok(), ok()]), Startup::Probe));
    let failed = || Event::Failed("in use".into());
    assert!(matches!(
        run(&cfg, vec![ok(), ok(), Event::Absent]),
        Startup::Bind { ports, at: 0 } if ports == vec![7, 8]
    ));
    assert!(matches!(
        run(&cfg, vec![ok(), ok(), Event::Absent, ok()]),
        Startup::Publish { port: 7 }
    ));
    assert!(matches!(
        run(&cfg, vec![ok(), ok(), Event::Absent, failed()]),
        Startup::Bind { ports, at: 1 } if ports == vec![7, 8]
    ));
    assert!(matches!(
        run(&cfg, vec![ok(), ok(), Event::Absent, failed(), ok()]),
        Startup::Publish { port: 8 }
    ));
    assert!(matches!(
        run(&cfg, vec![ok(), ok(), Event::Absent, failed(), ok(), ok()]),
        Startup::Serve { port: 8 }
    ));
    // Nothing is published out of turn.
    assert!(matches!(run(&cfg, vec![ok(), ok(), ok(), ok()]), Startup::Probe));
}

#[test]
fn a_fixed_port_is_used_exactly() {
    let cfg = Config { port: Port::new(62000), port_range: [7, 8], ..Config::default() };
    let events = || vec![Event::Succeeded, Event::Succeeded, Event::Absent];
    let mut bound = events();
    bound.push(Event::Succeeded);
    assert!(matches!(run(&cfg, bound), Startup::Publish { port: 62000 }));
    let mut taken = events();
    taken.push(Event::Failed("in use".into()));
    assert_eq!(failure(run(&cfg, taken)), "bind TCP port 62000: in use");
}

#[test]
fn a_live_daemon_is_left_alone() {
    let events = vec![
        Event::Succeeded,
        Event::Succeeded,
        Event::Alive,
        Event::Absent,
        Event::Succeeded,
        Event::Succeeded,
    ];
    assert!(matches!(run(&Config::default(), events), Startup::StepAside));
}

#[test]
fn failures_say_what_failed() {
    let fixed = Config { port: Port::new(62000), ..Config::default() };
    let range = Config { port_range: [7, 8], ..Config::default() };
    let bad = Config { port_range: [0, 5], ..Config::default() };
    let ok = || Event::Succeeded;
    let failed = || Event::Failed("denied".into());
    assert_eq!(failure(run(&range, vec![failed()])), "mkdir /run/thther: denied");
    assert_eq!(failure(run(&range, vec![ok(), failed()])), "denied");
    assert_eq!(
        failure(run(&bad, vec![ok(), ok(), Event::Absent])),
        "invalid TCP port range 0-5; expected 1 <= low <= high <= 65535"
    );
    assert_eq!(
        failure(run(&fixed, vec![ok(), ok(), Event::Absent, failed()])),
        "bind TCP port 62000: denied"
    );
    assert_eq!(
        failure(run(&range, vec![ok(), ok(), Event::Absent, failed(), failed(), ok()])),
        "no free TCP port in range 7-8"
    );
    assert_eq!(
        failure(run(&fixed, vec![ok(), ok(), Event::Absent, ok(), failed()])),
        "bind control socket /run/thther/control.sock: denied"
    );
}
