use thther::client::bootstrap::{
    announcement, attach, client_kill, client_ls, connect_port, create, dial_of, fmt_time, kill, ls,
    response_line, ssh_failure, ResponseError, Route,
};
use thther::config::{Config, Environment, Port};
use thther::proto::control::{ControlResponse, SessionInfo};
use thther::psk::{parse_psk, HexError, PskError};

const VERSION: &str = "0.1.6";

fn env() -> Environment {
    Environment { home: Some("/h".into()), xdg_runtime_dir: None }
}

fn route(ssh_port: Option<u16>) -> Route {
    Route { ssh_port: ssh_port.and_then(Port::new), version: VERSION.into() }
}

fn failed(message: &str) -> ControlResponse {
    ControlResponse::Failure { message: message.into() }
}

#[test]
fn client_forwards_configured_port_and_cli_override_over_ssh() {
    let configured = || Config {
        ssh_target: Some("configured-host".into()),
        port: Port::new(62000),
        ..Config::default()
    };
    for (flag, expected) in [(None, "62000"), (Port::new(62001), "62001")] {
        let cfg = configured().with_client_overrides(Some("other-host".into()), flag);
        let forwarded = ls(&cfg, &route(None), &env()).unwrap();
        assert_eq!(&forwarded[..4], ["-T", "-o", "BatchMode=yes", "other-host"]);
        assert_eq!(
            &forwarded[4..],
            ["sh", "-s", "--", VERSION, "--port", expected, "__serve", "ls"]
        );
    }
}

#[test]
fn operations_are_passed_to_the_agent() {
    let cfg = Config { ssh_target: Some("u@h".into()), ..Config::default() };
    let ssh = ["-T", "-o", "BatchMode=yes", "-p", "2222", "u@h", "sh", "-s", "--", VERSION];
    let check = |args: Vec<String>, words: &[&str]| {
        assert_eq!(&args[..ssh.len()], ssh);
        assert_eq!(&args[ssh.len()..], words);
    };
    let r = route(Some(2222));
    check(
        create(&cfg, &r, &env(), 80, 24).unwrap(),
        &["__serve", "create", "--cols", "80", "--rows", "24"],
    );
    check(attach(&cfg, &r, &env(), "abc").unwrap(), &["__serve", "attach", "abc"]);
    check(kill(&cfg, &r, &env(), "abc").unwrap(), &["__serve", "kill", "abc"]);
    check(ls(&cfg, &r, &env()).unwrap(), &["__serve", "ls"]);
    assert_eq!(
        ls(&Config::default(), &r, &env()).unwrap_err(),
        "no ssh target; pass -t user@host or set ssh_target in /h/.thther/config.toml"
    );
}

#[test]
fn direct_connect_keeps_its_port_argument() {
    assert!(connect_port(None).unwrap_err().contains("--port is required"));
    assert_eq!(connect_port(Port::new(62000)).unwrap(), 62000);
}

#[test]
fn the_response_is_the_last_line_that_says_anything() {
    assert_eq!(response_line("motd\nwelcome\r\n\"ok\"\r\n\n  \n").unwrap(), "\"ok\"");
    assert_eq!(response_line(" \n\t\n").unwrap_err(), "empty response from server agent");
    assert_eq!(
        ssh_failure("u@h", "exit status: 255", "\n no route\r\n"),
        "ssh to 'u@h' failed (exit status: 255): no route"
    );
}

#[test]
fn keys_are_read_from_text() {
    let key: Vec<u8> = (0..32).map(|i| i * 8 + 1).collect();
    assert_eq!(parse_psk(&hex::encode(&key)).unwrap().to_vec(), key);
    assert_eq!(parse_psk(&hex::encode_upper(&key)).unwrap().to_vec(), key);
    assert_eq!(parse_psk("abc").unwrap_err(), PskError::Hex(HexError::OddLength));
    assert_eq!(
        parse_psk("abxdxx").unwrap_err(),
        PskError::Hex(HexError::InvalidCharacter { c: 'x', index: 2 })
    );
    assert_eq!(
        parse_psk("\u{e9}").unwrap_err(),
        PskError::Hex(HexError::InvalidCharacter { c: '\u{c3}', index: 0 })
    );
    assert_eq!(parse_psk("bad0").unwrap_err(), PskError::WrongLength);
    assert_eq!(parse_psk("").unwrap_err(), PskError::WrongLength);
    assert_eq!(parse_psk(&"00".repeat(33)).unwrap_err(), PskError::WrongLength);
}

#[test]
fn bootstrap_replies_lead_to_a_session() {
    let reply = |psk_hex: &str| ControlResponse::Bootstrap {
        port: 62000,
        id: "12345678".into(),
        psk_hex: psk_hex.into(),
    };
    let dial = dial_of(reply(&"0f".repeat(32))).ok().unwrap();
    assert_eq!(dial.psk, [15; 32]);
    assert_eq!((dial.port, dial.id.as_str()), (62000, "12345678"));
    assert_eq!(announcement(&dial, "host", false), "[thther] session 12345678 on host:62000");
    assert_eq!(announcement(&dial, "host", true), "[thther] reattaching to 12345678 on host:62000");
    assert!(matches!(dial_of(reply("00")), Err(ResponseError::Psk(PskError::WrongLength))));
    assert!(matches!(dial_of(failed("no")), Err(ResponseError::Message(m)) if m == "no"));
    assert!(matches!(
        dial_of(ControlResponse::Success),
        Err(ResponseError::Message(m)) if m == "unexpected response"
    ));
}

#[test]
fn sessions_are_shown_as_a_table() {
    let sessions = vec![
        SessionInfo {
            id: "0000abcd".into(),
            started: 1700000000,
            status: "attached".into(),
            cmd: "/bin/sh".into(),
        },
        SessionInfo { id: "x".into(), started: 0, status: "detached".into(), cmd: "".into() },
    ];
    let expected: Vec<String> = vec![
        format!("{:<10} {:<10} {:<20} CMD", "ID", "STATUS", "STARTED"),
        format!("{:<10} {:<10} {:<20} {}", "0000abcd", "attached", "@1700000000", "/bin/sh"),
        format!("{:<10} {:<10} {:<20} {}", "x", "detached", "@0", ""),
    ];
    assert_eq!(client_ls(ControlResponse::Ls { sessions }).unwrap(), expected);
    let none = client_ls(ControlResponse::Ls { sessions: vec![] }).unwrap();
    assert_eq!(none, vec!["no sessions"]);
    assert_eq!(client_ls(failed("no")).unwrap_err(), "no");
    assert_eq!(client_ls(ControlResponse::Success).unwrap_err(), "unexpected response");
    assert_eq!(fmt_time(5), "@5");
}

#[test]
fn kills_are_confirmed() {
    assert_eq!(client_kill(ControlResponse::Success, "abc").unwrap(), "killed abc");
    assert_eq!(client_kill(failed("no such session"), "abc").unwrap_err(), "no such session");
    assert_eq!(
        client_kill(ControlResponse::Ls { sessions: vec![] }, "abc").unwrap_err(),
        "unexpected response"
    );
}
