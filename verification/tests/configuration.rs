use std::num::NonZeroU16;
use thther::config::{
    base_dir, control_socket_path, daemon_log_path, prefer, runtime_dir, Config, Environment, Port,
    RawConfig,
};

/// The configuration in a TOML text, unless a value does not fit its key.
fn parse(text: &str) -> Option<Config> {
    let table: toml::Table = toml::from_str(text).unwrap();
    let mut raw = RawConfig {
        ssh_target: None,
        tcp_host: None,
        port: None,
        port_range: None,
        ring_bytes: None,
    };
    for (key, value) in table {
        match key.as_str() {
            "ssh_target" => raw.ssh_target = Some(value.try_into().ok()?),
            "tcp_host" => raw.tcp_host = Some(value.try_into().ok()?),
            "port" => raw.port = Port::new(value.try_into::<NonZeroU16>().ok()?.get()),
            "port_range" => raw.port_range = Some(value.try_into().ok()?),
            "ring_bytes" => raw.ring_bytes = Some(value.try_into().ok()?),
            _ => {}
        }
    }
    Some(Config::from_raw(raw))
}

fn env(home: Option<&str>, run: Option<&str>) -> Environment {
    Environment {
        home: home.map(|s| s.to_string()),
        xdg_runtime_dir: run.map(|s| s.to_string()),
    }
}

#[test]
fn fixed_port_config_and_client_precedence() {
    let cfg = parse("ssh_target = 'old-host'\ntcp_host = 'old-ip'\nport = 62000\n").unwrap();
    let changed_target = cfg.clone().with_client_overrides(Some("new-host".into()), None);
    assert_eq!(changed_target.ssh_target.as_deref(), Some("new-host"));
    assert!(changed_target.tcp_host.is_none());
    assert_eq!(changed_target.port.unwrap().get(), 62000);
    let overridden = cfg.with_client_overrides(None, Port::new(62001));
    assert_eq!(overridden.port.unwrap().get(), 62001);
    let defaults = parse("").unwrap();
    assert!(defaults.port.is_none());
    assert_eq!(defaults.port_range, [60000, 61000]);
}

#[test]
fn config_rejects_invalid_fixed_ports() {
    for port in ["0", "-1", "65536", "'62000'", "1.5"] {
        assert!(parse(&format!("port = {port}")).is_none(), "{port}");
    }
    for port in [1, 65535] {
        let cfg = parse(&format!("port = {port}")).unwrap();
        assert_eq!(cfg.port.unwrap().get(), port);
    }
}

#[test]
fn values_of_a_file_are_taken_over() {
    let cfg = parse("port_range = [0, 65535]\nring_bytes = 0\nssh_target = 'u@h'").unwrap();
    assert_eq!(cfg.port_range, [0, 65535]);
    assert_eq!(cfg.ring_bytes, 0);
    assert_eq!(cfg.ssh_target.as_deref(), Some("u@h"));
    for text in ["port_range = [1, 65536]", "port_range = [-1, 5]", "ring_bytes = -1"] {
        assert!(parse(text).is_none(), "{text}");
    }
    assert!(Port::new(0).is_none());
}

#[test]
fn missing_keys_fall_back_to_defaults() {
    for cfg in [parse("").unwrap(), Config::default()] {
        assert_eq!(cfg.ssh_target, None);
        assert_eq!(cfg.tcp_host, None);
        assert!(cfg.port.is_none());
        assert_eq!(cfg.port_range, [60000, 61000]);
        assert_eq!(cfg.ring_bytes, 262144);
    }
}

#[test]
fn paths_follow_the_environment() {
    let e = env(Some("/home/u"), Some("/run/user/7"));
    assert_eq!(base_dir(&e), "/home/u/.thther");
    assert_eq!(runtime_dir(&e), "/run/user/7/thther");
    assert_eq!(control_socket_path(&e), "/run/user/7/thther/control.sock");
    assert_eq!(daemon_log_path(&e), "/home/u/.thther/daemon.log");
    assert_eq!(Config::path(&e), "/home/u/.thther/config.toml");
    let e = env(Some("/home/u/"), None);
    assert_eq!(runtime_dir(&e), "/home/u/.thther");
    assert_eq!(control_socket_path(&e), "/home/u/.thther/control.sock");
    let e = env(None, None);
    assert_eq!(base_dir(&e), "/tmp/.thther");
    assert_eq!(runtime_dir(&e), "/tmp/.thther");
}

#[test]
fn the_dialled_host_is_the_target_without_its_user() {
    let e = env(Some("/h"), None);
    let with = |target: Option<&str>, host: Option<&str>| Config {
        ssh_target: target.map(|s| s.to_string()),
        tcp_host: host.map(|s| s.to_string()),
        ..Config::default()
    };
    assert_eq!(with(Some("u@h"), None).resolve_tcp_host(&e).unwrap(), "h");
    assert_eq!(with(Some("a@b@c"), None).resolve_tcp_host(&e).unwrap(), "c");
    assert_eq!(with(Some("alias"), None).resolve_tcp_host(&e).unwrap(), "alias");
    assert_eq!(with(Some("u@h"), Some("ip")).resolve_tcp_host(&e).unwrap(), "ip");
    assert_eq!(with(None, Some("ip")).resolve_tcp_host(&e).unwrap(), "ip");
    let message = "no ssh target; pass -t user@host or set ssh_target in /h/.thther/config.toml";
    assert_eq!(with(None, None).resolve_tcp_host(&e).unwrap_err(), message);
    assert_eq!(with(None, None).require_ssh_target(&e).unwrap_err(), message);
    assert_eq!(with(Some("u@h"), None).require_ssh_target(&e).unwrap(), "u@h");
}

#[test]
fn ports_are_chosen_by_priority() {
    let (a, b) = (Port::new(1), Port::new(65535));
    assert!(Port::new(0).is_none());
    assert_eq!(prefer(a, b), a);
    assert_eq!(prefer(None, b), b);
    assert_eq!(prefer(None, None), None);
    // Client flag, client file, server file.
    assert_eq!(prefer(prefer(a, b), Port::new(7)), a);
    assert_eq!(prefer(prefer(None, None), Port::new(7)).unwrap().get(), 7);
}
