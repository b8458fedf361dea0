//! Configuration as read from ~/.thther/config.toml.
//!
//! The same file is read on both sides. The client reads `ssh_target` / `tcp_host`;
//! both sides read `port`, and the server-side daemon reads `port_range`.
//! Missing keys fall back to defaults,
//! and the file itself is optional: the client can be pointed at a host with `-t`.

use vstd::prelude::*;
use vstd::string::*;

use crate::text::{after_last, join_path, joined, text_after_last};

verus! {

/// A TCP port that can be asked for: any but zero.
#[derive(Debug, Clone, Copy, PartialEq, Eq, Structural)]
pub struct Port {
    value: u16,
}

impl View for Port {
    type V = u16;

    closed spec fn view(&self) -> u16 {
        self.value
    }
}

impl Port {
    #[verifier::type_invariant]
    spec fn wf(self) -> bool {
        self.value != 0
    }

    pub fn new(value: u16) -> (r: Option<Port>)
        ensures
            value == 0 ==> r is None,
            value != 0 ==> (r matches Some(p) && p@ == value),
    {
        if value == 0 {
            None
        } else {
            Some(Port { value })
        }
    }

    pub fn get(self) -> (r: u16)
        ensures
            r == self@,
            r != 0,
    {
        proof {
            use_type_invariant(&self);
        }
        self.value
    }
}

/// The first choice where there is one, else the second.
pub open spec fn preferred(first: Option<Port>, second: Option<Port>) -> Option<Port> {
    if first is Some {
        first
    } else {
        second
    }
}

/// The first choice where there is one, else the second.
pub fn prefer(first: Option<Port>, second: Option<Port>) -> (r: Option<Port>)
    ensures
        r == preferred(first, second),
{
    match first {
        Some(p) => Some(p),
        None => second,
    }
}

/// What the process environment says about directories. A variable that is
/// unset, or is not text, is absent.
pub struct Environment {
    pub home: Option<String>,
    pub xdg_runtime_dir: Option<String>,
}

/// ~/.thther
pub open spec fn base_dir_of(env: Environment) -> Seq<char> {
    match env.home {
        Some(home) => joined(home@, ".thther"@),
        None => "/tmp/.thther"@,
    }
}

/// The directory of the control socket.
pub open spec fn runtime_dir_of(env: Environment) -> Seq<char> {
    match env.xdg_runtime_dir {
        Some(dir) => joined(dir@, "thther"@),
        None => base_dir_of(env),
    }
}

/// The configuration file.
pub open spec fn config_path_of(env: Environment) -> Seq<char> {
    joined(base_dir_of(env), "config.toml"@)
}

/// The control socket.
pub open spec fn control_socket_of(env: Environment) -> Seq<char> {
    joined(runtime_dir_of(env), "control.sock"@)
}

/// The daemon's log.
pub open spec fn daemon_log_of(env: Environment) -> Seq<char> {
    joined(base_dir_of(env), "daemon.log"@)
}

/// ~/.thther
pub fn base_dir(env: &Environment) -> (r: String)
    ensures
        r@ == base_dir_of(*env),
{
    match &env.home {
        Some(home) => join_path(home.as_str(), ".thther"),
        None => "/tmp/.thther".to_owned(),
    }
}

/// Runtime dir for the control socket + daemon state.
/// Prefers $XDG_RUNTIME_DIR/thther, falls back to ~/.thther.
pub fn runtime_dir(env: &Environment) -> (r: String)
    ensures
        r@ == runtime_dir_of(*env),
{
    match &env.xdg_runtime_dir {
        Some(dir) => join_path(dir.as_str(), "thther"),
        None => base_dir(env),
    }
}

pub fn control_socket_path(env: &Environment) -> (r: String)
    ensures
        r@ == control_socket_of(*env),
{
    join_path(runtime_dir(env).as_str(), "control.sock")
}

pub fn daemon_log_path(env: &Environment) -> (r: String)
    ensures
        r@ == daemon_log_of(*env),
{
    join_path(base_dir(env).as_str(), "daemon.log")
}

/// What a configuration file says. An absent key is `None`.
pub struct RawConfig {
    pub ssh_target: Option<String>,
    pub tcp_host: Option<String>,
    pub port: Option<Port>,
    pub port_range: Option<[u16; 2]>,
    pub ring_bytes: Option<usize>,
}

#[derive(Debug, Clone)]
pub struct Config {
    /// Argument handed to the system `ssh` binary, e.g. "user@host" or an
    /// ~/.ssh/config Host alias. Required for client operations, unless the
    /// client passes `-t`, which overrides this.
    pub ssh_target: Option<String>,
    /// Host the client dials for the independent TCP channel. Defaults to the
    /// host part of `ssh_target` (after any `user@`).
    pub tcp_host: Option<String>,
    /// Fixed server TCP port. The client forwards it to the server; on the
    /// server it takes precedence over port_range when starting the daemon.
    pub port: Option<Port>,
    /// Inclusive [low, high] TCP port range the daemon may bind (server side).
    pub port_range: [u16; 2],
    /// Per-session replay ring buffer size in bytes (server side).
    pub ring_bytes: usize,
}

pub fn default_port_range() -> (r: [u16; 2])
    ensures
        r@ == seq![60000u16, 61000u16],
{
    let r: [u16; 2] = [60000, 61000];
    assert(r@ =~= seq![60000u16, 61000u16]);
    r
}

pub fn default_ring_bytes() -> (r: usize)
    ensures
        r == 256 * 1024,
{
    256 * 1024
}

impl Default for Config {
    fn default() -> (r: Self)
        ensures
            r.ssh_target is None,
            r.tcp_host is None,
            r.port is None,
            r.port_range@ == seq![60000u16, 61000u16],
            r.ring_bytes == 256 * 1024,
    {
        Config {
            ssh_target: None,
            tcp_host: None,
            port: None,
            port_range: default_port_range(),
            ring_bytes: default_ring_bytes(),
        }
    }
}

/// The host that `target` names, without any `user@`.
pub open spec fn host_part(target: Seq<char>) -> Seq<char> {
    after_last(target, '@')
}

/// The complaint about a missing SSH target.
pub open spec fn no_target_message(env: Environment) -> Seq<char> {
    "no ssh target; pass -t user@host or set ssh_target in "@ + config_path_of(env)
}

/// Whether `c` is the configuration that a file gives.
pub open spec fn configures(raw: RawConfig, c: Config) -> bool {
    &&& c.ssh_target == raw.ssh_target
    &&& c.tcp_host == raw.tcp_host
    &&& c.port == raw.port
    &&& c.port_range@ == (match raw.port_range {
        Some(range) => range@,
        None => seq![60000u16, 61000u16],
    })
    &&& c.ring_bytes == (match raw.ring_bytes {
        Some(n) => n,
        None => 262144usize,
    })
}

/// Whether `r` is a configuration under what the command line says.
pub open spec fn overrides(
    cfg: Config,
    target: Option<String>,
    port: Option<Port>,
    r: Config,
) -> bool {
    &&& target is Some ==> r.ssh_target == target && r.tcp_host is None
    &&& target is None ==> r.ssh_target == cfg.ssh_target && r.tcp_host == cfg.tcp_host
    &&& r.port == preferred(port, cfg.port)
    &&& r.port_range == cfg.port_range
    &&& r.ring_bytes == cfg.ring_bytes
}

/// Whether `r` is the host that a configuration has the client dial.
pub open spec fn resolves(cfg: Config, env: Environment, r: Result<String, String>) -> bool {
    match (cfg.tcp_host, cfg.ssh_target) {
        (Some(h), _) => r matches Ok(s) && s@ == h@,
        (None, Some(t)) => r matches Ok(s) && s@ == host_part(t@),
        (None, None) => r matches Err(m) && m@ == no_target_message(env),
    }
}

impl Config {
    /// The configuration that a file gives; missing keys fall back to defaults.
    pub fn from_raw(raw: RawConfig) -> (c: Config)
        ensures
            configures(raw, c),
    {
        Config {
            ssh_target: raw.ssh_target,
            tcp_host: raw.tcp_host,
            port: raw.port,
            port_range: match raw.port_range {
                Some(range) => range,
                None => default_port_range(),
            },
            ring_bytes: match raw.ring_bytes {
                Some(n) => n,
                None => default_ring_bytes(),
            },
        }
    }

    /// What the command line says wins over the file. A new target also drops
    /// `tcp_host`, which belongs to the target of the file.
    pub fn with_client_overrides(self, target: Option<String>, port: Option<Port>) -> (r: Self)
        ensures
            overrides(self, target, port, r),
    {
        let mut r = self;
        if let Some(target) = target {
            r.ssh_target = Some(target);
            r.tcp_host = None;
        }
        r.port = prefer(port, r.port);
        r
    }

    pub fn path(env: &Environment) -> (r: String)
        ensures
            r@ == config_path_of(*env),
    {
        join_path(base_dir(env).as_str(), "config.toml")
    }

    /// The SSH target, erroring with a helpful message if unset.
    pub fn require_ssh_target(&self, env: &Environment) -> (r: Result<&str, String>)
        ensures
            match self.ssh_target {
                Some(t) => r matches Ok(s) && s@ == t@,
                None => r matches Err(m) && m@ == no_target_message(*env),
            },
    {
        match &self.ssh_target {
            Some(t) => Ok(t.as_str()),
            None => {
                let mut m = "no ssh target; pass -t user@host or set ssh_target in ".to_owned();
                m.append(Config::path(env).as_str());
                Err(m)
            },
        }
    }

    /// Host to dial for the TCP channel.
    pub fn resolve_tcp_host(&self, env: &Environment) -> (r: Result<String, String>)
        ensures
            resolves(*self, *env, r),
    {
        if let Some(h) = &self.tcp_host {
            return Ok(h.clone());
        }
        match self.require_ssh_target(env) {
            Ok(target) => Ok(text_after_last(target, '@')),
            Err(m) => Err(m),
        }
    }
}

/// For a new daemon the priority is: the client's command line, the client's
/// file, the server's file; only where none of them fixes a port does the
/// server's range decide.
pub proof fn law_port_priority(
    flag: Option<Port>,
    client_file: Option<Port>,
    server_file: Option<Port>,
)
    ensures
        ({
            let chosen = preferred(preferred(flag, client_file), server_file);
            &&& flag is Some ==> chosen == flag
            &&& flag is None && client_file is Some ==> chosen == client_file
            &&& flag is None && client_file is None ==> chosen == server_file
        }),
{
}

/// The host part of a target never holds an `@`, and is the target itself
/// where that holds none.
pub proof fn law_host_part(target: Seq<char>)
    ensures
        !host_part(target).contains('@'),
        !target.contains('@') ==> host_part(target) == target,
        forall|user: Seq<char>, host: Seq<char>|
            target == #[trigger] (user.push('@') + host) && !host.contains('@') ==> host_part(
                target,
            ) == host,
    decreases target.len(),
{
    if target.len() > 0 {
        law_host_part(target.drop_last());
        let h = host_part(target);
        if target.last() != '@' {
            let g = host_part(target.drop_last());
            assert forall|i: int| 0 <= i < h.len() implies h[i] != '@' by {
                if i < g.len() {
                    assert(g.contains(g[i]));
                }
            }
        }
    }
    if !target.contains('@') {
        assert forall|i: int| 0 <= i < target.len() implies target[i] != '@' by {
            assert(target.contains(target[i]));
        }
        crate::text::lemma_after_last(target, '@', 0);
        assert(target.skip(0) =~= target);
    }
    assert forall|user: Seq<char>, host: Seq<char>|
        target == #[trigger] (user.push('@') + host) && !host.contains('@') implies host_part(target)
        == host by {
        let at = user.len() + 1;
        assert forall|i: int| at <= i < target.len() implies target[i] != '@' by {
            assert(host.contains(host[i - at]));
        }
        crate::text::lemma_after_last(target, '@', at as int);
        assert(target.skip(at as int) =~= host);
    }
}

} // verus!
