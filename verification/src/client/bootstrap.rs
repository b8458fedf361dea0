//! Client-side bootstrap: what the system `ssh` binary is told to run, and what
//! the client makes of the single JSON line that the server agent prints.

use vstd::prelude::*;
use vstd::string::*;
use vstd::utf8::encode_utf8;

use crate::config::{no_target_message, Config, Environment, Port};
use crate::proto::control::{infos, ControlResponse, InfoView, SessionInfo};
use crate::psk::{parse_psk, psk_reading, PskError};
use crate::text::{
    decimal, decimal_text, last_line, last_text_line, pad, padded, push_words, texts, trim, trimmed,
};

verus! {

/// Where and how the server is reached.
pub struct Route {
    /// The SSH port, where it is not left to the SSH configuration.
    pub ssh_port: Option<Port>,
    /// The version of the agent to run, which is the client's own.
    pub version: String,
}

/// An option and its port, where there is one.
pub open spec fn port_option(name: Seq<char>, port: Option<Port>) -> Seq<Seq<char>> {
    match port {
        Some(p) => seq![name, decimal(p@ as nat)],
        None => Seq::empty(),
    }
}

/// The arguments of `ssh`. No PTY, and fail fast instead of hanging on a
/// prompt; the remote shell reads the script that runs the agent from its
/// input, and is handed the version, the port and the operation.
pub open spec fn ssh_args(
    target: Seq<char>,
    ssh_port: Option<Port>,
    version: Seq<char>,
    port: Option<Port>,
    words: Seq<Seq<char>>,
) -> Seq<Seq<char>> {
    seq!["-T"@, "-o"@, "BatchMode=yes"@] + port_option("-p"@, ssh_port) + seq![
        target,
        "sh"@,
        "-s"@,
        "--"@,
        version,
    ] + port_option("--port"@, port) + words
}

/// Whether `r` is the command that performs an operation on the server.
pub open spec fn commands(
    cfg: Config,
    route: Route,
    env: Environment,
    words: Seq<Seq<char>>,
    r: Result<Vec<String>, String>,
) -> bool {
    match cfg.ssh_target {
        Some(target) => r matches Ok(args) && texts(args@) == ssh_args(
            target@,
            route.ssh_port,
            route.version@,
            cfg.port,
            words,
        ),
        None => r matches Err(m) && m@ == no_target_message(env),
    }
}

/// Append an option and its port, where there is one.
fn push_port(args: &mut Vec<String>, name: &str, port: Option<Port>)
    ensures
        texts(final(args)@) == texts(old(args)@) + port_option(name@, port),
{
    if let Some(p) = port {
        let text = decimal_text(p.get() as u64);
        let words = [name, text.as_str()];
        push_words(args, &words);
        assert(words@.map_values(|w: &str| w@) =~= port_option(name@, port));
    } else {
        assert(texts(args@) =~= texts(old(args)@) + port_option(name@, port));
    }
}

/// The arguments of `ssh` that perform an operation on the server.
fn run_ssh(cfg: &Config, route: &Route, env: &Environment, words: &[&str]) -> (r: Result<
    Vec<String>,
    String,
>)
    ensures
        commands(*cfg, *route, *env, words@.map_values(|w: &str| w@), r),
{
    let target = match cfg.require_ssh_target(env) {
        Ok(target) => target,
        Err(m) => return Err(m),
    };
    let mut args: Vec<String> = Vec::new();
    let flags = ["-T", "-o", "BatchMode=yes"];
    push_words(&mut args, &flags);
    assert(texts(args@) =~= seq!["-T"@, "-o"@, "BatchMode=yes"@]);
    push_port(&mut args, "-p", route.ssh_port);
    let shell = [target, "sh", "-s", "--", route.version.as_str()];
    push_words(&mut args, &shell);
    assert(shell@.map_values(|w: &str| w@) =~= seq![
        target@,
        "sh"@,
        "-s"@,
        "--"@,
        route.version@,
    ]);
    push_port(&mut args, "--port", cfg.port);
    push_words(&mut args, words);
    Ok(args)
}

/// What the agent is told to create a session for a terminal of this size.
pub open spec fn create_words(cols: u16, rows: u16) -> Seq<Seq<char>> {
    seq![
        "__serve"@,
        "create"@,
        "--cols"@,
        decimal(cols as nat),
        "--rows"@,
        decimal(rows as nat),
    ]
}

/// What the agent is told to do this to a session.
pub open spec fn session_words(operation: Seq<char>, id: Seq<char>) -> Seq<Seq<char>> {
    seq!["__serve"@, operation, id]
}

/// Create a session for a terminal of this size.
pub fn create(cfg: &Config, route: &Route, env: &Environment, cols: u16, rows: u16) -> (r: Result<
    Vec<String>,
    String,
>)
    ensures
        commands(*cfg, *route, *env, create_words(cols, rows), r),
{
    let c = decimal_text(cols as u64);
    let w = decimal_text(rows as u64);
    let words = ["__serve", "create", "--cols", c.as_str(), "--rows", w.as_str()];
    assert(words@.map_values(|w: &str| w@) =~= seq![
        "__serve"@,
        "create"@,
        "--cols"@,
        decimal(cols as nat),
        "--rows"@,
        decimal(rows as nat),
    ]);
    run_ssh(cfg, route, env, &words)
}

/// Attach to a session.
pub fn attach(cfg: &Config, route: &Route, env: &Environment, id: &str) -> (r: Result<
    Vec<String>,
    String,
>)
    ensures
        commands(*cfg, *route, *env, session_words("attach"@, id@), r),
{
    let words = ["__serve", "attach", id];
    assert(words@.map_values(|w: &str| w@) =~= seq!["__serve"@, "attach"@, id@]);
    run_ssh(cfg, route, env, &words)
}

/// List the sessions.
pub fn ls(cfg: &Config, route: &Route, env: &Environment) -> (r: Result<Vec<String>, String>)
    ensures
        commands(*cfg, *route, *env, seq!["__serve"@, "ls"@], r),
{
    let words = ["__serve", "ls"];
    assert(words@.map_values(|w: &str| w@) =~= seq!["__serve"@, "ls"@]);
    run_ssh(cfg, route, env, &words)
}

/// Terminate a session.
pub fn kill(cfg: &Config, route: &Route, env: &Environment, id: &str) -> (r: Result<
    Vec<String>,
    String,
>)
    ensures
        commands(*cfg, *route, *env, session_words("kill"@, id@), r),
{
    let words = ["__serve", "kill", id];
    assert(words@.map_values(|w: &str| w@) =~= seq!["__serve"@, "kill"@, id@]);
    run_ssh(cfg, route, env, &words)
}

/// How an `ssh` that failed reads.
pub open spec fn ssh_failure_text(
    target: Seq<char>,
    status: Seq<char>,
    stderr: Seq<char>,
) -> Seq<char> {
    "ssh to '"@ + target + "' failed ("@ + status + "): "@ + trimmed(stderr)
}

/// The complaint about an `ssh` that failed.
pub fn ssh_failure(target: &str, status: &str, stderr: &str) -> (r: String)
    ensures
        r@ == ssh_failure_text(target@, status@, stderr@),
{
    let mut m = "ssh to '".to_owned();
    m.append(target);
    m.append("' failed (");
    m.append(status);
    m.append("): ");
    m.append(trim(stderr).as_str());
    m
}

/// Whether `r` is the line of the agent's output that holds its response.
pub open spec fn responds(stdout: Seq<char>, r: Result<String, String>) -> bool {
    match last_text_line(stdout, None) {
        Some(line) => r matches Ok(l) && l@ == line,
        None => r matches Err(m) && m@ == "empty response from server agent"@,
    }
}

/// The line of the agent's output that holds its response: the last that is
/// not blank. Whatever a login shell prints before it does not matter.
pub fn response_line(stdout: &str) -> (r: Result<String, String>)
    ensures
        responds(stdout@, r),
{
    match last_line(stdout) {
        Some(line) => Ok(line),
        None => Err("empty response from server agent".to_owned()),
    }
}

/// Why a response is of no use.
pub enum ResponseError {
    Message(String),
    Psk(PskError),
}

/// What a response that does not belong to the operation comes to.
pub open spec fn complaint(resp: ControlResponse) -> Seq<char> {
    match resp {
        ControlResponse::Failure { message } => message@,
        _ => "unexpected response"@,
    }
}

/// What a response that does not belong to the operation comes to.
fn complain(resp: ControlResponse) -> (r: String)
    ensures
        r@ == complaint(resp),
{
    match resp {
        ControlResponse::Failure { message } => message,
        _ => "unexpected response".to_owned(),
    }
}

/// What a client needs to dial a session.
pub struct Dial {
    pub port: u16,
    pub id: String,
    pub psk: [u8; 32],
}

/// Whether `r` is what a response to create or attach leads to.
pub open spec fn leads_to(resp: ControlResponse, r: Result<Dial, ResponseError>) -> bool {
    match resp {
        ControlResponse::Bootstrap { port, id, psk_hex } => match psk_reading(
            encode_utf8(psk_hex@),
        ) {
            Ok(psk) => r matches Ok(d) && d.port == port && d.id@ == id@ && d.psk@ == psk,
            Err(e) => r matches Err(ResponseError::Psk(d)) && d == e,
        },
        _ => r matches Err(ResponseError::Message(m)) && m@ == complaint(resp),
    }
}

/// The session that a response to create or attach leads to.
pub fn dial_of(resp: ControlResponse) -> (r: Result<Dial, ResponseError>)
    ensures
        leads_to(resp, r),
{
    match resp {
        ControlResponse::Bootstrap { port, id, psk_hex } => match parse_psk(psk_hex.as_str()) {
            Ok(psk) => Ok(Dial { port, id, psk }),
            Err(e) => Err(ResponseError::Psk(e)),
        },
        other => Err(ResponseError::Message(complain(other))),
    }
}

/// "host:port" of a session.
pub open spec fn place(host: Seq<char>, port: u16) -> Seq<char> {
    host + ":"@ + decimal(port as nat)
}

/// What is said before a session is dialled.
pub open spec fn announced(dial: Dial, host: Seq<char>, reattach: bool) -> Seq<char> {
    (if reattach {
        "[thther] reattaching to "@
    } else {
        "[thther] session "@
    }) + dial.id@ + " on "@ + place(host, dial.port)
}

/// What is said before a session is dialled.
pub fn announcement(dial: &Dial, host: &str, reattach: bool) -> (r: String)
    ensures
        r@ == announced(*dial, host@, reattach),
{
    let mut m = if reattach {
        "[thther] reattaching to ".to_owned()
    } else {
        "[thther] session ".to_owned()
    };
    m.append(dial.id.as_str());
    m.append(" on ");
    m.append(host);
    m.append(":");
    m.append(decimal_text(dial.port as u64).as_str());
    assert(m@ =~= announced(*dial, host@, reattach));
    m
}

/// One row of the table of sessions.
pub open spec fn row(
    id: Seq<char>,
    status: Seq<char>,
    started: Seq<char>,
    cmd: Seq<char>,
) -> Seq<char> {
    padded(id, 10) + " "@ + padded(status, 10) + " "@ + padded(started, 20) + " "@ + cmd
}

/// The row of one session.
pub open spec fn session_row(s: InfoView) -> Seq<char> {
    row(s.id, s.status, "@"@ + decimal(s.started as nat), s.cmd)
}

/// The lines that tell of sessions.
pub open spec fn session_table(sessions: Seq<InfoView>) -> Seq<Seq<char>> {
    if sessions.len() == 0 {
        seq!["no sessions"@]
    } else {
        seq![row("ID"@, "STATUS"@, "STARTED"@, "CMD"@)] + sessions.map_values(
            |s: InfoView| session_row(s),
        )
    }
}

fn fmt_row(id: &str, status: &str, started: &str, cmd: &str) -> (r: String)
    ensures
        r@ == row(id@, status@, started@, cmd@),
{
    let mut line = pad(id, 10);
    line.append(" ");
    line.append(pad(status, 10).as_str());
    line.append(" ");
    line.append(pad(started, 20).as_str());
    line.append(" ");
    line.append(cmd);
    line
}

/// When a session started: seconds since the epoch.
pub fn fmt_time(secs: u64) -> (r: String)
    ensures
        r@ == "@"@ + decimal(secs as nat),
{
    let mut t = "@".to_owned();
    t.append(decimal_text(secs).as_str());
    t
}

/// Whether `r` is how a response to ls is shown.
pub open spec fn shows_sessions(resp: ControlResponse, r: Result<Vec<String>, String>) -> bool {
    match resp {
        ControlResponse::Ls { sessions } => r matches Ok(lines) && texts(lines@) == session_table(
            infos(sessions@),
        ),
        _ => r matches Err(m) && m@ == complaint(resp),
    }
}

/// The lines that a response to ls is shown as.
pub fn client_ls(resp: ControlResponse) -> (r: Result<Vec<String>, String>)
    ensures
        shows_sessions(resp, r),
{
    let sessions = match resp {
        ControlResponse::Ls { sessions } => sessions,
        other => return Err(complain(other)),
    };
    let mut lines: Vec<String> = Vec::new();
    if sessions.len() == 0 {
        lines.push("no sessions".to_owned());
        assert(texts(lines@) =~= seq!["no sessions"@]);
        return Ok(lines);
    }
    lines.push(fmt_row("ID", "STATUS", "STARTED", "CMD"));
    let ghost all = infos(sessions@);
    let mut i: usize = 0;
    assert(texts(lines@) =~= session_table(all).take(1));
    while i < sessions.len()
        invariant
            i <= sessions@.len(),
            all == infos(sessions@),
            all.len() > 0,
            texts(lines@) == session_table(all).take(1 + i),
        decreases sessions@.len() - i,
    {
        let s: &SessionInfo = &sessions[i];
        let ghost before = lines@;
        lines.push(
            fmt_row(
                s.id.as_str(),
                s.status.as_str(),
                fmt_time(s.started).as_str(),
                s.cmd.as_str(),
            ),
        );
        proof {
            assert(texts(lines@) =~= texts(before).push(session_row(all[i as int])));
            assert(session_table(all)[1 + i] == session_row(all[i as int]));
            assert(session_table(all).take(2 + i) =~= session_table(all).take(1 + i).push(
                session_row(all[i as int]),
            ));
        }
        i = i + 1;
    }
    assert(session_table(all).take(1 + i) =~= session_table(all));
    Ok(lines)
}

/// Whether `r` is how a response to kill is shown.
pub open spec fn shows_kill(resp: ControlResponse, id: Seq<char>, r: Result<String, String>) -> bool {
    match resp {
        ControlResponse::Success => r matches Ok(line) && line@ == "killed "@ + id,
        _ => r matches Err(m) && m@ == complaint(resp),
    }
}

/// The line that a response to kill is shown as.
pub fn client_kill(resp: ControlResponse, id: &str) -> (r: Result<String, String>)
    ensures
        shows_kill(resp, id@, r),
{
    match resp {
        ControlResponse::Success => {
            let mut line = "killed ".to_owned();
            line.append(id);
            Ok(line)
        },
        other => Err(complain(other)),
    }
}

/// Whether `r` is the port of a direct connection.
pub open spec fn connects_to(port: Option<Port>, r: Result<u16, String>) -> bool {
    match port {
        Some(p) => r matches Ok(n) && n == p@,
        None => r matches Err(m) && m@ == "--port is required for __connect"@,
    }
}

/// The port of a direct connection, which has no default.
pub fn connect_port(port: Option<Port>) -> (r: Result<u16, String>)
    ensures
        connects_to(port, r),
{
    match port {
        Some(p) => Ok(p.get()),
        None => Err("--port is required for __connect".to_owned()),
    }
}

} // verus!
