//! Control-plane messages between the SSH-invoked agent and the daemon
//! (JSON, one object per line over the unix socket), and the bootstrap reply
//! the agent prints to stdout for the client to parse.

use vstd::prelude::*;

verus! {

#[derive(Debug)]
pub enum ControlRequest {
    /// Require the daemon's listening port before performing any operation.
    /// A distinct operation ensures older daemons cannot silently ignore it.
    OnPort { port: u16, request: Box<ControlRequest> },
    /// Require the terminal protocol that the daemon speaks.
    OnProtocol { version: u8, request: Box<ControlRequest> },
    /// Create a new session; returns port/id/psk.
    Create { cols: u16, rows: u16 },
    /// Attach to an existing detached session; mints a fresh psk. Rejected if
    /// the session currently has an active connection.
    Attach { id: String },
    /// List sessions.
    Ls,
    /// Terminate a session.
    Kill { id: String },
}

#[derive(Debug)]
pub struct SessionInfo {
    pub id: String,
    /// Unix seconds when the session started.
    pub started: u64,
    /// "attached" or "detached".
    pub status: String,
    pub cmd: String,
}

/// What a listing says about one session.
pub struct InfoView {
    pub id: Seq<char>,
    pub started: u64,
    pub status: Seq<char>,
    pub cmd: Seq<char>,
}

impl View for SessionInfo {
    type V = InfoView;

    open spec fn view(&self) -> InfoView {
        InfoView {
            id: self.id@,
            started: self.started,
            status: self.status@,
            cmd: self.cmd@,
        }
    }
}

#[derive(Debug)]
pub enum ControlResponse {
    /// For Create / Attach: everything the client needs to dial the TCP channel.
    Bootstrap { port: u16, id: String, psk_hex: String },
    Ls { sessions: Vec<SessionInfo> },
    Success,
    Failure { message: String },
}

/// What a response says.
pub enum ResponseView {
    Bootstrap { port: u16, id: Seq<char>, psk_hex: Seq<char> },
    Ls { sessions: Seq<InfoView> },
    Success,
    Failure { message: Seq<char> },
}

/// What a list of sessions says.
pub open spec fn infos(sessions: Seq<SessionInfo>) -> Seq<InfoView> {
    sessions.map_values(|s: SessionInfo| s@)
}

impl View for ControlResponse {
    type V = ResponseView;

    open spec fn view(&self) -> ResponseView {
        match *self {
            ControlResponse::Bootstrap { port, id, psk_hex } => ResponseView::Bootstrap {
                port,
                id: id@,
                psk_hex: psk_hex@,
            },
            ControlResponse::Ls { sessions } => ResponseView::Ls { sessions: infos(sessions@) },
            ControlResponse::Success => ResponseView::Success,
            ControlResponse::Failure { message } => ResponseView::Failure { message: message@ },
        }
    }
}

} // verus!
