//! The logic of a persistent remote terminal: wire formats, sealed records,
//! the replay buffer, session bookkeeping and the decisions of the client, the
//! agent and the daemon. Everything here works on plain values; sockets,
//! terminals and processes are driven by the program around it.

pub mod bytes;
pub mod client;
pub mod config;
pub mod laws;
pub mod proto;
pub mod psk;
pub mod random;
pub mod server;
pub mod text;
