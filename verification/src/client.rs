//! The local side: bootstrap over SSH, the interactive session, reconnects.

pub mod bootstrap;
pub mod reconnect;
pub mod session;
