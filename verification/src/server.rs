//! The remote side: sessions, the daemon that keeps them, its agent.

pub mod admission;
pub mod agent;
pub mod daemon;
pub mod registry;
pub mod session;
pub mod startup;
