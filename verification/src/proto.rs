//! What travels between the peers.

use vstd::prelude::*;

pub mod control;
pub mod crypto;
pub mod frame;
pub mod handshake;

verus! {

/// How far a message of known shape has been received.
#[derive(Debug, Clone)]
pub enum Step<T> {
    /// Exactly this many more bytes are needed before anything else can be said.
    Need(usize),
    /// The message is complete, and was this many bytes long.
    Done { value: T, used: usize },
}

} // verus!
