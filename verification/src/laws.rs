//! What the library keeps, as its users see it: of each operation, what a result
//! must satisfy given the inputs, and how the results of several belong
//! together.

pub mod admission;
pub mod connecting;
pub mod control;
pub mod keyboard;
pub mod output;
pub mod sessions;
pub mod starting;
pub mod wire;
pub mod words;
