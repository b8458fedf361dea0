//! Random values.

use rand::{Rng, RngCore};
use vstd::prelude::*;

verus! {

/// Calls `rand::RngCore::fill_bytes` on `rand::thread_rng()`. Nothing is said
/// of the bytes.
#[verifier::external_body]
pub(crate) fn random_bytes() -> (r: [u8; 32]) {
    let mut r = [0u8; 32];
    rand::thread_rng().fill_bytes(&mut r);
    r
}

/// Calls `rand::Rng::gen` on `rand::thread_rng()`. Nothing is said of the
/// number.
#[verifier::external_body]
pub(crate) fn random_number() -> (r: u32) {
    rand::thread_rng().gen()
}

} // verus!
