//! Reconnect backoff policy for the client. Delays are in milliseconds.

use vstd::arithmetic::power2::{lemma_pow2_pos, lemma_pow2_unfold, pow2};
use vstd::prelude::*;

verus! {

/// The first delay.
pub const FIRST_DELAY: u64 = 250;

/// The longest delay.
pub const MAX_DELAY: u64 = 5000;

/// The delay that follows `d`: twice as long, up to the longest.
pub open spec fn following(d: u64) -> u64 {
    if 2 * d < MAX_DELAY {
        (2 * d) as u64
    } else {
        MAX_DELAY
    }
}

/// Delay number `k` after a reset, counting from zero.
pub open spec fn scheduled(k: nat) -> u64
    decreases k,
{
    if k == 0 {
        FIRST_DELAY
    } else {
        following(scheduled((k - 1) as nat))
    }
}

pub struct Backoff {
    cur: u64,
    max: u64,
}

impl View for Backoff {
    type V = u64;

    /// The delay that comes next.
    closed spec fn view(&self) -> u64 {
        self.cur
    }
}

impl Backoff {
    #[verifier::type_invariant]
    spec fn wf(self) -> bool {
        FIRST_DELAY <= self.cur <= self.max == MAX_DELAY
    }

    pub fn new() -> (b: Self)
        ensures
            b@ == FIRST_DELAY,
    {
        Backoff { cur: FIRST_DELAY, max: MAX_DELAY }
    }

    pub fn reset(&mut self)
        ensures
            final(self)@ == FIRST_DELAY,
    {
        proof {
            use_type_invariant(&*self);
        }
        self.cur = FIRST_DELAY;
    }

    /// Current delay, then double it (capped).
    pub fn next_delay(&mut self) -> (d: u64)
        ensures
            d == old(self)@,
            final(self)@ == following(old(self)@),
            FIRST_DELAY <= d <= MAX_DELAY,
    {
        proof {
            use_type_invariant(&*self);
        }
        let d = self.cur;
        let twice = d * 2;
        if twice < self.max {
            self.cur = twice;
        } else {
            self.cur = self.max;
        }
        d
    }
}

/// The delays double from the first until they reach the longest, and stay
/// there.
pub proof fn law_delays_double_up_to_the_longest(k: nat)
    ensures
        FIRST_DELAY * pow2(k) < MAX_DELAY ==> scheduled(k) == FIRST_DELAY * pow2(k),
        FIRST_DELAY * pow2(k) >= MAX_DELAY ==> scheduled(k) == MAX_DELAY,
    decreases k,
{
    lemma_pow2_pos(k);
    if k == 0 {
        vstd::arithmetic::power2::lemma2_to64();
    } else {
        law_delays_double_up_to_the_longest((k - 1) as nat);
        lemma_pow2_unfold(k);
        lemma_pow2_pos((k - 1) as nat);
    }
}

} // verus!
