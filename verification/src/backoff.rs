//! Reconnect back-off.
use vstd::arithmetic::power::pow;
use vstd::arithmetic::power2::{lemma_pow2_unfold, pow2};
use vstd::prelude::*;

verus! {

/// Seconds to wait after the first failed reconnect attempt.
pub const INITIAL_RECONNECT_DELAY_SECS: u64 = 1;

/// Longest wait between reconnect attempts, in seconds.
pub const MAX_RECONNECT_DELAY_SECS: u64 = 60;

/// The wait after a failed attempt that followed a wait of `delay` seconds:
/// double it, but no more than the longest wait.
pub open spec fn next_delay(delay: nat) -> nat {
    if 2 * delay < MAX_RECONNECT_DELAY_SECS {
        2 * delay
    } else {
        MAX_RECONNECT_DELAY_SECS as nat
    }
}

/// The wait after `k + 1` failed attempts in a row.
pub open spec fn delay_after(k: nat) -> nat
    decreases k,
{
    if k == 0 {
        INITIAL_RECONNECT_DELAY_SECS as nat
    } else {
        next_delay(delay_after((k - 1) as nat))
    }
}

/// The wait after a failed reconnect attempt that followed a wait of
/// `delay_secs` seconds.
pub fn next_reconnect_delay(delay_secs: u64) -> (d: u64)
    requires
        delay_secs <= u64::MAX / 2,
    ensures
        d == next_delay(delay_secs as nat),
{
    let doubled = delay_secs * 2;
    if doubled < MAX_RECONNECT_DELAY_SECS {
        doubled
    } else {
        MAX_RECONNECT_DELAY_SECS
    }
}

/// The waits grow as powers of two from one second until they reach the
/// sixty-second ceiling, and stay there.
pub proof fn lemma_delay_after(k: nat)
    ensures
        delay_after(k) == if pow2(k) < MAX_RECONNECT_DELAY_SECS {
            pow2(k)
        } else {
            MAX_RECONNECT_DELAY_SECS as nat
        },
        INITIAL_RECONNECT_DELAY_SECS <= delay_after(k) <= MAX_RECONNECT_DELAY_SECS,
    decreases k,
{
    if k == 0 {
        reveal(pow);
        assert(pow(2, 0) == 1);
    } else {
        lemma_delay_after((k - 1) as nat);
        lemma_pow2_unfold(k);
    }
}

} // verus!
