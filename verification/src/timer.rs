//! Timer arithmetic: converting the platform counter to microseconds and
//! computing the next preemption deadline. Reading the counter and arming
//! the SBI timer are machine operations and live with the caller.

use vstd::prelude::*;
use crate::config::{CLOCK_FREQ, MICRO_PER_SEC, TICKS_PER_SEC};

verus! {

/// Microseconds since boot, given the current counter value:
/// `ticks * 1_000_000 / CLOCK_FREQ`, computed without overflowing.
pub fn get_time_us(ticks: u64) -> (r: u64)
    ensures
        r == ticks * MICRO_PER_SEC / (CLOCK_FREQ as int),
{
    let whole = ticks / CLOCK_FREQ;
    let rest = ticks % CLOCK_FREQ;
    proof {
        let t = ticks as int;
        let c = CLOCK_FREQ as int;
        let m = MICRO_PER_SEC as int;
        assert(t == (t / c) * c + t % c && 0 <= t % c < c) by (nonlinear_arith)
            requires t >= 0, c > 0;
        assert(((t / c) * c + t % c) * m == (t / c) * (c * m) + (t % c) * m) by (
        nonlinear_arith);
        assert(((t / c) * (c * m) + (t % c) * m) / c == (t / c) * m + (t % c) * m / c) by (
        nonlinear_arith)
            requires c > 0, m > 0, t / c >= 0, t % c >= 0;
        assert((t / c) * m <= t) by (nonlinear_arith)
            requires t >= 0, c >= m, m > 0, t / c >= 0, t == (t / c) * c + t % c,
                0 <= t % c;
        assert((t % c) * m < c * m) by (nonlinear_arith)
            requires 0 <= t % c < c, m > 0;
    }
    whole * MICRO_PER_SEC + rest * MICRO_PER_SEC / CLOCK_FREQ
}

/// The deadline to arm the SBI timer with for the next 10 ms tick, given
/// the current counter value.
pub fn set_next_trigger(now: u64) -> (r: u64)
    requires
        now <= u64::MAX - CLOCK_FREQ / TICKS_PER_SEC,
    ensures
        r == now + CLOCK_FREQ / TICKS_PER_SEC,
{
    now + CLOCK_FREQ / TICKS_PER_SEC
}

} // verus!
