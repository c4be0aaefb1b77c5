//! Polling policy for the control loop. The loop itself lives with the
//! caller, who owns the sensor and display hardware: each cycle it reads one
//! lux sample, ticks every monitor, and sleeps for the interval chosen here
//! from whether any monitor's brightness changed.

use vstd::prelude::*;

verus! {

/// Sleep between cycles while some monitor is still converging.
pub const FAST_POLL_MS: u64 = 100;

/// Sleep between cycles once every monitor is settled.
pub const IDLE_POLL_MS: u64 = 5000;

/// The sleep interval after a polling cycle: poll quickly while any monitor
/// changed brightness this cycle, slowly once all are settled.
pub fn poll_interval_ms(updated: bool) -> (ms: u64)
    ensures
        ms == if updated {
            FAST_POLL_MS
        } else {
            IDLE_POLL_MS
        },
{
    if updated {
        FAST_POLL_MS
    } else {
        IDLE_POLL_MS
    }
}

} // verus!
