//! How often idle flows are looked for. Times are in nanoseconds.

use vstd::prelude::*;

verus! {

/// Never more often than every 5 seconds.
pub const MIN_INTERVAL_NS: u128 = 5_000_000_000;

/// At least once a minute.
pub const MAX_INTERVAL_NS: u128 = 60_000_000_000;

/// A tenth of the time that a flow may idle, kept between the two limits.
pub open spec fn interval_for(max_idle_ns: nat) -> nat {
    let candidate = max_idle_ns / 10;
    if candidate < MIN_INTERVAL_NS {
        MIN_INTERVAL_NS as nat
    } else if candidate > MAX_INTERVAL_NS {
        MAX_INTERVAL_NS as nat
    } else {
        candidate
    }
}

pub fn check_interval(max_idle_ns: u128) -> (r: u128)
    ensures
        r == interval_for(max_idle_ns as nat),
{
    let candidate: u128 = max_idle_ns / 10;
    if candidate < MIN_INTERVAL_NS {
        MIN_INTERVAL_NS
    } else if candidate > MAX_INTERVAL_NS {
        MAX_INTERVAL_NS
    } else {
        candidate
    }
}

/// Whether it is time to look again, `elapsed_ns` after the last look.
pub fn check_due(elapsed_ns: u128, max_idle_ns: u128) -> (r: bool)
    ensures
        r == (elapsed_ns >= interval_for(max_idle_ns as nat)),
{
    elapsed_ns >= check_interval(max_idle_ns)
}

/// The interval keeps its limits, and grows with the idle time.
pub proof fn law_interval(a: nat, b: nat)
    requires
        a <= b,
    ensures
        MIN_INTERVAL_NS <= interval_for(a) <= interval_for(b) <= MAX_INTERVAL_NS,
{
}

/// Between the limits, the interval is a tenth of the idle time, rounded down:
/// ten of them fit into it, ten of one nanosecond more do not.
pub proof fn law_interval_is_a_tenth(max_idle_ns: nat)
    ensures
        50_000_000_000 <= max_idle_ns < 600_000_000_010 ==> 10 * interval_for(max_idle_ns)
            <= max_idle_ns < 10 * (interval_for(max_idle_ns) + 1),
        max_idle_ns < 50_000_000_000 ==> interval_for(max_idle_ns) == 5_000_000_000,
        max_idle_ns >= 600_000_000_010 ==> interval_for(max_idle_ns) == 60_000_000_000,
{
}

} // verus!
