//! Counters that start over when they are full.
use vstd::prelude::*;

verus! {

/// `n + 1`, modulo 2^64.
pub open spec fn counted(n: u64) -> u64 {
    if n == u64::MAX {
        0
    } else {
        (n + 1) as u64
    }
}

/// A counter goes up by one, and starts over at 2^64.
pub proof fn counter_goes_up_by_one(n: u64)
    ensures
        counted(n) as int == (n + 1) % 0x1_0000_0000_0000_0000,
{
}

/// Starting over does not disturb what happens every 4th, 16th, 64th or 128th time.
pub proof fn counter_keeps_its_periods(n: u64)
    ensures
        counted(n) as int % 4 == (n + 1) % 4,
        counted(n) as int % 16 == (n + 1) % 16,
        counted(n) as int % 64 == (n + 1) % 64,
        counted(n) as int % 128 == (n + 1) % 128,
{
}

} // verus!
