//! Periodic telemetry logging: the tick rule that decides which configured
//! categories fire. The timer loop, the collectors and the log sink are the
//! caller's; the library decides, from the tick counter and a category's
//! interval, whether that category is logged now.

use vstd::prelude::*;

verus! {

/// Whether a category with the given interval fires at this tick: once every
/// `interval` ticks, starting at tick zero. Intervals are validated to be at
/// least one second before they reach the recorder.
pub fn should_log(counter: u64, interval: u64) -> (r: bool)
    requires
        interval > 0,
    ensures
        r == (counter % interval == 0),
{
    counter % interval == 0
}

} // verus!
