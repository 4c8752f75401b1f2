//! When the dashboard is redrawn.

use vstd::prelude::*;

verus! {

/// The first hour of the day at which the panel is redrawn.
pub const FIRST_AWAKE_HOUR: u32 = 7;

/// The last hour of the day at which the panel is redrawn.
pub const LAST_AWAKE_HOUR: u32 = 22;

/// Whether a render cycle runs at local hour `hour`; outside the awake
/// hours the panel is left as it is.
pub fn is_awake_hour(hour: u32) -> (r: bool)
    ensures
        r == (FIRST_AWAKE_HOUR <= hour && hour <= LAST_AWAKE_HOUR),
{
    !(hour > LAST_AWAKE_HOUR || hour < FIRST_AWAKE_HOUR)
}

} // verus!
