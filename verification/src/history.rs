//! The retention rule of history rotation: which saved reports are old
//! enough to be removed.

use vstd::prelude::*;

verus! {

/// Seconds in one day.
pub const SECS_PER_DAY: u64 = 86400;

/// Whether a history file whose last modification lies `elapsed_secs` in the
/// past falls outside a retention window of `rotate_days` days and is to be
/// removed during rotation.
pub fn expired(elapsed_secs: u64, rotate_days: u32) -> (r: bool)
    ensures
        r == (elapsed_secs > rotate_days as u64 * SECS_PER_DAY),
{
    elapsed_secs > (rotate_days as u64) * SECS_PER_DAY
}

} // verus!
