//! The tracking clock: a monotonic 32-bit tick with wraparound-safe
//! comparison.
//!
//! Ticks are recorded when components are inserted, modified, deleted or
//! removed. Because the counter wraps, ticks are compared circularly: a tick
//! counts as at-or-after a cutoff exactly when it lies within half the
//! counter range ahead of it.

use vstd::prelude::*;

verus! {

/// Half of the 32-bit counter range; the window of the circular comparison.
pub const HALF_TRACKING_RANGE: u32 = u32::MAX / 2;

/// Tracking kind flag: insertions.
pub const TRACK_INSERTION: u32 = 1;

/// Tracking kind flag: modifications.
pub const TRACK_MODIFICATION: u32 = 2;

/// Tracking kind flag: deletions.
pub const TRACK_DELETION: u32 = 4;

/// Tracking kind flag: removals.
pub const TRACK_REMOVAL: u32 = 8;

/// A point of the tracking clock, used to trim tracking logs.
#[derive(Clone, Copy, PartialEq, Eq, Structural, Debug)]
pub struct TrackingTimestamp(pub u32);

/// `a - b` on the circle of 32-bit ticks.
pub open spec fn wrapping_distance(a: u32, b: u32) -> u32 {
    if a >= b {
        (a - b) as u32
    } else {
        (a - b + 0x1_0000_0000) as u32
    }
}

/// Whether `timestamp` lies in the circular interval that starts at `last`
/// and ends at `current`, measured forward from `last`.
pub open spec fn is_track_within_bounds_spec(timestamp: u32, last: u32, current: u32) -> bool {
    wrapping_distance(timestamp, last) <= wrapping_distance(current, last)
}

/// Whether a log entry stamped at `tick` is kept when trimming with `cutoff`:
/// it is kept exactly when `tick` is at or after `cutoff`, no more than half
/// the counter range ahead of it.
pub open spec fn is_entry_kept(tick: u32, cutoff: u32) -> bool {
    wrapping_distance(tick, cutoff) <= HALF_TRACKING_RANGE
}

/// Circular interval test for ticks: whether `timestamp` lies between `last`
/// and `current`, both measured forward from `last` on the wrapping counter.
pub fn is_track_within_bounds(timestamp: u32, last: u32, current: u32) -> (r: bool)
    ensures
        r == is_track_within_bounds_spec(timestamp, last, current),
{
    let to_timestamp = timestamp.wrapping_sub(last);
    let to_current = current.wrapping_sub(last);
    to_timestamp <= to_current
}

/// Trimming a log with cutoff `c` keeps an entry at tick `t` exactly when
/// `t` is younger than the cutoff in the wraparound sense: the distance from
/// `c` forward to `t` is at most half the counter range. This is the interval
/// test with the window `[t - half range, t]`.
pub proof fn lemma_kept_is_within_window(t: u32, c: u32)
    ensures
        is_track_within_bounds_spec(c, wrapping_distance(t, HALF_TRACKING_RANGE), t)
            == is_entry_kept(t, c),
{
}

} // verus!
