//! Wall-clock seconds since the Unix epoch, as the store records them.

use std::time::{SystemTime, UNIX_EPOCH};

use vstd::prelude::*;

verus! {

/// `SystemTime::now().duration_since(UNIX_EPOCH)` in whole seconds;
/// `None` when the clock reads before the epoch. The clock is read, so
/// nothing is claimed of the value.
#[verifier::external_body]
fn seconds_since_epoch() -> Option<u64> {
    SystemTime::now().duration_since(UNIX_EPOCH).ok().map(|d| d.as_secs())
}

/// The stored timestamp for a clock reading: the seconds, saturating at
/// `i64::MAX`, or 0 for a clock before the epoch.
pub open spec fn stamp_of(since: Option<u64>) -> i64 {
    match since {
        Some(s) => if s > i64::MAX as u64 { i64::MAX } else { s as i64 },
        None => 0,
    }
}

/// [`stamp_of`] in executable form.
pub fn epoch_secs_from(since: Option<u64>) -> (t: i64)
    ensures
        t == stamp_of(since),
{
    match since {
        Some(s) => if s > i64::MAX as u64 { i64::MAX } else { s as i64 },
        None => 0,
    }
}

/// Current Unix time in seconds, saturating at `i64::MAX`; 0 when the
/// clock reads before the epoch.
pub fn epoch_secs() -> (t: i64)
    ensures
        t >= 0,
{
    let since = seconds_since_epoch();
    epoch_secs_from(since)
}

} // verus!
