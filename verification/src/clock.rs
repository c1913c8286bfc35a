//! The wall clock, in milliseconds since the Unix epoch.

use std::time::{Duration, SystemTime};
use vstd::prelude::*;

verus! {

#[verifier::external_type_specification]
#[verifier::external_body]
pub struct ExSystemTime(std::time::SystemTime);

/// `SystemTime::now` reads the system clock; nothing is claimed of the
/// time that it returns.
pub assume_specification[ SystemTime::now ]() -> (t: SystemTime)
;

/// `Duration::as_millis` gives the whole milliseconds of a duration; a
/// duration is opaque here, so nothing is claimed of the number.
pub assume_specification[ Duration::as_millis ](d: &Duration) -> (ms: u128)
;

/// `SystemTime::duration_since`, taken against `UNIX_EPOCH`: the time that
/// has passed since the epoch, or nothing for a time before it.
#[verifier::external_body]
fn since_epoch(t: &SystemTime) -> (elapsed: Option<Duration>) {
    t.duration_since(std::time::UNIX_EPOCH).ok()
}

/// The timestamp for a number of milliseconds since the epoch: the number
/// itself as far as it fits, its low 64 bits beyond that, and zero for a
/// time before the epoch.
pub open spec fn timestamp_of(elapsed_ms: Option<u128>) -> i64 {
    match elapsed_ms {
        Some(ms) => ms as i64,
        None => 0,
    }
}

/// The timestamp for a number of milliseconds since the epoch.
pub fn timestamp_from(elapsed_ms: Option<u128>) -> (r: i64)
    ensures
        r == timestamp_of(elapsed_ms),
        elapsed_ms matches Some(ms) ==> (ms <= i64::MAX ==> r == ms),
{
    match elapsed_ms {
        Some(ms) => {
            #[verifier::truncate]
            (ms as i64)
        },
        None => 0,
    }
}

/// The current time as a timestamp.
pub fn now_ms() -> (r: i64) {
    let now = SystemTime::now();
    let elapsed = match since_epoch(&now) {
        Some(d) => Some(d.as_millis()),
        None => None,
    };
    timestamp_from(elapsed)
}

} // verus!
