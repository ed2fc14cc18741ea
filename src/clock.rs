//! The local system clock, read as a calendar instant.

use vstd::prelude::*;
use std::time::{SystemTime, UNIX_EPOCH};
use crate::timestamp::{CalendarTime, MAX_CALENDAR_SECONDS};

verus! {

/// The system clock's reading, opaque to the library.
#[verifier::external_type_specification]
#[verifier::external_body]
pub struct ExSystemTime(SystemTime);

/// Relies on std's `SystemTime::now`: the system clock's current reading.
/// Nothing is promised of it: it is the time now.
#[verifier::external_body]
fn system_now() -> (r: SystemTime) {
    SystemTime::now()
}

/// Relies on std's `SystemTime::duration_since(UNIX_EPOCH)`: `Ok` with the
/// time elapsed from 1 Jan 1970 UTC to `t`, or, for an earlier `t`, `Err` with
/// the time by which it is earlier. Each is given as whole seconds and
/// nanoseconds, which `Duration::subsec_nanos` keeps below one billion.
#[verifier::external_body]
fn since_epoch(t: &SystemTime) -> (r: Result<(u64, u32), (u64, u32)>)
    ensures
        r matches Ok(d) ==> d.1 < 1_000_000_000,
        r matches Err(d) ==> d.1 < 1_000_000_000,
{
    match t.duration_since(UNIX_EPOCH) {
        Ok(d) => Ok((d.as_secs(), d.subsec_nanos())),
        Err(e) => Err((e.duration().as_secs(), e.duration().subsec_nanos())),
    }
}

/// Nanoseconds from the calendar epoch of an instant `secs` seconds and
/// `nanos` nanoseconds after it (`after`) or before it.
pub open spec fn signed_elapsed(after: bool, secs: u64, nanos: u32) -> int {
    if after {
        secs * 1_000_000_000 + nanos
    } else {
        -(secs * 1_000_000_000 + nanos)
    }
}

/// The calendar instants that a `CalendarTime` can hold, in nanoseconds from the epoch.
pub open spec fn calendar_range(x: int) -> bool {
    -MAX_CALENDAR_SECONDS * 1_000_000_000 <= x < (MAX_CALENDAR_SECONDS + 1) * 1_000_000_000
}

/// The local system clock.
pub struct Clock;

impl Clock {
    /// The instant `secs` seconds and `nanos` nanoseconds after the calendar
    /// epoch (`after`) or before it, where a `CalendarTime` can hold it.
    pub fn from_elapsed(after: bool, secs: u64, nanos: u32) -> (r: Option<CalendarTime>)
        requires
            nanos < 1_000_000_000,
        ensures
            r.is_some() == calendar_range(signed_elapsed(after, secs, nanos)),
            r matches Some(t) ==> t.wf() && t.instant() == signed_elapsed(after, secs, nanos),
    {
        if secs > MAX_CALENDAR_SECONDS as u64 {
            return None;
        }
        let s: i64 = secs as i64;
        if after {
            CalendarTime::new(s, nanos)
        } else if nanos == 0 {
            CalendarTime::new(-s, 0)
        } else {
            CalendarTime::new(-s - 1, 1_000_000_000 - nanos)
        }
    }

    /// The current time, read from the system clock. `None` only where the
    /// clock reads outside the range of calendar times, more than 300,000
    /// years away from 1970.
    pub fn get() -> (r: Option<CalendarTime>)
        ensures
            r matches Some(t) ==> t.wf(),
    {
        let now = system_now();
        match since_epoch(&now) {
            Ok((secs, nanos)) => Self::from_elapsed(true, secs, nanos),
            Err((secs, nanos)) => Self::from_elapsed(false, secs, nanos),
        }
    }
}

} // verus!
