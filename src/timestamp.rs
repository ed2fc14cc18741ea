//! Calendar instants and protocol timestamps, and the conversion between them.

use vstd::prelude::*;

verus! {

/// Seconds from the protocol epoch (1 Jan 1900 UTC) to the calendar epoch (1 Jan 1970 UTC).
pub const PROTOCOL_TO_CALENDAR_SECONDS: i64 = 2_208_988_800;

/// Nanoseconds in one second.
pub const NANOS_PER_SECOND: u32 = 1_000_000_000;

/// Bound on the magnitude of calendar seconds: every date of years up to about
/// 262,000 before or after the common era lies within it.
pub const MAX_CALENDAR_SECONDS: i64 = 10_000_000_000_000;

/// 2^32: the protocol's seconds wrap at it, and it is the denominator of the fraction field.
pub open spec fn two_pow_32() -> int {
    4_294_967_296
}

/// An instant as whole seconds since 1 Jan 1970 UTC and nanoseconds into that second.
#[derive(Clone, Copy, Debug, PartialEq, Eq, Structural)]
pub struct CalendarTime {
    pub secs: i64,
    pub nanos: u32,
}

impl CalendarTime {
    /// The nanoseconds lie within the second and the seconds within the calendar's range.
    pub open spec fn wf(self) -> bool {
        &&& -MAX_CALENDAR_SECONDS <= self.secs <= MAX_CALENDAR_SECONDS
        &&& self.nanos < NANOS_PER_SECOND
    }

    /// Nanoseconds since the calendar epoch.
    pub open spec fn instant(self) -> int {
        self.secs * 1_000_000_000 + self.nanos
    }

    /// The instant `secs` seconds and `nanos` nanoseconds after the calendar epoch,
    /// where these are in range.
    pub fn new(secs: i64, nanos: u32) -> (r: Option<CalendarTime>)
        ensures
            r == (if (CalendarTime { secs, nanos }).wf() {
                Some(CalendarTime { secs, nanos })
            } else {
                None
            }),
    {
        if -MAX_CALENDAR_SECONDS <= secs && secs <= MAX_CALENDAR_SECONDS && nanos < NANOS_PER_SECOND {
            Some(CalendarTime { secs, nanos })
        } else {
            None
        }
    }

    /// Nanoseconds since the calendar epoch.
    pub fn instant_nanos(&self) -> (r: i128)
        requires
            self.wf(),
        ensures
            r == self.instant(),
    {
        self.secs as i128 * 1_000_000_000 + self.nanos as i128
    }
}

/// Nanoseconds in a fraction field `f` (in units of 2^-32 s), rounded down.
pub open spec fn fraction_to_nanos(f: int) -> int {
    f * 1_000_000_000 / two_pow_32()
}

/// The fraction field for `n` nanoseconds, rounded up, so that the protocol
/// time is never earlier than the calendar time.
pub open spec fn nanos_to_fraction(n: int) -> int {
    (n * two_pow_32() + 999_999_999) / 1_000_000_000
}

/// A protocol timestamp: seconds since 1 Jan 1900 UTC, modulo 2^32, and a
/// binary fraction of a second (value / 2^32 seconds).
#[derive(Clone, Copy, Debug, PartialEq, Eq, Structural)]
pub struct NTPTimestamp {
    pub seconds: u32,
    pub fraction: u32,
}

impl NTPTimestamp {
    /// The calendar instant that a protocol timestamp of the current era denotes.
    pub open spec fn to_calendar_spec(self) -> CalendarTime {
        CalendarTime {
            secs: (self.seconds - PROTOCOL_TO_CALENDAR_SECONDS) as i64,
            nanos: fraction_to_nanos(self.fraction as int) as u32,
        }
    }

    /// The protocol timestamp of a calendar instant; the seconds wrap modulo 2^32.
    pub open spec fn from_calendar_spec(t: CalendarTime) -> NTPTimestamp {
        NTPTimestamp {
            seconds: ((t.secs + PROTOCOL_TO_CALENDAR_SECONDS) % two_pow_32()) as u32,
            fraction: nanos_to_fraction(t.nanos as int) as u32,
        }
    }

    /// The calendar instant of this timestamp, reading its seconds in the era
    /// that starts at 1 Jan 1900.
    pub fn to_calendar(&self) -> (r: CalendarTime)
        ensures
            r == self.to_calendar_spec(),
            r.secs == self.seconds - PROTOCOL_TO_CALENDAR_SECONDS,
            r.nanos == fraction_to_nanos(self.fraction as int),
            r.wf(),
    {
        let secs: i64 = self.seconds as i64 - PROTOCOL_TO_CALENDAR_SECONDS;
        let f: u64 = self.fraction as u64;
        assert(f * 1_000_000_000 < 1_000_000_000 * two_pow_32()) by (nonlinear_arith)
            requires
                f < two_pow_32(),
        ;
        let nanos: u64 = f * 1_000_000_000 / 4_294_967_296;
        assert(nanos < 1_000_000_000) by (nonlinear_arith)
            requires
                nanos == f * 1_000_000_000 / 4_294_967_296,
                f < 4_294_967_296,
        ;
        CalendarTime { secs, nanos: nanos as u32 }
    }

    /// The protocol timestamp of a calendar instant. The seconds wrap modulo
    /// 2^32; the fraction is rounded up to the next 2^-32 s.
    pub fn from_calendar(t: CalendarTime) -> (r: NTPTimestamp)
        requires
            t.wf(),
        ensures
            r == Self::from_calendar_spec(t),
            r.seconds == (t.secs + PROTOCOL_TO_CALENDAR_SECONDS) % two_pow_32(),
            r.fraction == nanos_to_fraction(t.nanos as int),
    {
        // 2^44 is a multiple of 2^32 that makes the sum non-negative.
        let shifted: i64 = t.secs + PROTOCOL_TO_CALENDAR_SECONDS + 17_592_186_044_416;
        let s: u64 = shifted as u64 % 4_294_967_296;
        assert(s == (t.secs + PROTOCOL_TO_CALENDAR_SECONDS) % two_pow_32()) by (nonlinear_arith)
            requires
                s == shifted % 4_294_967_296,
                shifted == t.secs + PROTOCOL_TO_CALENDAR_SECONDS + 4096 * 4_294_967_296,
                shifted >= 0,
        ;
        let n: u64 = t.nanos as u64;
        let fraction: u64 = (n * 4_294_967_296 + 999_999_999) / 1_000_000_000;
        assert(fraction < 4_294_967_296) by (nonlinear_arith)
            requires
                fraction == (n * 4_294_967_296 + 999_999_999) / 1_000_000_000,
                n < 1_000_000_000,
        ;
        NTPTimestamp { seconds: s as u32, fraction: fraction as u32 }
    }
}

/// Converting a calendar instant of the protocol's current era (1900 to
/// early 2036) to a protocol timestamp and back gives the same instant, to
/// the nanosecond.
pub proof fn lemma_calendar_round_trip(t: CalendarTime)
    requires
        t.wf(),
        0 <= t.secs + PROTOCOL_TO_CALENDAR_SECONDS < two_pow_32(),
    ensures
        NTPTimestamp::from_calendar_spec(t).to_calendar_spec() == t,
{
    let p = NTPTimestamp::from_calendar_spec(t);
    let n = t.nanos as int;
    let f = nanos_to_fraction(n);
    assert(0 <= f < two_pow_32()) by (nonlinear_arith)
        requires
            f == (n * 4_294_967_296 + 999_999_999) / 1_000_000_000,
            0 <= n < 1_000_000_000,
    ;
    assert(fraction_to_nanos(f) == n) by (nonlinear_arith)
        requires
            f == (n * 4_294_967_296 + 999_999_999) / 1_000_000_000,
            0 <= n < 1_000_000_000,
    ;
    assert(p.seconds == t.secs + PROTOCOL_TO_CALENDAR_SECONDS);
}

} // verus!
