//! One request/response exchange: its four timestamps, and the round-trip
//! delay and clock offset derived from them.

use vstd::prelude::*;
use crate::message::{NTPMessage, ParseError, timestamp_at};
use crate::timestamp::CalendarTime;

verus! {

/// `a / b` rounded toward zero, for `b > 0`.
pub open spec fn trunc_div(a: int, b: int) -> int {
    if a >= 0 {
        a / b
    } else {
        -((-a) / b)
    }
}

/// Bound on the magnitude of the instant of a well-formed calendar time, in nanoseconds.
pub open spec fn max_instant() -> int {
    10_000_000_001_000_000_000_000
}

proof fn lemma_instant_bound(t: CalendarTime)
    requires
        t.wf(),
    ensures
        -max_instant() <= t.instant() <= max_instant(),
{
}

pub(crate) proof fn lemma_trunc_div_bound(a: int, b: int, k: int)
    requires
        b > 0,
        k >= 0,
        -(k * b) <= a <= k * b,
    ensures
        -k <= trunc_div(a, b) <= k,
{
    if a >= 0 {
        assert(a / b <= k) by (nonlinear_arith)
            requires
                0 <= a <= k * b,
                b > 0,
        ;
        assert(a / b >= 0) by (nonlinear_arith)
            requires
                0 <= a,
                b > 0,
        ;
    } else {
        assert((-a) / b <= k) by (nonlinear_arith)
            requires
                0 <= -a <= k * b,
                b > 0,
        ;
        assert((-a) / b >= 0) by (nonlinear_arith)
            requires
                0 <= -a,
                b > 0,
        ;
    }
}

/// `a / b` rounded toward zero.
pub(crate) fn trunc_div_exec(a: i128, b: i128) -> (r: i128)
    requires
        b > 0,
        a > i128::MIN,
    ensures
        r == trunc_div(a as int, b as int),
{
    if a >= 0 {
        a / b
    } else {
        let m: i128 = -a;
        -(m / b)
    }
}

/// The four timestamps of one exchange, as calendar instants.
#[derive(Clone, Copy, Debug, PartialEq, Eq, Structural)]
pub struct NTPResult {
    /// Local time when the request was sent.
    pub t1: CalendarTime,
    /// Server time when the request was received.
    pub t2: CalendarTime,
    /// Server time when the response was sent.
    pub t3: CalendarTime,
    /// Local time when the response was received.
    pub t4: CalendarTime,
}

impl NTPResult {
    pub open spec fn wf(self) -> bool {
        self.t1.wf() && self.t2.wf() && self.t3.wf() && self.t4.wf()
    }

    /// `(t4 - t1) - (t3 - t2)` in nanoseconds.
    pub open spec fn delay_nanos(self) -> int {
        (self.t4.instant() - self.t1.instant()) - (self.t3.instant() - self.t2.instant())
    }

    /// `(t2 - t1) + (t3 - t4)` in nanoseconds: twice the offset.
    pub open spec fn offset_nanos_twice(self) -> int {
        (self.t2.instant() - self.t1.instant()) + (self.t3.instant() - self.t4.instant())
    }

    /// Round-trip delay in whole milliseconds, rounded toward zero.
    pub open spec fn delay_ms(self) -> int {
        trunc_div(self.delay_nanos(), 1_000_000)
    }

    /// Clock offset `((t2 - t1) + (t3 - t4)) / 2` in whole milliseconds,
    /// rounded toward zero; positive when the local clock is behind.
    pub open spec fn offset_ms(self) -> int {
        trunc_div(self.offset_nanos_twice(), 2_000_000)
    }

    /// The same exchange with the local and the remote side exchanged.
    pub open spec fn swapped(self) -> NTPResult {
        NTPResult { t1: self.t2, t2: self.t1, t3: self.t4, t4: self.t3 }
    }

    /// The exchange whose local times are `t1` and `t4` and whose server
    /// times are the receive and transmit timestamps of `response`. Fails
    /// with `Truncated` when the response is shorter than 48 bytes.
    pub fn from_response(t1: CalendarTime, response: &NTPMessage, t4: CalendarTime) -> (r: Result<
        NTPResult,
        ParseError,
    >)
        requires
            t1.wf(),
            t4.wf(),
        ensures
            response.data@.len() >= 48 ==> r == Ok::<NTPResult, ParseError>(
                NTPResult {
                    t1,
                    t2: timestamp_at(response.data@, 32).to_calendar_spec(),
                    t3: timestamp_at(response.data@, 40).to_calendar_spec(),
                    t4,
                },
            ),
            response.data@.len() < 48 ==> r == Err::<NTPResult, ParseError>(ParseError::Truncated),
            r matches Ok(res) ==> res.wf(),
    {
        let rx = match response.rx_time() {
            Ok(v) => v,
            Err(e) => return Err(e),
        };
        let tx = match response.tx_time() {
            Ok(v) => v,
            Err(e) => return Err(e),
        };
        Ok(NTPResult { t1, t2: rx.to_calendar(), t3: tx.to_calendar(), t4 })
    }

    /// Round-trip delay `(t4 - t1) - (t3 - t2)` in milliseconds, rounded
    /// toward zero. It is not clamped: asymmetric paths may make it negative.
    pub fn delay(&self) -> (r: i64)
        requires
            self.wf(),
        ensures
            r == self.delay_ms(),
            -MAX_DELAY_MS <= r <= MAX_DELAY_MS,
    {
        proof {
            self.lemma_estimate_bounds();
        }
        let d: i128 = (self.t4.instant_nanos() - self.t1.instant_nanos()) - (
        self.t3.instant_nanos() - self.t2.instant_nanos());
        trunc_div_exec(d, 1_000_000) as i64
    }

    /// Clock offset `((t2 - t1) + (t3 - t4)) / 2` in milliseconds, rounded
    /// toward zero: the signed correction to add to the local clock
    /// (positive when the local clock is behind).
    pub fn offset(&self) -> (r: i64)
        requires
            self.wf(),
        ensures
            r == self.offset_ms(),
            -MAX_OFFSET_MS <= r <= MAX_OFFSET_MS,
    {
        proof {
            self.lemma_estimate_bounds();
        }
        let s: i128 = (self.t2.instant_nanos() - self.t1.instant_nanos()) + (
        self.t3.instant_nanos() - self.t4.instant_nanos());
        trunc_div_exec(s, 2_000_000) as i64
    }

    proof fn lemma_estimate_bounds(self)
        requires
            self.wf(),
        ensures
            -MAX_DELAY_MS <= self.delay_ms() <= MAX_DELAY_MS,
            -MAX_OFFSET_MS <= self.offset_ms() <= MAX_OFFSET_MS,
    {
        lemma_instant_bound(self.t1);
        lemma_instant_bound(self.t2);
        lemma_instant_bound(self.t3);
        lemma_instant_bound(self.t4);
        lemma_trunc_div_bound(self.delay_nanos(), 1_000_000, MAX_DELAY_MS as int);
        lemma_trunc_div_bound(self.offset_nanos_twice(), 2_000_000, MAX_OFFSET_MS as int);
    }
}

/// Bound on the magnitude of the delay of well-formed timestamps, in milliseconds.
pub const MAX_DELAY_MS: i64 = 50_000_000_000_000_000;

/// Bound on the magnitude of the offset of well-formed timestamps, in milliseconds.
pub const MAX_OFFSET_MS: i64 = 25_000_000_000_000_000;

/// Perfectly synchronised clocks with zero latency (all four timestamps the
/// same instant) give zero offset and zero delay.
pub proof fn lemma_synchronized_exchange(r: NTPResult)
    requires
        r.t1.instant() == r.t2.instant(),
        r.t2.instant() == r.t3.instant(),
        r.t3.instant() == r.t4.instant(),
    ensures
        r.offset_ms() == 0,
        r.delay_ms() == 0,
{
}

/// Exchanging the roles of the local and the remote clock flips the sign of
/// the offset and of the delay.
pub proof fn lemma_swapped_roles(r: NTPResult)
    ensures
        r.swapped().offset_ms() == -r.offset_ms(),
        r.swapped().delay_ms() == -r.delay_ms(),
{
    assert(r.swapped().offset_nanos_twice() == -r.offset_nanos_twice());
    assert(r.swapped().delay_nanos() == -r.delay_nanos());
}

proof fn lemma_trunc_div_halves(x: int)
    ensures
        trunc_div(2 * x, 2_000_000) == trunc_div(x, 1_000_000),
{
    if x >= 0 {
        assert((2 * x) / 2_000_000 == x / 1_000_000) by (nonlinear_arith)
            requires
                x >= 0,
        ;
    } else {
        assert((-(2 * x)) / 2_000_000 == (-x) / 1_000_000) by (nonlinear_arith)
            requires
                x < 0,
        ;
    }
}

/// Where the server's clock reads `lead` nanoseconds ahead at both of its
/// timestamps (`t2 = t1 + lead`, `t3 = t4 + lead`) and the local times agree
/// (`t1 = t4`), the offset is `lead` in whole milliseconds, rounded toward
/// zero: positive for a lead of a millisecond or more, and negative, of the
/// same size, once the local and remote roles are exchanged.
pub proof fn lemma_remote_ahead(r: NTPResult, lead: int)
    requires
        r.t2.instant() == r.t1.instant() + lead,
        r.t3.instant() == r.t4.instant() + lead,
        r.t1.instant() == r.t4.instant(),
    ensures
        r.offset_ms() == trunc_div(lead, 1_000_000),
        lead >= 1_000_000 ==> r.offset_ms() > 0,
        r.swapped().offset_ms() == -r.offset_ms(),
{
    assert(r.offset_nanos_twice() == 2 * lead);
    lemma_trunc_div_halves(lead);
    if lead >= 1_000_000 {
        assert(lead / 1_000_000 >= 1) by (nonlinear_arith)
            requires
                lead >= 1_000_000,
        ;
    }
    lemma_swapped_roles(r);
}

/// On a path with the same latency `latency` each way, to a server whose
/// clock runs `skew` nanoseconds ahead and which holds the request for
/// `hold` nanoseconds, the delay is the round-trip latency and the offset is
/// the skew, each in whole milliseconds rounded toward zero.
pub proof fn lemma_symmetric_path(r: NTPResult, latency: int, skew: int, hold: int)
    requires
        r.t2.instant() == r.t1.instant() + latency + skew,
        r.t3.instant() == r.t2.instant() + hold,
        r.t4.instant() == r.t1.instant() + latency + hold + latency,
    ensures
        r.delay_ms() == trunc_div(2 * latency, 1_000_000),
        r.offset_ms() == trunc_div(skew, 1_000_000),
{
    assert(r.offset_nanos_twice() == 2 * skew);
    assert(r.delay_nanos() == 2 * latency);
    lemma_trunc_div_halves(skew);
}

} // verus!
