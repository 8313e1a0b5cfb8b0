//! Wall-clock time as the output manager uses it.
//!
//! A bundle is stamped with the instant at which its outputs were
//! encumbered, and it has timed out once that instant plus the timeout
//! period lies before the present. Instants and periods are held as plain
//! integers; reading the clock and checking a period against the range of
//! representable spans are left to `chrono`.

use core::time::Duration;
use vstd::prelude::*;

verus! {

/// The number of nanoseconds in a second.
pub const NANOS_PER_SEC: u32 = 1_000_000_000;

/// The whole seconds of the longest period the store's clock arithmetic
/// can represent, which is `i64::MAX` milliseconds.
pub const MAX_PERIOD_SECS: u64 = 9_223_372_036_854_775;

/// The nanoseconds beyond [`MAX_PERIOD_SECS`] of that longest period.
pub const MAX_PERIOD_SUBSEC_NANOS: u32 = 807_000_000;

/// An instant: seconds since the Unix epoch and the nanoseconds since the
/// last whole second.
#[derive(Clone, Copy, Debug, PartialEq, Eq, Structural)]
pub struct Timestamp {
    pub secs: i64,
    pub nanos: u32,
}

impl Timestamp {
    /// The instant as a number of nanoseconds since the Unix epoch.
    pub open spec fn nanos_since_epoch(self) -> int {
        self.secs * NANOS_PER_SEC + self.nanos
    }
}

/// The longest representable period, in nanoseconds.
pub open spec fn max_period_nanos() -> int {
    MAX_PERIOD_SECS * NANOS_PER_SEC + MAX_PERIOD_SUBSEC_NANOS
}

/// Whether a period of this many nanoseconds can be represented.
pub open spec fn period_in_range(period_nanos: int) -> bool {
    period_nanos <= max_period_nanos()
}

/// Whether something made at `created` has outlived `period_nanos` by the
/// instant `now`.
pub open spec fn has_timed_out(created: Timestamp, period_nanos: int, now: Timestamp) -> bool {
    created.nanos_since_epoch() + period_nanos < now.nanos_since_epoch()
}

/// The error of `chrono` for a span of time that it cannot represent.
#[verifier::external_type_specification]
#[verifier::external_body]
pub struct ExOutOfRangeError(chrono::OutOfRangeError);

/// The length of a duration in nanoseconds: what
/// `core::time::Duration::as_nanos` returns for it.
pub uninterp spec fn duration_nanos(duration: Duration) -> u128;

/// `core::time::Duration::as_nanos`: the length of a duration in
/// nanoseconds. The number depends on the duration alone, and is given the
/// name [`duration_nanos`]; nothing else is claimed of it.
pub assume_specification[ Duration::as_nanos ](duration: &Duration) -> (nanos: u128)
    ensures
        nanos == duration_nanos(*duration),
;

/// `chrono::Utc::now`, as a naive UTC date and time, split into the seconds
/// since the Unix epoch and the nanoseconds of the running second. Nothing is
/// claimed of the instant that comes back. `chrono` gives up on a system
/// clock set before 1970.
#[verifier::external_body]
pub(crate) fn utc_now() -> (now: Timestamp) {
    let now = chrono::Utc::now().naive_utc().and_utc();
    Timestamp { secs: now.timestamp(), nanos: now.timestamp_subsec_nanos() }
}

/// `chrono::Duration::from_std` on a duration of `secs` seconds and `nanos`
/// nanoseconds, the result split into whole seconds and nanoseconds.
///
/// `chrono` takes the durations of up to `i64::MAX` milliseconds, which is
/// [`MAX_PERIOD_SECS`] seconds and [`MAX_PERIOD_SUBSEC_NANOS`] nanoseconds,
/// and represents them exactly; it refuses every longer one.
#[verifier::external_body]
pub(crate) fn chrono_duration_from_std(secs: u64, nanos: u32) -> (converted: Result<
    (i64, i32),
    chrono::OutOfRangeError,
>)
    requires
        nanos < NANOS_PER_SEC,
    ensures
        converted is Ok <==> period_in_range(secs * NANOS_PER_SEC + nanos),
        converted matches Ok((s, n)) ==> s == secs && n == nanos,
{
    match chrono::Duration::from_std(Duration::new(secs, nanos)) {
        Ok(span) => Ok((span.num_seconds(), span.subsec_nanos())),
        Err(error) => Err(error),
    }
}

/// Whether a period is one the clock arithmetic can represent: `Some` of its
/// length in nanoseconds if it is, `None` if it is too long.
pub fn representable_period(period_nanos: u128) -> (checked: Option<u128>)
    ensures
        period_in_range(period_nanos as int) ==> checked == Some(period_nanos),
        !period_in_range(period_nanos as int) ==> checked is None,
{
    let secs: u128 = period_nanos / 1_000_000_000;
    let nanos: u128 = period_nanos % 1_000_000_000;
    if secs > u64::MAX as u128 {
        return None;
    }
    match chrono_duration_from_std(secs as u64, nanos as u32) {
        Ok((s, n)) => Some((s as u128) * 1_000_000_000 + (n as u128)),
        Err(_) => None,
    }
}

/// Whether something made at `created` has outlived `period_nanos`
/// nanoseconds by the instant `now`.
pub fn timed_out(created: Timestamp, period_nanos: u128, now: Timestamp) -> (out: bool)
    ensures
        out == has_timed_out(created, period_nanos as int, now),
{
    let made: i128 = (created.secs as i128) * 1_000_000_000 + (created.nanos as i128);
    let present: i128 = (now.secs as i128) * 1_000_000_000 + (now.nanos as i128);
    if present <= made {
        false
    } else {
        ((present - made) as u128) > period_nanos
    }
}

} // verus!
