//! Points in time, as the store keeps them.

use vstd::prelude::*;

verus! {

/// A point in time on the UTC scale: whole seconds since 1970-01-01 00:00:00
/// and the nanoseconds past that second. A leap second is written as the
/// second before it with `nanos` of one thousand million or more.
#[derive(Clone, Copy, Debug, PartialEq, Eq, Structural)]
pub struct Timestamp {
    pub secs: i64,
    pub nanos: u32,
}

impl Timestamp {
    /// Nanoseconds since the epoch; a leap second counts as a continuation
    /// of the second it is attached to.
    pub open spec fn total_nanos(self) -> int {
        self.secs * 1_000_000_000 + self.nanos
    }

    /// `self` is at or after `other`: seconds decide, then nanoseconds.
    pub open spec fn at_or_after(self, other: Timestamp) -> bool {
        self.secs > other.secs || (self.secs == other.secs && self.nanos >= other.nanos)
    }

    /// `self` is strictly after `other`.
    pub open spec fn after(self, other: Timestamp) -> bool {
        self.secs > other.secs || (self.secs == other.secs && self.nanos > other.nanos)
    }

    /// Whether `self` is at or after `other`.
    pub fn is_at_or_after(&self, other: &Timestamp) -> (b: bool)
        ensures
            b == self.at_or_after(*other),
    {
        self.secs > other.secs || (self.secs == other.secs && self.nanos >= other.nanos)
    }

    /// Whether `self` is strictly after `other`.
    pub fn is_after(&self, other: &Timestamp) -> (b: bool)
        ensures
            b == self.after(*other),
    {
        self.secs > other.secs || (self.secs == other.secs && self.nanos > other.nanos)
    }
}

/// Nanoseconds in a minute.
pub open spec fn nanos_per_minute() -> int {
    60_000_000_000
}

/// At `now`, at least `minutes` minutes have passed since `earlier`.
pub open spec fn minutes_passed(earlier: Timestamp, now: Timestamp, minutes: u64) -> bool {
    now.total_nanos() - earlier.total_nanos() >= minutes * nanos_per_minute()
}

/// Whether at least `minutes` minutes lie between `earlier` and `now`.
pub fn have_minutes_passed(earlier: &Timestamp, now: &Timestamp, minutes: u64) -> (b: bool)
    ensures
        b == minutes_passed(*earlier, *now, minutes),
{
    let secs: i128 = now.secs as i128 - earlier.secs as i128;
    let nanos: i128 = now.nanos as i128 - earlier.nanos as i128;
    let elapsed: i128 = secs * 1_000_000_000 + nanos;
    let threshold: i128 = minutes as i128 * 60_000_000_000;
    elapsed >= threshold
}

/// The current time, read from the system clock by `chrono::Utc::now`.
/// Nothing is known of the value but its shape: the clock never reports a
/// leap second or a time before the epoch. (`Utc::now` panics on a machine
/// whose clock is set before 1970.)
#[verifier::external_body]
pub(crate) fn now() -> (t: Timestamp)
    ensures
        t.secs >= 0,
        t.nanos < 1_000_000_000,
{
    let t = chrono::Utc::now();
    Timestamp { secs: t.timestamp(), nanos: t.timestamp_subsec_nanos() }
}

} // verus!
