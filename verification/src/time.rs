//! Moments and spans of time as plain numbers, so that every decision that
//! depends on a clock takes the clock's reading as an argument.
use vstd::prelude::*;

verus! {

/// Nanoseconds in one second.
pub const NANOS_PER_SEC: u32 = 1_000_000_000;

/// Seconds in one UTC day.
pub const SECS_PER_DAY: u64 = 86_400;

/// A span of time: whole seconds plus a sub-second part. Its view is its length
/// in nanoseconds.
#[derive(Debug, Clone, Copy, PartialEq, Eq, Structural)]
pub struct Duration {
    secs: u64,
    nanos: u32,
}

impl View for Duration {
    type V = nat;

    closed spec fn view(&self) -> nat {
        (self.secs * NANOS_PER_SEC + self.nanos) as nat
    }
}

impl Duration {
    #[verifier::type_invariant]
    spec fn sub_second_part_is_below_a_second(self) -> bool {
        self.nanos < NANOS_PER_SEC
    }

    /// The span of `secs` seconds and `nanos` nanoseconds.
    pub fn new(secs: u64, nanos: u32) -> (span: Duration)
        requires
            nanos < NANOS_PER_SEC,
        ensures
            span@ == secs * NANOS_PER_SEC + nanos,
    {
        Duration { secs, nanos }
    }

    /// The span of `secs` whole seconds.
    pub fn from_secs(secs: u64) -> (span: Duration)
        ensures
            span@ == secs * NANOS_PER_SEC,
    {
        Duration { secs, nanos: 0 }
    }

    /// The whole seconds in this span, dropping the sub-second part.
    pub fn as_secs(&self) -> (secs: u64)
        ensures
            secs == self@ / (NANOS_PER_SEC as nat),
    {
        proof {
            use_type_invariant(self);
        }
        self.secs
    }

    /// The nanoseconds past the last whole second.
    pub fn subsec_nanos(&self) -> (nanos: u32)
        ensures
            nanos == self@ % (NANOS_PER_SEC as nat),
    {
        proof {
            use_type_invariant(self);
        }
        self.nanos
    }

    /// The whole span in nanoseconds.
    pub fn as_nanos(&self) -> (nanos: u128)
        ensures
            nanos == self@,
            nanos < 0x1_0000_0000_0000_0000 * 1_000_000_000,
    {
        proof {
            use_type_invariant(self);
            assert(self.secs * 1_000_000_000 + self.nanos <= 0xffff_ffff_ffff_ffff * 1_000_000_000
                + 999_999_999);
        }
        self.secs as u128 * NANOS_PER_SEC as u128 + self.nanos as u128
    }
}

/// A reading of a clock that never goes back, in nanoseconds since some fixed
/// start (such as the start of the process).
#[derive(Debug, Clone, Copy, PartialEq, Eq, Structural)]
pub struct Instant {
    nanos: u64,
}

impl View for Instant {
    type V = nat;

    closed spec fn view(&self) -> nat {
        self.nanos as nat
    }
}

impl Instant {
    /// The moment `nanos` nanoseconds after the clock's start.
    pub fn from_nanos(nanos: u64) -> (moment: Instant)
        ensures
            moment@ == nanos,
    {
        Instant { nanos }
    }

    /// How many nanoseconds after the clock's start this moment is.
    pub fn as_nanos(&self) -> (nanos: u64)
        ensures
            nanos == self@,
    {
        self.nanos
    }
}

/// The UTC day of a reading, counted from the Unix epoch.
pub open spec fn day_of(unix_secs: Option<nat>) -> nat {
    match unix_secs {
        Some(secs) => secs / (SECS_PER_DAY as nat),
        None => 0,
    }
}

/// The UTC day, counted from the Unix epoch, on which the system clock reads
/// `unix_secs` seconds after the epoch. A clock set before the epoch (`None`)
/// counts as day 0. This is the daily budget's reset boundary.
pub fn current_day(unix_secs: Option<u64>) -> (day: u64)
    ensures
        day == day_of(
            match unix_secs {
                Some(secs) => Some(secs as nat),
                None => None,
            },
        ),
{
    match unix_secs {
        Some(secs) => secs / SECS_PER_DAY,
        None => 0,
    }
}

/// A day is as long as any other, and starts where the one before it ends: one
/// day's seconds later it is the next day, and the first starts at the epoch.
pub proof fn law_days_follow_each_other(secs: nat)
    ensures
        day_of(Some(secs + 86_400)) == day_of(Some(secs)) + 1,
        secs < 86_400 ==> day_of(Some(secs)) == 0,
        day_of(None) == 0,
{
}

/// The day is told by the whole days since the epoch: a reading lies in its day.
pub proof fn law_a_reading_lies_in_its_day(secs: nat)
    ensures
        day_of(Some(secs)) * 86_400 <= secs < (day_of(Some(secs)) + 1) * 86_400,
{
}

/// A span is seen to the nanosecond, and no two spans are seen alike; likewise a
/// moment.
proof fn law_time_is_seen_to_the_nanosecond(span: Duration, other: Duration, moment: Instant)
    requires
        span.nanos < 1_000_000_000,
        other.nanos < 1_000_000_000,
    ensures
        span@ == span.secs * 1_000_000_000 + span.nanos,
        span@ == other@ ==> span == other,
        moment@ == moment.nanos,
{
}

} // verus!
