//! Points in time and the age of a track in whole days.

use vstd::prelude::*;
use crate::fraction::{Fraction, Ratio};

verus! {

/// The number of days after which a track is as old as it can get.
pub const STALENESS_HORIZON_DAYS: u64 = 200;

/// A point in time: `secs` whole seconds after the Unix epoch (before it,
/// where negative) and `nanos` nanoseconds after that second.
#[derive(Clone, Copy, Debug, PartialEq, Eq, Structural)]
pub struct Timestamp {
    pub secs: i64,
    pub nanos: u32,
}

impl Timestamp {
    /// Nanoseconds since the epoch.
    pub open spec fn as_nanos(self) -> int {
        self.secs * 1_000_000_000 + self.nanos
    }
}

/// The whole days in a span of `nanos` nanoseconds, rounded towards zero.
pub open spec fn whole_days(nanos: int) -> int {
    if nanos >= 0 {
        nanos / 86_400_000_000_000
    } else {
        -((-nanos) / 86_400_000_000_000)
    }
}

/// The whole days from `then` to `now`; negative where `then` is the later.
pub open spec fn days_between(now: Timestamp, then: Timestamp) -> int {
    whole_days(now.as_nanos() - then.as_nanos())
}

/// The age in days that counts for a track: zero for a track without a
/// time of addition or with one in the future, and never more than the
/// staleness horizon.
pub open spec fn age_days(now: Timestamp, added_at: Option<Timestamp>) -> int {
    match added_at {
        None => 0,
        Some(then) => {
            let d = days_between(now, then);
            if d < 0 {
                0
            } else if d > STALENESS_HORIZON_DAYS {
                STALENESS_HORIZON_DAYS as int
            } else {
                d
            }
        },
    }
}

/// The age factor of a track: its age in days over the staleness horizon.
pub open spec fn age_factor_of(now: Timestamp, added_at: Option<Timestamp>) -> Ratio {
    Ratio { num: age_days(now, added_at) as nat, den: STALENESS_HORIZON_DAYS as nat }
}

/// The whole days from `then` to `now`, rounded towards zero.
pub fn whole_days_since(now: Timestamp, then: Timestamp) -> (days: i64)
    ensures
        days == days_between(now, then),
{
    let secs: i128 = now.secs as i128 - then.secs as i128;
    let sub: i128 = now.nanos as i128 - then.nanos as i128;
    let nanos: i128 = secs * 1_000_000_000 + sub;
    assert(nanos == now.as_nanos() - then.as_nanos());
    if nanos >= 0 {
        (nanos / 86_400_000_000_000) as i64
    } else {
        let back: i128 = (-nanos) / 86_400_000_000_000;
        (-back) as i64
    }
}

/// The age factor of a track added at `added_at`, seen at `now`.
pub fn age_factor(now: Timestamp, added_at: Option<Timestamp>) -> (f: Fraction)
    ensures
        f@ == age_factor_of(now, added_at),
        f@.is_proper(),
{
    match added_at {
        None => Fraction { num: 0, den: 200 },
        Some(then) => {
            let d = whole_days_since(now, then);
            if d < 0 {
                Fraction { num: 0, den: 200 }
            } else if d > 200 {
                Fraction { num: 200, den: 200 }
            } else {
                Fraction { num: d as u128, den: 200 }
            }
        },
    }
}

/// A track is stale, its age factor above 99 hundredths, from the day
/// before the staleness horizon on: from an age of 199 days.
pub proof fn stale_from_199_days(now: Timestamp, added_at: Option<Timestamp>)
    ensures
        age_factor_of(now, added_at).above_percent(99) <==> age_days(now, added_at) >= 199,
        age_factor_of(now, added_at).is_proper(),
{
}

} // verus!
