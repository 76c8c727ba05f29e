//! Calendar buckets: the day, hour or minute that a date-time falls into.

use crate::datetime::{civil_before, is_civil, Civil, LocalDateTime};
use vstd::prelude::*;

verus! {

/// Determines how often a file should be rolled over.
#[derive(Copy, Clone, Debug, Eq, PartialEq, Structural)]
pub enum RollingFrequency {
    EveryDay,
    EveryHour,
    EveryMinute,
}

/// First second of the day, hour or minute that holds `at`.
pub open spec fn bucket_start(frequency: RollingFrequency, at: Civil) -> Civil {
    match frequency {
        RollingFrequency::EveryDay => Civil { hour: 0, minute: 0, second: 0, ..at },
        RollingFrequency::EveryHour => Civil { minute: 0, second: 0, ..at },
        RollingFrequency::EveryMinute => Civil { second: 0, ..at },
    }
}

/// `a` and `b` fall into the same day, hour or minute.
pub open spec fn same_bucket(frequency: RollingFrequency, a: Civil, b: Civil) -> bool {
    &&& a.year == b.year
    &&& a.month == b.month
    &&& a.day == b.day
    &&& frequency != RollingFrequency::EveryDay ==> a.hour == b.hour
    &&& frequency == RollingFrequency::EveryMinute ==> a.minute == b.minute
}

/// `at` is the first second of a bucket.
pub open spec fn is_bucket_start(frequency: RollingFrequency, at: Civil) -> bool {
    bucket_start(frequency, at) == at
}

impl RollingFrequency {
    /// Calculates a date-time that will be different if data should be in
    /// different files: the start of the bucket that holds `dt`.
    pub fn equivalent_datetime(&self, dt: &LocalDateTime) -> (start: LocalDateTime)
        ensures
            start@ == bucket_start(*self, dt@),
    {
        proof {
            use_type_invariant(dt);
        }
        let start = match self {
            RollingFrequency::EveryDay => LocalDateTime::new(dt.year(), dt.month(), dt.day(), 0, 0, 0),
            RollingFrequency::EveryHour => LocalDateTime::new(
                dt.year(),
                dt.month(),
                dt.day(),
                dt.hour(),
                0,
                0,
            ),
            RollingFrequency::EveryMinute => LocalDateTime::new(
                dt.year(),
                dt.month(),
                dt.day(),
                dt.hour(),
                dt.minute(),
                0,
            ),
        };
        start.unwrap()
    }
}

/// Two date-times have the same bucket start exactly when they fall into the
/// same bucket.
pub proof fn lemma_same_bucket_same_start(frequency: RollingFrequency, a: Civil, b: Civil)
    ensures
        same_bucket(frequency, a, b) <==> bucket_start(frequency, a) == bucket_start(frequency, b),
{
}

/// Date-times on the two sides of a bucket boundary have different bucket
/// starts: if `boundary` opens a bucket, `a` lies before it and `b` does not.
pub proof fn lemma_boundary_separates(
    frequency: RollingFrequency,
    a: Civil,
    boundary: Civil,
    b: Civil,
)
    requires
        is_civil(a),
        is_civil(b),
        is_bucket_start(frequency, boundary),
        civil_before(a, boundary),
        !civil_before(b, boundary),
    ensures
        bucket_start(frequency, a) != bucket_start(frequency, b),
        !same_bucket(frequency, a, b),
{
}

/// A bucket starts no later than any date-time in it, and truncating twice
/// changes nothing.
pub proof fn lemma_bucket_start_is_earliest(frequency: RollingFrequency, at: Civil)
    requires
        is_civil(at),
    ensures
        is_civil(bucket_start(frequency, at)),
        !civil_before(at, bucket_start(frequency, at)),
        is_bucket_start(frequency, bucket_start(frequency, at)),
        same_bucket(frequency, at, bucket_start(frequency, at)),
{
}

} // verus!
