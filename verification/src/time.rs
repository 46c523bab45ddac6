//! Zoned timestamps and the calendar-day arithmetic of the store.
//!
//! The store covers one fixed epoch, `1970-01-01T00:00:00Z` through
//! `2100-12-31T23:59:59Z`. A timestamp is carried as milliseconds since the
//! start of the epoch together with an explicit UTC offset in seconds; all
//! ordering, overlap and day-bucket arithmetic is done on the milliseconds,
//! which denote the UTC instant. Day numbers count calendar days from the
//! start of the epoch.

use vstd::prelude::*;

verus! {

/// Milliseconds in one calendar day.
pub const MILLIS_PER_DAY: i64 = 86_400_000;

/// The last millisecond of the supported epoch, `2100-12-31T23:59:59Z`.
pub const MAX_EPOCH_MILLIS: i64 = 4_133_980_799_000;

/// Day number of the last day of the supported epoch, `2100-12-31`.
pub const MAX_DAY_NUMBER: i64 = 47_846;

/// Number of day buckets the store allocates: one per day of the epoch.
pub const NUM_DAYS: usize = 47_847;

/// A timestamp with its time zone carried explicitly: milliseconds since
/// `1970-01-01T00:00:00Z` plus a UTC offset in seconds. The offset records
/// the zone the item was created in; the instant itself is `millis`.
#[derive(Clone, Copy, PartialEq, Eq, Structural, Debug)]
pub struct ZonedTime {
    pub millis: i64,
    pub offset_seconds: i32,
}

/// The calendar day (days since `1970-01-01`) containing an instant.
pub open spec fn spec_day_of(millis: int) -> int {
    millis / (MILLIS_PER_DAY as int)
}

/// An instant lies within the supported epoch.
pub open spec fn in_epoch(millis: int) -> bool {
    0 <= millis <= MAX_EPOCH_MILLIS
}

impl ZonedTime {
    pub fn new(millis: i64, offset_seconds: i32) -> (t: ZonedTime)
        ensures
            t.millis == millis,
            t.offset_seconds == offset_seconds,
    {
        ZonedTime { millis, offset_seconds }
    }
}

/// The day number an in-epoch instant falls on.
pub fn get_cache_day_number_from_time(time: &ZonedTime) -> (day: i64)
    requires
        in_epoch(time.millis as int),
    ensures
        day == spec_day_of(time.millis as int),
        0 <= day <= MAX_DAY_NUMBER,
{
    time.millis / MILLIS_PER_DAY
}

/// The day number of the last supported day, i.e. how many whole days the
/// epoch spans beyond its first day.
pub fn get_all_day_numbers() -> (n: i64)
    ensures
        n == MAX_DAY_NUMBER,
        n == spec_day_of(MAX_EPOCH_MILLIS as int),
{
    MAX_EPOCH_MILLIS / MILLIS_PER_DAY
}

/// Day numbers never decrease as instants grow.
pub proof fn lemma_day_of_monotonic(a: int, b: int)
    requires
        a <= b,
    ensures
        spec_day_of(a) <= spec_day_of(b),
{
    vstd::arithmetic::div_mod::lemma_div_is_ordered(a, b, MILLIS_PER_DAY as int);
}

} // verus!
