use vstd::prelude::*;
use chrono::Datelike;

use crate::errors::EvError;

verus! {

/// Lowest day number the week-bucket functions accept: January 1 of year 1
/// in the proleptic Gregorian calendar.
pub const MIN_DAY: i64 = 1;

/// Highest day number accepted.  It falls around year 8215, far inside the
/// range the calendar library supports, so date construction below can
/// never fail.
pub const MAX_DAY: i64 = 3_000_000;

/// A day number lies in the range the calendar functions accept.
pub open spec fn valid_day(day: int) -> bool {
    MIN_DAY <= day <= MAX_DAY
}

/// The calendar year of a day number, as the calendar library reports it.
pub uninterp spec fn year_part(day: int) -> int;

/// The ISO 8601 week number of a day number, as the calendar library
/// reports it.
pub uninterp spec fn week_part(day: int) -> int;

/// The week-bucket key of a day: calendar year times 100 plus ISO week
/// number.  A late-December day can fall into ISO week 1 of the following
/// year (and an early-January day into week 52 or 53 of the preceding one),
/// so keys generated from consecutive weeks need not be monotonic around a
/// year boundary.
pub open spec fn bucket_key(day: int) -> int {
    year_part(day) * 100 + week_part(day)
}

/// The bucket sequence of a date range: one key for every seven-day step
/// from `start_day` to `end_day`, both inclusive.
pub open spec fn bucket_seq(start_day: int, end_day: int) -> Seq<i64> {
    Seq::new(
        (((end_day - start_day) / 7) + 1) as nat,
        |i: int| bucket_key(start_day + 7 * i) as i64,
    )
}

/// Range degeneracy law: a range of one single day yields exactly one
/// bucket, the encoding of that day.
pub proof fn lemma_range_degenerate(day: int)
    ensures
        bucket_seq(day, day).len() == 1,
        bucket_seq(day, day)[0] == bucket_key(day) as i64,
{
    assert(bucket_seq(day, day)[0] == bucket_key(day + 7 * 0) as i64);
}

/// Relies on chrono: `NaiveDate::from_num_days_from_ce_opt` builds the date
/// with this day number (day 1 is January 1 of year 1, and the documented
/// range is far wider than `MIN_DAY..=MAX_DAY`, so the construction cannot
/// fail here); `Datelike::year` reads its calendar year and
/// `NaiveDate::iso_week().week()` its ISO 8601 week number.  Both results
/// depend on the day number alone.  chrono documents the week number as
/// ranging over 1..=53, and a calendar year spans at least 365 days, so a
/// day between `MIN_DAY` and `MAX_DAY` has its year between 1 and 10000.
#[verifier::external_body]
fn calendar_parts(day: i64) -> (r: (i32, u32))
    requires
        valid_day(day as int),
    ensures
        r.0 as int == year_part(day as int),
        r.1 as int == week_part(day as int),
        1 <= r.0 <= 10000,
        1 <= r.1 <= 53,
{
    let date = chrono::NaiveDate::from_num_days_from_ce_opt(day as i32)
        .expect("day number out of calendar range");
    (date.year(), date.iso_week().week())
}

/// Computes the week-bucket key of a single day.
pub fn day_bucket(day: i64) -> (key: i64)
    requires
        valid_day(day as int),
    ensures
        key as int == bucket_key(day as int),
        100 <= key <= 1_000_053,
{
    let (year, week) = calendar_parts(day);
    (year as i64) * 100 + (week as i64)
}

/// Generates the ordered sequence of week buckets obtained by stepping
/// seven days at a time from `start_day` to `end_day`, both inclusive.
///
/// Year-boundary policy: the key pairs the calendar year with the ISO week,
/// so the generated sequence may briefly dip at a year boundary.  It is
/// kept exactly as generated; every later lookup into it goes by key
/// equality, never by position.
pub fn week_buckets(start_day: i64, end_day: i64) -> (r: Result<Vec<i64>, EvError>)
    requires
        valid_day(start_day as int),
        valid_day(end_day as int),
    ensures
        match r {
            Ok(keys) => {
                &&& start_day <= end_day
                &&& keys@ == bucket_seq(start_day as int, end_day as int)
                &&& keys@.len() == (end_day - start_day) / 7 + 1
                &&& forall|i: int|
                    0 <= i < keys@.len() ==> #[trigger] keys@[i] as int == bucket_key(
                        start_day + 7 * i,
                    )
                &&& forall|i: int| 0 <= i < keys@.len() ==> 100 <= #[trigger] keys@[i] <= 1_000_053
            },
            Err(e) => e == (EvError::InvalidRange) && end_day < start_day,
        },
{
    if end_day < start_day {
        return Err(EvError::InvalidRange);
    }
    let mut keys: Vec<i64> = Vec::new();
    let mut day: i64 = start_day;
    while day <= end_day
        invariant
            valid_day(start_day as int),
            valid_day(end_day as int),
            start_day <= end_day,
            day == start_day + 7 * keys@.len(),
            day <= end_day + 7,
            forall|i: int|
                0 <= i < keys@.len() ==> #[trigger] keys@[i] as int == bucket_key(
                    start_day + 7 * i,
                ),
            forall|i: int| 0 <= i < keys@.len() ==> 100 <= #[trigger] keys@[i] <= 1_000_053,
        decreases end_day + 7 - day,
    {
        let key = day_bucket(day);
        keys.push(key);
        day = day + 7;
    }
    proof {
        let n = keys@.len() as int;
        assert(day == start_day + 7 * n);
        assert(start_day + 7 * (n - 1) <= end_day);
        assert(n - 1 <= (end_day - start_day) / 7 < n) by (nonlinear_arith)
            requires
                start_day + 7 * (n - 1) <= end_day,
                end_day < start_day + 7 * n,
                start_day <= end_day,
        ;
        assert(keys@ =~= bucket_seq(start_day as int, end_day as int));
    }
    Ok(keys)
}

} // verus!
