//! Proleptic Gregorian calendar arithmetic: validity of a year-month-day
//! triple and its day number (days since 1970-01-01).

use vstd::prelude::*;

verus! {

/// A leap year in the proleptic Gregorian calendar.
pub open spec fn spec_is_leap_year(y: int) -> bool {
    (y % 4 == 0 && y % 100 != 0) || y % 400 == 0
}

/// Days in the given month of the given year.
pub open spec fn spec_days_in_month(y: int, m: int) -> int
    recommends
        1 <= m <= 12,
{
    if m == 2 {
        if spec_is_leap_year(y) {
            29
        } else {
            28
        }
    } else if m == 4 || m == 6 || m == 9 || m == 11 {
        30
    } else {
        31
    }
}

/// A calendar date the engine accepts: four-digit year, real month and day.
pub open spec fn spec_valid_ymd(y: int, m: int, d: int) -> bool {
    0 <= y <= 9999 && 1 <= m <= 12 && 1 <= d <= spec_days_in_month(y, m)
}

/// Day number of a date: days since 1970-01-01. The computation shifts the
/// year by 400 (one full 146097-day Gregorian cycle) so every intermediate
/// quantity is nonnegative, then counts days by whole eras, year-of-era and
/// day-of-year.
pub open spec fn spec_days_from_civil(y: int, m: int, d: int) -> int
    recommends
        spec_valid_ymd(y, m, d),
{
    let yy = if m <= 2 {
        y + 399
    } else {
        y + 400
    };
    let era = yy / 400;
    let yoe = yy - era * 400;
    let mp = if m > 2 {
        m - 3
    } else {
        m + 9
    };
    let doy = (153 * mp + 2) / 5 + d - 1;
    let doe = yoe * 365 + yoe / 4 - yoe / 100 + doy;
    era * 146097 + doe - 719468 - 146097
}

/// Days in the given month, executable.
pub fn days_in_month(y: u64, m: u64) -> (r: u64)
    requires
        1 <= m <= 12,
    ensures
        r == spec_days_in_month(y as int, m as int),
{
    if m == 2 {
        if (y % 4 == 0 && y % 100 != 0) || y % 400 == 0 {
            29
        } else {
            28
        }
    } else if m == 4 || m == 6 || m == 9 || m == 11 {
        30
    } else {
        31
    }
}

/// Day number (days since 1970-01-01) of a valid date.
pub fn days_from_civil(y: u64, m: u64, d: u64) -> (r: i64)
    requires
        spec_valid_ymd(y as int, m as int, d as int),
    ensures
        r == spec_days_from_civil(y as int, m as int, d as int),
{
    let yy: u64 = if m <= 2 {
        y + 399
    } else {
        y + 400
    };
    let era: u64 = yy / 400;
    let yoe: u64 = yy - era * 400;
    let mp: u64 = if m > 2 {
        m - 3
    } else {
        m + 9
    };
    let doy: u64 = (153 * mp + 2) / 5 + d - 1;
    let doe: u64 = yoe * 365 + yoe / 4 - yoe / 100 + doy;
    proof {
        assert(era <= 25 && yoe <= 399 && mp <= 11 && doy <= 396 && doe <= 146460);
    }
    (era as i64) * 146097 + (doe as i64) - 719468 - 146097
}

} // verus!
