//! Proleptic Gregorian calendar arithmetic on Unix times (UTC), and the
//! calendar conversions that chrono performs for the library.

use vstd::prelude::*;

verus! {

/// Smallest year that chrono's dates can hold.
pub const MIN_YEAR: i32 = -262143;

/// Largest year that chrono's dates can hold.
pub const MAX_YEAR: i32 = 262142;

pub open spec fn is_leap_year(y: int) -> bool {
    (y % 4 == 0 && y % 100 != 0) || y % 400 == 0
}

pub open spec fn days_in_month(y: int, m: int) -> int {
    if m == 2 {
        if is_leap_year(y) { 29 } else { 28 }
    } else if m == 4 || m == 6 || m == 9 || m == 11 {
        30
    } else {
        31
    }
}

/// A calendar date and time of day that exists, in a year that chrono can hold.
pub open spec fn valid_civil(y: int, m: int, d: int, h: int, mi: int, s: int) -> bool {
    &&& MIN_YEAR <= y <= MAX_YEAR
    &&& 1 <= m <= 12
    &&& 1 <= d <= days_in_month(y, m)
    &&& 0 <= h < 24
    &&& 0 <= mi < 60
    &&& 0 <= s < 60
}

/// Days from 1970-01-01 to the given date (negative before it).
pub open spec fn days_from_civil(y: int, m: int, d: int) -> int {
    let yy = if m <= 2 { y - 1 } else { y };
    let era = yy / 400;
    let yoe = yy - era * 400;
    let mp = if m > 2 { m - 3 } else { m + 9 };
    let doy = (153 * mp + 2) / 5 + d - 1;
    let doe = yoe * 365 + yoe / 4 - yoe / 100 + doy;
    era * 146097 + doe - 719468
}

/// Seconds since 1970-01-01T00:00:00Z of a UTC date and time of day.
pub open spec fn epoch_seconds(y: int, m: int, d: int, h: int, mi: int, s: int) -> int {
    days_from_civil(y, m, d) * 86400 + h * 3600 + mi * 60 + s
}

/// The date (year, month, day) of the day that lies `z` days after 1970-01-01.
pub open spec fn civil_from_days(z: int) -> (int, int, int) {
    let z0 = z + 719468;
    let era = z0 / 146097;
    let doe = z0 - era * 146097;
    let yoe = (doe - doe / 1460 + doe / 36524 - doe / 146096) / 365;
    let doy = doe - (365 * yoe + yoe / 4 - yoe / 100);
    let mp = (5 * doy + 2) / 153;
    let d = doy - (153 * mp + 2) / 5 + 1;
    let m = if mp < 10 { mp + 3 } else { mp - 9 };
    let y = yoe + era * 400 + if m <= 2 { 1int } else { 0int };
    (y, m, d)
}

/// The UTC calendar year in which a Unix time falls.
pub open spec fn year_of_timestamp(ts: int) -> int {
    civil_from_days(ts / 86400).0
}

/// The UTC calendar month (1 to 12) in which a Unix time falls.
pub open spec fn month_of_timestamp(ts: int) -> int {
    civil_from_days(ts / 86400).1
}

/// Relies on chrono's `NaiveDate::from_ymd_opt`, `NaiveDate::and_hms_opt` and
/// `DateTime::timestamp`: a date and time of day that exist give their Unix time,
/// any other gives none.
#[verifier::external_body]
pub(crate) fn timestamp_of_civil(y: i32, m: u32, d: u32, h: u32, mi: u32, s: u32) -> (r: Option<i64>)
    ensures
        r is Some <==> valid_civil(y as int, m as int, d as int, h as int, mi as int, s as int),
        r is Some ==> r->0 == epoch_seconds(y as int, m as int, d as int, h as int, mi as int, s as int),
{
    chrono::NaiveDate::from_ymd_opt(y, m, d)
        .and_then(|date| date.and_hms_opt(h, mi, s))
        .map(|dt| dt.and_utc().timestamp())
}

/// Relies on chrono's `DateTime::from_timestamp` with `Datelike::year` and
/// `Datelike::month`: the UTC year and month of a Unix time, where chrono can
/// hold that date.
#[verifier::external_body]
pub(crate) fn year_month_of(ts: i64) -> (r: Option<(i32, u32)>)
    ensures
        r is Some <==> MIN_YEAR <= year_of_timestamp(ts as int) <= MAX_YEAR,
        r matches Some((y, m)) ==> y == year_of_timestamp(ts as int) && m == month_of_timestamp(ts as int),
{
    chrono::DateTime::from_timestamp(ts, 0).map(|t| (chrono::Datelike::year(&t), chrono::Datelike::month(&t)))
}

} // verus!
