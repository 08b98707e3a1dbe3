//! The proleptic Gregorian calendar: days counted from 1970-01-01 and the
//! dates they name. Used where no system clock gives the calendar fields.
use vstd::prelude::*;
use crate::lister::entries::TimeParts;

verus! {

/// Whether `y` is a leap year of the Gregorian calendar.
pub open spec fn is_leap_year(y: int) -> bool {
    y % 4 == 0 && (y % 100 != 0 || y % 400 == 0)
}

/// The number of days of month `m` of year `y`.
pub open spec fn month_length(y: int, m: int) -> int {
    if m == 2 {
        if is_leap_year(y) { 29 } else { 28 }
    } else if m == 4 || m == 6 || m == 9 || m == 11 {
        30
    } else {
        31
    }
}

/// Whether `y`-`m`-`d` is a date of the calendar.
pub open spec fn is_valid_date(y: int, m: int, d: int) -> bool {
    1 <= m <= 12 && 1 <= d <= month_length(y, m)
}

/// Leap years before year `y`, counted from year 1 (negative before it).
pub open spec fn leap_years_before(y: int) -> int {
    (y - 1) / 4 - (y - 1) / 100 + (y - 1) / 400
}

/// Days of the months before month `m` of year `y`.
pub open spec fn days_before_month(y: int, m: int) -> int {
    let common: int = if m <= 1 {
        0
    } else if m == 2 {
        31
    } else if m == 3 {
        59
    } else if m == 4 {
        90
    } else if m == 5 {
        120
    } else if m == 6 {
        151
    } else if m == 7 {
        181
    } else if m == 8 {
        212
    } else if m == 9 {
        243
    } else if m == 10 {
        273
    } else if m == 11 {
        304
    } else {
        334
    };
    if m > 2 && is_leap_year(y) { common + 1 } else { common }
}

/// The day number of `y`-`m`-`d`: 0 for 1970-01-01, counting forward and
/// backward by whole days.
pub open spec fn day_number(y: int, m: int, d: int) -> int {
    365 * (y - 1970) + leap_years_before(y) - leap_years_before(1970) + days_before_month(y, m) + d - 1
}

/// Whether `y`-`m`-`d` is a date and has day number `days`.
pub open spec fn names_day(y: int, m: int, d: int, days: int) -> bool {
    is_valid_date(y, m, d) && day_number(y, m, d) == days
}

/// Days before the March-based year `yoe` of a 400-year cycle.
spec fn cycle_days_before(yoe: int) -> int {
    365 * yoe + yoe / 4 - yoe / 100
}

/// Day `doe` of a 400-year cycle falls in the March-based year that the
/// cycle arithmetic picks: the last year of the cycle ends with February 29.
proof fn lemma_year_of_cycle(doe: int)
    requires
        0 <= doe < 146097,
    ensures
        ({
            let yoe = (doe - doe / 1460 + doe / 36524 - doe / 146096) / 365;
            &&& 0 <= yoe < 400
            &&& cycle_days_before(yoe) <= doe
            &&& doe < cycle_days_before(yoe + 1) + if yoe == 399 { 1int } else { 0 }
        }),
{
}

/// Day `doy` of a March-based year (one with February 29 when `leap`) falls
/// in the month and on the day that the 153-day arithmetic picks.
proof fn lemma_month_of_year(doy: int, leap: bool)
    requires
        0 <= doy < if leap { 366int } else { 365 },
    ensures
        ({
            let mp = (5 * doy + 2) / 153;
            let day = doy - (153 * mp + 2) / 5 + 1;
            let month = if mp < 10 { mp + 3 } else { mp - 9 };
            &&& 0 <= mp < 12
            &&& 1 <= day
            &&& day <= if month == 2 {
                if leap { 29int } else { 28 }
            } else if month == 4 || month == 6 || month == 9 || month == 11 {
                30
            } else {
                31
            }
        }),
{
}

/// The leap years before `y + 1` are those before `y`, and `y` if it is one.
proof fn lemma_leap_years_step(y: int)
    ensures
        leap_years_before(y + 1) == leap_years_before(y) + if is_leap_year(y) { 1int } else { 0 },
{
}

/// Leap years repeat every 400 years.
proof fn lemma_leap_period(era: int, k: int)
    ensures
        is_leap_year(400 * era + k) == is_leap_year(k),
{
    assert((400 * era + k) % 4 == k % 4);
    assert((400 * era + k) % 100 == k % 100);
    assert((400 * era + k) % 400 == k % 400);
}

/// March 1 of year `400 * era + yoe` in day numbers.
proof fn lemma_march_first(era: int, yoe: int)
    requires
        0 <= yoe < 400,
    ensures
        day_number(400 * era + yoe, 3, 1) == era * 146097 + cycle_days_before(yoe) - 719468,
{
    let y = 400 * era + yoe;
    lemma_leap_years_step(y);
    assert(y / 4 == 100 * era + yoe / 4);
    assert(y / 100 == 4 * era + yoe / 100);
    assert(y / 400 == era);
    assert(leap_years_before(y + 1) == 97 * era + yoe / 4 - yoe / 100);
}

/// Day numbers of the days from March 1 of `y` to the end of February after it.
proof fn lemma_day_in_march_year(y: int, month: int, day: int)
    requires
        1 <= month <= 12,
    ensures
        ({
            let mp = if month > 2 { month - 3 } else { month + 9 };
            let year = if month <= 2 { y + 1 } else { y };
            day_number(year, month, day) == day_number(y, 3, 1) + (153 * mp + 2) / 5 + day - 1
        }),
{
    lemma_leap_years_step(y);
}

/// The date that the cycle arithmetic of `civil_from_days` arrives at is the
/// date of that day number.
proof fn lemma_civil_date(days: int, era: int, yoe: int, mp: int, day: int)
    requires
        era == (days + 719468) / 146097,
        ({
            let doe = days + 719468 - era * 146097;
            yoe == (doe - doe / 1460 + doe / 36524 - doe / 146096) / 365
        }),
        ({
            let doy = days + 719468 - era * 146097 - cycle_days_before(yoe);
            &&& mp == (5 * doy + 2) / 153
            &&& day == doy - (153 * mp + 2) / 5 + 1
        }),
    ensures
        ({
            let month = if mp < 10 { mp + 3 } else { mp - 9 };
            let year = yoe + era * 400 + if month <= 2 { 1int } else { 0 };
            &&& is_valid_date(year, month, day)
            &&& day_number(year, month, day) == days
        }),
{
    let doe = days + 719468 - era * 146097;
    assert(0 <= doe < 146097);
    lemma_year_of_cycle(doe);
    let doy = doe - cycle_days_before(yoe);
    let y = 400 * era + yoe;
    let leap = is_leap_year(y + 1);
    lemma_leap_period(era, yoe + 1);
    assert(0 <= doy < if leap { 366int } else { 365 });
    lemma_month_of_year(doy, leap);
    let month = if mp < 10 { mp + 3 } else { mp - 9 };
    let year = if month <= 2 { y + 1 } else { y };
    assert(is_valid_date(year, month, day));
    lemma_march_first(era, yoe);
    lemma_day_in_march_year(y, month, day);
    assert(mp == if month > 2 { month - 3 } else { month + 9 });
}

/// A date lies in its year: at or after January 1 and before the next one.
proof fn lemma_date_in_year(y: int, m: int, d: int)
    requires
        is_valid_date(y, m, d),
    ensures
        day_number(y, 1, 1) <= day_number(y, m, d) < day_number(y + 1, 1, 1),
{
    lemma_leap_years_step(y);
}

/// Years start later the later they are.
proof fn lemma_year_starts_ordered(a: int, b: int)
    requires
        a < b,
    ensures
        day_number(a + 1, 1, 1) <= day_number(b, 1, 1),
{
}

/// Within one year, day numbers tell dates apart.
proof fn lemma_dates_of_one_year(y: int, m1: int, d1: int, m2: int, d2: int)
    requires
        is_valid_date(y, m1, d1),
        is_valid_date(y, m2, d2),
        day_number(y, m1, d1) == day_number(y, m2, d2),
    ensures
        m1 == m2 && d1 == d2,
{
}

/// A day number names one date: two dates with the same day number are the
/// same date.
pub proof fn day_numbers_name_one_date(y1: int, m1: int, d1: int, y2: int, m2: int, d2: int, days: int)
    requires
        names_day(y1, m1, d1, days),
        names_day(y2, m2, d2, days),
    ensures
        y1 == y2 && m1 == m2 && d1 == d2,
{
    lemma_date_in_year(y1, m1, d1);
    lemma_date_in_year(y2, m2, d2);
    if y1 < y2 {
        lemma_year_starts_ordered(y1, y2);
    } else if y2 < y1 {
        lemma_year_starts_ordered(y2, y1);
    }
    lemma_dates_of_one_year(y1, m1, d1, m2, d2);
}

/// The date of day number `days`, found through 400-year cycles counted
/// from March 1 of year 0.
#[verifier::spinoff_prover]
#[verifier::rlimit(50)]
fn cycle_date(days: i64) -> (date: (i64, i64, i64))
    requires
        days <= i64::MAX - 719468,
    ensures
        is_valid_date(date.0 as int, date.1 as int, date.2 as int),
        day_number(date.0 as int, date.1 as int, date.2 as int) == days,
{
    let z = days + 719_468;
    let era = if z >= 0 { z } else { z - 146_096 } / 146_097;
    assert(era == z / 146097);
    let doe = z - era * 146_097;
    let yoe = (doe - doe / 1460 + doe / 36_524 - doe / 146_096) / 365;
    proof {
        lemma_year_of_cycle(doe as int);
    }
    let y = yoe + era * 400;
    let doy = doe - (365 * yoe + yoe / 4 - yoe / 100);
    assert(0 <= doy < 366);
    let mp = (5 * doy + 2) / 153;
    assert(0 <= mp < 12);
    let day = doy - (153 * mp + 2) / 5 + 1;
    let month = mp + if mp < 10 { 3 } else { -9 };
    let year = y + if month <= 2 { 1 } else { 0 };
    proof {
        lemma_civil_date(days as int, era as int, yoe as int, mp as int, day as int);
    }
    (year, month, day)
}

/// The proleptic Gregorian date of day number `days` (0 is 1970-01-01) as
/// year, month and day; the year is cut to 32 bits as `as` cuts it.
pub fn civil_from_days(days: i64) -> (date: (i32, i32, i32))
    requires
        days <= i64::MAX - 719468,
    ensures
        exists|y: i64| #[trigger] names_day(y as int, date.1 as int, date.2 as int, days as int)
            && date.0 == #[verifier::truncate] (y as i32),
{
    let (year, month, day) = cycle_date(days);
    let m32 = month as i32;
    let d32 = day as i32;
    let date = (#[verifier::truncate] (year as i32), m32, d32);
    assert(names_day(year as int, date.1 as int, date.2 as int, days as int));
    date
}

/// The calendar fields of UTC at `seconds` after 1970-01-01T00:00:00Z, with
/// no offset: what the lister shows where no system clock gives local time.
pub fn utc_time_parts(seconds: i64) -> (parts: TimeParts)
    ensures
        parts.utc_offset_seconds is None,
        exists|y: i64| #[trigger] names_day(y as int, parts.month as int, parts.day as int, seconds / 86400)
            && parts.year == #[verifier::truncate] (y as i32),
        0 <= parts.hour < 24,
        0 <= parts.minute < 60,
        0 <= parts.second < 60,
        parts.hour * 3600 + parts.minute * 60 + parts.second == seconds % 86400,
{
    let days = match seconds.checked_div_euclid(86_400) {
        Some(days) => days,
        None => 0,
    };
    let seconds_of_day = match seconds.checked_rem_euclid(86_400) {
        Some(rest) => rest,
        None => 0,
    };
    assert(days == seconds / 86400 && seconds_of_day == seconds % 86400);
    let (year, month, day) = civil_from_days(days);
    let parts = TimeParts {
        year,
        month,
        day,
        hour: (seconds_of_day / 3600) as i32,
        minute: (seconds_of_day % 3600 / 60) as i32,
        second: (seconds_of_day % 60) as i32,
        utc_offset_seconds: None,
    };
    assert(parts.month == month && parts.day == day && parts.year == year);
    parts
}

} // verus!
