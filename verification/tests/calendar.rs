use lsef::lister::calendar::{civil_from_days, utc_time_parts};

#[test]
fn day_zero_is_the_first_of_january_1970() {
    assert_eq!(civil_from_days(0), (1970, 1, 1));
    assert_eq!(civil_from_days(-1), (1969, 12, 31));
    assert_eq!(civil_from_days(-719_468), (0, 3, 1));
}

#[test]
fn leap_days_and_year_ends_fall_where_the_calendar_puts_them() {
    assert_eq!(civil_from_days(11_016), (2000, 2, 29));
    assert_eq!(civil_from_days(11_017), (2000, 3, 1));
    assert_eq!(civil_from_days(-25_508), (1900, 3, 1));
    assert_eq!(civil_from_days(-25_509), (1900, 2, 28));
    assert_eq!(civil_from_days(19_722), (2023, 12, 31));
    assert_eq!(civil_from_days(19_723), (2024, 1, 1));
}

#[test]
fn consecutive_days_give_consecutive_dates() {
    let mut previous = civil_from_days(-800_000);
    for days in -799_999..800_000i64 {
        let date = civil_from_days(days);
        assert_ne!(date, previous);
        let (y, m, d) = previous;
        let next_day = date == (y, m, d + 1);
        let next_month = date == (y, m + 1, 1);
        let next_year = m == 12 && d == 31 && date == (y + 1, 1, 1);
        assert!(next_day || next_month || next_year, "{previous:?} then {date:?}");
        previous = date;
    }
}

#[test]
fn utc_parts_split_the_day_into_clock_fields() {
    let parts = utc_time_parts(1_704_067_199);
    assert_eq!((parts.year, parts.month, parts.day), (2023, 12, 31));
    assert_eq!((parts.hour, parts.minute, parts.second), (23, 59, 59));
    assert_eq!(parts.utc_offset_seconds, None);
    let before = utc_time_parts(-86_401);
    assert_eq!((before.year, before.month, before.day), (1969, 12, 30));
    assert_eq!((before.hour, before.minute, before.second), (23, 59, 59));
    let extreme = utc_time_parts(i64::MIN);
    assert!(1 <= extreme.month && extreme.month <= 12);
}
