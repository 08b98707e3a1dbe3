use lsef::args::TimeFormat;
use lsef::model::Timestamp;
use lsef::time::format_system_time;

#[test]
fn formats_unix_epoch_as_fixed_local_shape() {
    let time = Timestamp { secs: 0, nanos: 0 };
    let formatted = format_system_time(Some(time), TimeFormat::Local);
    assert_eq!(formatted.len(), "1970-01-01 00:00".len());
    assert_eq!(&formatted[4..5], "-");
    assert_eq!(&formatted[7..8], "-");
    assert_eq!(&formatted[10..11], " ");
    assert_eq!(&formatted[13..14], ":");
}

#[test]
fn formats_iso_with_seconds() {
    let time = Timestamp { secs: 3661, nanos: 0 };
    assert_eq!(
        format_system_time(Some(time), TimeFormat::Iso),
        "1970-01-01T01:01:01Z"
    );
}

#[test]
fn unknown_times_show_as_not_available() {
    assert_eq!(format_system_time(None, TimeFormat::Iso), "N/A");
    assert_eq!(format_system_time(None, TimeFormat::Local), "N/A");
}

#[test]
fn iso_times_before_the_epoch_and_far_ahead() {
    let before = Timestamp { secs: -1, nanos: 500_000_000 };
    assert_eq!(format_system_time(Some(before), TimeFormat::Iso), "1969-12-31T23:59:59Z");
    let leap = Timestamp { secs: 951_782_400, nanos: 0 };
    assert_eq!(format_system_time(Some(leap), TimeFormat::Iso), "2000-02-29T00:00:00Z");
    let far = Timestamp { secs: 253_402_300_800, nanos: 0 };
    assert_eq!(format_system_time(Some(far), TimeFormat::Iso), "+10000-01-01T00:00:00Z");
}

#[test]
fn iso_times_reach_the_ends_of_the_calendar() {
    let late = Timestamp { secs: 8_210_266_790_399, nanos: 0 };
    assert_eq!(format_system_time(Some(late), TimeFormat::Iso), "+262142-12-30T23:59:59Z");
    let early = Timestamp { secs: -8_334_601_142_400, nanos: 0 };
    assert_eq!(format_system_time(Some(early), TimeFormat::Iso), "-262143-01-02T00:00:00Z");
    assert!(lsef::time::timestamp_in_range(late, TimeFormat::Local));
    assert!(!lsef::time::timestamp_in_range(Timestamp { secs: 8_210_266_790_400, nanos: 0 }, TimeFormat::Local));
    assert!(!lsef::time::timestamp_in_range(Timestamp { secs: -8_334_601_142_401, nanos: 0 }, TimeFormat::Local));
    assert!(!lsef::time::timestamp_in_range(Timestamp { secs: 0, nanos: 1_000_000_000 }, TimeFormat::Iso));
    let last = Timestamp { secs: 8_210_266_876_799, nanos: 0 };
    assert!(lsef::time::timestamp_in_range(last, TimeFormat::Iso));
    assert!(!lsef::time::timestamp_in_range(last, TimeFormat::Local));
    assert_eq!(format_system_time(Some(last), TimeFormat::Iso), "+262142-12-31T23:59:59Z");
    let first = Timestamp { secs: -8_334_601_228_800, nanos: 0 };
    assert_eq!(format_system_time(Some(first), TimeFormat::Iso), "-262143-01-01T00:00:00Z");
    assert!(!lsef::time::timestamp_in_range(Timestamp { secs: -8_334_601_228_801, nanos: 0 }, TimeFormat::Iso));
}


#[test]
fn local_time_text_shows_the_given_zone() {
    let t = Timestamp { secs: 86_399, nanos: 0 };
    assert_eq!(lsef::time::local_time_text(t, 0), "1970-01-01 23:59");
    assert_eq!(lsef::time::local_time_text(t, 60), "1970-01-02 00:00");
    assert_eq!(lsef::time::local_time_text(t, -86_399), "1970-01-01 00:00");
    assert_eq!(lsef::time::time_in_zone(None, TimeFormat::Local, 3_600), "N/A");
    assert_eq!(lsef::time::time_in_zone(Some(t), TimeFormat::Iso, 3_600), "1970-01-01T23:59:59Z");
    assert_eq!(lsef::time::zone_offset(Some(t), TimeFormat::Iso), 0);
}
