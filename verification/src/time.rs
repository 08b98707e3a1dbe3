//! Rendering of modification times, with calendar fields from `chrono`.
use vstd::prelude::*;
use chrono::{DateTime, Datelike, Local, Timelike, Utc};
use crate::args::TimeFormat;
use crate::lister::calendar::{day_numbers_name_one_date, names_day};
use crate::model::Timestamp;
use crate::text::{chars_of, decimal, digit_char, push_char, push_chars, push_decimal};

verus! {

/// Whether `f` holds the UTC calendar fields `(year, month, day, hour,
/// minute, second)` of the time `secs` seconds after the Unix epoch: the
/// proleptic Gregorian date of its day and the clock time within that day.
pub open spec fn civil_fields(secs: int, f: (i32, u32, u32, u32, u32, u32)) -> bool {
    &&& names_day(f.0 as int, f.1 as int, f.2 as int, secs / 86400)
    &&& f.3 < 24
    &&& f.4 < 60
    &&& f.5 < 60
    &&& f.3 * 3600 + f.4 * 60 + f.5 == secs % 86400
}

/// The UTC calendar fields of the time `secs` seconds after the Unix epoch
/// (see `civil_fields`; `utc_fields_are_unique` shows there is one).
pub open spec fn utc_civil(secs: int) -> (i32, u32, u32, u32, u32, u32) {
    choose|f: (i32, u32, u32, u32, u32, u32)| civil_fields(secs, f)
}

/// The fields lie in their calendar ranges.
pub open spec fn fields_in_range(f: (i32, u32, u32, u32, u32, u32)) -> bool {
    &&& 1 <= f.1 <= 12
    &&& 1 <= f.2 <= 31
    &&& f.3 <= 23
    &&& f.4 <= 59
    &&& f.5 <= 59
}

/// Seconds that `chrono` turns into a `DateTime<Utc>`: from the first
/// second of year -262143 to the last of year 262142.
pub open spec fn in_chrono_range(secs: int) -> bool {
    -8_334_601_228_800 <= secs <= 8_210_266_876_799
}

/// Timestamps that can be rendered in `format`: in UTC, every time that
/// `chrono` represents; in local time, every such time but those of its
/// first and last day, so that the local time up to a day away is one
/// `chrono` represents too. The nanoseconds are below one second.
pub open spec fn timestamp_ok(t: Timestamp, format: TimeFormat) -> bool {
    &&& t.nanos < 1_000_000_000
    &&& match format {
        TimeFormat::Iso => in_chrono_range(t.secs as int),
        TimeFormat::Local => -8_334_601_142_400 <= t.secs <= 8_210_266_790_399,
    }
}

pub open spec fn time_ok(t: Option<Timestamp>, format: TimeFormat) -> bool {
    match t {
        Some(t) => timestamp_ok(t, format),
        None => true,
    }
}

/// Whether a timestamp can be rendered in `format` (`timestamp_ok`).
pub fn timestamp_in_range(t: Timestamp, format: TimeFormat) -> (b: bool)
    ensures
        b == timestamp_ok(t, format),
{
    t.nanos < 1_000_000_000u32 && match format {
        TimeFormat::Iso => -8_334_601_228_800i64 <= t.secs && t.secs <= 8_210_266_876_799i64,
        TimeFormat::Local => -8_334_601_142_400i64 <= t.secs && t.secs <= 8_210_266_790_399i64,
    }
}

/// Calendar fields that `civil_fields` admits for a time are the only ones:
/// they are `utc_civil` of it.
pub proof fn utc_fields_are_unique(secs: int, f: (i32, u32, u32, u32, u32, u32))
    requires
        civil_fields(secs, f),
    ensures
        f == utc_civil(secs),
{
    let g = utc_civil(secs);
    assert(civil_fields(secs, g));
    day_numbers_name_one_date(
        f.0 as int,
        f.1 as int,
        f.2 as int,
        g.0 as int,
        g.1 as int,
        g.2 as int,
        secs / 86400,
    );
}

/// `DateTime::<Utc>::from_timestamp(secs, nanos)`, read back as calendar
/// fields through `Datelike` and `Timelike`.  `chrono` counts the days from
/// the epoch with `div_euclid` and the seconds of the day with `rem_euclid`,
/// and names the day by the proleptic Gregorian calendar; the contract
/// claims those fields (`civil_fields`) and the ranges the traits document.
#[verifier::external_body]
fn utc_fields(secs: i64, nanos: u32) -> (f: (i32, u32, u32, u32, u32, u32))
    requires
        in_chrono_range(secs as int),
        nanos < 1_000_000_000,
    ensures
        civil_fields(secs as int, f),
        fields_in_range(f),
{
    let utc = DateTime::<Utc>::from_timestamp(secs, nanos).unwrap();
    (utc.year(), utc.month(), utc.day(), utc.hour(), utc.minute(), utc.second())
}

/// `DateTime::<Utc>::from_timestamp(secs, nanos).with_timezone(&Local)`,
/// read back as the offset of the local time zone from UTC in seconds
/// (`FixedOffset::local_minus_utc`).  The offset depends on the machine's
/// time zone, so the contract only claims the range that `FixedOffset`
/// guarantees.  `chrono` panics if it cannot select a local time type for
/// the zone data it found; that depends on the environment and is not stated.
#[verifier::external_body]
fn local_offset(secs: i64, nanos: u32) -> (off: i32)
    requires
        in_chrono_range(secs as int),
        nanos < 1_000_000_000,
    ensures
        -86_400 < off < 86_400,
{
    let utc = DateTime::<Utc>::from_timestamp(secs, nanos).unwrap();
    utc.with_timezone(&Local).offset().local_minus_utc()
}

/// `s` preceded by zeros up to width `w`.
pub open spec fn zero_pad(s: Seq<char>, w: nat) -> Seq<char> {
    if s.len() >= w {
        s
    } else {
        Seq::new((w - s.len()) as nat, |i: int| '0') + s
    }
}

/// The `%Y` year: four digits for years 0 through 9999, otherwise a sign
/// followed by at least four digits.
pub open spec fn year_text(y: int) -> Seq<char> {
    if 0 <= y <= 9999 {
        zero_pad(decimal(y as nat), 4)
    } else if y > 9999 {
        seq!['+'] + zero_pad(decimal(y as nat), 4)
    } else {
        seq!['-'] + zero_pad(decimal((-y) as nat), 4)
    }
}

pub open spec fn two_digits(n: nat) -> Seq<char> {
    zero_pad(decimal(n), 2)
}

/// `%Y-%m-%d` of the fields.
pub open spec fn date_text(f: (i32, u32, u32, u32, u32, u32)) -> Seq<char> {
    year_text(f.0 as int) + seq!['-'] + two_digits(f.1 as nat) + seq!['-'] + two_digits(
        f.2 as nat,
    )
}

/// `%Y-%m-%dT%H:%M:%SZ` of the fields.
pub open spec fn iso_text(f: (i32, u32, u32, u32, u32, u32)) -> Seq<char> {
    date_text(f) + seq!['T'] + two_digits(f.3 as nat) + seq![':'] + two_digits(f.4 as nat)
        + seq![':'] + two_digits(f.5 as nat) + seq!['Z']
}

/// `%Y-%m-%d %H:%M` of the fields.
pub open spec fn local_text(f: (i32, u32, u32, u32, u32, u32)) -> Seq<char> {
    date_text(f) + seq![' '] + two_digits(f.3 as nat) + seq![':'] + two_digits(f.4 as nat)
}

/// The rendered time: `N/A` when unknown, UTC ISO form, or the local
/// wall-clock form for a zone `offset` seconds ahead of UTC.
pub open spec fn time_text(t: Option<Timestamp>, format: TimeFormat, offset: int) -> Seq<char> {
    match t {
        None => "N/A"@,
        Some(t) => match format {
            TimeFormat::Iso => iso_text(utc_civil(t.secs as int)),
            TimeFormat::Local => local_text(utc_civil(t.secs + offset)),
        },
    }
}

/// Offsets a time zone can have.
pub open spec fn offset_ok(offset: int) -> bool {
    -86_400 < offset < 86_400
}

/// Appends `n` with at least `w` digits.
pub(crate) fn push_zero_padded(out: &mut String, n: u64, w: usize)
    requires
        w <= 4,
    ensures
        final(out)@ == old(out)@ + zero_pad(decimal(n as nat), w as nat),
{
    let ghost start = out@;
    let mut digits = String::new();
    push_decimal(&mut digits, n as u128);
    let chars = chars_of(digits.as_str());
    if chars.len() < w {
        let pad = w - chars.len();
        for j in 0..pad
            invariant
                out@ == start + Seq::new(j as nat, |k: int| '0'),
        {
            push_char(out, '0');
            assert(start + Seq::new(j as nat, |k: int| '0') + seq!['0'] =~= start + Seq::new(
                (j + 1) as nat,
                |k: int| '0',
            ));
        }
    }
    push_chars(out, &chars);
    assert(out@ =~= start + zero_pad(decimal(n as nat), w as nat));
}

/// Appends the `%Y` year.
fn push_year(out: &mut String, y: i32)
    ensures
        final(out)@ == old(out)@ + year_text(y as int),
{
    let ghost start = out@;
    if 0 <= y && y <= 9999 {
        push_zero_padded(out, y as u64, 4);
    } else if y > 9999 {
        push_char(out, '+');
        push_zero_padded(out, y as u64, 4);
        assert(out@ =~= start + year_text(y as int));
    } else {
        push_char(out, '-');
        let magnitude: u64 = (0 - (y as i64)) as u64;
        push_zero_padded(out, magnitude, 4);
        assert(out@ =~= start + year_text(y as int));
    }
}

fn push_date(out: &mut String, f: (i32, u32, u32, u32, u32, u32))
    ensures
        final(out)@ == old(out)@ + date_text(f),
{
    let ghost start = out@;
    push_year(out, f.0);
    push_char(out, '-');
    push_zero_padded(out, f.1 as u64, 2);
    push_char(out, '-');
    push_zero_padded(out, f.2 as u64, 2);
    assert(out@ =~= start + date_text(f));
}

/// `YYYY-MM-DDTHH:MM:SSZ` in UTC.
fn format_iso(t: Timestamp) -> (s: String)
    requires
        timestamp_ok(t, TimeFormat::Iso),
    ensures
        s@ == iso_text(utc_civil(t.secs as int)),
{
    let f = utc_fields(t.secs, t.nanos);
    proof {
        utc_fields_are_unique(t.secs as int, f);
    }
    let mut s = String::new();
    push_date(&mut s, f);
    push_char(&mut s, 'T');
    push_zero_padded(&mut s, f.3 as u64, 2);
    push_char(&mut s, ':');
    push_zero_padded(&mut s, f.4 as u64, 2);
    push_char(&mut s, ':');
    push_zero_padded(&mut s, f.5 as u64, 2);
    push_char(&mut s, 'Z');
    assert(s@ =~= iso_text(f));
    s
}

/// `YYYY-MM-DD HH:MM` of the wall clock of a zone `offset` seconds ahead
/// of UTC.
pub fn local_time_text(t: Timestamp, offset: i32) -> (s: String)
    requires
        timestamp_ok(t, TimeFormat::Local),
        offset_ok(offset as int),
    ensures
        s@ == local_text(utc_civil(t.secs + offset)),
{
    let f = utc_fields(t.secs + offset as i64, t.nanos);
    proof {
        utc_fields_are_unique(t.secs + offset, f);
    }
    let mut s = String::new();
    push_date(&mut s, f);
    push_char(&mut s, ' ');
    push_zero_padded(&mut s, f.3 as u64, 2);
    push_char(&mut s, ':');
    push_zero_padded(&mut s, f.4 as u64, 2);
    assert(s@ =~= local_text(f));
    s
}

/// The UTC offset the machine's time zone has at a modification time, as
/// `chrono` reports it, where the time is shown in local form; 0 where the
/// time is unknown or shown in UTC.
pub fn zone_offset(time: Option<Timestamp>, format: TimeFormat) -> (off: i32)
    requires
        time_ok(time, format),
    ensures
        offset_ok(off as int),
        !(time is Some && format == TimeFormat::Local) ==> off == 0,
{
    match time {
        Some(t) => match format {
            TimeFormat::Local => local_offset(t.secs, t.nanos),
            TimeFormat::Iso => 0,
        },
        None => 0,
    }
}

/// Renders a modification time, or `N/A` when it is unknown, with local
/// times in a zone `offset` seconds ahead of UTC.
pub fn time_in_zone(time: Option<Timestamp>, format: TimeFormat, offset: i32) -> (s: String)
    requires
        time_ok(time, format),
        offset_ok(offset as int),
    ensures
        s@ == time_text(time, format, offset as int),
{
    match time {
        None => String::from_str("N/A"),
        Some(t) => match format {
            TimeFormat::Iso => format_iso(t),
            TimeFormat::Local => local_time_text(t, offset),
        },
    }
}

/// `YYYY-MM-DD HH:MM` in the machine's local time zone.
fn format_local(t: Timestamp) -> (s: String)
    requires
        timestamp_ok(t, TimeFormat::Local),
    ensures
        exists|offset: int| offset_ok(offset) && s@ == local_text(utc_civil(t.secs + offset)),
{
    let off = local_offset(t.secs, t.nanos);
    let s = local_time_text(t, off);
    assert(offset_ok(off as int) && s@ == local_text(utc_civil(t.secs + off)));
    s
}

/// Renders a modification time in the configured form; `N/A` when unknown.
/// Local times use the offset the machine's zone has then; the text is
/// that of `time_in_zone` for that offset.
pub fn format_system_time(time: Option<Timestamp>, format: TimeFormat) -> (s: String)
    requires
        time_ok(time, format),
    ensures
        exists|offset: int| offset_ok(offset) && s@ == time_text(time, format, offset),
{
    match time {
        None => {
            let s = String::from_str("N/A");
            assert(offset_ok(0) && s@ == time_text(time, format, 0));
            s
        },
        Some(t) => match format {
            TimeFormat::Iso => {
                let s = format_iso(t);
                assert(offset_ok(0) && s@ == time_text(time, format, 0));
                s
            },
            TimeFormat::Local => format_local(t),
        },
    }
}

/// The local form has sixteen characters, dashes at 4 and 7, a space at 10
/// and a colon at 13, for every year from 0 through 9999.
pub proof fn local_time_shape(f: (i32, u32, u32, u32, u32, u32))
    requires
        fields_in_range(f),
        0 <= f.0 <= 9999,
    ensures
        local_text(f).len() == 16,
        local_text(f)[4] == '-',
        local_text(f)[7] == '-',
        local_text(f)[10] == ' ',
        local_text(f)[13] == ':',
{
    lemma_decimal_len(f.0 as nat, 4);
    lemma_decimal_len(f.1 as nat, 2);
    lemma_decimal_len(f.2 as nat, 2);
    lemma_decimal_len(f.3 as nat, 2);
    lemma_decimal_len(f.4 as nat, 2);
}

/// A number below `10^w` has at most `w` digits.
pub proof fn lemma_decimal_len(n: nat, w: nat)
    requires
        1 <= w <= 4,
        w == 1 ==> n < 10,
        w == 2 ==> n < 100,
        w == 3 ==> n < 1000,
        w == 4 ==> n < 10000,
    ensures
        decimal(n).len() <= w,
    decreases w,
{
    if n >= 10 {
        lemma_decimal_len(n / 10, (w - 1) as nat);
    }
}

/// Two decimal digits of a number below 100.
proof fn lemma_two_digits(n: nat)
    requires
        n < 100,
    ensures
        two_digits(n) == seq![((n / 10) + 48) as char, ((n % 10) + 48) as char],
{
    if n < 10 {
        assert(decimal(n) == seq![digit_char(n)]);
        assert(zero_pad(decimal(n), 2) =~= seq!['0', digit_char(n)]);
    } else {
        assert(decimal(n / 10) == seq![digit_char(n / 10)]);
        assert(decimal(n) =~= seq![digit_char(n / 10), digit_char(n % 10)]);
    }
}

/// The ISO form of the fields is the date, `T`, then hour, minute and
/// second as two digits each, separated by `:`, and `Z`: the minute comes
/// before the second.
pub proof fn iso_text_layout(f: (i32, u32, u32, u32, u32, u32))
    requires
        fields_in_range(f),
    ensures
        ({
            let d = date_text(f);
            let t = iso_text(f);
            let n = d.len() as int;
            &&& t.len() == n + 10
            &&& t.subrange(0, n) == d
            &&& t[n] == 'T'
            &&& t[n + 1] == ((f.3 / 10) + 48) as char
            &&& t[n + 2] == ((f.3 % 10) + 48) as char
            &&& t[n + 3] == ':'
            &&& t[n + 4] == ((f.4 / 10) + 48) as char
            &&& t[n + 5] == ((f.4 % 10) + 48) as char
            &&& t[n + 6] == ':'
            &&& t[n + 7] == ((f.5 / 10) + 48) as char
            &&& t[n + 8] == ((f.5 % 10) + 48) as char
            &&& t[n + 9] == 'Z'
        }),
{
    lemma_two_digits(f.3 as nat);
    lemma_two_digits(f.4 as nat);
    lemma_two_digits(f.5 as nat);
    let d = date_text(f);
    let t = iso_text(f);
    assert(t =~= d + seq!['T'] + two_digits(f.3 as nat) + seq![':'] + two_digits(f.4 as nat)
        + seq![':'] + two_digits(f.5 as nat) + seq!['Z']);
    assert(t.subrange(0, d.len() as int) =~= d);
}

/// The local form of the fields is the date, a space, then hour and minute
/// as two digits each, separated by `:`.
pub proof fn local_text_layout(f: (i32, u32, u32, u32, u32, u32))
    requires
        fields_in_range(f),
    ensures
        ({
            let d = date_text(f);
            let t = local_text(f);
            let n = d.len() as int;
            &&& t.len() == n + 6
            &&& t.subrange(0, n) == d
            &&& t[n] == ' '
            &&& t[n + 1] == ((f.3 / 10) + 48) as char
            &&& t[n + 2] == ((f.3 % 10) + 48) as char
            &&& t[n + 3] == ':'
            &&& t[n + 4] == ((f.4 / 10) + 48) as char
            &&& t[n + 5] == ((f.4 % 10) + 48) as char
        }),
{
    lemma_two_digits(f.3 as nat);
    lemma_two_digits(f.4 as nat);
    let d = date_text(f);
    assert(local_text(f).subrange(0, d.len() as int) =~= d);
}

/// For years 0 through 9999 the date is `YYYY-MM-DD`: four digits of the
/// year, then month and day as two digits each, separated by `-`.
pub proof fn date_text_layout(f: (i32, u32, u32, u32, u32, u32))
    requires
        fields_in_range(f),
        0 <= f.0 <= 9999,
    ensures
        ({
            let d = date_text(f);
            let y = f.0 as int;
            &&& d.len() == 10
            &&& d[0] == ((y / 1000) + 48) as char
            &&& d[1] == ((y / 100 % 10) + 48) as char
            &&& d[2] == ((y / 10 % 10) + 48) as char
            &&& d[3] == ((y % 10) + 48) as char
            &&& d[4] == '-'
            &&& d[5] == ((f.1 / 10) + 48) as char
            &&& d[6] == ((f.1 % 10) + 48) as char
            &&& d[7] == '-'
            &&& d[8] == ((f.2 / 10) + 48) as char
            &&& d[9] == ((f.2 % 10) + 48) as char
        }),
{
    lemma_two_digits(f.1 as nat);
    lemma_two_digits(f.2 as nat);
    let y = f.0 as nat;
    let want = seq![
        ((y / 1000) + 48) as char,
        ((y / 100 % 10) + 48) as char,
        ((y / 10 % 10) + 48) as char,
        ((y % 10) + 48) as char,
    ];
    assert(year_text(f.0 as int) == zero_pad(decimal(y), 4));
    if y < 10 {
        assert(decimal(y) == seq![digit_char(y)]);
        assert(zero_pad(decimal(y), 4) =~= want);
    } else if y < 100 {
        assert(decimal(y / 10) == seq![digit_char(y / 10)]);
        assert(decimal(y) =~= seq![digit_char(y / 10), digit_char(y % 10)]);
        assert(zero_pad(decimal(y), 4) =~= want);
    } else if y < 1000 {
        assert(decimal(y / 100) == seq![digit_char(y / 100)]);
        assert(decimal(y / 10) =~= seq![digit_char(y / 100), digit_char((y / 10) % 10)]);
        assert(decimal(y) =~= seq![digit_char(y / 100), digit_char((y / 10) % 10), digit_char(y % 10)]);
        assert(zero_pad(decimal(y), 4) =~= want);
    } else {
        assert(decimal(y / 1000) == seq![digit_char(y / 1000)]);
        assert(decimal(y / 100) =~= seq![digit_char(y / 1000), digit_char((y / 100) % 10)]);
        assert(decimal(y / 10) =~= seq![
            digit_char(y / 1000),
            digit_char((y / 100) % 10),
            digit_char((y / 10) % 10),
        ]);
        assert(decimal(y) =~= want);
        assert(zero_pad(decimal(y), 4) =~= want);
    }
    assert(date_text(f) =~= want + seq!['-'] + two_digits(f.1 as nat) + seq!['-'] + two_digits(
        f.2 as nat,
    ));
}

/// The clock fields of a time are its hour, minute and second within its
/// UTC day: the fields `civil_fields` admits for `secs` (those that chrono
/// gives, see `utc_fields`) have hour `secs % 86400 / 3600`, minute
/// `secs % 3600 / 60` and second `secs % 60`.
pub proof fn clock_fields_of_a_time(secs: int, f: (i32, u32, u32, u32, u32, u32))
    requires
        civil_fields(secs, f),
    ensures
        f.3 == secs % 86400 / 3600,
        f.4 == secs % 3600 / 60,
        f.5 == secs % 60,
{
    let r = secs % 86400;
    assert(r == f.3 * 3600 + f.4 * 60 + f.5);
    assert(secs % 3600 == r % 3600) by (nonlinear_arith)
        requires
            r == secs % 86400,
    {
        assert(86400 == 24 * 3600);
    }
    assert(secs % 60 == r % 60) by (nonlinear_arith)
        requires
            r == secs % 86400,
    {
        assert(86400 == 1440 * 60);
    }
}

} // verus!
