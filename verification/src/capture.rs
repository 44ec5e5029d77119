//! Capture dates and times, and how they are written and read.

use crate::splitter::SplitError;
use crate::text;
use chrono::{Datelike, FixedOffset, NaiveDate, TimeZone};
use vstd::prelude::*;

verus! {

/// A day in the proleptic Gregorian calendar.
#[derive(Clone, Copy, Debug, PartialEq, Eq, Structural)]
pub struct CaptureDate {
    /// The astronomical year: the year before 1 is 0.
    pub year: i32,
    /// The month, from 1 to 12.
    pub month: u32,
    /// The day of the month, from 1.
    pub day: u32,
}

/// Whether a year has a leap day.
pub open spec fn is_leap_year(year: int) -> bool {
    year % 4 == 0 && (year % 100 != 0 || year % 400 == 0)
}

/// How many days a month has.
pub open spec fn days_in_month(year: int, month: int) -> int {
    if month == 2 {
        if is_leap_year(year) {
            29
        } else {
            28
        }
    } else if month == 4 || month == 6 || month == 9 || month == 11 {
        30
    } else {
        31
    }
}

impl CaptureDate {
    /// Whether the day exists, within the years that can be handled.
    pub open spec fn is_valid(self) -> bool {
        &&& -262143 <= self.year <= 262142
        &&& 1 <= self.month <= 12
        &&& 1 <= self.day <= days_in_month(self.year as int, self.month as int)
    }
}

/// The day that a text stands for under a `strftime` pattern.
pub uninterp spec fn parsed_date(text: Seq<char>, pattern: Seq<char>) -> Option<CaptureDate>;

/// `chrono::NaiveDate::parse_from_str`: the day is a function of the text and
/// the pattern, and it exists in the calendar. Which texts are accepted is left
/// to chrono, which allows white space in front of each number and fewer digits
/// than it would write.
#[verifier::external_body]
fn naive_date_from(text: &str, pattern: &str) -> (r: Option<CaptureDate>)
    ensures
        r == parsed_date(text@, pattern@),
        r matches Some(date) ==> date.is_valid(),
{
    match NaiveDate::parse_from_str(text, pattern) {
        Ok(date) => Some(
            CaptureDate { year: date.year(), month: date.month(), day: date.day() },
        ),
        Err(_) => None,
    }
}

/// A year in four digits; one that needs more, or is negative, with its sign.
pub open spec fn year_text(year: int) -> Seq<char> {
    if 0 <= year <= 9999 {
        text::padded(year as nat, 4)
    } else if year < 0 {
        seq!['-'] + text::padded((-year) as nat, 4)
    } else {
        seq!['+'] + text::padded(year as nat, 4)
    }
}

/// `NaiveDate::format` for the two patterns that the library writes dates with:
/// day, month and year in zero-padded digits, and what is written is read back
/// under the same pattern.
#[verifier::external_body]
fn naive_date_text(date: CaptureDate, pattern: &str) -> (r: String)
    requires
        date.is_valid(),
        pattern@ == "%d.%m.%Y"@ || pattern@ == "%Y-%m-%d"@,
    ensures
        pattern@ == "%d.%m.%Y"@ ==> r@ == entry_text(date),
        pattern@ == "%Y-%m-%d"@ ==> r@ == stored_text(date),
        parsed_date(r@, pattern@) == Some(date),
{
    NaiveDate::from_ymd_opt(date.year, date.month, date.day).unwrap().format(pattern).to_string()
}

/// A date as users type it: day, month and year, separated by dots.
pub open spec fn entry_text(date: CaptureDate) -> Seq<char> {
    text::padded(date.day as nat, 2) + seq!['.'] + text::padded(date.month as nat, 2) + seq!['.']
        + year_text(date.year as int)
}

/// A date as it is stored: year, month and day, separated by hyphens.
pub open spec fn stored_text(date: CaptureDate) -> Seq<char> {
    year_text(date.year as int) + seq!['-'] + text::padded(date.month as nat, 2) + seq!['-']
        + text::padded(date.day as nat, 2)
}

/// A date as users type it.
pub fn date_entry_text(date: CaptureDate) -> (r: String)
    requires
        date.is_valid(),
    ensures
        r@ == entry_text(date),
        parsed_date(r@, "%d.%m.%Y"@) == Some(date),
{
    naive_date_text(date, "%d.%m.%Y")
}

/// A date as it is stored in the settings.
pub fn stored_date_text(date: CaptureDate) -> (r: String)
    requires
        date.is_valid(),
    ensures
        r@ == stored_text(date),
        parsed_date(r@, "%Y-%m-%d"@) == Some(date),
{
    naive_date_text(date, "%Y-%m-%d")
}

/// Reads a date from the settings.
pub fn stored_date(text: &str) -> (r: Option<CaptureDate>)
    ensures
        r == parsed_date(text@, "%Y-%m-%d"@),
        r matches Some(date) ==> date.is_valid(),
{
    naive_date_from(text, "%Y-%m-%d")
}

/// Reads a date that a user typed, as day, month and year.
pub fn parse_date(value: &str) -> (r: Result<CaptureDate, String>)
    ensures
        match r {
            Ok(date) => parsed_date(value@, "%d.%m.%Y"@) == Some(date) && date.is_valid(),
            Err(message) => parsed_date(value@, "%d.%m.%Y"@) is None && message@
                == "Datum muss als TT.MM.JJJJ angegeben werden, z. B. 01.09.1995"@,
        },
{
    match naive_date_from(value, "%d.%m.%Y") {
        Some(date) => Ok(date),
        None => Err("Datum muss als TT.MM.JJJJ angegeben werden, z. B. 01.09.1995".to_string()),
    }
}

/// Reads the text of a date entry, whatever white space stands around it.
pub fn parse_date_entry(value: &str) -> (r: Option<CaptureDate>)
    ensures
        r == parsed_date(text::trimmed(value@), "%d.%m.%Y"@),
        r matches Some(date) ==> date.is_valid(),
{
    let given = text::characters(value);
    let inner = text::trim(&given);
    let trimmed = text::text_of(&inner);
    naive_date_from(&trimmed, "%d.%m.%Y")
}

/// A moment, as a wall clock with its offset from universal time shows it.
#[derive(Clone, Copy, Debug, PartialEq, Eq, Structural)]
pub struct CaptureTime {
    /// The day.
    pub date: CaptureDate,
    /// The hour, from 0 to 23.
    pub hour: u32,
    /// The minute, from 0 to 59.
    pub minute: u32,
    /// The second, from 0 to 59.
    pub second: u32,
    /// The nanosecond within the second.
    pub nanosecond: u32,
    /// How far the clock is ahead of universal time, in seconds.
    pub offset: i32,
}

impl CaptureTime {
    /// Whether the clock can show the moment. The first and the last year are
    /// left out, since there universal time may fall outside the calendar.
    pub open spec fn is_valid(self) -> bool {
        &&& self.date.is_valid()
        &&& -262143 < self.date.year < 262142
        &&& self.hour < 24
        &&& self.minute < 60
        &&& self.second < 60
        &&& self.nanosecond < 1_000_000_000
        &&& -86400 < self.offset < 86400
    }
}

/// A moment without separators between its digits, for file names.
pub open spec fn name_text(time: CaptureTime) -> Seq<char> {
    year_text(time.date.year as int) + text::padded(time.date.month as nat, 2) + text::padded(
        time.date.day as nat,
        2,
    ) + seq!['_'] + text::padded(time.hour as nat, 2) + text::padded(time.minute as nat, 2)
        + text::padded(time.second as nat, 2)
}

/// A moment as image metadata holds it.
pub open spec fn exif_text(time: CaptureTime) -> Seq<char> {
    year_text(time.date.year as int) + seq![':'] + text::padded(time.date.month as nat, 2)
        + seq![':'] + text::padded(time.date.day as nat, 2) + seq![' '] + text::padded(
        time.hour as nat,
        2,
    ) + seq![':'] + text::padded(time.minute as nat, 2) + seq![':'] + text::padded(
        time.second as nat,
        2,
    )
}

/// An offset from universal time in hours and minutes, rounded to the minute.
pub open spec fn offset_text(offset: int) -> Seq<char> {
    let seconds: nat = if offset < 0 {
        (-offset) as nat
    } else {
        offset as nat
    };
    let minutes = (seconds + 30) / 60;
    let sign = if offset < 0 {
        '-'
    } else {
        '+'
    };
    seq![sign] + text::padded(minutes / 60, 2) + seq![':'] + text::padded(minutes % 60, 2)
}

/// `DateTime::format` for the three patterns that the library writes moments
/// with: the fields in zero-padded digits, and the offset in hours and minutes.
#[verifier::external_body]
fn date_time_text(time: CaptureTime, pattern: &str) -> (r: String)
    requires
        time.is_valid(),
        pattern@ == "%Y%m%d_%H%M%S"@ || pattern@ == "%Y:%m:%d %H:%M:%S"@ || pattern@ == "%:z"@,
    ensures
        pattern@ == "%Y%m%d_%H%M%S"@ ==> r@ == name_text(time),
        pattern@ == "%Y:%m:%d %H:%M:%S"@ ==> r@ == exif_text(time),
        pattern@ == "%:z"@ ==> r@ == offset_text(time.offset as int),
{
    let date = NaiveDate::from_ymd_opt(time.date.year, time.date.month, time.date.day).unwrap();
    let local = date.and_hms_nano_opt(time.hour, time.minute, time.second, time.nanosecond).unwrap();
    let offset = FixedOffset::east_opt(time.offset).unwrap();
    offset.from_local_datetime(&local).unwrap().format(pattern).to_string()
}

/// A moment for file names.
pub fn file_stamp(time: CaptureTime) -> (r: String)
    requires
        time.is_valid(),
    ensures
        r@ == name_text(time),
{
    date_time_text(time, "%Y%m%d_%H%M%S")
}

/// A moment for image metadata.
pub fn exif_stamp(time: CaptureTime) -> (r: String)
    requires
        time.is_valid(),
    ensures
        r@ == exif_text(time),
{
    date_time_text(time, "%Y:%m:%d %H:%M:%S")
}

/// The offset of a moment for image metadata.
pub fn exif_offset(time: CaptureTime) -> (r: String)
    requires
        time.is_valid(),
    ensures
        r@ == offset_text(time.offset as int),
{
    date_time_text(time, "%:z")
}

/// What a clock shows on a chosen day at the present time of day, in whole
/// seconds: what the local time zone is asked about.
pub fn wall_clock(date: CaptureDate, now: CaptureTime) -> (r: (CaptureDate, u32, u32, u32))
    ensures
        r == (date, now.hour, now.minute, now.second),
{
    (date, now.hour, now.minute, now.second)
}

/// The moment written to exported files: the present one, or the one on a chosen
/// day, where `resolved` is the earliest moment at which the local clock shows
/// that day and the present time of day.
pub fn capture_datetime(
    date: Option<CaptureDate>,
    now: CaptureTime,
    resolved: Option<CaptureTime>,
) -> (r: Result<CaptureTime, SplitError>)
    ensures
        match r {
            Ok(time) => (date is None && time == now) || (date is Some && resolved == Some(time)),
            Err(error) => date is Some && resolved is None && error is InvalidDate,
        },
{
    match date {
        None => Ok(now),
        Some(_) => match resolved {
            Some(time) => Ok(time),
            None => Err(SplitError::InvalidDate),
        },
    }
}

/// How many leap years there are from the year 1 to the one before this; before
/// the year 1, as a number below zero.
pub open spec fn leap_years_before(year: int) -> int {
    (year - 1) / 4 - (year - 1) / 100 + (year - 1) / 400
}

/// How many days of a year lie before a month.
pub open spec fn days_before_month(year: int, month: int) -> int
    decreases month,
{
    if month <= 1 {
        0
    } else {
        days_before_month(year, month - 1) + days_in_month(year, month - 1)
    }
}

/// How many days a day lies after the first of January 1970.
pub open spec fn day_number(date: CaptureDate) -> int {
    365 * (date.year - 1970) + leap_years_before(date.year as int) - leap_years_before(1970)
        + days_before_month(date.year as int, date.month as int) + date.day - 1
}

/// The day after a day.
pub open spec fn next_day(date: CaptureDate) -> CaptureDate {
    if date.day < days_in_month(date.year as int, date.month as int) {
        CaptureDate { day: (date.day + 1) as u32, ..date }
    } else if date.month < 12 {
        CaptureDate { month: (date.month + 1) as u32, day: 1, ..date }
    } else {
        CaptureDate { year: (date.year + 1) as i32, month: 1, day: 1 }
    }
}

/// Days are numbered one after the other, from the first of January 1970.
pub proof fn lemma_days_are_numbered_in_order(date: CaptureDate)
    requires
        date.is_valid(),
    ensures
        day_number(CaptureDate { year: 1970, month: 1, day: 1 }) == 0,
        day_number(next_day(date)) == day_number(date) + 1,
{
    reveal_with_fuel(days_before_month, 13);
}

/// The seconds from the start of 1970 in universal time to a moment.
pub open spec fn unix_seconds(time: CaptureTime) -> int {
    day_number(time.date) * 86400 + time.hour * 3600 + time.minute * 60 + time.second - time.offset
}

/// Whether a year has a 29th of February.
fn has_leap_day(year: i32) -> (r: bool)
    ensures
        r == is_leap_year(year as int),
{
    year % 4 == 0 && (year % 100 != 0 || year % 400 == 0)
}

/// How many days of a year lie before a month.
#[verifier::spinoff_prover]
fn count_days_before_month(year: i32, month: u32) -> (r: i64)
    requires
        1 <= month <= 12,
    ensures
        r == days_before_month(year as int, month as int),
        0 <= r <= 366,
{
    let leap = has_leap_day(year);
    let mut days: i64 = 0;
    let mut at: u32 = 1;
    while at < month
        invariant
            1 <= at <= month <= 12,
            leap == is_leap_year(year as int),
            days == days_before_month(year as int, at as int),
            0 <= days <= 31 * (at - 1),
        decreases month - at,
    {
        days += if at == 2 {
            if leap {
                29
            } else {
                28
            }
        } else if at == 4 || at == 6 || at == 9 || at == 11 {
            30
        } else {
            31
        };
        at += 1;
    }
    days
}

proof fn lemma_shifted_leap_years(year: int)
    requires
        -262143 <= year <= 262142,
    ensures
        ({
            let years = year - 1 + 280000;
            let leaps = years / 4 - years / 100 + years / 400 - 67900 - 477;
            &&& years > 0
            &&& leaps == leap_years_before(year) - leap_years_before(1970)
            &&& -100000 <= leaps <= 100000
        }),
{
    let n = year - 1;
    assert((n + 280000) / 4 == n / 4 + 70000);
    assert((n + 280000) / 100 == n / 100 + 2800);
    assert((n + 280000) / 400 == n / 400 + 700);
    assert(leap_years_before(1970) == 477);
}

/// The number of a day, counted from the first of 1970.
fn count_days(date: CaptureDate) -> (r: i64)
    requires
        date.is_valid(),
    ensures
        r == day_number(date),
        -200_000_000 <= r <= 200_000_000,
{
    // Counted from a year that makes all numbers positive.
    let years: i64 = date.year as i64 - 1 + 280000;
    proof {
        lemma_shifted_leap_years(date.year as int);
    }
    let leaps: i64 = years / 4 - years / 100 + years / 400 - 67900 - 477;
    let before: i64 = count_days_before_month(date.year, date.month);
    365 * (date.year as i64 - 1970) + leaps + before + date.day as i64 - 1
}

/// A moment as the time of a file: the seconds from the start of 1970 in
/// universal time, and the nanoseconds within the second.
pub fn unix_time(time: CaptureTime) -> (r: (i64, u32))
    requires
        time.is_valid(),
    ensures
        r.0 == unix_seconds(time),
        r.1 == time.nanosecond,
{
    let days: i64 = count_days(time.date);
    let seconds: i64 = days * 86400 + time.hour as i64 * 3600 + time.minute as i64 * 60
        + time.second as i64 - time.offset as i64;
    (seconds, time.nanosecond)
}

/// A capture date as it is entered is the day, the month and the year in digits,
/// two and four of them, with points between.
pub proof fn lemma_entered_date(date: CaptureDate)
    requires
        date.is_valid(),
        0 <= date.year <= 9999,
    ensures
        entry_text(date).len() == 10,
        text::number(entry_text(date).subrange(0, 2)) == date.day,
        entry_text(date)[2] == '.',
        text::number(entry_text(date).subrange(3, 5)) == date.month,
        entry_text(date)[5] == '.',
        text::number(entry_text(date).subrange(6, 10)) == date.year,
        stored_text(date).len() == 10,
        text::number(stored_text(date).subrange(0, 4)) == date.year,
        stored_text(date)[4] == '-',
        text::number(stored_text(date).subrange(5, 7)) == date.month,
        stored_text(date)[7] == '-',
        text::number(stored_text(date).subrange(8, 10)) == date.day,
{
    text::lemma_padded_number(date.day as nat);
    text::lemma_padded_number(date.month as nat);
    text::lemma_padded_number(date.year as nat);
    let (d, m, y) = (
        text::padded(date.day as nat, 2),
        text::padded(date.month as nat, 2),
        text::padded(date.year as nat, 4),
    );
    let e = entry_text(date);
    assert(e.subrange(0, 2) =~= d);
    assert(e.subrange(3, 5) =~= m);
    assert(e.subrange(6, 10) =~= y);
    let s = stored_text(date);
    assert(s.subrange(0, 4) =~= y);
    assert(s.subrange(5, 7) =~= m);
    assert(s.subrange(8, 10) =~= d);
}

/// The moment in file names and in tags is its year, month, day, hour, minute and
/// second, each in as many digits as it needs at most.
pub proof fn lemma_written_moment(time: CaptureTime)
    requires
        time.is_valid(),
        0 <= time.date.year <= 9999,
    ensures
        name_text(time).len() == 15,
        text::number(name_text(time).subrange(0, 4)) == time.date.year,
        text::number(name_text(time).subrange(4, 6)) == time.date.month,
        text::number(name_text(time).subrange(6, 8)) == time.date.day,
        name_text(time)[8] == '_',
        text::number(name_text(time).subrange(9, 11)) == time.hour,
        text::number(name_text(time).subrange(11, 13)) == time.minute,
        text::number(name_text(time).subrange(13, 15)) == time.second,
        exif_text(time).len() == 19,
        text::number(exif_text(time).subrange(0, 4)) == time.date.year,
        exif_text(time)[4] == ':',
        text::number(exif_text(time).subrange(5, 7)) == time.date.month,
        exif_text(time)[7] == ':',
        text::number(exif_text(time).subrange(8, 10)) == time.date.day,
        exif_text(time)[10] == ' ',
        text::number(exif_text(time).subrange(11, 13)) == time.hour,
        exif_text(time)[13] == ':',
        text::number(exif_text(time).subrange(14, 16)) == time.minute,
        exif_text(time)[16] == ':',
        text::number(exif_text(time).subrange(17, 19)) == time.second,
{
    text::lemma_padded_number(time.date.year as nat);
    text::lemma_padded_number(time.date.month as nat);
    text::lemma_padded_number(time.date.day as nat);
    text::lemma_padded_number(time.hour as nat);
    text::lemma_padded_number(time.minute as nat);
    text::lemma_padded_number(time.second as nat);
    let y = text::padded(time.date.year as nat, 4);
    let (m, d) = (text::padded(time.date.month as nat, 2), text::padded(time.date.day as nat, 2));
    let (h, i) = (text::padded(time.hour as nat, 2), text::padded(time.minute as nat, 2));
    let s = text::padded(time.second as nat, 2);
    let n = name_text(time);
    assert(n.subrange(0, 4) =~= y);
    assert(n.subrange(4, 6) =~= m);
    assert(n.subrange(6, 8) =~= d);
    assert(n.subrange(9, 11) =~= h);
    assert(n.subrange(11, 13) =~= i);
    assert(n.subrange(13, 15) =~= s);
    let e = exif_text(time);
    assert(e.subrange(0, 4) =~= y);
    assert(e.subrange(5, 7) =~= m);
    assert(e.subrange(8, 10) =~= d);
    assert(e.subrange(11, 13) =~= h);
    assert(e.subrange(14, 16) =~= i);
    assert(e.subrange(17, 19) =~= s);
}

/// The offset from universal time is written with its sign, in hours and minutes,
/// to the nearest minute.
pub proof fn lemma_written_offset(offset: int)
    requires
        -86400 < offset < 86400,
    ensures
        offset_text(offset).len() == 6,
        offset < 0 ==> offset_text(offset)[0] == '-',
        offset >= 0 ==> offset_text(offset)[0] == '+',
        offset_text(offset)[3] == ':',
        text::number(offset_text(offset).subrange(4, 6)) < 60,
        ({
            let minutes = 60 * text::number(offset_text(offset).subrange(1, 3)) + text::number(
                offset_text(offset).subrange(4, 6),
            );
            let seconds = if offset < 0 {
                -offset
            } else {
                offset
            };
            60 * minutes - 30 <= seconds < 60 * minutes + 30
        }),
{
    let seconds: nat = if offset < 0 {
        (-offset) as nat
    } else {
        offset as nat
    };
    let minutes = (seconds + 30) / 60;
    text::lemma_padded_number(minutes / 60);
    text::lemma_padded_number(minutes % 60);
    let o = offset_text(offset);
    assert(o.subrange(1, 3) =~= text::padded(minutes / 60, 2));
    assert(o.subrange(4, 6) =~= text::padded(minutes % 60, 2));
}

/// The months have the lengths of the calendar, and February has a day more in
/// leap years.
pub proof fn lemma_month_lengths(year: int)
    ensures
        days_in_month(year, 1) == 31 && days_in_month(year, 3) == 31 && days_in_month(year, 5) == 31
            && days_in_month(year, 7) == 31 && days_in_month(year, 8) == 31 && days_in_month(
            year,
            10,
        ) == 31 && days_in_month(year, 12) == 31,
        days_in_month(year, 4) == 30 && days_in_month(year, 6) == 30 && days_in_month(year, 9) == 30
            && days_in_month(year, 11) == 30,
        year % 4 != 0 ==> days_in_month(year, 2) == 28,
        year % 4 == 0 && year % 100 != 0 ==> days_in_month(year, 2) == 29,
        year % 100 == 0 && year % 400 != 0 ==> days_in_month(year, 2) == 28,
        year % 400 == 0 ==> days_in_month(year, 2) == 29,
{
}

/// Four hundred years have 146097 days.
pub proof fn lemma_four_hundred_years(date: CaptureDate, later: CaptureDate)
    requires
        later.year == date.year + 400,
        later.month == date.month,
        later.day == date.day,
    ensures
        day_number(later) == day_number(date) + 146097,
{
    lemma_same_months(date.year as int, later.year as int, date.month as int);
    let n = date.year - 1;
    assert((n + 400) / 4 == n / 4 + 100);
    assert((n + 400) / 100 == n / 100 + 4);
    assert((n + 400) / 400 == n / 400 + 1);
}

proof fn lemma_same_months(year: int, later: int, month: int)
    requires
        later == year + 400,
    ensures
        days_before_month(later, month) == days_before_month(year, month),
    decreases month,
{
    if month > 1 {
        lemma_same_months(year, later, month - 1);
    }
}

/// Moments are counted in seconds from the start of 1970 in universal time: an
/// hour, a minute or a second later is as much more, a clock that is ahead shows
/// an earlier moment, and a day has 86400 seconds.
pub proof fn lemma_seconds_are_counted(time: CaptureTime, hours: u32, minutes: u32, seconds: u32)
    requires
        time.is_valid(),
        time.hour + hours <= u32::MAX,
        time.minute + minutes <= u32::MAX,
        time.second + seconds <= u32::MAX,
    ensures
        unix_seconds(
            (CaptureTime {
                date: CaptureDate { year: 1970, month: 1, day: 1 },
                hour: 0,
                minute: 0,
                second: 0,
                nanosecond: 0,
                offset: 0,
            }),
        ) == 0,
        unix_seconds(
            (CaptureTime {
                hour: (time.hour + hours) as u32,
                minute: (time.minute + minutes) as u32,
                second: (time.second + seconds) as u32,
                ..time
            }),
        ) == unix_seconds(time) + 3600 * hours + 60 * minutes + seconds,
        unix_seconds((CaptureTime { offset: 0, ..time })) == unix_seconds(time) + time.offset,
        unix_seconds((CaptureTime { date: next_day(time.date), ..time })) == unix_seconds(time)
            + 86400,
{
    lemma_days_are_numbered_in_order(time.date);
}

/// A chosen day is joined with the present time of day; files are dated by the
/// moment found for it, by the present moment where no day is chosen, and not at
/// all where the day has no such moment.
pub proof fn lemma_moments_of_capture(
    date: CaptureDate,
    now: CaptureTime,
    resolved: Option<CaptureTime>,
    clock: (CaptureDate, u32, u32, u32),
    chosen: Result<CaptureTime, SplitError>,
    present: Result<CaptureTime, SplitError>,
)
    requires
        call_ensures(wall_clock, (date, now), clock),
        call_ensures(capture_datetime, (Some(date), now, resolved), chosen),
        call_ensures(capture_datetime, (None, now, resolved), present),
    ensures
        clock.0 == date,
        clock.1 == now.hour && clock.2 == now.minute && clock.3 == now.second,
        present == Ok::<CaptureTime, SplitError>(now),
        resolved matches Some(time) ==> chosen == Ok::<CaptureTime, SplitError>(time),
        resolved is None <==> chosen is Err,
        chosen matches Err(error) ==> error is InvalidDate,
{
}

} // verus!
