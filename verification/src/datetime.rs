//! The date and time of a file entry.
//!
//! A cabinet keeps a modification time in two 16-bit words: seven bits of
//! years since 1980, four of the month and five of the day; five bits of the
//! hour, six of the minute and five of the second halved. Only the years 1980
//! to 2107 can be written that way.
//!
//! A modification time comes as seconds since the start of 1970. It is taken
//! apart by the civil calendar in local time: the caller says how far the
//! local clocks are ahead of UTC, and `chrono` finds the date.

use vstd::prelude::*;
use chrono::{Datelike, Timelike};

verus! {

/// The seconds from 1970-01-01 00:00:00 to 1980-01-01 00:00:00.
pub const FIRST_SECOND: i64 = 315_532_800;

/// The seconds from 1970-01-01 00:00:00 to 2107-12-31 23:59:59.
pub const LAST_SECOND: i64 = 4_354_819_199;

/// Whether `year` has a 29th of February: every fourth year, but of the
/// years that end a century only every fourth.
pub open spec fn is_leap_year(year: int) -> bool {
    year % 4 == 0 && (year % 100 != 0 || year % 400 == 0)
}

/// The number of days of the month `month` of `year`.
pub open spec fn days_in_month(year: int, month: int) -> int {
    if month == 2 {
        if is_leap_year(year) {
            29
        } else {
            28
        }
    } else if month == 4 || month == 6 || month == 9 || month == 11 {
        30
    } else {
        31
    }
}

/// The number of days of `year`.
pub open spec fn days_in_year(year: int) -> int {
    if is_leap_year(year) {
        366
    } else {
        365
    }
}

/// The number of leap years from year 1 to the year before `year`.
pub open spec fn leap_years_before(year: int) -> int {
    (year - 1) / 4 - (year - 1) / 100 + (year - 1) / 400
}

/// The number of days from 1970-01-01 to the first day of `year`.
pub open spec fn days_before_year(year: int) -> int {
    365 * (year - 1970) + leap_years_before(year) - leap_years_before(1970)
}

/// The number of days from the first day of `year` to the first day of its
/// month `month`.
pub open spec fn days_before_month(year: int, month: int) -> int {
    let before: int = if month <= 1 {
        0
    } else if month == 2 {
        31
    } else if month == 3 {
        59
    } else if month == 4 {
        90
    } else if month == 5 {
        120
    } else if month == 6 {
        151
    } else if month == 7 {
        181
    } else if month == 8 {
        212
    } else if month == 9 {
        243
    } else if month == 10 {
        273
    } else if month == 11 {
        304
    } else {
        334
    };
    if month > 2 && is_leap_year(year) {
        before + 1
    } else {
        before
    }
}

/// A calendar date and time of day, as a clock gives it: any year, and
/// fields that may or may not be in range.
#[derive(Clone, Copy, Debug, PartialEq, Eq, Structural)]
pub struct CivilTime {
    /// The year of the civil calendar.
    pub year: i32,
    /// The month, 1 for January.
    pub month: u32,
    /// The day of the month, from 1.
    pub day: u32,
    /// The hour, from 0 to 23.
    pub hour: u32,
    /// The minute, from 0 to 59.
    pub minute: u32,
    /// The second, from 0 to 59.
    pub second: u32,
}

impl CivilTime {
    /// Whether this is a time of the civil calendar: a day that its month
    /// has, and a time of day.
    pub open spec fn is_calendar_time(self) -> bool {
        &&& 1 <= self.month <= 12
        &&& 1 <= self.day <= days_in_month(self.year as int, self.month as int)
        &&& self.hour <= 23
        &&& self.minute <= 59
        &&& self.second <= 59
    }

    /// The seconds from 1970-01-01 00:00:00 to this time, by the civil
    /// calendar and without leap seconds.
    pub open spec fn seconds_since_1970(self) -> int {
        (days_before_year(self.year as int) + days_before_month(
            self.year as int,
            self.month as int,
        ) + self.day - 1) * 86_400 + self.hour * 3_600 + self.minute * 60 + self.second
    }

    /// Whether a cabinet can hold this time: a year from 1980 to 2107, and
    /// every other field in its range.
    pub open spec fn representable(self) -> bool {
        &&& 1980 <= self.year <= 2107
        &&& 1 <= self.month <= 12
        &&& 1 <= self.day <= 31
        &&& self.hour <= 23
        &&& self.minute <= 59
        &&& self.second <= 59
    }

    /// The first time that a cabinet can hold: 1980-01-01 00:00:00.
    pub open spec fn earliest() -> CivilTime {
        CivilTime { year: 1980, month: 1, day: 1, hour: 0, minute: 0, second: 0 }
    }

    /// The last time that a cabinet can hold: 2107-12-31 23:59:59.
    pub open spec fn latest() -> CivilTime {
        CivilTime { year: 2107, month: 12, day: 31, hour: 23, minute: 59, second: 59 }
    }

    /// The nearest time that a cabinet can hold. A time before 1980, or one
    /// with a field out of range, becomes the earliest time; a time after
    /// 2107 becomes the latest.
    pub open spec fn clamped(self) -> CivilTime {
        if self.representable() {
            self
        } else if self.year > 2107 && (CivilTime { year: 2107, ..self }).representable() {
            CivilTime::latest()
        } else {
            CivilTime::earliest()
        }
    }

    /// The date word: `((year - 1980) << 9) | (month << 5) | day`.
    pub open spec fn date_bits(self) -> int {
        (self.year - 1980) * 512 + self.month * 32 + self.day
    }

    /// The time word: `(hour << 11) | (minute << 5) | (second / 2)`.
    pub open spec fn time_bits(self) -> int {
        self.hour * 2048 + self.minute * 32 + self.second / 2
    }
}

/// The date word holds its three fields apart: it is the bit field that the
/// format lays down, and each field can be read back from it.
#[verifier::rlimit(30)]
pub proof fn lemma_date_word(time: CivilTime)
    requires
        time.representable(),
    ensures
        0 <= time.date_bits() <= 0xffff,
        time.date_bits() / 512 == time.year - 1980,
        time.date_bits() / 32 % 16 == time.month,
        time.date_bits() % 32 == time.day,
        time.date_bits() == (((time.year - 1980) as u16) << 9 | (time.month as u16) << 5
            | time.day as u16),
{
    let y: u16 = (time.year - 1980) as u16;
    let m: u16 = time.month as u16;
    let d: u16 = time.day as u16;
    assert(y < 128 && m < 16 && d < 32 ==> (y << 9 | m << 5 | d) == y * 512 + m * 32 + d)
        by (bit_vector);
    let bits = y * 512 + m * 32 + d;
    assert(bits == time.date_bits());
    assert(bits / 512 == y);
    assert(bits / 32 == y * 16 + m);
}

/// The time word holds its three fields apart: it is the bit field that the
/// format lays down, and each field can be read back from it.
#[verifier::rlimit(30)]
pub proof fn lemma_time_word(time: CivilTime)
    requires
        time.representable(),
    ensures
        0 <= time.time_bits() <= 0xffff,
        time.time_bits() / 2048 == time.hour,
        time.time_bits() / 32 % 64 == time.minute,
        time.time_bits() % 32 == time.second / 2,
        time.time_bits() == ((time.hour as u16) << 11 | (time.minute as u16) << 5 | (time.second
            / 2) as u16),
{
    let h: u16 = time.hour as u16;
    let m: u16 = time.minute as u16;
    let s: u16 = (time.second / 2) as u16;
    assert(h < 32 && m < 64 && s < 32 ==> (h << 11 | m << 5 | s) == h * 2048 + m * 32 + s)
        by (bit_vector);
    let bits = h * 2048 + m * 32 + s;
    assert(bits == time.time_bits());
    assert(bits / 2048 == h);
    assert(bits / 32 == h * 64 + m);
}

/// A modification time that a cabinet can hold: from 1980-01-01 00:00:00 to
/// 2107-12-31 23:59:59, to the second.
#[derive(Clone, Copy, Debug, PartialEq, Eq, Structural)]
pub struct DateTime {
    year: u16,
    month: u8,
    day: u8,
    hour: u8,
    minute: u8,
    second: u8,
}

impl View for DateTime {
    type V = CivilTime;

    closed spec fn view(&self) -> CivilTime {
        CivilTime {
            year: self.year as i32,
            month: self.month as u32,
            day: self.day as u32,
            hour: self.hour as u32,
            minute: self.minute as u32,
            second: self.second as u32,
        }
    }
}

impl DateTime {
    #[verifier::type_invariant]
    spec fn well_formed(self) -> bool {
        self@.representable()
    }

    /// The time with the given fields, or `None` if a cabinet cannot hold it.
    pub fn new(time: CivilTime) -> (made: Option<DateTime>)
        ensures
            time.representable() ==> (made matches Some(t) && t@ == time),
            !time.representable() ==> made is None,
    {
        if 1980 <= time.year && time.year <= 2107 && 1 <= time.month && time.month <= 12 && 1
            <= time.day && time.day <= 31 && time.hour <= 23 && time.minute <= 59 && time.second
            <= 59 {
            Some(
                DateTime {
                    year: time.year as u16,
                    month: time.month as u8,
                    day: time.day as u8,
                    hour: time.hour as u8,
                    minute: time.minute as u8,
                    second: time.second as u8,
                },
            )
        } else {
            None
        }
    }

    /// 1980-01-01 00:00:00, the first time that a cabinet can hold.
    pub fn earliest() -> (made: DateTime)
        ensures
            made@ == CivilTime::earliest(),
    {
        DateTime { year: 1980, month: 1, day: 1, hour: 0, minute: 0, second: 0 }
    }

    /// 2107-12-31 23:59:59, the last time that a cabinet can hold.
    pub fn latest() -> (made: DateTime)
        ensures
            made@ == CivilTime::latest(),
    {
        DateTime { year: 2107, month: 12, day: 31, hour: 23, minute: 59, second: 59 }
    }

    /// The nearest time to `time` that a cabinet can hold.
    pub fn clamped(time: CivilTime) -> (made: DateTime)
        ensures
            made@ == time.clamped(),
    {
        match DateTime::new(time) {
            Some(made) => made,
            None => {
                if time.year > 2107 && 1 <= time.month && time.month <= 12 && 1 <= time.day
                    && time.day <= 31 && time.hour <= 23 && time.minute <= 59 && time.second
                    <= 59 {
                    DateTime::latest()
                } else {
                    DateTime::earliest()
                }
            },
        }
    }

    /// The local time at `seconds` after 1970-01-01 00:00:00 UTC, in a zone
    /// whose clocks are `utc_offset` seconds ahead of UTC, clamped to what a
    /// cabinet can hold.
    ///
    /// A local time before 1980 becomes the earliest time and one after 2107
    /// the latest. Between them the result is the time of the civil calendar
    /// that lies that many seconds after the start of 1970.
    pub fn from_timestamp(seconds: i64, utc_offset: i32) -> (made: DateTime)
        ensures
            made@.representable(),
            seconds + utc_offset < FIRST_SECOND ==> made@ == CivilTime::earliest(),
            seconds + utc_offset > LAST_SECOND ==> made@ == CivilTime::latest(),
            FIRST_SECOND <= seconds + utc_offset <= LAST_SECOND ==> made@.is_calendar_time()
                && made@.seconds_since_1970() == seconds + utc_offset,
    {
        let local: i128 = seconds as i128 + utc_offset as i128;
        let made = if local < FIRST_SECOND as i128 {
            DateTime::earliest()
        } else if local > LAST_SECOND as i128 {
            DateTime::latest()
        } else {
            match utc_civil_time(local as i64) {
                Some(time) => {
                    proof {
                        lemma_year_of_seconds(time);
                    }
                    DateTime::clamped(time)
                },
                None => DateTime::earliest(),
            }
        };
        proof {
            use_type_invariant(&made);
        }
        made
    }

    /// The seconds from 1970-01-01 00:00:00 to this time.
    pub fn to_timestamp(&self) -> (seconds: i64)
        ensures
            seconds == self@.seconds_since_1970(),
    {
        proof {
            use_type_invariant(self);
        }
        let year: i64 = self.year as i64;
        let days: i64 = days_to_year(year) + days_to_month(year, self.month as i64)
            + self.day as i64 - 1;
        let clock: i64 = self.hour as i64 * 3_600 + self.minute as i64 * 60 + self.second as i64;
        days * 86_400 + clock
    }

    /// The fields of this time.
    pub fn civil(&self) -> (time: CivilTime)
        ensures
            time == self@,
            time.representable(),
    {
        proof {
            use_type_invariant(self);
        }
        CivilTime {
            year: self.year as i32,
            month: self.month as u32,
            day: self.day as u32,
            hour: self.hour as u32,
            minute: self.minute as u32,
            second: self.second as u32,
        }
    }

    /// The date word of a file entry: `((year - 1980) << 9) | (month << 5) | day`.
    pub fn encode_date(&self) -> (bits: u16)
        ensures
            bits == self@.date_bits(),
    {
        proof {
            use_type_invariant(self);
        }
        (self.year - 1980) * 512 + (self.month as u16) * 32 + (self.day as u16)
    }

    /// The time word of a file entry: `(hour << 11) | (minute << 5) | (second / 2)`.
    pub fn encode_time(&self) -> (bits: u16)
        ensures
            bits == self@.time_bits(),
    {
        proof {
            use_type_invariant(self);
        }
        (self.hour as u16) * 2048 + (self.minute as u16) * 32 + (self.second as u16) / 2
    }
}

/// `chrono::DateTime::from_timestamp` with no nanoseconds, and the six
/// getters of `chrono::Datelike` and `chrono::Timelike` on what it returns.
/// Claimed: within the years 1980 to 2107 there is a result, it is a time of
/// the civil calendar, and it lies `seconds` seconds after 1970-01-01
/// 00:00:00 (the call is documented to round-trip with the Unix timestamp).
#[verifier::external_body]
fn utc_civil_time(seconds: i64) -> (time: Option<CivilTime>)
    requires
        FIRST_SECOND <= seconds <= LAST_SECOND,
    ensures
        time is Some,
        time.unwrap().is_calendar_time(),
        time.unwrap().seconds_since_1970() == seconds,
{
    match chrono::DateTime::from_timestamp(seconds, 0) {
        Some(t) => Some(
            CivilTime {
                year: t.year(),
                month: t.month(),
                day: t.day(),
                hour: t.hour(),
                minute: t.minute(),
                second: t.second(),
            },
        ),
        None => None,
    }
}

/// A year is as many days longer than 365 as it has a 29th of February.
pub proof fn lemma_year_step(year: int)
    ensures
        days_before_year(year + 1) == days_before_year(year) + days_in_year(year),
{
}

/// Later years begin later, by at least 365 days for each year between.
pub proof fn lemma_years_in_order(early: int, late: int)
    requires
        early <= late,
    ensures
        days_before_year(late) - days_before_year(early) >= 365 * (late - early),
    decreases late - early,
{
    if early < late {
        lemma_years_in_order(early, late - 1);
        lemma_year_step(late - 1);
    }
}

/// The day of a calendar time lies within its year.
pub proof fn lemma_day_of_year(time: CivilTime)
    requires
        time.is_calendar_time(),
    ensures
        0 <= days_before_month(time.year as int, time.month as int) + time.day - 1 < days_in_year(
            time.year as int,
        ),
{
}

/// A calendar time that lies between the first and the last second that a
/// cabinet can hold has a year from 1980 to 2107, so a cabinet can hold it.
#[verifier::rlimit(30)]
pub proof fn lemma_year_of_seconds(time: CivilTime)
    requires
        time.is_calendar_time(),
        FIRST_SECOND <= time.seconds_since_1970() <= LAST_SECOND,
    ensures
        time.representable(),
{
    let year = time.year as int;
    lemma_day_of_year(time);
    lemma_year_step(year);
    assert(days_before_year(1980) == 3652);
    assert(days_before_year(2108) == 50403);
    if year < 1980 {
        lemma_years_in_order(year + 1, 1980);
    }
    if year > 2107 {
        lemma_years_in_order(2108, year);
    }
}

/// The days from 1970-01-01 to the first day of `year`.
fn days_to_year(year: i64) -> (days: i64)
    requires
        1980 <= year <= 2107,
    ensures
        days == days_before_year(year as int),
        3652 <= days <= 50403,
{
    let before: i64 = year - 1;
    365 * (year - 1970) + (before / 4 - before / 100 + before / 400) - 477
}

/// The days from the first day of `year` to the first day of its month `month`.
fn days_to_month(year: i64, month: i64) -> (days: i64)
    requires
        1980 <= year <= 2107,
        1 <= month <= 12,
    ensures
        days == days_before_month(year as int, month as int),
        0 <= days <= 335,
{
    let leap: bool = year % 4 == 0 && (year % 100 != 0 || year % 400 == 0);
    let before: i64 = if month == 1 {
        0
    } else if month == 2 {
        31
    } else if month == 3 {
        59
    } else if month == 4 {
        90
    } else if month == 5 {
        120
    } else if month == 6 {
        151
    } else if month == 7 {
        181
    } else if month == 8 {
        212
    } else if month == 9 {
        243
    } else if month == 10 {
        273
    } else if month == 11 {
        304
    } else {
        334
    };
    if month > 2 && leap {
        before + 1
    } else {
        before
    }
}

/// A month is as long as the next one begins later.
pub proof fn lemma_month_step(year: int, month: int)
    requires
        1 <= month < 12,
    ensures
        days_before_month(year, month + 1) == days_before_month(year, month) + days_in_month(
            year,
            month,
        ),
{
}

/// Later months begin later.
pub proof fn lemma_months_in_order(year: int, early: int, late: int)
    requires
        1 <= early <= late <= 12,
    ensures
        days_before_month(year, early) <= days_before_month(year, late),
    decreases late - early,
{
    if early < late {
        lemma_months_in_order(year, early, late - 1);
        lemma_month_step(year, late - 1);
    }
}

/// The hour, the minute and the second can be read off the seconds of the day.
pub proof fn lemma_clock_fields(hour: int, minute: int, second: int)
    requires
        0 <= hour <= 23,
        0 <= minute <= 59,
        0 <= second <= 59,
    ensures
        0 <= hour * 3_600 + minute * 60 + second < 86_400,
        (hour * 3_600 + minute * 60 + second) / 3_600 == hour,
        (hour * 3_600 + minute * 60 + second) / 60 % 60 == minute,
        (hour * 3_600 + minute * 60 + second) % 60 == second,
{
}

/// Two calendar times on the same day of the same year are in the same
/// month, on the same day of it.
proof fn lemma_same_day_of_year(a: CivilTime, b: CivilTime)
    requires
        a.is_calendar_time(),
        b.is_calendar_time(),
        a.year == b.year,
        days_before_month(a.year as int, a.month as int) + a.day == days_before_month(
            b.year as int,
            b.month as int,
        ) + b.day,
    ensures
        a.month == b.month,
        a.day == b.day,
{
    let year = a.year as int;
    if a.month < b.month {
        lemma_month_step(year, a.month as int);
        lemma_months_in_order(year, a.month + 1, b.month as int);
    }
    if b.month < a.month {
        lemma_month_step(year, b.month as int);
        lemma_months_in_order(year, b.month + 1, a.month as int);
    }
}

/// Two calendar times on the same day since 1970 are in the same year.
proof fn lemma_same_year(a: CivilTime, b: CivilTime)
    requires
        a.is_calendar_time(),
        b.is_calendar_time(),
        days_before_year(a.year as int) + days_before_month(a.year as int, a.month as int)
            + a.day == days_before_year(b.year as int) + days_before_month(
            b.year as int,
            b.month as int,
        ) + b.day,
    ensures
        a.year == b.year,
{
    lemma_day_of_year(a);
    lemma_day_of_year(b);
    lemma_year_step(a.year as int);
    lemma_year_step(b.year as int);
    if a.year < b.year {
        lemma_years_in_order(a.year + 1, b.year as int);
    }
    if b.year < a.year {
        lemma_years_in_order(b.year + 1, a.year as int);
    }
}

/// No two times of the civil calendar lie the same number of seconds after
/// the start of 1970.
#[verifier::rlimit(30)]
pub proof fn lemma_calendar_time_is_unique(a: CivilTime, b: CivilTime)
    requires
        a.is_calendar_time(),
        b.is_calendar_time(),
        a.seconds_since_1970() == b.seconds_since_1970(),
    ensures
        a == b,
{
    let day_a = days_before_year(a.year as int) + days_before_month(a.year as int, a.month as int)
        + a.day - 1;
    let day_b = days_before_year(b.year as int) + days_before_month(b.year as int, b.month as int)
        + b.day - 1;
    let clock_a = a.hour * 3_600 + a.minute * 60 + a.second;
    let clock_b = b.hour * 3_600 + b.minute * 60 + b.second;
    lemma_clock_fields(a.hour as int, a.minute as int, a.second as int);
    lemma_clock_fields(b.hour as int, b.minute as int, b.second as int);
    assert(day_a * 86_400 + clock_a == day_b * 86_400 + clock_b);
    assert(day_a == day_b && clock_a == clock_b);
    lemma_same_year(a, b);
    lemma_same_day_of_year(a, b);
}

} // verus!
