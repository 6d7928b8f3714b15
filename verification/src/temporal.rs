//! Calendar dates, times of day, date-times and signed durations.
//!
//! Every value is held as a plain integer so that the schedule logic can be
//! reasoned about arithmetically:
//! - a [`Date`] is its day number in the proleptic Gregorian calendar, with
//!   January 1 of year 1 being day 1 (chrono's `num_days_from_ce`);
//! - a [`Time`] is its number of seconds since midnight;
//! - a [`DateTime`] is its number of nanoseconds since the start of day 0;
//! - a [`TimeDelta`] is a signed number of nanoseconds.
//!
//! Parsing and formatting go through chrono.
use vstd::prelude::*;

verus! {

/// Nanoseconds in one second.
pub const NANOS_PER_SEC: i128 = 1_000_000_000;

/// Seconds in one day.
pub const SECS_PER_DAY: u32 = 86_400;

/// Nanoseconds in one day.
pub const NANOS_PER_DAY: i128 = 86_400_000_000_000;

/// Day number of the earliest representable date (January 1, 262143 BCE).
pub const MIN_DAYS: i32 = -95_746_129;

/// Day number of the latest representable date (December 31, 262142 CE).
pub const MAX_DAYS: i32 = 95_745_399;

/// Smallest representable date-time: midnight of the earliest date.
pub const MIN_DATETIME_NANOS: i128 = -8_272_465_545_600_000_000_000;

/// Largest representable date-time: the last nanosecond of the latest date.
pub const MAX_DATETIME_NANOS: i128 = 8_272_402_559_999_999_999_999;

/// Bound on the magnitude of a [`TimeDelta`]: `i64::MAX` milliseconds.
pub const MAX_DELTA_NANOS: i128 = 9_223_372_036_854_775_807_000_000;

pub proof fn lemma_datetime_bounds()
    ensures
        MIN_DATETIME_NANOS == MIN_DAYS * NANOS_PER_DAY,
        MAX_DATETIME_NANOS == MAX_DAYS * NANOS_PER_DAY + NANOS_PER_DAY - 1,
        MAX_DELTA_NANOS == 9_223_372_036_854_775_807 * 1_000_000,
{
}

/// A calendar date, held as its day number (January 1 of year 1 is day 1).
#[derive(Clone, Copy, Debug, PartialEq, Eq, Structural, Hash)]
pub struct Date {
    pub days: i32,
}

/// A time of day, held as whole seconds since midnight and the nanoseconds past that
/// second. The nanoseconds reach one second or more only for a leap second, which is
/// held as second 59 of its minute plus a further second of nanoseconds.
#[derive(Clone, Copy, Debug, PartialEq, Eq, Structural, Hash)]
pub struct Time {
    pub secs: u32,
    pub frac: u32,
}

/// Time order on times of day: by whole seconds, then by the nanoseconds past them, so
/// a leap second comes after second 59 of its minute and before the next minute.
pub open spec fn time_le(a: Time, b: Time) -> bool {
    a.secs < b.secs || (a.secs == b.secs && a.frac <= b.frac)
}

/// A date and time of day, held as nanoseconds since the start of day 0.
#[derive(Clone, Copy, Debug, PartialEq, Eq, Structural, Hash)]
pub struct DateTime {
    pub nanos: i128,
}

/// A signed span of time in nanoseconds.
#[derive(Clone, Copy, Debug, PartialEq, Eq, Structural, Hash)]
pub struct TimeDelta {
    pub nanos: i128,
}

/// Day of the week, Monday being 0 and Sunday 6, of a day number.
pub open spec fn weekday_of(days: int) -> int {
    (days - 1) % 7
}

/// Number of whole days between two day numbers, ignoring the sign.
pub open spec fn day_distance(a: int, b: int) -> nat {
    if a >= b {
        (a - b) as nat
    } else {
        (b - a) as nat
    }
}

impl Date {
    /// The day number lies within the representable range.
    pub open spec fn wf(self) -> bool {
        MIN_DAYS <= self.days <= MAX_DAYS
    }

    /// The earliest representable date.
    pub fn min_value() -> (r: Date)
        ensures
            r.days == MIN_DAYS,
            r.wf(),
    {
        Date { days: MIN_DAYS }
    }

    /// The latest representable date.
    pub fn max_value() -> (r: Date)
        ensures
            r.days == MAX_DAYS,
            r.wf(),
    {
        Date { days: MAX_DAYS }
    }

    /// The date with the given day number, if it is representable.
    pub fn from_days(days: i64) -> (r: Option<Date>)
        ensures
            r is Some <==> MIN_DAYS <= days <= MAX_DAYS,
            r matches Some(d) ==> d.days == days && d.wf(),
    {
        if MIN_DAYS as i64 <= days && days <= MAX_DAYS as i64 {
            Some(Date { days: days as i32 })
        } else {
            None
        }
    }

    /// The date of a year, month (1..=12) and day of month, if it exists.
    pub fn from_ymd_opt(year: i32, month: u32, day: u32) -> (r: Option<Date>)
        ensures
            r == spec_date_from_ymd(year as int, month as int, day as int),
            r matches Some(d) ==> d.wf(),
    {
        chrono_date_from_ymd(year, month, day)
    }

    /// The day of the week, Monday being 0 and Sunday 6.
    pub fn weekday(&self) -> (r: u32)
        requires
            self.wf(),
        ensures
            r == weekday_of(self.days as int),
            r < 7,
    {
        chrono_weekday(self.days)
    }

    /// The number of whole days between two dates, ignoring the sign.
    pub fn distance_days(&self, other: &Date) -> (r: u64)
        ensures
            r == day_distance(self.days as int, other.days as int),
    {
        if self.days >= other.days {
            (self.days as i64 - other.days as i64) as u64
        } else {
            (other.days as i64 - self.days as i64) as u64
        }
    }

    /// Parses a date with a chrono format string, giving chrono's error text on failure.
    pub fn parse(text: &str, fmt: &str) -> (r: Result<Date, String>)
        ensures
            parse_outcome(r) == spec_parse_date(text@, fmt@),
            r matches Ok(d) ==> d.wf(),
    {
        chrono_parse_date(text, fmt)
    }

    /// Formats the date with a chrono format string made of literal characters and
    /// the date specifiers `%Y`, `%m`, `%d` (and `%%`).
    pub fn format(&self, fmt: &str) -> (r: String)
        requires
            self.wf(),
            simple_date_format(fmt@),
        ensures
            r@ == spec_format_date(self.days as int, fmt@),
    {
        chrono_format_date(self.days, fmt)
    }

    /// Midnight plus the given number of nanoseconds of this date.
    pub fn and_nanos(&self, nanos_of_day: u64) -> (r: DateTime)
        requires
            self.wf(),
            nanos_of_day < NANOS_PER_DAY,
        ensures
            r.nanos == self.days * NANOS_PER_DAY + nanos_of_day,
            r.wf(),
    {
        proof {
            assert(MIN_DAYS * NANOS_PER_DAY <= self.days * NANOS_PER_DAY <= MAX_DAYS * NANOS_PER_DAY)
                by (nonlinear_arith)
                requires
                    MIN_DAYS <= self.days <= MAX_DAYS,
                    NANOS_PER_DAY == 86_400_000_000_000,
            ;
        }
        DateTime { nanos: self.days as i128 * NANOS_PER_DAY + nanos_of_day as i128 }
    }

    /// Midnight of this date plus a time of day.
    pub fn and_time(&self, t: &Time) -> (r: DateTime)
        requires
            self.wf(),
            t.wf(),
        ensures
            r.nanos == self.days * NANOS_PER_DAY + t.secs * NANOS_PER_SEC,
            r.wf(),
    {
        self.and_nanos(t.secs as u64 * 1_000_000_000u64)
    }
}

/// How a parse ended: the parsed value, or the text of the error.
pub open spec fn parse_outcome<T>(r: Result<T, String>) -> Result<T, Seq<char>> {
    match r {
        Ok(v) => Ok(v),
        Err(e) => Err(e@),
    }
}

impl Time {
    /// The number of seconds is that of a time of day, and the nanoseconds past it
    /// stay below two seconds.
    pub open spec fn wf(self) -> bool {
        self.secs < SECS_PER_DAY && self.frac < 2 * NANOS_PER_SEC
    }

    /// Midnight.
    pub fn midnight() -> (r: Time)
        ensures
            r.secs == 0,
            r.frac == 0,
    {
        Time { secs: 0, frac: 0 }
    }

    /// Whether this time comes no later than `other` in time order.
    pub fn at_or_before(&self, other: &Time) -> (r: bool)
        ensures
            r == time_le(*self, *other),
    {
        self.secs < other.secs || (self.secs == other.secs && self.frac <= other.frac)
    }

    /// The time a number of seconds after midnight; `None` when that is a day or more.
    pub fn from_num_seconds_from_midnight_opt(secs: u32) -> (r: Option<Time>)
        ensures
            r is Some <==> secs < SECS_PER_DAY,
            r matches Some(t) ==> t.secs == secs && t.frac == 0,
    {
        if secs < SECS_PER_DAY {
            Some(Time { secs, frac: 0 })
        } else {
            None
        }
    }

    /// The time of an hour, minute and second; `None` unless each is in range.
    pub fn from_hms_opt(hour: u32, min: u32, sec: u32) -> (r: Option<Time>)
        ensures
            r is Some <==> (hour < 24 && min < 60 && sec < 60),
            r matches Some(t) ==> t.secs == hour * 3600 + min * 60 + sec && t.frac == 0 && t.wf(),
    {
        if hour < 24 && min < 60 && sec < 60 {
            Some(Time { secs: hour * 3600 + min * 60 + sec, frac: 0 })
        } else {
            None
        }
    }

    /// Parses a time of day with a chrono format string, giving chrono's error text on failure.
    pub fn parse(text: &str, fmt: &str) -> (r: Result<Time, String>)
        ensures
            parse_outcome(r) == spec_parse_time(text@, fmt@),
            r matches Ok(t) ==> t.wf(),
    {
        chrono_parse_time(text, fmt)
    }
}

impl DateTime {
    /// The value lies within the representable range.
    pub open spec fn wf(self) -> bool {
        MIN_DATETIME_NANOS <= self.nanos <= MAX_DATETIME_NANOS
    }

    /// The day number of the date of this value.
    pub open spec fn spec_days(self) -> int {
        (self.nanos as int) / (NANOS_PER_DAY as int)
    }

    /// Nanoseconds since the midnight of the date of this value.
    pub open spec fn spec_nanos_of_day(self) -> int {
        (self.nanos as int) % (NANOS_PER_DAY as int)
    }

    /// The earliest representable date-time.
    pub fn min_value() -> (r: DateTime)
        ensures
            r.nanos == MIN_DATETIME_NANOS,
            r.wf(),
    {
        DateTime { nanos: MIN_DATETIME_NANOS }
    }

    /// The latest representable date-time.
    pub fn max_value() -> (r: DateTime)
        ensures
            r.nanos == MAX_DATETIME_NANOS,
            r.wf(),
    {
        DateTime { nanos: MAX_DATETIME_NANOS }
    }

    /// The date of this value.
    pub fn date(&self) -> (r: Date)
        requires
            self.wf(),
        ensures
            r.days == self.spec_days(),
            r.wf(),
    {
        let d = self.nanos.checked_div_euclid(NANOS_PER_DAY).unwrap();
        proof {
            assert(MIN_DAYS <= self.nanos / NANOS_PER_DAY <= MAX_DAYS) by (nonlinear_arith)
                requires
                    MIN_DAYS * NANOS_PER_DAY <= self.nanos <= MAX_DAYS * NANOS_PER_DAY
                        + NANOS_PER_DAY - 1,
                    NANOS_PER_DAY == 86_400_000_000_000,
            ;
        }
        Date { days: d as i32 }
    }

    /// Nanoseconds since the midnight of the date of this value.
    pub fn nanos_of_day(&self) -> (r: u64)
        ensures
            r == self.spec_nanos_of_day(),
            r < NANOS_PER_DAY,
    {
        let n = self.nanos.checked_rem_euclid(NANOS_PER_DAY).unwrap();
        n as u64
    }

    /// Adds a signed span; `None` when the sum leaves the representable range.
    pub fn checked_add_signed(&self, delta: &TimeDelta) -> (r: Option<DateTime>)
        requires
            self.wf(),
            delta.wf(),
        ensures
            r is Some <==> MIN_DATETIME_NANOS <= self.nanos + delta.nanos <= MAX_DATETIME_NANOS,
            r matches Some(v) ==> v.nanos == self.nanos + delta.nanos && v.wf(),
    {
        let sum = self.nanos + delta.nanos;
        if MIN_DATETIME_NANOS <= sum && sum <= MAX_DATETIME_NANOS {
            Some(DateTime { nanos: sum })
        } else {
            None
        }
    }

    /// The signed span from `earlier` to this value.
    pub fn signed_duration_since(&self, earlier: &DateTime) -> (r: TimeDelta)
        requires
            self.wf(),
            earlier.wf(),
        ensures
            r.nanos == self.nanos - earlier.nanos,
            r.wf(),
    {
        TimeDelta { nanos: self.nanos - earlier.nanos }
    }

    /// Parses a date-time with a chrono format string. A leap second counts as the
    /// first second of the next day; one past the last representable day gives `None`.
    pub fn parse(text: &str, fmt: &str) -> (r: Option<DateTime>)
        ensures
            r matches Some(v) ==> v.wf(),
            r matches Some(v) ==> (spec_parse_datetime(text@, fmt@) matches Some(parts)
                && v.nanos == parts.0 * NANOS_PER_DAY + parts.1 * NANOS_PER_SEC + parts.2),
            r is None <==> (spec_parse_datetime(text@, fmt@) is None || (spec_parse_datetime(
                text@,
                fmt@,
            ) matches Some(parts) && parts.0 * NANOS_PER_DAY + parts.1 * NANOS_PER_SEC + parts.2
                > MAX_DATETIME_NANOS)),
    {
        match chrono_parse_datetime(text, fmt) {
            Some((days, secs, nanos)) => {
                let nanos_of_day = secs as u64 * 1_000_000_000u64 + nanos as u64;
                if nanos_of_day < 86_400_000_000_000u64 {
                    let d = Date { days };
                    Some(d.and_nanos(nanos_of_day))
                } else if days < MAX_DAYS {
                    let d = Date { days: days + 1 };
                    Some(d.and_nanos(nanos_of_day - 86_400_000_000_000u64))
                } else {
                    None
                }
            },
            None => None,
        }
    }

    /// Renders the value as chrono displays a `NaiveDateTime`.
    pub fn display(&self) -> (r: String)
        requires
            self.wf(),
        ensures
            r@ == spec_display_datetime(
                self.spec_days(),
                self.spec_nanos_of_day() / (NANOS_PER_SEC as int),
                self.spec_nanos_of_day() % (NANOS_PER_SEC as int),
            ),
    {
        let d = self.date();
        let n = self.nanos_of_day();
        chrono_display_datetime(d.days, (n / 1_000_000_000u64) as u32, (n % 1_000_000_000u64) as u32)
    }
}

impl TimeDelta {
    /// The span lies within chrono's bounds of `i64::MAX` milliseconds either way.
    pub open spec fn wf(self) -> bool {
        -MAX_DELTA_NANOS <= self.nanos <= MAX_DELTA_NANOS
    }

    /// The empty span.
    pub fn zero() -> (r: TimeDelta)
        ensures
            r.nanos == 0,
    {
        TimeDelta { nanos: 0 }
    }

    /// A span of whole seconds.
    pub fn seconds(secs: i64) -> (r: TimeDelta)
        requires
            -9_223_372_036_854_775 <= secs <= 9_223_372_036_854_775,
        ensures
            r.nanos == secs * NANOS_PER_SEC,
            r.wf(),
    {
        proof {
            assert(-MAX_DELTA_NANOS <= secs * NANOS_PER_SEC <= MAX_DELTA_NANOS) by (nonlinear_arith)
                requires
                    -9_223_372_036_854_775 <= secs <= 9_223_372_036_854_775,
                    NANOS_PER_SEC == 1_000_000_000,
                    MAX_DELTA_NANOS == 9_223_372_036_854_775_807_000_000,
            ;
        }
        TimeDelta { nanos: secs as i128 * NANOS_PER_SEC }
    }

    /// A span of whole hours; `None` outside chrono's bounds.
    pub fn try_hours(hours: i64) -> (r: Option<TimeDelta>)
        ensures
            r is Some <==> -MAX_DELTA_NANOS <= hours * 3600 * NANOS_PER_SEC <= MAX_DELTA_NANOS,
            r matches Some(v) ==> v.nanos == hours * 3600 * NANOS_PER_SEC,
    {
        let n = hours as i128 * 3600 * NANOS_PER_SEC;
        if -MAX_DELTA_NANOS <= n && n <= MAX_DELTA_NANOS {
            Some(TimeDelta { nanos: n })
        } else {
            None
        }
    }

    /// A span of whole days; `None` outside chrono's bounds.
    pub fn try_days(days: i64) -> (r: Option<TimeDelta>)
        ensures
            r is Some <==> -MAX_DELTA_NANOS <= days * NANOS_PER_DAY <= MAX_DELTA_NANOS,
            r matches Some(v) ==> v.nanos == days * NANOS_PER_DAY,
    {
        let n = days as i128 * NANOS_PER_DAY;
        if -MAX_DELTA_NANOS <= n && n <= MAX_DELTA_NANOS {
            Some(TimeDelta { nanos: n })
        } else {
            None
        }
    }

    /// A span of seconds and nanoseconds, as chrono's `TimeDelta::new` builds it:
    /// `None` when `nanos` is a second or more or the span leaves the bounds.
    pub fn new(secs: i64, nanos: u32) -> (r: Option<TimeDelta>)
        ensures
            r is Some <==> (nanos < NANOS_PER_SEC && -MAX_DELTA_NANOS <= secs * NANOS_PER_SEC
                + nanos <= MAX_DELTA_NANOS),
            r matches Some(v) ==> v.nanos == secs * NANOS_PER_SEC + nanos,
    {
        if nanos >= 1_000_000_000u32 {
            return None;
        }
        let n = secs as i128 * NANOS_PER_SEC + nanos as i128;
        if -MAX_DELTA_NANOS <= n && n <= MAX_DELTA_NANOS {
            Some(TimeDelta { nanos: n })
        } else {
            None
        }
    }
}

/// A leap year of the proleptic Gregorian calendar.
pub open spec fn is_leap_year(y: int) -> bool {
    (y % 4 == 0 && y % 100 != 0) || y % 400 == 0
}

/// The number of days of a month of a year.
pub open spec fn days_in_month(y: int, m: int) -> int {
    if m == 2 {
        if is_leap_year(y) {
            29
        } else {
            28
        }
    } else if m == 4 || m == 6 || m == 9 || m == 11 {
        30
    } else {
        31
    }
}

/// The number of days of a year before the first of a month.
pub open spec fn days_before_month(y: int, m: int) -> int {
    let base: int = if m == 1 {
        0
    } else if m == 2 {
        31
    } else if m == 3 {
        59
    } else if m == 4 {
        90
    } else if m == 5 {
        120
    } else if m == 6 {
        151
    } else if m == 7 {
        181
    } else if m == 8 {
        212
    } else if m == 9 {
        243
    } else if m == 10 {
        273
    } else if m == 11 {
        304
    } else {
        334
    };
    base + if m > 2 && is_leap_year(y) {
        1int
    } else {
        0
    }
}

/// The number of days from January 1 of year 1 to January 1 of year `y`.
pub open spec fn days_before_year(y: int) -> int {
    let p = y - 1;
    365 * p + p / 4 - p / 100 + p / 400
}

/// The earliest and latest years chrono represents.
pub open spec fn year_in_range(y: int) -> bool {
    -262_143 <= y <= 262_142
}

/// The date chrono builds from a year, month and day, if that date exists: its day
/// number counts January 1 of year 1 as day 1.
pub open spec fn spec_date_from_ymd(year: int, month: int, day: int) -> Option<Date> {
    if year_in_range(year) && 1 <= month <= 12 && 1 <= day <= days_in_month(year, month) {
        Some(Date { days: (days_before_year(year) + days_before_month(year, month) + day) as i32 })
    } else {
        None
    }
}

/// What chrono's `NaiveDate::parse_from_str` gives for a text and a format.
pub uninterp spec fn spec_parse_date(text: Seq<char>, fmt: Seq<char>) -> Result<Date, Seq<char>>;

/// What chrono's `NaiveTime::parse_from_str` gives for a text and a format, as whole
/// seconds since midnight and the nanoseconds past them (a leap second reads as second
/// 59 plus a further second of nanoseconds).
pub uninterp spec fn spec_parse_time(text: Seq<char>, fmt: Seq<char>) -> Result<Time, Seq<char>>;

/// What chrono's `NaiveDateTime::parse_from_str` gives for a text and a format: the
/// day number, the seconds since midnight and the nanoseconds within the second, which
/// reach one second or more for a leap second (second 60 is read as second 59 plus a
/// full second of nanoseconds).
pub uninterp spec fn spec_parse_datetime(text: Seq<char>, fmt: Seq<char>) -> Option<(int, int, int)>;

/// What chrono's `NaiveDate::format` renders for a day number and a format.
pub uninterp spec fn spec_format_date(days: int, fmt: Seq<char>) -> Seq<char>;

/// What chrono's `Display` of `NaiveDateTime` renders for a day number, seconds since
/// midnight and nanoseconds within the second.
pub uninterp spec fn spec_display_datetime(days: int, secs: int, nanos: int) -> Seq<char>;

/// chrono's `NaiveDate::from_ymd_opt`, read back as a day number
/// (`Datelike::num_days_from_ce`): `None` for a year outside chrono's range, a month
/// outside 1..=12 or a day past the month's end; every date built is in range.
#[verifier::external_body]
fn chrono_date_from_ymd(year: i32, month: u32, day: u32) -> (r: Option<Date>)
    ensures
        r == spec_date_from_ymd(year as int, month as int, day as int),
        r matches Some(d) ==> d.wf(),
{
    match chrono::NaiveDate::from_ymd_opt(year, month, day) {
        Some(d) => Some(Date { days: chrono::Datelike::num_days_from_ce(&d) }),
        None => None,
    }
}

/// chrono's `Datelike::weekday` counted from Monday, for the date with the given day
/// number. Day 1 (January 1 of year 1) is a Monday in the proleptic Gregorian calendar,
/// so the weekday is the day number less one, modulo seven.
#[verifier::external_body]
fn chrono_weekday(days: i32) -> (r: u32)
    requires
        MIN_DAYS <= days <= MAX_DAYS,
    ensures
        r == weekday_of(days as int),
        r < 7,
{
    let d = chrono::NaiveDate::from_num_days_from_ce_opt(days).unwrap();
    chrono::Datelike::weekday(&d).num_days_from_monday()
}

/// chrono's `NaiveDate::parse_from_str`, read back as a day number, with the error's
/// text on failure. The contract names the result; every date chrono parses is in range.
#[verifier::external_body]
fn chrono_parse_date(text: &str, fmt: &str) -> (r: Result<Date, String>)
    ensures
        parse_outcome(r) == spec_parse_date(text@, fmt@),
        r matches Ok(d) ==> d.wf(),
{
    match chrono::NaiveDate::parse_from_str(text, fmt) {
        Ok(d) => Ok(Date { days: chrono::Datelike::num_days_from_ce(&d) }),
        Err(e) => Err(e.to_string()),
    }
}

/// chrono's `NaiveTime::parse_from_str`, read back as whole seconds since midnight
/// (`num_seconds_from_midnight`) and the nanoseconds past them (`nanosecond`), with the
/// error's text on failure. The contract names the result; chrono documents the
/// seconds as below one day and the nanoseconds as below two seconds, the second one
/// standing for a leap second.
#[verifier::external_body]
fn chrono_parse_time(text: &str, fmt: &str) -> (r: Result<Time, String>)
    ensures
        parse_outcome(r) == spec_parse_time(text@, fmt@),
        r matches Ok(t) ==> t.wf(),
{
    match chrono::NaiveTime::parse_from_str(text, fmt) {
        Ok(t) => Ok(
            Time {
                secs: chrono::Timelike::num_seconds_from_midnight(&t),
                frac: chrono::Timelike::nanosecond(&t),
            },
        ),
        Err(e) => Err(e.to_string()),
    }
}

/// chrono's `NaiveDateTime::parse_from_str`, read back as the day number, the seconds
/// since midnight and the nanoseconds within the second. The contract names the result
/// and states the ranges chrono documents for those parts.
#[verifier::external_body]
fn chrono_parse_datetime(text: &str, fmt: &str) -> (r: Option<(i32, u32, u32)>)
    ensures
        r matches Some(p) ==> spec_parse_datetime(text@, fmt@) == Some(
            (p.0 as int, p.1 as int, p.2 as int),
        ) && MIN_DAYS <= p.0 <= MAX_DAYS && p.1 < SECS_PER_DAY && p.2 < 2 * NANOS_PER_SEC,
        r is None <==> spec_parse_datetime(text@, fmt@) is None,
{
    match chrono::NaiveDateTime::parse_from_str(text, fmt) {
        Ok(dt) => Some((
            chrono::Datelike::num_days_from_ce(&dt),
            chrono::Timelike::num_seconds_from_midnight(&dt),
            chrono::Timelike::nanosecond(&dt),
        )),
        Err(_) => None,
    }
}

/// A format specifier letter that chrono renders for any date: year, month, day, or
/// a literal percent sign.
pub open spec fn date_format_letter(c: char) -> bool {
    c == 'Y' || c == 'm' || c == 'd' || c == '%'
}

/// A chrono format string made of literal characters and the specifiers `%Y`, `%m`,
/// `%d` and `%%` only: each `%` is followed by one of those letters. chrono parses
/// such a string into items that never fail to render for a date.
pub open spec fn simple_date_format(fmt: Seq<char>) -> bool {
    forall|i: int| 0 <= i < fmt.len() && fmt[i] == '%' ==> i + 1 < fmt.len() && date_format_letter(#[trigger] fmt[i + 1])
}

/// The user-facing month-day-year format is a simple date format.
pub proof fn lemma_month_day_year_format()
    ensures
        simple_date_format("%m-%d-%Y"@),
{
    reveal_strlit("%m-%d-%Y");
    let f = "%m-%d-%Y"@;
    assert forall|i: int| 0 <= i < f.len() && f[i] == '%' implies i + 1 < f.len() && date_format_letter(#[trigger] f[i + 1]) by {
        assert(i == 0 || i == 1 || i == 2 || i == 3 || i == 4 || i == 5 || i == 6 || i == 7);
    }
}

/// chrono's `NaiveDate::format` for the date with the given day number, with a format
/// string whose items chrono renders without error (formatting a string with an
/// invalid or time item fails, and `format!` then panics). The contract names the
/// rendered text.
#[verifier::external_body]
fn chrono_format_date(days: i32, fmt: &str) -> (r: String)
    requires
        MIN_DAYS <= days <= MAX_DAYS,
        simple_date_format(fmt@),
    ensures
        r@ == spec_format_date(days as int, fmt@),
{
    let d = chrono::NaiveDate::from_num_days_from_ce_opt(days).unwrap();
    format!("{}", d.format(fmt))
}

/// chrono's `Display` of the `NaiveDateTime` with the given day number, seconds since
/// midnight and nanoseconds within the second. The contract names the rendered text.
#[verifier::external_body]
fn chrono_display_datetime(days: i32, secs: u32, nanos: u32) -> (r: String)
    requires
        MIN_DAYS <= days <= MAX_DAYS,
        secs < SECS_PER_DAY,
        nanos < NANOS_PER_SEC,
    ensures
        r@ == spec_display_datetime(days as int, secs as int, nanos as int),
{
    let d = chrono::NaiveDate::from_num_days_from_ce_opt(days).unwrap();
    let t = chrono::NaiveTime::from_num_seconds_from_midnight_opt(secs, nanos).unwrap();
    format!("{}", d.and_time(t))
}

} // verus!
