//! Searches for valid service dates in calendar.txt and calendar_dates.txt.
use vstd::prelude::*;

use crate::schedule::calendar::{Calendar, CalendarDate, Exception, calendar_dates_wf};
use crate::schedule::error::ScheduleError;
use crate::temporal::{
    Date, MAX_DAYS, MIN_DAYS, day_distance, spec_format_date, weekday_of,
};
use crate::text::{push_decimal, push_signed_decimal, push_str, signed_decimal, decimal, string_of};

verus! {

/// The date format of user-facing dates: month-day-year.
pub const APP_DATE_FORMAT: &'static str = "%m-%d-%Y";

/// The time format of user-facing times of day.
pub const APP_TIME_FORMAT: &'static str = "%H:%M:%S";

/// A day number rendered in the user-facing date format.
pub open spec fn app_date(days: int) -> Seq<char> {
    spec_format_date(days, APP_DATE_FORMAT@)
}

/// Stepping a day number by some days stays within the representable range.
pub open spec fn step_ok(days: int, step: int) -> bool {
    step == 0 || MIN_DAYS <= days + step <= MAX_DAYS
}

/// The message of a failed date step.
pub open spec fn step_error_message(days: int, step: int) -> Seq<char> {
    "failure "@ + (if step < 0 {
        "subtracting"@
    } else {
        "adding"@
    }) + " "@ + signed_decimal(step) + " days to date "@ + app_date(days) + " due to bounds error"@
}

/// The error is an invalid-data error carrying exactly the given message.
pub open spec fn is_invalid_data(e: ScheduleError, msg: Seq<char>) -> bool {
    e matches ScheduleError::InvalidData(m) && m@ == msg
}

/// The description of a target date and a date range used in error messages.
pub open spec fn error_suffix(target: int, start: int, end: int) -> Seq<char> {
    "for target date '"@ + app_date(target) + "' and date range ["@ + app_date(start) + ","@
        + app_date(end) + "]"@
}

/// Appends a date in the user-facing date format.
pub fn push_app_date(out: &mut Vec<char>, d: &Date)
    requires
        d.wf(),
    ensures
        final(out)@ == old(out)@ + app_date(d.days as int),
{
    proof {
        crate::temporal::lemma_month_day_year_format();
    }
    let s = d.format(APP_DATE_FORMAT);
    push_str(out, s.as_str());
}

/// adds (or when step is negative, subtracts) days from a date.
pub fn step_date(date: Date, step: i64) -> (r: Result<Date, ScheduleError>)
    requires
        date.wf(),
    ensures
        r is Ok <==> step_ok(date.days as int, step as int),
        r matches Ok(d) ==> d.days == date.days + step && d.wf(),
        r matches Err(e) ==> is_invalid_data(
            e,
            step_error_message(date.days as int, step as int),
        ),
{
    if step == 0 {
        return Ok(date);
    }
    let sum: i128 = date.days as i128 + step as i128;
    if MIN_DAYS as i128 <= sum && sum <= MAX_DAYS as i128 {
        Ok(Date { days: sum as i32 })
    } else {
        let mut out: Vec<char> = Vec::new();
        push_str(&mut out, "failure ");
        if step < 0 {
            push_str(&mut out, "subtracting");
        } else {
            push_str(&mut out, "adding");
        }
        push_str(&mut out, " ");
        push_signed_decimal(&mut out, step);
        push_str(&mut out, " days to date ");
        push_app_date(&mut out, &date);
        push_str(&mut out, " due to bounds error");
        Err(ScheduleError::InvalidData(string_of(&out)))
    }
}

/// helper function for returning errors that reference some target date and date range
pub fn error_msg_suffix(target: &Date, start: &Date, end: &Date) -> (r: String)
    requires
        target.wf(),
        start.wf(),
        end.wf(),
    ensures
        r@ == error_suffix(target.days as int, start.days as int, end.days as int),
{
    let mut out: Vec<char> = Vec::new();
    push_error_suffix(&mut out, target, start, end);
    string_of(&out)
}

fn push_error_suffix(out: &mut Vec<char>, target: &Date, start: &Date, end: &Date)
    requires
        target.wf(),
        start.wf(),
        end.wf(),
    ensures
        final(out)@ == old(out)@ + error_suffix(target.days as int, start.days as int, end.days as int),
{
    push_str(out, "for target date '");
    push_app_date(out, target);
    push_str(out, "' and date range [");
    push_app_date(out, start);
    push_str(out, ",");
    push_app_date(out, end);
    push_str(out, "]");
}

/// The message of a target date outside of a calendar's range.
pub open spec fn calendar_miss_message(target: int, start: int, end: int) -> Seq<char> {
    "no calendar.txt dates match "@ + error_suffix(target, start, end)
}

/// helper function to find some expected date in the calendar.txt of a GTFS archive:
/// the target itself when it lies within the calendar's date range (inclusive).
pub fn find_in_calendar(target: &Date, calendar: &Calendar) -> (r: Result<Date, ScheduleError>)
    requires
        target.wf(),
        calendar.wf(),
    ensures
        r is Ok <==> calendar.start_date.days <= target.days <= calendar.end_date.days,
        r matches Ok(d) ==> d == *target,
        r matches Err(e) ==> is_invalid_data(
            e,
            calendar_miss_message(
                target.days as int,
                calendar.start_date.days as int,
                calendar.end_date.days as int,
            ),
        ),
{
    let start = &calendar.start_date;
    let end = &calendar.end_date;
    if start.days <= target.days && target.days <= end.days {
        Ok(*target)
    } else {
        let mut out: Vec<char> = Vec::new();
        push_str(&mut out, "no calendar.txt dates match ");
        push_error_suffix(&mut out, target, start, end);
        Err(ScheduleError::InvalidData(string_of(&out)))
    }
}

/// Some entry adds service on the target date.
pub open spec fn has_exception(cds: Seq<CalendarDate>, target: int, kind: Exception) -> bool {
    exists|i: int| 0 <= i < cds.len() && (#[trigger] cds[i]).date.days == target && cds[i].exception_type == kind
}

/// The message of a target date without an added exception.
pub open spec fn no_add_exception_message(target: int) -> Seq<char> {
    "no calendar_dates match target date '"@ + app_date(target)
        + "' with exception_type as 'added'"@
}

fn find_exception(target: &Date, calendar_dates: &[CalendarDate], kind: Exception) -> (r: bool)
    ensures
        r == has_exception(calendar_dates@, target.days as int, kind),
{
    let mut i: usize = 0;
    while i < calendar_dates.len()
        invariant
            i <= calendar_dates.len(),
            forall|j: int|
                0 <= j < i ==> !((#[trigger] calendar_dates@[j]).date.days == target.days
                    && calendar_dates@[j].exception_type == kind),
        decreases calendar_dates.len() - i,
    {
        if calendar_dates[i].date.days == target.days && calendar_dates[i].exception_type == kind {
            return true;
        }
        i += 1;
    }
    false
}

/// helper function to find some expected target date in the calendar_dates.txt of a
/// GTFS archive where the entry should have an exception_type of "Added".
pub fn confirm_add_exception(target: &Date, calendar_dates: &[CalendarDate]) -> (r: Result<
    Date,
    ScheduleError,
>)
    requires
        target.wf(),
    ensures
        r is Ok <==> has_exception(calendar_dates@, target.days as int, Exception::Added),
        r matches Ok(d) ==> d == *target,
        r matches Err(e) ==> is_invalid_data(e, no_add_exception_message(target.days as int)),
{
    if find_exception(target, calendar_dates, Exception::Added) {
        Ok(*target)
    } else {
        let mut out: Vec<char> = Vec::new();
        push_str(&mut out, "no calendar_dates match target date '");
        push_app_date(&mut out, target);
        push_str(&mut out, "' with exception_type as 'added'");
        Err(ScheduleError::InvalidData(string_of(&out)))
    }
}

/// helper function to find some expected target date in the calendar_dates.txt of a
/// GTFS archive where the entry should
///   1) not exist, or
///   2) NOT have an exception_type of "Deleted".
pub fn confirm_no_delete_exception(target: &Date, calendar_dates: &[CalendarDate]) -> (r: bool)
    ensures
        r == !has_exception(calendar_dates@, target.days as int, Exception::Deleted),
{
    !find_exception(target, calendar_dates, Exception::Deleted)
}

/// `a` is nearer the target than `b`, the earlier date winning a tie.
pub open spec fn nearer(target: int, a: int, b: int) -> bool {
    day_distance(a, target) < day_distance(b, target) || (day_distance(a, target) == day_distance(
        b,
        target,
    ) && a < b)
}

/// An entry adds service within the tolerance of the target, on the target's weekday
/// when the weekday must match.
pub open spec fn add_candidate(cd: CalendarDate, target: int, tolerance: int, match_weekday: bool) -> bool {
    &&& cd.exception_type == Exception::Added
    &&& (match_weekday ==> weekday_of(cd.date.days as int) == weekday_of(target))
    &&& day_distance(cd.date.days as int, target) <= tolerance
}

/// The message when no added entry lies near the target.
pub open spec fn no_nearest_add_message(target: int, tolerance: int, match_weekday: bool) -> Seq<
    char,
> {
    "no Added entry in calendar_dates.txt within "@ + decimal(tolerance as nat) + " days of "@
        + app_date(target) + (if match_weekday {
        " with matching weekday"@
    } else {
        Seq::empty()
    })
}

/// finds the nearest date to the target date that has an exception_type of "Added"
/// which is within some date_tolerance. ties go to the earlier date.
pub fn find_nearest_add_exception(
    target: &Date,
    calendar_dates: &[CalendarDate],
    date_tolerance: u64,
    match_weekday: bool,
) -> (r: Result<Date, ScheduleError>)
    requires
        target.wf(),
        calendar_dates_wf(calendar_dates@),
    ensures
        r is Ok <==> exists|i: int|
            0 <= i < calendar_dates@.len() && add_candidate(
                #[trigger] calendar_dates@[i],
                target.days as int,
                date_tolerance as int,
                match_weekday,
            ),
        r matches Ok(d) ==> exists|i: int|
            0 <= i < calendar_dates@.len() && add_candidate(
                #[trigger] calendar_dates@[i],
                target.days as int,
                date_tolerance as int,
                match_weekday,
            ) && calendar_dates@[i].date == d,
        r matches Ok(d) ==> forall|i: int|
            0 <= i < calendar_dates@.len() && add_candidate(
                #[trigger] calendar_dates@[i],
                target.days as int,
                date_tolerance as int,
                match_weekday,
            ) ==> calendar_dates@[i].date.days == d.days || nearer(
                target.days as int,
                d.days as int,
                calendar_dates@[i].date.days as int,
            ),
        r matches Err(e) ==> is_invalid_data(
            e,
            no_nearest_add_message(target.days as int, date_tolerance as int, match_weekday),
        ),
{
    let target_weekday = target.weekday();
    let mut best: Option<Date> = None;
    let mut i: usize = 0;
    while i < calendar_dates.len()
        invariant
            i <= calendar_dates.len(),
            target.wf(),
            calendar_dates_wf(calendar_dates@),
            target_weekday == weekday_of(target.days as int),
            best is None <==> forall|j: int|
                0 <= j < i ==> !add_candidate(
                    #[trigger] calendar_dates@[j],
                    target.days as int,
                    date_tolerance as int,
                    match_weekday,
                ),
            best matches Some(b) ==> exists|j: int|
                0 <= j < i && add_candidate(
                    #[trigger] calendar_dates@[j],
                    target.days as int,
                    date_tolerance as int,
                    match_weekday,
                ) && calendar_dates@[j].date == b,
            best matches Some(b) ==> forall|j: int|
                0 <= j < i && add_candidate(
                    #[trigger] calendar_dates@[j],
                    target.days as int,
                    date_tolerance as int,
                    match_weekday,
                ) ==> calendar_dates@[j].date.days == b.days || nearer(
                    target.days as int,
                    b.days as int,
                    calendar_dates@[j].date.days as int,
                ),
        decreases calendar_dates.len() - i,
    {
        let cd = &calendar_dates[i];
        assert(cd.date.wf());
        let matches_exception = cd.exception_type == Exception::Added;
        let matches_weekday = if match_weekday {
            cd.date.weekday() == target_weekday
        } else {
            true
        };
        if matches_exception && matches_weekday {
            let days = cd.date.distance_days(target);
            if days <= date_tolerance {
                match best {
                    None => {
                        best = Some(cd.date);
                    },
                    Some(b) => {
                        let bd = b.distance_days(target);
                        if days < bd || (days == bd && cd.date.days < b.days) {
                            best = Some(cd.date);
                        }
                    },
                }
            }
        }
        i += 1;
    }
    match best {
        Some(b) => Ok(b),
        None => {
            let mut out: Vec<char> = Vec::new();
            push_str(&mut out, "no Added entry in calendar_dates.txt within ");
            push_decimal(&mut out, date_tolerance);
            push_str(&mut out, " days of ");
            push_app_date(&mut out, target);
            if match_weekday {
                push_str(&mut out, " with matching weekday");
            } else {
                assert(out@ + Seq::<char>::empty() == out@);
            }
            Err(ScheduleError::InvalidData(string_of(&out)))
        },
    }
}

/// Some date of the sequence has the given day number.
pub open spec fn contains_day(v: Seq<Date>, d: int) -> bool {
    exists|i: int| 0 <= i < v.len() && (#[trigger] v[i]).days == d
}

/// A `u64` read as an `i64` by wrapping, as `as i64` does.
pub open spec fn wrap_i64(n: int) -> int {
    if n <= i64::MAX {
        n
    } else {
        n - 0x1_0000_0000_0000_0000
    }
}

/// Negation of an `i64` that wraps at the minimum value.
pub open spec fn wrapping_neg(n: int) -> int {
    if n == i64::MIN {
        n
    } else {
        -n
    }
}

pub open spec fn max_int(a: int, b: int) -> int {
    if a >= b {
        a
    } else {
        b
    }
}

pub open spec fn min_int(a: int, b: int) -> int {
    if a <= b {
        a
    } else {
        b
    }
}

/// First day of the overlap of the tolerance window around the target and a range.
pub open spec fn overlap_start(target: int, start: int, tolerance: int) -> int {
    max_int(target + wrapping_neg(wrap_i64(tolerance)), start)
}

/// Last day of the overlap of the tolerance window around the target and a range.
pub open spec fn overlap_end(target: int, end: int, tolerance: int) -> int {
    min_int(target + wrap_i64(tolerance), end)
}

/// A day lies in the overlap, within the tolerance of the target, and on the target's
/// weekday when the weekday must match.
pub open spec fn in_overlap(
    target: int,
    start: int,
    end: int,
    tolerance: int,
    match_weekday: bool,
    d: int,
) -> bool {
    &&& overlap_start(target, start, tolerance) <= d <= overlap_end(target, end, tolerance)
    &&& day_distance(d, target) <= tolerance
    &&& (match_weekday ==> weekday_of(d) == weekday_of(target))
}

/// Whether `date_range_intersection` succeeds: both ends of the tolerance window are
/// representable, and the walk over a non-empty overlap can step past its last day.
pub open spec fn intersection_ok(target: int, start: int, end: int, tolerance: int) -> bool {
    &&& step_ok(target, wrapping_neg(wrap_i64(tolerance)))
    &&& step_ok(target, wrap_i64(tolerance))
    &&& (overlap_start(target, start, tolerance) > overlap_end(target, end, tolerance)
        || overlap_end(target, end, tolerance) < MAX_DAYS)
}

/// The message of a failed intersection.
pub open spec fn intersection_error_message(target: int, start: int, end: int, tolerance: int) -> Seq<
    char,
> {
    if !step_ok(target, wrapping_neg(wrap_i64(tolerance))) {
        step_error_message(target, wrapping_neg(wrap_i64(tolerance)))
    } else if !step_ok(target, wrap_i64(tolerance)) {
        step_error_message(target, wrap_i64(tolerance))
    } else {
        step_error_message(MAX_DAYS as int, 1)
    }
}

/// tests intersection (inclusive) of some target date with a date range.
///
/// * `target` - the "real" date from the date range
/// * `start` - start (inclusive) of the range to test against from the calendar.txt file
/// * `end` - end (inclusive) of the range to test against from the calendar.txt file
/// * `date_tolerance` - number of days outside of range we will tolerate remapping dates
/// * `match_weekday` - if true, ensure any found dates also match the target by day of week
///
/// returns all valid dates that could be used from this date range, filtering by the date
/// tolerance and weekday match criteria, ordered by their distance from the target,
/// the earlier of two equally distant dates first.
pub fn date_range_intersection(
    target: &Date,
    start: &Date,
    end: &Date,
    date_tolerance: u64,
    match_weekday: bool,
) -> (r: Result<Vec<Date>, ScheduleError>)
    requires
        target.wf(),
        start.wf(),
        end.wf(),
    ensures
        r is Ok <==> intersection_ok(
            target.days as int,
            start.days as int,
            end.days as int,
            date_tolerance as int,
        ),
        r matches Ok(v) ==> forall|i: int|
            0 <= i < v@.len() ==> in_overlap(
                target.days as int,
                start.days as int,
                end.days as int,
                date_tolerance as int,
                match_weekday,
                (#[trigger] v@[i]).days as int,
            ),
        r matches Ok(v) ==> forall|d: int|
            #[trigger] in_overlap(
                target.days as int,
                start.days as int,
                end.days as int,
                date_tolerance as int,
                match_weekday,
                d,
            ) ==> contains_day(v@, d),
        r matches Ok(v) ==> forall|i: int, j: int|
            0 <= i < j < v@.len() ==> nearer(
                target.days as int,
                (#[trigger] v@[i]).days as int,
                (#[trigger] v@[j]).days as int,
            ),
        r matches Ok(v) ==> forall|i: int| 0 <= i < v@.len() ==> (#[trigger] v@[i]).wf(),
        r matches Err(e) ==> is_invalid_data(
            e,
            intersection_error_message(
                target.days as int,
                start.days as int,
                end.days as int,
                date_tolerance as int,
            ),
        ),
{
    let tol: i64 = if date_tolerance <= i64::MAX as u64 {
        date_tolerance as i64
    } else {
        ((date_tolerance - 0x8000_0000_0000_0000u64) as i64) + i64::MIN
    };
    let neg: i64 = if tol == i64::MIN {
        tol
    } else {
        -tol
    };
    assert(tol == wrap_i64(date_tolerance as int));
    assert(neg == wrapping_neg(wrap_i64(date_tolerance as int)));
    let target_start = step_date(*target, neg)?;
    let target_end = step_date(*target, tol)?;
    let os: i64 = if target_start.days >= start.days {
        target_start.days as i64
    } else {
        start.days as i64
    };
    let oe: i64 = if target_end.days <= end.days {
        target_end.days as i64
    } else {
        end.days as i64
    };
    assert(os == overlap_start(target.days as int, start.days as int, date_tolerance as int));
    assert(oe == overlap_end(target.days as int, end.days as int, date_tolerance as int));
    if os > oe {
        return Ok(Vec::new());
    }
    if oe == MAX_DAYS as i64 {
        // the walk over the overlap cannot step past the latest representable date
        return Err(step_date(Date { days: MAX_DAYS }, 1).unwrap_err());
    }
    let t: i64 = target.days as i64;
    let target_weekday = target.weekday();
    let max_k: i64 = if t - os >= oe - t {
        t - os
    } else {
        oe - t
    };
    let ghost tg = target.days as int;
    let ghost sd = start.days as int;
    let ghost ed = end.days as int;
    let ghost tl = date_tolerance as int;
    let mut out: Vec<Date> = Vec::new();
    let mut k: i64 = 0;
    while k <= max_k
        invariant
            0 <= k <= max_k + 1,
            t == tg,
            tg == target.days as int,
            sd == start.days as int,
            ed == end.days as int,
            tl == date_tolerance as int,
            MIN_DAYS <= t <= MAX_DAYS,
            os == overlap_start(tg, sd, tl),
            oe == overlap_end(tg, ed, tl),
            MIN_DAYS <= os <= oe < MAX_DAYS,
            max_k == max_int(t - os, oe - t),
            max_k >= 0,
            target_weekday == weekday_of(tg),
            forall|i: int|
                0 <= i < out@.len() ==> in_overlap(tg, sd, ed, tl, match_weekday, (#[trigger] out@[i]).days as int)
                    && day_distance(out@[i].days as int, tg) < k && out@[i].wf(),
            forall|d: int|
                #[trigger] in_overlap(tg, sd, ed, tl, match_weekday, d) && day_distance(d, tg) < k ==> contains_day(out@, d),
            forall|i: int, j: int|
                0 <= i < j < out@.len() ==> nearer(tg, (#[trigger] out@[i]).days as int, (#[trigger] out@[j]).days as int),
        decreases max_k + 1 - k,
    {
        let ghost prev = out@;
        let lo = t - k;
        let ku: u64 = k as u64;
        assert(ku == k);
        let lo_in = os <= lo && lo <= oe && ku <= date_tolerance && (!match_weekday
            || Date { days: lo as i32 }.weekday() == target_weekday);
        assert(day_distance(lo as int, tg) == k);
        proof {
            if os <= lo && lo <= oe {
                assert((lo as i32) as int == lo as int);
                assert(tl == date_tolerance as int);
                assert(ku as int == k as int);
                assert(day_distance(lo as int, tg) == k as int);
                assert((ku <= date_tolerance) == (day_distance(lo as int, tg) <= tl));
            }
        }
        assert(lo_in == in_overlap(tg, sd, ed, tl, match_weekday, lo as int));
        if lo_in {
            out.push(Date { days: lo as i32 });
        }
        let ghost mid = out@;
        assert forall|i: int, j: int| 0 <= i < j < mid.len() implies nearer(tg, (#[trigger] mid[i]).days as int, (#[trigger] mid[j]).days as int) by {
            if j == mid.len() - 1 && mid.len() > prev.len() {
                assert(day_distance(mid[i].days as int, tg) < k);
            } else {
                assert(mid[i] == prev[i] && mid[j] == prev[j]);
            }
        }
        let hi = t + k;
        let hi_in = k > 0 && os <= hi && hi <= oe && ku <= date_tolerance && (
        !match_weekday || Date { days: hi as i32 }.weekday() == target_weekday);
        assert(k > 0 ==> day_distance(hi as int, tg) == k);
        proof {
            if k > 0 && os <= hi && hi <= oe {
                assert((hi as i32) as int == hi as int);
                assert((ku <= date_tolerance) == (day_distance(hi as int, tg) <= tl));
            }
        }
        assert(k > 0 ==> hi_in == in_overlap(tg, sd, ed, tl, match_weekday, hi as int));
        if hi_in {
            out.push(Date { days: hi as i32 });
        }
        let ghost fin = out@;
        assert forall|i: int, j: int| 0 <= i < j < fin.len() implies nearer(tg, (#[trigger] fin[i]).days as int, (#[trigger] fin[j]).days as int) by {
            if j == fin.len() - 1 && fin.len() > mid.len() {
                if i >= prev.len() {
                    assert(fin[i].days == t - k);
                } else {
                    assert(day_distance(fin[i].days as int, tg) < k);
                }
            } else {
                assert(fin[i] == mid[i] && fin[j] == mid[j]);
            }
        }
        assert forall|d: int| #[trigger] in_overlap(tg, sd, ed, tl, match_weekday, d) && day_distance(d, tg) < k + 1 implies contains_day(fin, d) by {
            if day_distance(d, tg) < k {
                let i0 = choose|i: int| 0 <= i < prev.len() && (#[trigger] prev[i]).days == d;
                assert(fin[i0] == prev[i0]);
                assert(fin[i0].days == d);
            } else if d == t - k {
                assert(lo_in);
                assert(fin[prev.len() as int] == mid[prev.len() as int]);
                assert(fin[prev.len() as int].days == d);
            } else {
                assert(d == t + k);
                assert(hi_in);
                assert(fin[fin.len() - 1].days == d);
                assert(contains_day(fin, d));
            }
        }
        k += 1;
    }
    assert forall|d: int| #[trigger] in_overlap(target.days as int, start.days as int, end.days as int, date_tolerance as int, match_weekday, d) implies contains_day(out@, d) by {
        assert(in_overlap(tg, sd, ed, tl, match_weekday, d));
        assert(day_distance(d, tg) < k);
    }
    assert forall|i: int| 0 <= i < out@.len() implies (#[trigger] out@[i]).wf() by {
    }
    Ok(out)
}

} // verus!
