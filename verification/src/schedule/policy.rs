//! Date mapping policies: which dates to build schedules for, and how a target date
//! is mapped onto a date that a trip's service actually runs.
use vstd::prelude::*;

use crate::schedule::calendar::{
    Calendar, CalendarDate, Exception, ServiceCalendar, calendar_dates_wf,
};
use crate::schedule::date_ops::{
    APP_DATE_FORMAT, APP_TIME_FORMAT, add_candidate, calendar_miss_message, confirm_add_exception,
    confirm_no_delete_exception, date_range_intersection, error_msg_suffix, error_suffix,
    find_in_calendar, find_nearest_add_exception, has_exception, in_overlap,
    intersection_error_message, intersection_ok, is_invalid_data, nearer, no_add_exception_message,
    no_nearest_add_message, push_app_date, app_date,
};
use crate::schedule::error::{ScheduleError, schedule_error_message};
use crate::schedule::policy_config::DateMappingPolicyConfig;
use crate::schedule::trip::{SortedTrip, StopTime};
use crate::temporal::{
    Date, SECS_PER_DAY, Time, time_le, day_distance, spec_parse_date, spec_parse_time, weekday_of,
};
use crate::text::{chars_of, decimal, push_all, push_decimal, push_str, string_of};

verus! {

/// How target dates are chosen and mapped onto dates of the archive's service calendar.
#[derive(Clone, Copy, Debug, PartialEq, Eq, Structural)]
pub enum DateMappingPolicy {
    ExactDate(Date),
    ExactDateRange {
        /// start date in range
        start_date: Date,
        end_date: Date,
    },
    NearestDate {
        date: Date,
        /// limit to the number of days to search from the target date +-
        /// to a viable date in the GTFS archive.
        date_tolerance: u64,
        /// if true, choose the closest date that matches the same day of the
        /// week as our target date.
        match_weekday: bool,
    },
    NearestDateRange {
        start_date: Date,
        end_date: Date,
        date_tolerance: u64,
        match_weekday: bool,
    },
    ExactDatetimeRange {
        /// start datetime in range
        start_date: Date,
        end_date: Date,
        start_time: Time,
        end_time: Time,
    },
    NearestDatetimeRange {
        start_date: Date,
        end_date: Date,
        start_time: Time,
        end_time: Time,
        date_tolerance: u64,
        match_weekday: bool,
    },
    BestCase {
        start_date: Date,
        end_date: Date,
        start_time: Time,
        end_time: Time,
        date_tolerance: u64,
    },
}

/// The default tolerance of the best-case policy: ten years of days.
pub const BEST_CASE_DEFAULT_TOLERANCE: u64 = 3650;

/// The message of a field of a policy that failed to parse.
pub open spec fn field_message(field: Seq<char>, policy: Seq<char>, err: Seq<char>) -> Seq<char> {
    "failure reading "@ + field + " for "@ + policy + " mapping policy: "@ + err
}

/// A date field of a policy configuration, parsed.
pub open spec fn parsed_date(text: Seq<char>, field: Seq<char>, policy: Seq<char>) -> Result<
    Date,
    Seq<char>,
> {
    match spec_parse_date(text, APP_DATE_FORMAT@) {
        Ok(d) => Ok(d),
        Err(e) => Err(field_message(field, policy, e)),
    }
}

/// A time field of a policy configuration, parsed.
pub open spec fn parsed_time(text: Seq<char>, field: Seq<char>, policy: Seq<char>) -> Result<
    Time,
    Seq<char>,
> {
    match spec_parse_time(text, APP_TIME_FORMAT@) {
        Ok(t) => Ok(t),
        Err(e) => Err(field_message(field, policy, e)),
    }
}

/// The parsed start date, end date, start time and end time of a date-time range policy.
pub open spec fn parsed_range(
    start_date: Seq<char>,
    end_date: Seq<char>,
    start_time: Seq<char>,
    end_time: Seq<char>,
    policy: Seq<char>,
) -> Result<(Date, Date, Time, Time), Seq<char>> {
    match parsed_date(start_date, "start_date"@, policy) {
        Err(m) => Err(m),
        Ok(sd) => match parsed_date(end_date, "end_date"@, policy) {
            Err(m) => Err(m),
            Ok(ed) => match parsed_time(start_time, "start_time"@, policy) {
                Err(m) => Err(m),
                Ok(st) => match parsed_time(end_time, "end_time"@, policy) {
                    Err(m) => Err(m),
                    Ok(et) => Ok((sd, ed, st, et)),
                },
            },
        },
    }
}

/// The parsed start and end date of a date range policy.
pub open spec fn parsed_dates(start_date: Seq<char>, end_date: Seq<char>, policy: Seq<char>) -> Result<
    (Date, Date),
    Seq<char>,
> {
    match parsed_date(start_date, "start_date"@, policy) {
        Err(m) => Err(m),
        Ok(sd) => match parsed_date(end_date, "end_date"@, policy) {
            Err(m) => Err(m),
            Ok(ed) => Ok((sd, ed)),
        },
    }
}

/// The policy a configuration describes, or the message of its first unreadable field.
pub open spec fn policy_from_config(c: DateMappingPolicyConfig) -> Result<
    DateMappingPolicy,
    Seq<char>,
> {
    match c {
        DateMappingPolicyConfig::ExactDate(s) => match parsed_date(s@, "date"@, "exact date"@) {
            Ok(d) => Ok(DateMappingPolicy::ExactDate(d)),
            Err(m) => Err(m),
        },
        DateMappingPolicyConfig::ExactDateRange { start_date, end_date } => match parsed_dates(
            start_date@,
            end_date@,
            "exact range"@,
        ) {
            Ok((s, e)) => Ok(DateMappingPolicy::ExactDateRange { start_date: s, end_date: e }),
            Err(m) => Err(m),
        },
        DateMappingPolicyConfig::NearestDate { date, date_tolerance, match_weekday } => match parsed_date(
            date@,
            "date"@,
            "nearest date"@,
        ) {
            Ok(d) => Ok(DateMappingPolicy::NearestDate { date: d, date_tolerance, match_weekday }),
            Err(m) => Err(m),
        },
        DateMappingPolicyConfig::NearestDateRange {
            start_date,
            end_date,
            date_tolerance,
            match_weekday,
        } => match parsed_dates(start_date@, end_date@, "nearest range"@) {
            Ok((s, e)) => Ok(
                DateMappingPolicy::NearestDateRange {
                    start_date: s,
                    end_date: e,
                    date_tolerance,
                    match_weekday,
                },
            ),
            Err(m) => Err(m),
        },
        DateMappingPolicyConfig::ExactDateTimeRange { start_date, end_date, start_time, end_time } =>
        match parsed_range(
            start_date@,
            end_date@,
            start_time@,
            end_time@,
            "exact date time range"@,
        ) {
            Ok((sd, ed, st, et)) => Ok(
                DateMappingPolicy::ExactDatetimeRange {
                    start_date: sd,
                    end_date: ed,
                    start_time: st,
                    end_time: et,
                },
            ),
            Err(m) => Err(m),
        },
        DateMappingPolicyConfig::NearestDateTimeRange {
            start_date,
            end_date,
            start_time,
            end_time,
            date_tolerance,
            match_weekday,
        } => match parsed_range(
            start_date@,
            end_date@,
            start_time@,
            end_time@,
            "nearest date time range"@,
        ) {
            Ok((sd, ed, st, et)) => Ok(
                DateMappingPolicy::NearestDatetimeRange {
                    start_date: sd,
                    end_date: ed,
                    start_time: st,
                    end_time: et,
                    date_tolerance,
                    match_weekday,
                },
            ),
            Err(m) => Err(m),
        },
        DateMappingPolicyConfig::BestCase { start_date, end_date, start_time, end_time, date_tolerance } =>
        match parsed_range(start_date@, end_date@, start_time@, end_time@, "best case"@) {
            Ok((sd, ed, st, et)) => Ok(
                DateMappingPolicy::BestCase {
                    start_date: sd,
                    end_date: ed,
                    start_time: st,
                    end_time: et,
                    date_tolerance: match date_tolerance {
                        Some(t) => t,
                        None => BEST_CASE_DEFAULT_TOLERANCE,
                    },
                },
            ),
            Err(m) => Err(m),
        },
    }
}

/// A result read as the value or the message of an application error.
pub open spec fn app_outcome<T>(r: Result<T, ScheduleError>) -> Result<T, Seq<char>> {
    match r {
        Ok(v) => Ok(v),
        Err(ScheduleError::GtfsApp(m)) => Err(m@),
        Err(e) => Err(schedule_error_message(e)),
    }
}

fn field_error(field: &str, policy: &str, err: &String) -> (e: ScheduleError)
    ensures
        e matches ScheduleError::GtfsApp(m) && m@ == field_message(field@, policy@, err@),
{
    let mut out: Vec<char> = Vec::new();
    push_str(&mut out, "failure reading ");
    push_str(&mut out, field);
    push_str(&mut out, " for ");
    push_str(&mut out, policy);
    push_str(&mut out, " mapping policy: ");
    push_str(&mut out, err.as_str());
    ScheduleError::GtfsApp(string_of(&out))
}

fn parse_date_field(text: &String, field: &str, policy: &str) -> (r: Result<Date, ScheduleError>)
    ensures
        app_outcome(r) == parsed_date(text@, field@, policy@),
        r matches Ok(d) ==> d.wf(),
        r matches Err(e) ==> e is GtfsApp,
{
    match Date::parse(text.as_str(), APP_DATE_FORMAT) {
        Ok(d) => Ok(d),
        Err(e) => Err(field_error(field, policy, &e)),
    }
}

fn parse_time_field(text: &String, field: &str, policy: &str) -> (r: Result<Time, ScheduleError>)
    ensures
        app_outcome(r) == parsed_time(text@, field@, policy@),
        r matches Ok(t) ==> t.wf(),
        r matches Err(e) ==> e is GtfsApp,
{
    match Time::parse(text.as_str(), APP_TIME_FORMAT) {
        Ok(t) => Ok(t),
        Err(e) => Err(field_error(field, policy, &e)),
    }
}

fn parse_dates(start_date: &String, end_date: &String, policy: &str) -> (r: Result<
    (Date, Date),
    ScheduleError,
>)
    ensures
        app_outcome(r) == parsed_dates(start_date@, end_date@, policy@),
        r matches Ok(p) ==> p.0.wf() && p.1.wf(),
        r matches Err(e) ==> e is GtfsApp,
{
    let s = parse_date_field(start_date, "start_date", policy)?;
    let e = parse_date_field(end_date, "end_date", policy)?;
    Ok((s, e))
}

fn parse_range(
    start_date: &String,
    end_date: &String,
    start_time: &String,
    end_time: &String,
    policy: &str,
) -> (r: Result<(Date, Date, Time, Time), ScheduleError>)
    ensures
        app_outcome(r) == parsed_range(start_date@, end_date@, start_time@, end_time@, policy@),
        r matches Ok(p) ==> p.0.wf() && p.1.wf() && p.2.wf() && p.3.wf(),
        r matches Err(e) ==> e is GtfsApp,
{
    let sd = parse_date_field(start_date, "start_date", policy)?;
    let ed = parse_date_field(end_date, "end_date", policy)?;
    let st = parse_time_field(start_time, "start_time", policy)?;
    let et = parse_time_field(end_time, "end_time", policy)?;
    Ok((sd, ed, st, et))
}

/// The dates a policy generates schedules for: from the start date through the end
/// date, or the single date of a single-date policy.
pub open spec fn policy_dates(p: DateMappingPolicy) -> (int, int) {
    match p {
        DateMappingPolicy::ExactDate(d) => (d.days as int, d.days as int),
        DateMappingPolicy::ExactDateRange { start_date, end_date } => (
            start_date.days as int,
            end_date.days as int,
        ),
        DateMappingPolicy::NearestDate { date, .. } => (date.days as int, date.days as int),
        DateMappingPolicy::NearestDateRange { start_date, end_date, .. } => (
            start_date.days as int,
            end_date.days as int,
        ),
        DateMappingPolicy::ExactDatetimeRange { start_date, end_date, .. } => (
            start_date.days as int,
            end_date.days as int,
        ),
        DateMappingPolicy::NearestDatetimeRange { start_date, end_date, .. } => (
            start_date.days as int,
            end_date.days as int,
        ),
        DateMappingPolicy::BestCase { start_date, end_date, .. } => (
            start_date.days as int,
            end_date.days as int,
        ),
    }
}

/// The time window of a date-time policy; `None` for policies without times.
pub open spec fn policy_window(p: DateMappingPolicy) -> Option<(Time, Time)> {
    match p {
        DateMappingPolicy::ExactDatetimeRange { start_time, end_time, .. } => Some(
            (start_time, end_time),
        ),
        DateMappingPolicy::NearestDatetimeRange { start_time, end_time, .. } => Some(
            (start_time, end_time),
        ),
        DateMappingPolicy::BestCase { start_time, end_time, .. } => Some((start_time, end_time)),
        _ => None,
    }
}

/// A GTFS time value (seconds after midnight) is a time of day lying in a time window,
/// bounds included, in time order: a window starting at a leap second starts after
/// second 59 of its minute.
pub open spec fn in_time_window(start: Time, end: Time, secs: int) -> bool {
    &&& 0 <= secs < SECS_PER_DAY
    &&& time_le(start, Time { secs: secs as u32, frac: 0 })
    &&& time_le(Time { secs: secs as u32, frac: 0 }, end)
}

/// A stop-time pair lies in a time window: every given time of the pair is a time of
/// day within the window; a pair without times is accepted.
pub open spec fn pair_in_window(
    departure: Option<u32>,
    arrival: Option<u32>,
    start: Time,
    end: Time,
) -> bool {
    match (departure, arrival) {
        (None, None) => true,
        (None, Some(a)) => in_time_window(start, end, a as int),
        (Some(d), None) => in_time_window(start, end, d as int),
        (Some(d), Some(a)) => in_time_window(start, end, d as int) && in_time_window(
            start,
            end,
            a as int,
        ),
    }
}

/// The message of a trip whose service has neither calendar nor calendar dates.
pub open spec fn no_service_message(trip_id: Seq<char>) -> Seq<char> {
    "cannot pick date with trip_id '"@ + trip_id
        + "' as it does not match calendar or calendar dates"@
}

/// The date of a calendar entry lies in its range.
pub open spec fn in_calendar(c: Calendar, target: int) -> bool {
    c.start_date.days <= target <= c.end_date.days
}

/// Whether the exact-date pick succeeds for a service.
pub open spec fn exact_pick_ok(svc: ServiceCalendar, target: int) -> bool {
    match (svc.calendar, svc.calendar_dates) {
        (None, None) => false,
        (Some(c), None) => in_calendar(c, target),
        (None, Some(cds)) => has_exception(cds@, target, Exception::Added),
        (Some(c), Some(cds)) => if in_calendar(c, target) {
            !has_exception(cds@, target, Exception::Deleted)
        } else {
            has_exception(cds@, target, Exception::Added)
        },
    }
}

/// The message of a failed exact-date pick.
pub open spec fn exact_pick_error(svc: ServiceCalendar, trip_id: Seq<char>, target: int) -> ScheduleErrorView {
    match (svc.calendar, svc.calendar_dates) {
        (None, None) => ScheduleErrorView::Malformed(no_service_message(trip_id)),
        (Some(c), None) => ScheduleErrorView::Invalid(
            calendar_miss_message(target, c.start_date.days as int, c.end_date.days as int),
        ),
        (None, Some(cds)) => ScheduleErrorView::Invalid(no_add_exception_message(target)),
        (Some(c), Some(cds)) => if in_calendar(c, target) {
            ScheduleErrorView::Invalid(
                "date "@ + app_date(target)
                    + " is valid for calendar.txt but has exception of deleted in calendar_dates.txt"@,
            )
        } else {
            ScheduleErrorView::Invalid(
                "error due to dataset contents: "@ + calendar_miss_message(
                    target,
                    c.start_date.days as int,
                    c.end_date.days as int,
                ) + ", "@ + "error due to dataset contents: "@ + no_add_exception_message(target),
            )
        },
    }
}

/// The kind and message of an error raised when picking a date.
pub enum ScheduleErrorView {
    Malformed(Seq<char>),
    Invalid(Seq<char>),
}

/// An error read as its kind and message.
pub open spec fn error_view(e: ScheduleError) -> Option<ScheduleErrorView> {
    match e {
        ScheduleError::MalformedGtfs(m) => Some(ScheduleErrorView::Malformed(m@)),
        ScheduleError::InvalidData(m) => Some(ScheduleErrorView::Invalid(m@)),
        _ => None,
    }
}

/// The service's entries are representable.
pub open spec fn service_wf(svc: ServiceCalendar) -> bool {
    &&& (svc.calendar matches Some(c) ==> c.wf())
    &&& (svc.calendar_dates matches Some(cds) ==> calendar_dates_wf(cds@))
}

/// A date may be picked by the nearest-date search when both a calendar and calendar
/// dates exist: it is in the tolerance window of the calendar range, or an exception
/// adds it within the tolerance (on the target's weekday when the weekday must match);
/// and no exception deletes it.
pub open spec fn nearest_both_candidate(
    c: Calendar,
    cds: Seq<CalendarDate>,
    target: int,
    tolerance: int,
    match_weekday: bool,
    d: int,
) -> bool {
    &&& (in_overlap(
        target,
        c.start_date.days as int,
        c.end_date.days as int,
        tolerance,
        match_weekday,
        d,
    ) || exists|i: int|
        0 <= i < cds.len() && add_candidate(#[trigger] cds[i], target, tolerance, match_weekday)
            && cds[i].date.days == d)
    &&& !has_exception(cds, d, Exception::Deleted)
}

fn no_service_error(trip: &SortedTrip) -> (e: ScheduleError)
    ensures
        e matches ScheduleError::MalformedGtfs(m) && m@ == no_service_message(trip.trip_id@),
{
    let mut out: Vec<char> = Vec::new();
    push_str(&mut out, "cannot pick date with trip_id '");
    push_str(&mut out, trip.trip_id.as_str());
    push_str(&mut out, "' as it does not match calendar or calendar dates");
    ScheduleError::MalformedGtfs(string_of(&out))
}

/// confirm the target to exist as a valid date for this trip in the GTFS dataset.
/// returns the target date if successful.
pub fn pick_exact_date(target: &Date, trip: &SortedTrip, service: &ServiceCalendar) -> (r: Result<
    Date,
    ScheduleError,
>)
    requires
        target.wf(),
        service_wf(*service),
    ensures
        r is Ok <==> exact_pick_ok(*service, target.days as int),
        r matches Ok(d) ==> d == *target,
        r matches Err(e) ==> error_view(e) == Some(
            exact_pick_error(*service, trip.trip_id@, target.days as int),
        ),
{
    match (&service.calendar, &service.calendar_dates) {
        (None, None) => Err(no_service_error(trip)),
        (Some(c), None) => find_in_calendar(target, c),
        (None, Some(cd)) => confirm_add_exception(target, cd.as_slice()),
        (Some(c), Some(cd)) => match find_in_calendar(target, c) {
            Ok(_) => {
                if confirm_no_delete_exception(target, cd.as_slice()) {
                    Ok(*target)
                } else {
                    let mut out: Vec<char> = Vec::new();
                    push_str(&mut out, "date ");
                    push_app_date(&mut out, target);
                    push_str(
                        &mut out,
                        " is valid for calendar.txt but has exception of deleted in calendar_dates.txt",
                    );
                    Err(ScheduleError::InvalidData(string_of(&out)))
                }
            },
            Err(ce) => match confirm_add_exception(target, cd.as_slice()) {
                Ok(d) => Ok(d),
                Err(e) => {
                    let mut out: Vec<char> = Vec::new();
                    let cm = ce.message();
                    push_str(&mut out, cm.as_str());
                    push_str(&mut out, ", ");
                    let em = e.message();
                    push_str(&mut out, em.as_str());
                    proof {
                        let tg = target.days as int;
                        assert(cm@ == "error due to dataset contents: "@ + calendar_miss_message(
                            tg,
                            c.start_date.days as int,
                            c.end_date.days as int,
                        ));
                        assert(em@ == "error due to dataset contents: "@ + no_add_exception_message(tg));
                        assert(out@ =~= "error due to dataset contents: "@ + calendar_miss_message(
                            tg,
                            c.start_date.days as int,
                            c.end_date.days as int,
                        ) + ", "@ + "error due to dataset contents: "@ + no_add_exception_message(tg));
                    }
                    Err(ScheduleError::InvalidData(string_of(&out)))
                },
            },
        },
    }
}

/// The message when no date of a calendar range lies near the target.
pub open spec fn no_nearest_in_calendar_message(target: int, tolerance: int, c: Calendar) -> Seq<
    char,
> {
    "could not find nearest (by "@ + decimal(tolerance as nat) + " days) date "@ + error_suffix(
        target,
        c.start_date.days as int,
        c.end_date.days as int,
    )
}

/// The message when no date across calendar and calendar dates lies near the target.
pub open spec fn no_nearest_across_message(target: int, c: Calendar) -> Seq<char> {
    "no match found across calendar + calendar_dates "@ + error_suffix(
        target,
        c.start_date.days as int,
        c.end_date.days as int,
    )
}

/// Whether the nearest-date pick succeeds for a service.
pub open spec fn nearest_pick_ok(svc: ServiceCalendar, target: int, tolerance: int, match_weekday: bool) -> bool {
    match (svc.calendar, svc.calendar_dates) {
        (None, None) => false,
        (None, Some(cds)) => exists|i: int|
            0 <= i < cds@.len() && add_candidate(#[trigger] cds@[i], target, tolerance, match_weekday),
        (Some(c), None) => intersection_ok(
            target,
            c.start_date.days as int,
            c.end_date.days as int,
            tolerance,
        ) && exists|d: int|
            in_overlap(
                target,
                c.start_date.days as int,
                c.end_date.days as int,
                tolerance,
                match_weekday,
                d,
            ),
        (Some(c), Some(cds)) => intersection_ok(
            target,
            c.start_date.days as int,
            c.end_date.days as int,
            tolerance,
        ) && exists|d: int| nearest_both_candidate(c, cds@, target, tolerance, match_weekday, d),
    }
}

/// The nearest-date pick gives a date that the search may pick and that is at least as
/// near the target as every other such date (an equally near earlier date wins).
pub open spec fn nearest_pick_result(
    svc: ServiceCalendar,
    target: int,
    tolerance: int,
    match_weekday: bool,
    d: int,
) -> bool {
    match (svc.calendar, svc.calendar_dates) {
        (None, None) => false,
        (None, Some(cds)) => {
            &&& exists|i: int|
                0 <= i < cds@.len() && add_candidate(#[trigger] cds@[i], target, tolerance, match_weekday)
                    && cds@[i].date.days == d
            &&& forall|i: int|
                0 <= i < cds@.len() && add_candidate(#[trigger] cds@[i], target, tolerance, match_weekday)
                    ==> cds@[i].date.days == d || nearer(target, d, cds@[i].date.days as int)
        },
        (Some(c), None) => {
            &&& in_overlap(
                target,
                c.start_date.days as int,
                c.end_date.days as int,
                tolerance,
                match_weekday,
                d,
            )
            &&& forall|x: int|
                #[trigger] in_overlap(
                    target,
                    c.start_date.days as int,
                    c.end_date.days as int,
                    tolerance,
                    match_weekday,
                    x,
                ) ==> x == d || nearer(target, d, x)
        },
        (Some(c), Some(cds)) => {
            &&& nearest_both_candidate(c, cds@, target, tolerance, match_weekday, d)
            &&& forall|x: int|
                #[trigger] nearest_both_candidate(c, cds@, target, tolerance, match_weekday, x) ==> x
                    == d || nearer(target, d, x)
        },
    }
}

/// The error of a failed nearest-date pick.
pub open spec fn nearest_pick_error(
    svc: ServiceCalendar,
    trip_id: Seq<char>,
    target: int,
    tolerance: int,
    match_weekday: bool,
) -> ScheduleErrorView {
    match (svc.calendar, svc.calendar_dates) {
        (None, None) => ScheduleErrorView::Malformed(no_service_message(trip_id)),
        (None, Some(_)) => ScheduleErrorView::Invalid(
            no_nearest_add_message(target, tolerance, match_weekday),
        ),
        (Some(c), None) => if !intersection_ok(
            target,
            c.start_date.days as int,
            c.end_date.days as int,
            tolerance,
        ) {
            ScheduleErrorView::Invalid(
                intersection_error_message(
                    target,
                    c.start_date.days as int,
                    c.end_date.days as int,
                    tolerance,
                ),
            )
        } else {
            ScheduleErrorView::Invalid(no_nearest_in_calendar_message(target, tolerance, c))
        },
        (Some(c), Some(_)) => if !intersection_ok(
            target,
            c.start_date.days as int,
            c.end_date.days as int,
            tolerance,
        ) {
            ScheduleErrorView::Invalid(
                intersection_error_message(
                    target,
                    c.start_date.days as int,
                    c.end_date.days as int,
                    tolerance,
                ),
            )
        } else {
            ScheduleErrorView::Invalid(no_nearest_across_message(target, c))
        },
    }
}

/// for date policies that search for the nearest valid dates to the target date by a threshold
/// and optionally enforce matching weekday.
pub fn pick_nearest_date(
    target: &Date,
    trip: &SortedTrip,
    service: &ServiceCalendar,
    date_tolerance: u64,
    match_weekday: bool,
) -> (r: Result<Date, ScheduleError>)
    requires
        target.wf(),
        service_wf(*service),
    ensures
        r is Ok <==> nearest_pick_ok(*service, target.days as int, date_tolerance as int, match_weekday),
        r matches Ok(d) ==> d.wf() && nearest_pick_result(
            *service,
            target.days as int,
            date_tolerance as int,
            match_weekday,
            d.days as int,
        ),
        r matches Err(e) ==> error_view(e) == Some(
            nearest_pick_error(
                *service,
                trip.trip_id@,
                target.days as int,
                date_tolerance as int,
                match_weekday,
            ),
        ),
{
    let ghost tg = target.days as int;
    let ghost tl = date_tolerance as int;
    match (&service.calendar, &service.calendar_dates) {
        (None, None) => Err(no_service_error(trip)),
        (None, Some(cd)) => {
            let r = find_nearest_add_exception(target, cd.as_slice(), date_tolerance, match_weekday);
            proof {
                if let Ok(d) = r {
                    let i = choose|i: int|
                        0 <= i < cd@.len() && add_candidate(#[trigger] cd@[i], tg, tl, match_weekday)
                            && cd@[i].date == d;
                    assert(cd@[i].date.wf());
                }
            }
            r
        },
        (Some(c), None) => {
            let matches = date_range_intersection(
                target,
                &c.start_date,
                &c.end_date,
                date_tolerance,
                match_weekday,
            )?;
            if matches.len() > 0 {
                let d = matches[0];
                proof {
                    let sd = c.start_date.days as int;
                    let ed = c.end_date.days as int;
                    assert(in_overlap(tg, sd, ed, tl, match_weekday, d.days as int));
                    assert forall|x: int| #[trigger] in_overlap(tg, sd, ed, tl, match_weekday, x) implies x
                        == d.days || nearer(tg, d.days as int, x) by {
                        let j = choose|j: int| 0 <= j < matches@.len() && (#[trigger] matches@[j]).days == x;
                        if j > 0 {
                            assert(nearer(tg, matches@[0].days as int, matches@[j].days as int));
                        }
                    }
                }
                Ok(d)
            } else {
                proof {
                    let sd = c.start_date.days as int;
                    let ed = c.end_date.days as int;
                    assert forall|x: int| !in_overlap(tg, sd, ed, tl, match_weekday, x) by {
                        if in_overlap(tg, sd, ed, tl, match_weekday, x) {
                            assert(crate::schedule::date_ops::contains_day(matches@, x));
                        }
                    }
                }
                let mut out: Vec<char> = Vec::new();
                push_str(&mut out, "could not find nearest (by ");
                push_decimal(&mut out, date_tolerance);
                push_str(&mut out, " days) date ");
                let suffix = error_msg_suffix(target, &c.start_date, &c.end_date);
                push_str(&mut out, suffix.as_str());
                Err(ScheduleError::InvalidData(string_of(&out)))
            }
        },
        (Some(c), Some(cd)) => {
            let matches = date_range_intersection(
                target,
                &c.start_date,
                &c.end_date,
                date_tolerance,
                match_weekday,
            )?;
            let ghost sd = c.start_date.days as int;
            let ghost ed = c.end_date.days as int;
            // the nearest remaining date; an equally near earlier date wins
            let mut best: Option<Date> = None;
            let mut i: usize = 0;
            while i < matches.len()
                invariant
                    i <= matches.len(),
                    target.wf(),
                    tg == target.days as int,
                    tl == date_tolerance as int,
                    sd == c.start_date.days as int,
                    ed == c.end_date.days as int,
                    forall|j: int| 0 <= j < matches@.len() ==> in_overlap(tg, sd, ed, tl, match_weekday, (#[trigger] matches@[j]).days as int),
                    forall|j: int| 0 <= j < matches@.len() ==> (#[trigger] matches@[j]).wf(),
                    best matches Some(b) ==> b.wf() && nearest_both_candidate(*c, cd@, tg, tl, match_weekday, b.days as int),
                    best is None ==> forall|j: int| 0 <= j < i ==> has_exception(cd@, (#[trigger] matches@[j]).days as int, Exception::Deleted),
                    best matches Some(b) ==> forall|j: int| 0 <= j < i && !has_exception(cd@, (#[trigger] matches@[j]).days as int, Exception::Deleted) ==> matches@[j].days == b.days || nearer(tg, b.days as int, matches@[j].days as int),
                decreases matches.len() - i,
            {
                let m = matches[i];
                if confirm_no_delete_exception(&m, cd.as_slice()) {
                    match best {
                        None => {
                            best = Some(m);
                        },
                        Some(b) => {
                            let md = m.distance_days(target);
                            let bd = b.distance_days(target);
                            if md < bd || (md == bd && m.days < b.days) {
                                best = Some(m);
                            }
                        },
                    }
                }
                i += 1;
            }
            let mut k: usize = 0;
            while k < cd.len()
                invariant
                    k <= cd@.len(),
                    target.wf(),
                    tg == target.days as int,
                    tl == date_tolerance as int,
                    sd == c.start_date.days as int,
                    ed == c.end_date.days as int,
                    service_wf(*service),
                    service.calendar_dates == Some(*cd),
                    forall|j: int| 0 <= j < matches@.len() ==> in_overlap(tg, sd, ed, tl, match_weekday, (#[trigger] matches@[j]).days as int),
                    best matches Some(b) ==> b.wf() && nearest_both_candidate(*c, cd@, tg, tl, match_weekday, b.days as int),
                    best is None ==> forall|j: int| 0 <= j < matches@.len() ==> has_exception(cd@, (#[trigger] matches@[j]).days as int, Exception::Deleted),
                    best is None ==> forall|j: int| 0 <= j < k && add_candidate(#[trigger] cd@[j], tg, tl, match_weekday) ==> has_exception(cd@, cd@[j].date.days as int, Exception::Deleted),
                    best matches Some(b) ==> forall|j: int| 0 <= j < matches@.len() && !has_exception(cd@, (#[trigger] matches@[j]).days as int, Exception::Deleted) ==> matches@[j].days == b.days || nearer(tg, b.days as int, matches@[j].days as int),
                    best matches Some(b) ==> forall|j: int| 0 <= j < k && add_candidate(#[trigger] cd@[j], tg, tl, match_weekday) && !has_exception(cd@, cd@[j].date.days as int, Exception::Deleted) ==> cd@[j].date.days == b.days || nearer(tg, b.days as int, cd@[j].date.days as int),
                decreases cd@.len() - k,
            {
                let e = &cd[k];
                let is_candidate = e.exception_type == Exception::Added && (!match_weekday || e.date.weekday()
                    == target.weekday()) && e.date.distance_days(target) <= date_tolerance;
                proof {
                    assert(e.date.wf());
                    assert(is_candidate == add_candidate(cd@[k as int], tg, tl, match_weekday));
                }
                if is_candidate && confirm_no_delete_exception(&e.date, cd.as_slice()) {
                    let m = e.date;
                    proof {
                        assert(nearest_both_candidate(*c, cd@, tg, tl, match_weekday, m.days as int));
                    }
                    match best {
                        None => {
                            best = Some(m);
                        },
                        Some(b) => {
                            let md = m.distance_days(target);
                            let bd = b.distance_days(target);
                            if md < bd || (md == bd && m.days < b.days) {
                                best = Some(m);
                            }
                        },
                    }
                }
                k += 1;
            }
            match best {
                Some(b) => {
                    proof {
                        assert forall|x: int| #[trigger] nearest_both_candidate(*c, cd@, tg, tl, match_weekday, x) implies x == b.days || nearer(tg, b.days as int, x) by {
                            if in_overlap(tg, sd, ed, tl, match_weekday, x) {
                                assert(crate::schedule::date_ops::contains_day(matches@, x));
                                let j = choose|j: int| 0 <= j < matches@.len() && (#[trigger] matches@[j]).days == x;
                            } else {
                                let j = choose|j: int| 0 <= j < cd@.len() && add_candidate(#[trigger] cd@[j], tg, tl, match_weekday) && cd@[j].date.days == x;
                            }
                        }
                    }
                    Ok(b)
                },
                None => {
                    proof {
                        assert forall|x: int| !nearest_both_candidate(*c, cd@, tg, tl, match_weekday, x) by {
                            if in_overlap(tg, sd, ed, tl, match_weekday, x) {
                                assert(crate::schedule::date_ops::contains_day(matches@, x));
                                let j = choose|j: int| 0 <= j < matches@.len() && (#[trigger] matches@[j]).days == x;
                            } else if exists|j: int| 0 <= j < cd@.len() && add_candidate(#[trigger] cd@[j], tg, tl, match_weekday) && cd@[j].date.days == x {
                                let j = choose|j: int| 0 <= j < cd@.len() && add_candidate(#[trigger] cd@[j], tg, tl, match_weekday) && cd@[j].date.days == x;
                            }
                        }
                    }
                    let mut out: Vec<char> = Vec::new();
                    push_str(&mut out, "no match found across calendar + calendar_dates ");
                    let suffix = error_msg_suffix(target, &c.start_date, &c.end_date);
                    push_str(&mut out, suffix.as_str());
                    Err(ScheduleError::InvalidData(string_of(&out)))
                },
            }
        },
    }
}

/// The message an error view renders as.
pub open spec fn view_message(v: ScheduleErrorView) -> Seq<char> {
    match v {
        ScheduleErrorView::Malformed(m) => "GTFS archive is malformed: "@ + m,
        ScheduleErrorView::Invalid(m) => "error due to dataset contents: "@ + m,
    }
}

/// The message of a best-case pick for which all three strategies failed.
pub open spec fn best_case_message(
    svc: ServiceCalendar,
    trip_id: Seq<char>,
    target: int,
    tolerance: int,
) -> Seq<char> {
    "Failed to pick date with best_case strategy."@ + "  "@ + "While attempting to pick exact date: "@
        + view_message(exact_pick_error(svc, trip_id, target)) + "."@ + "  "@
        + "While attempting to pick nearest date within "@ + decimal(tolerance as nat)
        + " days matching weekday: "@ + view_message(
        nearest_pick_error(svc, trip_id, target, tolerance, true),
    ) + "."@ + "  "@ + "While attempting to pick nearest date within "@ + decimal(
        tolerance as nat,
    ) + " days without matching weekday: "@ + view_message(
        nearest_pick_error(svc, trip_id, target, tolerance, false),
    ) + "."@
}

/// Whether a policy picks some date for the target.
pub open spec fn pick_ok(p: DateMappingPolicy, svc: ServiceCalendar, target: int) -> bool {
    match p {
        DateMappingPolicy::NearestDate { date_tolerance, match_weekday, .. } => nearest_pick_ok(
            svc,
            target,
            date_tolerance as int,
            match_weekday,
        ),
        DateMappingPolicy::NearestDateRange { date_tolerance, match_weekday, .. } => nearest_pick_ok(
            svc,
            target,
            date_tolerance as int,
            match_weekday,
        ),
        DateMappingPolicy::NearestDatetimeRange { date_tolerance, match_weekday, .. } =>
        nearest_pick_ok(svc, target, date_tolerance as int, match_weekday),
        DateMappingPolicy::BestCase { date_tolerance, .. } => exact_pick_ok(svc, target)
            || nearest_pick_ok(svc, target, date_tolerance as int, true) || nearest_pick_ok(
            svc,
            target,
            date_tolerance as int,
            false,
        ),
        _ => exact_pick_ok(svc, target),
    }
}

/// The date a policy picks for the target.
pub open spec fn picked(p: DateMappingPolicy, svc: ServiceCalendar, target: int, d: int) -> bool {
    match p {
        DateMappingPolicy::NearestDate { date_tolerance, match_weekday, .. } =>
        nearest_pick_result(svc, target, date_tolerance as int, match_weekday, d),
        DateMappingPolicy::NearestDateRange { date_tolerance, match_weekday, .. } =>
        nearest_pick_result(svc, target, date_tolerance as int, match_weekday, d),
        DateMappingPolicy::NearestDatetimeRange { date_tolerance, match_weekday, .. } =>
        nearest_pick_result(svc, target, date_tolerance as int, match_weekday, d),
        DateMappingPolicy::BestCase { date_tolerance, .. } => if exact_pick_ok(svc, target) {
            d == target
        } else if nearest_pick_ok(svc, target, date_tolerance as int, true) {
            nearest_pick_result(svc, target, date_tolerance as int, true, d)
        } else {
            nearest_pick_result(svc, target, date_tolerance as int, false, d)
        },
        _ => d == target,
    }
}

/// The error a policy raises when it picks no date.
pub open spec fn pick_error(p: DateMappingPolicy, svc: ServiceCalendar, trip_id: Seq<char>, target: int) -> ScheduleErrorView {
    match p {
        DateMappingPolicy::NearestDate { date_tolerance, match_weekday, .. } => nearest_pick_error(
            svc,
            trip_id,
            target,
            date_tolerance as int,
            match_weekday,
        ),
        DateMappingPolicy::NearestDateRange { date_tolerance, match_weekday, .. } =>
        nearest_pick_error(svc, trip_id, target, date_tolerance as int, match_weekday),
        DateMappingPolicy::NearestDatetimeRange { date_tolerance, match_weekday, .. } =>
        nearest_pick_error(svc, trip_id, target, date_tolerance as int, match_weekday),
        DateMappingPolicy::BestCase { date_tolerance, .. } => ScheduleErrorView::Invalid(
            best_case_message(svc, trip_id, target, date_tolerance as int),
        ),
        _ => exact_pick_error(svc, trip_id, target),
    }
}

/// The dates and times of a policy are representable.
pub open spec fn policy_wf(p: DateMappingPolicy) -> bool {
    match p {
        DateMappingPolicy::ExactDate(d) => d.wf(),
        DateMappingPolicy::ExactDateRange { start_date, end_date } => start_date.wf()
            && end_date.wf(),
        DateMappingPolicy::NearestDate { date, .. } => date.wf(),
        DateMappingPolicy::NearestDateRange { start_date, end_date, .. } => start_date.wf()
            && end_date.wf(),
        DateMappingPolicy::ExactDatetimeRange { start_date, end_date, start_time, end_time } =>
        start_date.wf() && end_date.wf() && start_time.wf() && end_time.wf(),
        DateMappingPolicy::NearestDatetimeRange { start_date, end_date, start_time, end_time, .. } =>
        start_date.wf() && end_date.wf() && start_time.wf() && end_time.wf(),
        DateMappingPolicy::BestCase { start_date, end_date, start_time, end_time, .. } =>
        start_date.wf() && end_date.wf() && start_time.wf() && end_time.wf(),
    }
}

/// The nearest-date pick names at most one date.
proof fn lemma_nearest_pick_unique(
    svc: ServiceCalendar,
    target: int,
    tolerance: int,
    match_weekday: bool,
    a: int,
    b: int,
)
    requires
        nearest_pick_result(svc, target, tolerance, match_weekday, a),
        nearest_pick_result(svc, target, tolerance, match_weekday, b),
    ensures
        a == b,
{
    match (svc.calendar, svc.calendar_dates) {
        (None, Some(cds)) => {
            let ia = choose|i: int|
                0 <= i < cds@.len() && add_candidate(#[trigger] cds@[i], target, tolerance, match_weekday)
                    && cds@[i].date.days == a;
            let ib = choose|i: int|
                0 <= i < cds@.len() && add_candidate(#[trigger] cds@[i], target, tolerance, match_weekday)
                    && cds@[i].date.days == b;
            assert(cds@[ib].date.days == a || nearer(target, a, cds@[ib].date.days as int));
            assert(cds@[ia].date.days == b || nearer(target, b, cds@[ia].date.days as int));
        },
        (Some(c), None) => {
            assert(in_overlap(target, c.start_date.days as int, c.end_date.days as int, tolerance, match_weekday, b));
            assert(in_overlap(target, c.start_date.days as int, c.end_date.days as int, tolerance, match_weekday, a));
        },
        (Some(c), Some(cds)) => {
            assert(nearest_both_candidate(c, cds@, target, tolerance, match_weekday, b));
            assert(nearest_both_candidate(c, cds@, target, tolerance, match_weekday, a));
        },
        (None, None) => {},
    }
}

/// A policy picks at most one date for a target date of a service.
pub proof fn lemma_picked_unique(p: DateMappingPolicy, svc: ServiceCalendar, target: int, a: int, b: int)
    requires
        picked(p, svc, target, a),
        picked(p, svc, target, b),
    ensures
        a == b,
{
    match p {
        DateMappingPolicy::NearestDate { date_tolerance, match_weekday, .. } => {
            lemma_nearest_pick_unique(svc, target, date_tolerance as int, match_weekday, a, b);
        },
        DateMappingPolicy::NearestDateRange { date_tolerance, match_weekday, .. } => {
            lemma_nearest_pick_unique(svc, target, date_tolerance as int, match_weekday, a, b);
        },
        DateMappingPolicy::NearestDatetimeRange { date_tolerance, match_weekday, .. } => {
            lemma_nearest_pick_unique(svc, target, date_tolerance as int, match_weekday, a, b);
        },
        DateMappingPolicy::BestCase { date_tolerance, .. } => {
            if !exact_pick_ok(svc, target) {
                if nearest_pick_ok(svc, target, date_tolerance as int, true) {
                    lemma_nearest_pick_unique(svc, target, date_tolerance as int, true, a, b);
                } else {
                    lemma_nearest_pick_unique(svc, target, date_tolerance as int, false, a, b);
                }
            }
        },
        _ => {},
    }
}

/// A date that a nearest search gives lies within the tolerance of the target, and on
/// the target's weekday when the weekday must match.
proof fn lemma_nearest_pick_near(
    svc: ServiceCalendar,
    target: int,
    tolerance: int,
    match_weekday: bool,
    d: int,
)
    requires
        nearest_pick_result(svc, target, tolerance, match_weekday, d),
    ensures
        day_distance(d, target) <= tolerance,
        match_weekday ==> weekday_of(d) == weekday_of(target),
{
    match (svc.calendar, svc.calendar_dates) {
        (None, Some(cds)) => {
            let i = choose|i: int|
                0 <= i < cds@.len() && add_candidate(#[trigger] cds@[i], target, tolerance, match_weekday)
                    && cds@[i].date.days == d;
        },
        (Some(c), Some(cds)) => {
            if !in_overlap(
                target,
                c.start_date.days as int,
                c.end_date.days as int,
                tolerance,
                match_weekday,
                d,
            ) {
                let i = choose|i: int|
                    0 <= i < cds@.len() && add_candidate(#[trigger] cds@[i], target, tolerance, match_weekday)
                        && cds@[i].date.days == d;
            }
        },
        _ => {},
    }
}

/// Where a policy may move a target date: the exact policies pick the target itself;
/// the nearest-date policies pick a date within their tolerance of the target, on the
/// target's weekday when they match weekdays; the best-case policy picks a date within
/// its tolerance.
pub proof fn lemma_picked_date_near_target(p: DateMappingPolicy, svc: ServiceCalendar, target: int, d: int)
    requires
        picked(p, svc, target, d),
    ensures
        match p {
            DateMappingPolicy::NearestDate { date_tolerance, match_weekday, .. } => day_distance(
                d,
                target,
            ) <= date_tolerance && (match_weekday ==> weekday_of(d) == weekday_of(target)),
            DateMappingPolicy::NearestDateRange { date_tolerance, match_weekday, .. } =>
            day_distance(d, target) <= date_tolerance && (match_weekday ==> weekday_of(d)
                == weekday_of(target)),
            DateMappingPolicy::NearestDatetimeRange { date_tolerance, match_weekday, .. } =>
            day_distance(d, target) <= date_tolerance && (match_weekday ==> weekday_of(d)
                == weekday_of(target)),
            DateMappingPolicy::BestCase { date_tolerance, .. } => day_distance(d, target)
                <= date_tolerance,
            _ => d == target,
        },
{
    match p {
        DateMappingPolicy::NearestDate { date_tolerance, match_weekday, .. } => {
            lemma_nearest_pick_near(svc, target, date_tolerance as int, match_weekday, d);
        },
        DateMappingPolicy::NearestDateRange { date_tolerance, match_weekday, .. } => {
            lemma_nearest_pick_near(svc, target, date_tolerance as int, match_weekday, d);
        },
        DateMappingPolicy::NearestDatetimeRange { date_tolerance, match_weekday, .. } => {
            lemma_nearest_pick_near(svc, target, date_tolerance as int, match_weekday, d);
        },
        DateMappingPolicy::BestCase { date_tolerance, .. } => {
            if !exact_pick_ok(svc, target) {
                if nearest_pick_ok(svc, target, date_tolerance as int, true) {
                    lemma_nearest_pick_near(svc, target, date_tolerance as int, true, d);
                } else {
                    lemma_nearest_pick_near(svc, target, date_tolerance as int, false, d);
                }
            }
        },
        _ => {},
    }
}

/// The best-case policy falls back in a fixed order: the target itself when the
/// service runs on it; otherwise, when some date within the tolerance on the target's
/// weekday can be picked, the nearest such date, which lies on the target's weekday;
/// only when neither can be picked, the nearest date of any weekday.
pub proof fn lemma_best_case_fallback_order(
    p: DateMappingPolicy,
    svc: ServiceCalendar,
    target: int,
    tolerance: u64,
    d: int,
)
    requires
        p matches DateMappingPolicy::BestCase { date_tolerance, .. } && date_tolerance == tolerance,
        picked(p, svc, target, d),
    ensures
        exact_pick_ok(svc, target) ==> d == target,
        !exact_pick_ok(svc, target) && nearest_pick_ok(svc, target, tolerance as int, true) ==> {
            &&& weekday_of(d) == weekday_of(target)
            &&& day_distance(d, target) <= tolerance
            &&& nearest_pick_result(svc, target, tolerance as int, true, d)
        },
        !exact_pick_ok(svc, target) && !nearest_pick_ok(svc, target, tolerance as int, true)
            ==> nearest_pick_result(svc, target, tolerance as int, false, d),
{
    if !exact_pick_ok(svc, target) && nearest_pick_ok(svc, target, tolerance as int, true) {
        lemma_nearest_pick_near(svc, target, tolerance as int, true, d);
    }
}

fn push_error_message(out: &mut Vec<char>, e: &ScheduleError)
    ensures
        final(out)@ == old(out)@ + schedule_error_message(*e),
{
    let m = e.message();
    push_str(out, m.as_str());
}

impl DateMappingPolicy {
    /// builds the policy a configuration describes, parsing its dates and times.
    /// the best-case policy defaults to a tolerance of ten years.
    pub fn try_from(value: &DateMappingPolicyConfig) -> (r: Result<DateMappingPolicy, ScheduleError>)
        ensures
            app_outcome(r) == policy_from_config(*value),
            r matches Ok(p) ==> policy_wf(p),
            r matches Err(e) ==> e is GtfsApp,
    {
        match value {
            DateMappingPolicyConfig::ExactDate(date_str) => {
                let date = parse_date_field(date_str, "date", "exact date")?;
                Ok(DateMappingPolicy::ExactDate(date))
            },
            DateMappingPolicyConfig::ExactDateRange { start_date, end_date } => {
                let (s, e) = parse_dates(start_date, end_date, "exact range")?;
                Ok(DateMappingPolicy::ExactDateRange { start_date: s, end_date: e })
            },
            DateMappingPolicyConfig::NearestDate { date, date_tolerance, match_weekday } => {
                let d = parse_date_field(date, "date", "nearest date")?;
                Ok(
                    DateMappingPolicy::NearestDate {
                        date: d,
                        date_tolerance: *date_tolerance,
                        match_weekday: *match_weekday,
                    },
                )
            },
            DateMappingPolicyConfig::NearestDateRange {
                start_date,
                end_date,
                date_tolerance,
                match_weekday,
            } => {
                let (s, e) = parse_dates(start_date, end_date, "nearest range")?;
                Ok(
                    DateMappingPolicy::NearestDateRange {
                        start_date: s,
                        end_date: e,
                        date_tolerance: *date_tolerance,
                        match_weekday: *match_weekday,
                    },
                )
            },
            DateMappingPolicyConfig::ExactDateTimeRange { start_date, end_date, start_time, end_time } => {
                let (sd, ed, st, et) = parse_range(
                    start_date,
                    end_date,
                    start_time,
                    end_time,
                    "exact date time range",
                )?;
                Ok(
                    DateMappingPolicy::ExactDatetimeRange {
                        start_date: sd,
                        end_date: ed,
                        start_time: st,
                        end_time: et,
                    },
                )
            },
            DateMappingPolicyConfig::NearestDateTimeRange {
                start_date,
                end_date,
                start_time,
                end_time,
                date_tolerance,
                match_weekday,
            } => {
                let (sd, ed, st, et) = parse_range(
                    start_date,
                    end_date,
                    start_time,
                    end_time,
                    "nearest date time range",
                )?;
                Ok(
                    DateMappingPolicy::NearestDatetimeRange {
                        start_date: sd,
                        end_date: ed,
                        start_time: st,
                        end_time: et,
                        date_tolerance: *date_tolerance,
                        match_weekday: *match_weekday,
                    },
                )
            },
            DateMappingPolicyConfig::BestCase {
                start_date,
                end_date,
                start_time,
                end_time,
                date_tolerance,
            } => {
                let (sd, ed, st, et) = parse_range(
                    start_date,
                    end_date,
                    start_time,
                    end_time,
                    "best case",
                )?;
                let tolerance = match date_tolerance {
                    Some(t) => *t,
                    None => BEST_CASE_DEFAULT_TOLERANCE,
                };
                Ok(
                    DateMappingPolicy::BestCase {
                        start_date: sd,
                        end_date: ed,
                        start_time: st,
                        end_time: et,
                        date_tolerance: tolerance,
                    },
                )
            },
        }
    }

    /// the dates we want to generate transit schedules for, in order: each date from the
    /// start date through the end date, or the single date of a single-date policy.
    pub fn iter(&self) -> (r: Vec<Date>)
        requires
            policy_wf(*self),
        ensures
            r@.len() == (if policy_dates(*self).0 <= policy_dates(*self).1 {
                policy_dates(*self).1 - policy_dates(*self).0 + 1
            } else {
                0
            }),
            forall|i: int| 0 <= i < r@.len() ==> (#[trigger] r@[i]).days == policy_dates(*self).0 + i,
            forall|i: int| 0 <= i < r@.len() ==> (#[trigger] r@[i]).wf(),
    {
        let (first, last) = match self {
            DateMappingPolicy::ExactDate(day) => (*day, *day),
            DateMappingPolicy::ExactDateRange { start_date, end_date } => (*start_date, *end_date),
            DateMappingPolicy::NearestDate { date, .. } => (*date, *date),
            DateMappingPolicy::NearestDateRange { start_date, end_date, .. } => (
                *start_date,
                *end_date,
            ),
            DateMappingPolicy::ExactDatetimeRange { start_date, end_date, .. } => (
                *start_date,
                *end_date,
            ),
            DateMappingPolicy::NearestDatetimeRange { start_date, end_date, .. } => (
                *start_date,
                *end_date,
            ),
            DateMappingPolicy::BestCase { start_date, end_date, .. } => (*start_date, *end_date),
        };
        let mut out: Vec<Date> = Vec::new();
        let mut d: i64 = first.days as i64;
        while d <= last.days as i64
            invariant
                first.wf(),
                last.wf(),
                first.days as int == policy_dates(*self).0,
                last.days as int == policy_dates(*self).1,
                first.days <= d <= last.days + 1 || (d == first.days && first.days > last.days),
                out@.len() == d - first.days,
                forall|i: int| 0 <= i < out@.len() ==> (#[trigger] out@[i]).days == first.days + i,
                forall|i: int| 0 <= i < out@.len() ==> (#[trigger] out@[i]).wf(),
            decreases last.days + 1 - d,
        {
            out.push(Date { days: d as i32 });
            d += 1;
        }
        out
    }

    /// given some target date generated by [`DateMappingPolicy::iter`], we _pick_ a valid
    /// date according to the policy variant's implementation + arguments, using the
    /// calendar entries of the trip's service.
    pub fn pick_date(&self, target: &Date, trip: &SortedTrip, service: &ServiceCalendar) -> (r: Result<
        Date,
        ScheduleError,
    >)
        requires
            target.wf(),
            service_wf(*service),
        ensures
            r is Ok <==> pick_ok(*self, *service, target.days as int),
            r matches Ok(d) ==> d.wf() && picked(*self, *service, target.days as int, d.days as int),
            r matches Err(e) ==> error_view(e) == Some(
                pick_error(*self, *service, trip.trip_id@, target.days as int),
            ),
    {
        match self {
            DateMappingPolicy::NearestDate { date_tolerance, match_weekday, .. } => pick_nearest_date(
                target,
                trip,
                service,
                *date_tolerance,
                *match_weekday,
            ),
            DateMappingPolicy::NearestDateRange { date_tolerance, match_weekday, .. } =>
            pick_nearest_date(target, trip, service, *date_tolerance, *match_weekday),
            DateMappingPolicy::NearestDatetimeRange { date_tolerance, match_weekday, .. } =>
            pick_nearest_date(target, trip, service, *date_tolerance, *match_weekday),
            DateMappingPolicy::BestCase { date_tolerance, .. } => {
                let e1 = match pick_exact_date(target, trip, service) {
                    Ok(date) => return Ok(date),
                    Err(e) => e,
                };
                let e2 = match pick_nearest_date(target, trip, service, *date_tolerance, true) {
                    Ok(date) => return Ok(date),
                    Err(e) => e,
                };
                let e3 = match pick_nearest_date(target, trip, service, *date_tolerance, false) {
                    Ok(date) => return Ok(date),
                    Err(e) => e,
                };
                // all three strategies failed, return a detailed error message
                let mut out: Vec<char> = Vec::new();
                push_str(&mut out, "Failed to pick date with best_case strategy.");
                push_str(&mut out, "  ");
                push_str(&mut out, "While attempting to pick exact date: ");
                push_error_message(&mut out, &e1);
                push_str(&mut out, ".");
                push_str(&mut out, "  ");
                push_str(&mut out, "While attempting to pick nearest date within ");
                push_decimal(&mut out, *date_tolerance);
                push_str(&mut out, " days matching weekday: ");
                push_error_message(&mut out, &e2);
                push_str(&mut out, ".");
                push_str(&mut out, "  ");
                push_str(&mut out, "While attempting to pick nearest date within ");
                push_decimal(&mut out, *date_tolerance);
                push_str(&mut out, " days without matching weekday: ");
                push_error_message(&mut out, &e3);
                push_str(&mut out, ".");
                Err(ScheduleError::InvalidData(string_of(&out)))
            },
            _ => pick_exact_date(target, trip, service),
        }
    }

    /// confirms if a time for a trip stop is within the user-configured time of day range.
    /// always true when time ranges are not provided.
    ///
    /// assumes if we are matching times that we are picking a range within a 24-hour period without
    /// a change of dates.
    pub fn within_time_range(&self, src: &StopTime, dst: &StopTime) -> (r: bool)
        ensures
            r == match policy_window(*self) {
                None => true,
                Some((st, et)) => pair_in_window(src.departure_time, dst.arrival_time, st, et),
            },
    {
        match self {
            DateMappingPolicy::ExactDatetimeRange { start_time, end_time, .. } => test_dst_arrival(
                src,
                dst,
                start_time,
                end_time,
            ),
            DateMappingPolicy::NearestDatetimeRange { start_time, end_time, .. } =>
            test_dst_arrival(src, dst, start_time, end_time),
            DateMappingPolicy::BestCase { start_time, end_time, .. } => test_dst_arrival(
                src,
                dst,
                start_time,
                end_time,
            ),
            _ => true,
        }
    }
}

fn time_in_window(secs: u32, start_time: &Time, end_time: &Time) -> (r: bool)
    ensures
        r == in_time_window(*start_time, *end_time, secs as int),
{
    match Time::from_num_seconds_from_midnight_opt(secs) {
        Some(t) => start_time.at_or_before(&t) && t.at_or_before(end_time),
        None => false,
    }
}

/// helper function to check if a source and destination stop time pair is within some time range.
/// false if either time value exists but is outside of [0, 86399].
/// does not fail if times are not specified, but instead optimisically returns true.
fn test_dst_arrival(src: &StopTime, dst: &StopTime, start_time: &Time, end_time: &Time) -> (r: bool)
    ensures
        r == pair_in_window(src.departure_time, dst.arrival_time, *start_time, *end_time),
{
    match (src.departure_time, dst.arrival_time) {
        (None, None) => true,
        (None, Some(arr)) => time_in_window(arr, start_time, end_time),
        (Some(dep), None) => time_in_window(dep, start_time, end_time),
        (Some(dep), Some(arr)) => time_in_window(dep, start_time, end_time) && time_in_window(
            arr,
            start_time,
            end_time,
        ),
    }
}

} // verus!
