//! Configuration of a date mapping policy as the user provides it.
use vstd::prelude::*;
use vstd::string::*;

use crate::schedule::error::ScheduleError;

verus! {

/// used to tag the type of mapping policy when constructing from CLI.
#[derive(Clone, Copy, Debug, PartialEq, Eq, Structural)]
pub enum DateMappingPolicyType {
    ExactDate,
    ExactRange,
    NearestDate,
    NearestRange,
    ExactDateTimeRange,
    NearestDateTimeRange,
    BestCase,
}

/// configures a [`DateMappingPolicy`](crate::schedule::policy::DateMappingPolicy);
/// dates and times are held as text, to be parsed when the policy is built.
#[derive(Clone, Debug)]
pub enum DateMappingPolicyConfig {
    ExactDate(String),
    ExactDateRange {
        /// start date in range
        start_date: String,
        end_date: String,
    },
    NearestDate {
        date: String,
        /// limit to the number of days to search from the target date +-
        /// to a viable date in the GTFS archive.
        date_tolerance: u64,
        /// if true, choose the closest date that matches the same day of the
        /// week as our target date.
        match_weekday: bool,
    },
    NearestDateRange {
        start_date: String,
        end_date: String,
        date_tolerance: u64,
        match_weekday: bool,
    },
    ExactDateTimeRange {
        start_date: String,
        end_date: String,
        start_time: String,
        end_time: String,
    },
    NearestDateTimeRange {
        start_date: String,
        end_date: String,
        start_time: String,
        end_time: String,
        date_tolerance: u64,
        match_weekday: bool,
    },
    BestCase {
        start_date: String,
        end_date: String,
        start_time: String,
        end_time: String,
        /// limit to the number of days to search from the target date +-
        /// to a viable date in the GTFS archive. default: +- 10 years.
        date_tolerance: Option<u64>,
    },
}

/// The error is an application error carrying exactly the given message.
pub open spec fn is_app_error(e: ScheduleError, msg: Seq<char>) -> bool {
    e matches ScheduleError::GtfsApp(m) && m@ == msg
}

pub open spec fn opt_view(s: Option<&String>) -> Option<Seq<char>> {
    match s {
        Some(v) => Some(v@),
        None => None,
    }
}

pub open spec fn missing_match_weekday_message() -> Seq<char> {
    "for nearest-date mapping, must specify 'match_weekday' as 'true' or 'false'"@
}

pub open spec fn missing_tolerance_message() -> Seq<char> {
    "for nearest-date mapping, must specify a date_tolerance in [0, inf)"@
}

fn missing_match_weekday() -> (e: ScheduleError)
    ensures
        is_app_error(e, missing_match_weekday_message()),
{
    ScheduleError::GtfsApp(
        String::from_str(
            "for nearest-date mapping, must specify 'match_weekday' as 'true' or 'false'",
        ),
    )
}

fn missing_tolerance() -> (e: ScheduleError)
    ensures
        is_app_error(e, missing_tolerance_message()),
{
    ScheduleError::GtfsApp(
        String::from_str("for nearest-date mapping, must specify a date_tolerance in [0, inf)"),
    )
}

fn app_error(msg: &str) -> (e: ScheduleError)
    ensures
        is_app_error(e, msg@),
{
    ScheduleError::GtfsApp(String::from_str(msg))
}

fn copy_opt(s: Option<&String>) -> (r: Option<String>)
    ensures
        r is Some <==> s is Some,
        r matches Some(v) ==> opt_view(s) == Some(v@),
{
    match s {
        Some(v) => Some(v.clone()),
        None => None,
    }
}

impl DateMappingPolicyConfig {
    /// build a new [`DateMappingPolicy`](crate::schedule::policy::DateMappingPolicy)
    /// configuration from CLI arguments. nearest-date policies need a weekday rule and a
    /// tolerance; date-time range policies need a start and end time; the best-case policy
    /// keeps an absent tolerance absent.
    pub fn new(
        start_date: &str,
        end_date: &str,
        start_time: Option<&String>,
        end_time: Option<&String>,
        date_mapping_policy: &DateMappingPolicyType,
        date_mapping_date_tolerance: Option<u64>,
        date_mapping_match_weekday: Option<bool>,
    ) -> (r: Result<DateMappingPolicyConfig, ScheduleError>)
        ensures
            *date_mapping_policy == DateMappingPolicyType::ExactDate ==> (r matches Ok(
                DateMappingPolicyConfig::ExactDate(d),
            ) && d@ == start_date@),
            *date_mapping_policy == DateMappingPolicyType::ExactRange ==> (r matches Ok(
                DateMappingPolicyConfig::ExactDateRange { start_date: s, end_date: e },
            ) && s@ == start_date@ && e@ == end_date@),
            *date_mapping_policy == DateMappingPolicyType::NearestDate ==> {
                match (date_mapping_match_weekday, date_mapping_date_tolerance) {
                    (None, _) => r matches Err(e) && is_app_error(e, missing_match_weekday_message()),
                    (Some(_), None) => r matches Err(e) && is_app_error(e, missing_tolerance_message()),
                    (Some(mw), Some(tol)) => r matches Ok(
                        DateMappingPolicyConfig::NearestDate { date, date_tolerance, match_weekday },
                    ) && date@ == start_date@ && date_tolerance == tol && match_weekday == mw,
                }
            },
            *date_mapping_policy == DateMappingPolicyType::NearestRange ==> {
                match (date_mapping_match_weekday, date_mapping_date_tolerance) {
                    (None, _) => r matches Err(e) && is_app_error(e, missing_match_weekday_message()),
                    (Some(_), None) => r matches Err(e) && is_app_error(e, missing_tolerance_message()),
                    (Some(mw), Some(tol)) => r matches Ok(
                        DateMappingPolicyConfig::NearestDateRange {
                            start_date: s,
                            end_date: e,
                            date_tolerance,
                            match_weekday,
                        },
                    ) && s@ == start_date@ && e@ == end_date@ && date_tolerance == tol
                        && match_weekday == mw,
                }
            },
            *date_mapping_policy == DateMappingPolicyType::ExactDateTimeRange ==> {
                match (start_time, end_time) {
                    (None, _) => r matches Err(e) && is_app_error(
                        e,
                        "must provide start_time for exact date time range policy"@,
                    ),
                    (Some(_), None) => r matches Err(e) && is_app_error(
                        e,
                        "must provide end_time for exact date time range policy"@,
                    ),
                    (Some(st), Some(et)) => r matches Ok(
                        DateMappingPolicyConfig::ExactDateTimeRange {
                            start_date: s,
                            end_date: e,
                            start_time: a,
                            end_time: b,
                        },
                    ) && s@ == start_date@ && e@ == end_date@ && a@ == st@ && b@ == et@,
                }
            },
            *date_mapping_policy == DateMappingPolicyType::NearestDateTimeRange ==> {
                match (start_time, end_time, date_mapping_match_weekday, date_mapping_date_tolerance) {
                    (None, _, _, _) => r matches Err(e) && is_app_error(
                        e,
                        "must provide start_time for nearest date time range policy"@,
                    ),
                    (Some(_), None, _, _) => r matches Err(e) && is_app_error(
                        e,
                        "must provide end_time for nearest date time range policy"@,
                    ),
                    (Some(_), Some(_), None, _) => r matches Err(e) && is_app_error(
                        e,
                        missing_match_weekday_message(),
                    ),
                    (Some(_), Some(_), Some(_), None) => r matches Err(e) && is_app_error(
                        e,
                        missing_tolerance_message(),
                    ),
                    (Some(st), Some(et), Some(mw), Some(tol)) => r matches Ok(
                        DateMappingPolicyConfig::NearestDateTimeRange {
                            start_date: s,
                            end_date: e,
                            start_time: a,
                            end_time: b,
                            date_tolerance,
                            match_weekday,
                        },
                    ) && s@ == start_date@ && e@ == end_date@ && a@ == st@ && b@ == et@
                        && date_tolerance == tol && match_weekday == mw,
                }
            },
            *date_mapping_policy == DateMappingPolicyType::BestCase ==> {
                match (start_time, end_time) {
                    (None, _) => r matches Err(e) && is_app_error(
                        e,
                        "must provide start_time for best case policy"@,
                    ),
                    (Some(_), None) => r matches Err(e) && is_app_error(
                        e,
                        "must provide end_time for best case policy"@,
                    ),
                    (Some(st), Some(et)) => r matches Ok(
                        DateMappingPolicyConfig::BestCase {
                            start_date: s,
                            end_date: e,
                            start_time: a,
                            end_time: b,
                            date_tolerance,
                        },
                    ) && s@ == start_date@ && e@ == end_date@ && a@ == st@ && b@ == et@
                        && date_tolerance == date_mapping_date_tolerance,
                }
            },
    {
        match date_mapping_policy {
            DateMappingPolicyType::ExactDate => Ok(
                DateMappingPolicyConfig::ExactDate(String::from_str(start_date)),
            ),
            DateMappingPolicyType::ExactRange => Ok(
                DateMappingPolicyConfig::ExactDateRange {
                    start_date: String::from_str(start_date),
                    end_date: String::from_str(end_date),
                },
            ),
            DateMappingPolicyType::NearestDate => {
                let match_weekday = match date_mapping_match_weekday {
                    Some(m) => m,
                    None => return Err(missing_match_weekday()),
                };
                let date_tolerance = match date_mapping_date_tolerance {
                    Some(t) => t,
                    None => return Err(missing_tolerance()),
                };
                Ok(
                    DateMappingPolicyConfig::NearestDate {
                        date: String::from_str(start_date),
                        date_tolerance,
                        match_weekday,
                    },
                )
            },
            DateMappingPolicyType::NearestRange => {
                let match_weekday = match date_mapping_match_weekday {
                    Some(m) => m,
                    None => return Err(missing_match_weekday()),
                };
                let date_tolerance = match date_mapping_date_tolerance {
                    Some(t) => t,
                    None => return Err(missing_tolerance()),
                };
                Ok(
                    DateMappingPolicyConfig::NearestDateRange {
                        start_date: String::from_str(start_date),
                        end_date: String::from_str(end_date),
                        date_tolerance,
                        match_weekday,
                    },
                )
            },
            DateMappingPolicyType::ExactDateTimeRange => {
                let start_time = match copy_opt(start_time) {
                    Some(t) => t,
                    None => return Err(
                        app_error("must provide start_time for exact date time range policy"),
                    ),
                };
                let end_time = match copy_opt(end_time) {
                    Some(t) => t,
                    None => return Err(
                        app_error("must provide end_time for exact date time range policy"),
                    ),
                };
                Ok(
                    DateMappingPolicyConfig::ExactDateTimeRange {
                        start_date: String::from_str(start_date),
                        end_date: String::from_str(end_date),
                        start_time,
                        end_time,
                    },
                )
            },
            DateMappingPolicyType::NearestDateTimeRange => {
                let start_time = match copy_opt(start_time) {
                    Some(t) => t,
                    None => return Err(
                        app_error("must provide start_time for nearest date time range policy"),
                    ),
                };
                let end_time = match copy_opt(end_time) {
                    Some(t) => t,
                    None => return Err(
                        app_error("must provide end_time for nearest date time range policy"),
                    ),
                };
                let match_weekday = match date_mapping_match_weekday {
                    Some(m) => m,
                    None => return Err(missing_match_weekday()),
                };
                let date_tolerance = match date_mapping_date_tolerance {
                    Some(t) => t,
                    None => return Err(missing_tolerance()),
                };
                Ok(
                    DateMappingPolicyConfig::NearestDateTimeRange {
                        start_date: String::from_str(start_date),
                        end_date: String::from_str(end_date),
                        start_time,
                        end_time,
                        date_tolerance,
                        match_weekday,
                    },
                )
            },
            DateMappingPolicyType::BestCase => {
                let start_time = match copy_opt(start_time) {
                    Some(t) => t,
                    None => return Err(app_error("must provide start_time for best case policy")),
                };
                let end_time = match copy_opt(end_time) {
                    Some(t) => t,
                    None => return Err(app_error("must provide end_time for best case policy")),
                };
                Ok(
                    DateMappingPolicyConfig::BestCase {
                        start_date: String::from_str(start_date),
                        end_date: String::from_str(end_date),
                        start_time,
                        end_time,
                        date_tolerance: date_mapping_date_tolerance,
                    },
                )
            },
        }
    }
}

} // verus!
