//! The service calendar entries of a GTFS archive that date mapping reads.
use vstd::prelude::*;

use crate::temporal::Date;

verus! {

/// Whether a calendar_dates.txt entry adds or removes service on its date.
#[derive(Clone, Copy, Debug, PartialEq, Eq, Structural)]
pub enum Exception {
    Added,
    Deleted,
}

/// A row of calendar.txt: a service's weekly pattern over a date range.
#[derive(Clone, Debug)]
pub struct Calendar {
    pub id: String,
    pub start_date: Date,
    pub end_date: Date,
    pub monday: bool,
    pub tuesday: bool,
    pub wednesday: bool,
    pub thursday: bool,
    pub friday: bool,
    pub saturday: bool,
    pub sunday: bool,
}

/// A row of calendar_dates.txt: service added or removed on one date.
#[derive(Clone, Debug)]
pub struct CalendarDate {
    pub service_id: String,
    pub date: Date,
    pub exception_type: Exception,
}

/// The calendar.txt and calendar_dates.txt entries of one service, as an archive
/// lookup finds them by service id.
#[derive(Clone, Debug)]
pub struct ServiceCalendar {
    pub calendar: Option<Calendar>,
    pub calendar_dates: Option<Vec<CalendarDate>>,
}

impl Calendar {
    /// Dates of the entry are representable.
    pub open spec fn wf(self) -> bool {
        self.start_date.wf() && self.end_date.wf()
    }

    /// Whether the service runs on the weekday with the given index (Monday is 0).
    pub open spec fn spec_runs_on(self, weekday: int) -> bool {
        if weekday == 0 {
            self.monday
        } else if weekday == 1 {
            self.tuesday
        } else if weekday == 2 {
            self.wednesday
        } else if weekday == 3 {
            self.thursday
        } else if weekday == 4 {
            self.friday
        } else if weekday == 5 {
            self.saturday
        } else {
            self.sunday
        }
    }

    /// Whether the service runs on the weekday with the given index (Monday is 0).
    pub fn runs_on(&self, weekday: u32) -> (r: bool)
        ensures
            r == self.spec_runs_on(weekday as int),
    {
        if weekday == 0 {
            self.monday
        } else if weekday == 1 {
            self.tuesday
        } else if weekday == 2 {
            self.wednesday
        } else if weekday == 3 {
            self.thursday
        } else if weekday == 4 {
            self.friday
        } else if weekday == 5 {
            self.saturday
        } else {
            self.sunday
        }
    }
}

/// Every date of the calendar_dates entries is representable.
pub open spec fn calendar_dates_wf(cds: Seq<CalendarDate>) -> bool {
    forall|i: int| 0 <= i < cds.len() ==> (#[trigger] cds[i]).date.wf()
}

} // verus!
