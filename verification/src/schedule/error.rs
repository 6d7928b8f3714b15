//! Errors raised while preparing GTFS schedules.
use vstd::prelude::*;

use crate::text::{push_all, push_str, chars_of};

verus! {

/// Failures while reading, mapping and assembling GTFS schedules.
#[derive(Debug)]
pub enum ScheduleError {
    /// The archive could not be read; holds the reader's message.
    BundleRead(String),
    GtfsApp(String),
    /// The spatial index failed to match a point; holds its message.
    SpatialIndexMap(String),
    SpatialIndexIncorrectMap,
    MapMatchError { stop_id: String, error: String },
    StopTimeMissingStop,
    MissingAllStopTimes(String),
    /// A stop of a pair has no location, nor has its parent station; holds the pair's
    /// stop ids.
    MissingStopLocationAndParent(String),
    MissingShapeDistanceTraveled(String, String),
    FailedToCreateVertexIndex(String),
    InvalidCalendar(String),
    InvalidCalendarDates(String),
    InvalidResultKeys,
    InvalidData(String),
    MalformedGtfs(String),
    Internal(String),
    BatchProcessing(String),
}

/// The rendered message of an error.
pub open spec fn schedule_error_message(e: ScheduleError) -> Seq<char> {
    match e {
        ScheduleError::BundleRead(m) => "Failed to parse gtfs bundle file into `Gtfs` struct: "@ + m@,
        ScheduleError::GtfsApp(m) => "failure running bambam_gtfs: "@ + m@,
        ScheduleError::SpatialIndexMap(m) => "Failed to match point with spatial index: "@ + m@,
        ScheduleError::SpatialIndexIncorrectMap => "Spatial index matched an edge instead of a vertex"@,
        ScheduleError::MapMatchError { stop_id, error } => "Error matching stop '"@ + stop_id@
            + "': "@ + error@,
        ScheduleError::StopTimeMissingStop =>
            "StopTime in archive missing 'stop' field. this omission is only valid in GTFS-Flex archives."@,
        ScheduleError::MissingAllStopTimes(m) => "Missing both arrival and departure times: "@ + m@,
        ScheduleError::MissingStopLocationAndParent(m) =>
            "Stop has no location, nor has its parent station: "@ + m@,
        ScheduleError::MissingShapeDistanceTraveled(a, b) =>
            "At least one of the stops in edge is missing shape distance traveled: "@ + a@ + " or "@
                + b@,
        ScheduleError::FailedToCreateVertexIndex(m) => "Failed to create vertex index: "@ + m@,
        ScheduleError::InvalidCalendar(m) => "Cannot find service in calendar.txt with service_id: "@
            + m@,
        ScheduleError::InvalidCalendarDates(m) =>
            "Cannot find service in calendar_dates.txt with service_id: "@ + m@,
        ScheduleError::InvalidResultKeys => "Invalid Edges and schedules keys"@,
        ScheduleError::InvalidData(m) => "error due to dataset contents: "@ + m@,
        ScheduleError::MalformedGtfs(m) => "GTFS archive is malformed: "@ + m@,
        ScheduleError::Internal(m) => "Internal Error: "@ + m@,
        ScheduleError::BatchProcessing(m) => "errors encountered during batch bundle processing: "@
            + m@,
    }
}

impl ScheduleError {
    /// The rendered message of this error.
    pub fn message(&self) -> (r: String)
        ensures
            r@ == schedule_error_message(*self),
    {
        let mut out: Vec<char> = Vec::new();
        match self {
            ScheduleError::BundleRead(m) => {
                push_str(&mut out, "Failed to parse gtfs bundle file into `Gtfs` struct: ");
                push_str(&mut out, m.as_str());
            },
            ScheduleError::GtfsApp(m) => {
                push_str(&mut out, "failure running bambam_gtfs: ");
                push_str(&mut out, m.as_str());
            },
            ScheduleError::SpatialIndexMap(m) => {
                push_str(&mut out, "Failed to match point with spatial index: ");
                push_str(&mut out, m.as_str());
            },
            ScheduleError::SpatialIndexIncorrectMap => {
                push_str(&mut out, "Spatial index matched an edge instead of a vertex");
            },
            ScheduleError::MapMatchError { stop_id, error } => {
                push_str(&mut out, "Error matching stop '");
                push_str(&mut out, stop_id.as_str());
                push_str(&mut out, "': ");
                push_str(&mut out, error.as_str());
            },
            ScheduleError::StopTimeMissingStop => {
                push_str(
                    &mut out,
                    "StopTime in archive missing 'stop' field. this omission is only valid in GTFS-Flex archives.",
                );
            },
            ScheduleError::MissingAllStopTimes(m) => {
                push_str(&mut out, "Missing both arrival and departure times: ");
                push_str(&mut out, m.as_str());
            },
            ScheduleError::MissingStopLocationAndParent(m) => {
                push_str(&mut out, "Stop has no location, nor has its parent station: ");
                push_str(&mut out, m.as_str());
            },
            ScheduleError::MissingShapeDistanceTraveled(a, b) => {
                push_str(
                    &mut out,
                    "At least one of the stops in edge is missing shape distance traveled: ",
                );
                push_str(&mut out, a.as_str());
                push_str(&mut out, " or ");
                push_str(&mut out, b.as_str());
            },
            ScheduleError::FailedToCreateVertexIndex(m) => {
                push_str(&mut out, "Failed to create vertex index: ");
                push_str(&mut out, m.as_str());
            },
            ScheduleError::InvalidCalendar(m) => {
                push_str(&mut out, "Cannot find service in calendar.txt with service_id: ");
                push_str(&mut out, m.as_str());
            },
            ScheduleError::InvalidCalendarDates(m) => {
                push_str(&mut out, "Cannot find service in calendar_dates.txt with service_id: ");
                push_str(&mut out, m.as_str());
            },
            ScheduleError::InvalidResultKeys => {
                push_str(&mut out, "Invalid Edges and schedules keys");
            },
            ScheduleError::InvalidData(m) => {
                push_str(&mut out, "error due to dataset contents: ");
                push_str(&mut out, m.as_str());
            },
            ScheduleError::MalformedGtfs(m) => {
                push_str(&mut out, "GTFS archive is malformed: ");
                push_str(&mut out, m.as_str());
            },
            ScheduleError::Internal(m) => {
                push_str(&mut out, "Internal Error: ");
                push_str(&mut out, m.as_str());
            },
            ScheduleError::BatchProcessing(m) => {
                push_str(&mut out, "errors encountered during batch bundle processing: ");
                push_str(&mut out, m.as_str());
            },
        }
        crate::text::string_of(&out)
    }
}

/// The messages of a list of errors joined by a newline and two spaces.
pub open spec fn joined_messages(errors: Seq<ScheduleError>) -> Seq<char>
    decreases errors.len(),
{
    if errors.len() == 0 {
        Seq::empty()
    } else if errors.len() == 1 {
        schedule_error_message(errors[0])
    } else {
        joined_messages(errors.drop_last()) + "\n  "@ + schedule_error_message(errors.last())
    }
}

/// Combines the errors of a batch into one, listing their messages in order.
pub fn batch_processing_error(errors: &[ScheduleError]) -> (r: ScheduleError)
    ensures
        r matches ScheduleError::BatchProcessing(m) && m@ == "[\n  "@ + joined_messages(errors@)
            + "\n]"@,
{
    let mut out: Vec<char> = Vec::new();
    push_str(&mut out, "[\n  ");
    let ghost head = out@;
    let mut i: usize = 0;
    while i < errors.len()
        invariant
            i <= errors.len(),
            out@ == head + joined_messages(errors@.take(i as int)),
        decreases errors.len() - i,
    {
        if i > 0 {
            push_str(&mut out, "\n  ");
        }
        let m = errors[i].message();
        let mc = chars_of(m.as_str());
        push_all(&mut out, &mc);
        i += 1;
        proof {
            let t = errors@.take(i as int);
            assert(t.drop_last() == errors@.take((i - 1) as int));
            assert(t.last() == errors@[i - 1]);
            if i == 1 {
                assert(joined_messages(errors@.take(0)) == Seq::<char>::empty());
            }
        }
    }
    push_str(&mut out, "\n]");
    assert(errors@.take(errors.len() as int) == errors@);
    ScheduleError::BatchProcessing(crate::text::string_of(&out))
}

} // verus!
