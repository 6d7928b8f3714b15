//! Time arithmetic of a transit traversal: the current instant of a search, and the
//! mapping of search dates onto dates that an archive's schedules cover.
use vstd::prelude::*;

use std::collections::HashMap;

use crate::temporal::{DateTime, MAX_DATETIME_NANOS, MAX_DAYS, MIN_DAYS, NANOS_PER_DAY, NANOS_PER_SEC, TimeDelta};
use crate::text::{decimal, push_decimal, push_signed_decimal, push_str, signed_decimal, string_of};
use crate::temporal::spec_display_datetime;
use crate::transit::schedule::{Departure, clamped_add, instant_ok};

verus! {

broadcast use vstd::std_specs::hash::group_hash_axioms;

/// Errors raised while building or running a transit traversal.
#[derive(Clone, Debug, PartialEq, Eq)]
pub enum TransitError {
    InternalError(String),
    TraversalModelFailure(String),
    BuildError(String),
}

impl TransitError {
    /// The variant's message.
    pub open spec fn text(self) -> Seq<char> {
        match self {
            TransitError::InternalError(m) => m@,
            TransitError::TraversalModelFailure(m) => m@,
            TransitError::BuildError(m) => m@,
        }
    }

    /// How the error reads: a traversal failure as its bare text, the others behind a
    /// prefix that names their kind.
    pub open spec fn spec_message(self) -> Seq<char> {
        match self {
            TransitError::InternalError(m) => "internal error: "@ + m@,
            TransitError::TraversalModelFailure(m) => m@,
            TransitError::BuildError(m) => "failure building traversal model: "@ + m@,
        }
    }

    /// The error's message.
    pub fn message(&self) -> (r: String)
        ensures
            r@ == self.spec_message(),
    {
        let mut msg: Vec<char> = Vec::new();
        match self {
            TransitError::InternalError(m) => {
                push_str(&mut msg, "internal error: ");
                push_str(&mut msg, m.as_str());
            },
            TransitError::TraversalModelFailure(m) => {
                push_str(&mut msg, m.as_str());
            },
            TransitError::BuildError(m) => {
                push_str(&mut msg, "failure building traversal model: ");
                push_str(&mut msg, m.as_str());
            },
        }
        proof {
            reveal_strlit("internal error: ");
            reveal_strlit("failure building traversal model: ");
        }
        string_of(&msg)
    }
}

/// The message of a span that cannot be built from seconds and nanoseconds.
pub open spec fn duration_error_message(seconds: i64, nanos: u32) -> Seq<char> {
    "unable to build Duration from seconds, nanos: "@ + signed_decimal(seconds as int) + ", "@
        + decimal(nanos as nat)
}

/// The message of a trip time that carries the search past the representable range.
pub open spec fn datetime_error_message(start: DateTime, trip_time_text: Seq<char>) -> Seq<char> {
    "Invalid Datetime from Date "@ + spec_display_datetime(
        start.spec_days(),
        start.spec_nanos_of_day() / (NANOS_PER_SEC as int),
        start.spec_nanos_of_day() % (NANOS_PER_SEC as int),
    ) + " + "@ + trip_time_text + " seconds"@
}

/// The span of a trip time given as whole seconds (rounded toward zero) and
/// nanoseconds, as chrono's `TimeDelta::new` builds it.
pub open spec fn trip_span_ok(seconds: i64, nanos: u32) -> bool {
    nanos < NANOS_PER_SEC && -crate::temporal::MAX_DELTA_NANOS <= seconds * NANOS_PER_SEC + nanos
        <= crate::temporal::MAX_DELTA_NANOS
}

/// Composes the start instant of a search and the trip time so far into the current
/// instant. The trip time comes as its whole seconds, its nanoseconds and the text
/// of its value in seconds, used in the error message.
///
/// Fails with `TraversalModelFailure` when the seconds and nanoseconds make no span,
/// and with `InternalError` when the sum leaves the representable range.
pub fn get_current_time(
    start_datetime: &DateTime,
    trip_seconds: i64,
    trip_nanos: u32,
    trip_time_text: &str,
) -> (r: Result<DateTime, TransitError>)
    requires
        start_datetime.wf(),
    ensures
        !trip_span_ok(trip_seconds, trip_nanos) ==> (r matches Err(
            TransitError::TraversalModelFailure(m),
        ) && m@ == duration_error_message(trip_seconds, trip_nanos)),
        trip_span_ok(trip_seconds, trip_nanos) ==> {
            let sum = start_datetime.nanos + trip_seconds * NANOS_PER_SEC + trip_nanos;
            &&& crate::transit::schedule::instant_ok(sum) ==> r == Ok::<DateTime, TransitError>(
                DateTime { nanos: sum as i128 },
            )
            &&& !crate::transit::schedule::instant_ok(sum) ==> (r matches Err(
                TransitError::InternalError(m),
            ) && m@ == datetime_error_message(*start_datetime, trip_time_text@))
        },
{
    let trip_duration = match TimeDelta::new(trip_seconds, trip_nanos) {
        Some(d) => d,
        None => {
            let mut msg: Vec<char> = Vec::new();
            push_str(&mut msg, "unable to build Duration from seconds, nanos: ");
            push_signed_decimal(&mut msg, trip_seconds);
            push_str(&mut msg, ", ");
            push_decimal(&mut msg, trip_nanos as u64);
            return Err(TransitError::TraversalModelFailure(string_of(&msg)));
        },
    };
    match start_datetime.checked_add_signed(&trip_duration) {
        Some(v) => Ok(v),
        None => {
            let mut msg: Vec<char> = Vec::new();
            push_str(&mut msg, "Invalid Datetime from Date ");
            let shown = start_datetime.display();
            push_str(&mut msg, shown.as_str());
            push_str(&mut msg, " + ");
            push_str(&mut msg, trip_time_text);
            push_str(&mut msg, " seconds");
            Err(TransitError::InternalError(string_of(&msg)))
        },
    }
}

/// Every mapped date in the table is representable.
pub open spec fn date_mapping_wf(date_mapping: Map<i64, HashMap<i32, i32>>) -> bool {
    forall|route: i64, day: i32|
        #![trigger date_mapping[route]@[day]]
        date_mapping.contains_key(route) && date_mapping[route]@.contains_key(day) ==> MIN_DAYS
            <= date_mapping[route]@[day] <= MAX_DAYS
}

/// The day that a route's date mapping assigns to `day`, or `day` itself where the
/// route or the day has no entry.
pub open spec fn mapped_day(date_mapping: Map<i64, HashMap<i32, i32>>, route: i64, day: int) -> int {
    if date_mapping.contains_key(route) && date_mapping[route]@.contains_key(day as i32) {
        date_mapping[route]@[day as i32] as int
    } else {
        day
    }
}

/// The instant at which a route's schedule is searched: the current instant moved
/// onto the mapped date, keeping its time of day.
pub open spec fn mapped_instant(
    date_mapping: Map<i64, HashMap<i32, i32>>,
    route: i64,
    current: DateTime,
) -> int {
    mapped_day(date_mapping, route, current.spec_days()) * NANOS_PER_DAY
        + current.spec_nanos_of_day()
}

/// A departure found at the `mapped` instant, moved back by the span from `mapped` to
/// `current` (clamped at the ends of the representable range); one at positive
/// infinity stays where it is.
pub open spec fn reversed(current: int, mapped: int, d: Departure) -> Departure {
    if d.src_departure_time.nanos == crate::temporal::MAX_DATETIME_NANOS
        || d.dst_arrival_time.nanos == crate::temporal::MAX_DATETIME_NANOS {
        d
    } else {
        Departure {
            src_departure_time: DateTime {
                nanos: clamped_add(d.src_departure_time.nanos as int, current - mapped) as i128,
            },
            dst_arrival_time: DateTime {
                nanos: clamped_add(d.dst_arrival_time.nanos as int, current - mapped) as i128,
            },
        }
    }
}

/// Applies the route's date mapping, if it has an entry for the current date: the
/// result keeps the time of day and takes the mapped date.
pub fn apply_date_mapping(
    date_mapping: &HashMap<i64, HashMap<i32, i32>>,
    route_id_label: &i64,
    current_datetime: &DateTime,
) -> (r: DateTime)
    requires
        current_datetime.wf(),
        date_mapping_wf(date_mapping@),
    ensures
        r.nanos == mapped_instant(date_mapping@, *route_id_label, *current_datetime),
        r.wf(),
{
    let date = current_datetime.date();
    let nanos_of_day = current_datetime.nanos_of_day();
    let mapped = match date_mapping.get(route_id_label) {
        Some(date_map) => match date_map.get(&date.days) {
            Some(d) => *d,
            None => date.days,
        },
        None => date.days,
    };
    let mapped_date = crate::temporal::Date { days: mapped };
    mapped_date.and_nanos(nanos_of_day)
}

/// Undoes a date mapping on a departure found at the mapped instant: the departure is
/// moved by the span from the mapped instant to the current one, clamped at the ends
/// of the representable range. A departure at positive infinity is kept as it is.
pub fn reverse_date_mapping(
    current_datetime: &DateTime,
    mapped_datetime: &DateTime,
    departure: Departure,
) -> (r: Departure)
    requires
        current_datetime.wf(),
        mapped_datetime.wf(),
        departure.wf(),
    ensures
        r.wf(),
        r == reversed(current_datetime.nanos as int, mapped_datetime.nanos as int, departure),
{
    if departure.is_pos_infinity() {
        return departure;
    }
    let diff = current_datetime.signed_duration_since(mapped_datetime);
    departure.add(&diff)
}

/// Undoing a date mapping keeps the waiting time: a departure found some span after
/// the mapped instant lies, once reversed, the same span after the current instant
/// (while the shifted times stay representable), and its travel time is unchanged.
/// Without a mapping (the mapped instant is the current one) departures are unchanged.
pub proof fn lemma_reverse_keeps_wait(current: int, mapped: int, d: Departure)
    requires
        d.wf(),
        d.src_departure_time.nanos != MAX_DATETIME_NANOS,
        d.dst_arrival_time.nanos != MAX_DATETIME_NANOS,
        instant_ok(d.src_departure_time.nanos + (current - mapped)),
        instant_ok(d.dst_arrival_time.nanos + (current - mapped)),
    ensures
        reversed(current, mapped, d).src_departure_time.nanos - current == d.src_departure_time.nanos - mapped,
        reversed(current, mapped, d).dst_arrival_time.nanos - reversed(current, mapped, d).src_departure_time.nanos
            == d.dst_arrival_time.nanos - d.src_departure_time.nanos,
        current == mapped ==> reversed(current, mapped, d) == d,
{
}

} // verus!
