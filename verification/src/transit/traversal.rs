//! One transit edge traversal: waiting for the next departure, riding it, and what
//! the traversal adds to the search state.
use vstd::prelude::*;

use crate::temporal::{DateTime, NANOS_PER_DAY, spec_display_datetime, NANOS_PER_SEC};
use crate::text::{
    decimal, push_decimal, push_seconds_text, push_signed_decimal, push_str, seconds_text,
    signed_decimal, string_of,
};
use crate::transit::engine::TransitTraversalEngine;
use crate::transit::ops::{TransitError, get_current_time, trip_span_ok};
use crate::transit::schedule::Departure;

verus! {

/// Days of travel time charged for an edge on which no departure is left. The
/// traversal is forced at that point, so the state must still change; the penalty
/// lets such results be filtered afterwards.
pub const NOT_FOUND_TIME_PENALTY_DAYS: i64 = 7;

/// The penalty of [`NOT_FOUND_TIME_PENALTY_DAYS`] in nanoseconds.
pub open spec fn not_found_penalty() -> int {
    NOT_FOUND_TIME_PENALTY_DAYS * NANOS_PER_DAY
}

/// What one traversal adds to the search state, spans in nanoseconds.
#[derive(Clone, Copy, Debug, PartialEq, Eq, Structural)]
pub struct TraversalUpdate {
    /// added to both the trip time and the edge time
    pub added_time: i128,
    /// the route ridden over the edge; `None` leaves the state's route as it was
    pub route_id: Option<i64>,
    /// added to the time spent waiting to board
    pub boarding_time: i128,
    /// added to the time spent sitting in a vehicle during a scheduled dwell
    pub dwell_time: i128,
}

/// The rendering of an instant as chrono displays it.
pub open spec fn shown(t: DateTime) -> Seq<char> {
    spec_display_datetime(
        t.spec_days(),
        t.spec_nanos_of_day() / (NANOS_PER_SEC as int),
        t.spec_nanos_of_day() % (NANOS_PER_SEC as int),
    )
}

/// The message of a departure that leaves before the current instant.
pub open spec fn past_departure_message(
    edge_id: usize,
    start_datetime: DateTime,
    current_datetime: DateTime,
    current_route_id: i64,
    next_departure_route_id: i64,
    departure: Departure,
) -> Seq<char> {
    "fatal: caught departure in the past; edge_id: "@ + decimal(edge_id as nat)
        + ", start_datetime: "@ + shown(start_datetime) + ", current_datetime: "@ + shown(
        current_datetime,
    ) + ", current_route_id: "@ + signed_decimal(current_route_id as int)
        + ", next_departure_route_id: "@ + signed_decimal(next_departure_route_id as int)
        + ", src_departure_time: "@ + shown(departure.src_departure_time)
        + ", wait_duration_seconds: "@ + seconds_text(
        departure.src_departure_time.nanos - current_datetime.nanos,
    )
}

/// The message of a departure that arrives before it leaves.
pub open spec fn negative_travel_message(edge_id: usize, departure: Departure) -> Seq<char> {
    "fatal: caught negative travel time in schedule; edge_id: "@ + decimal(edge_id as nat)
        + ", src_departure_time: "@ + shown(departure.src_departure_time)
        + ", dst_arrival_time: "@ + shown(departure.dst_arrival_time)
        + ", travel_duration_seconds: "@ + seconds_text(
        departure.dst_arrival_time.nanos - departure.src_departure_time.nanos,
    )
}

/// The wait at the stop (or seated during a dwell) from the current instant until
/// the departure leaves; an error when the departure has already left.
pub fn compute_wait_time(
    edge_id: usize,
    current_datetime: &DateTime,
    current_route_id: i64,
    next_departure_route_id: i64,
    start_datetime: &DateTime,
    departure: &Departure,
) -> (r: Result<i128, TransitError>)
    requires
        current_datetime.wf(),
        start_datetime.wf(),
        departure.wf(),
    ensures
        departure.src_departure_time.nanos >= current_datetime.nanos ==> r == Ok::<
            i128,
            TransitError,
        >((departure.src_departure_time.nanos - current_datetime.nanos) as i128),
        departure.src_departure_time.nanos < current_datetime.nanos ==> (r matches Err(
            TransitError::InternalError(m),
        ) && m@ == past_departure_message(
            edge_id,
            *start_datetime,
            *current_datetime,
            current_route_id,
            next_departure_route_id,
            *departure,
        )),
{
    let wait = departure.src_departure_time.nanos - current_datetime.nanos;
    if wait < 0 {
        let mut msg: Vec<char> = Vec::new();
        push_str(&mut msg, "fatal: caught departure in the past; edge_id: ");
        push_decimal(&mut msg, edge_id as u64);
        push_str(&mut msg, ", start_datetime: ");
        let s = start_datetime.display();
        push_str(&mut msg, s.as_str());
        push_str(&mut msg, ", current_datetime: ");
        let c = current_datetime.display();
        push_str(&mut msg, c.as_str());
        push_str(&mut msg, ", current_route_id: ");
        push_signed_decimal(&mut msg, current_route_id);
        push_str(&mut msg, ", next_departure_route_id: ");
        push_signed_decimal(&mut msg, next_departure_route_id);
        push_str(&mut msg, ", src_departure_time: ");
        let d = departure.src_departure_time.display();
        push_str(&mut msg, d.as_str());
        push_str(&mut msg, ", wait_duration_seconds: ");
        push_seconds_text(&mut msg, wait);
        return Err(TransitError::InternalError(string_of(&msg)));
    }
    Ok(wait)
}

/// The ride from departure to arrival; an error when the departure arrives before it
/// leaves.
pub fn compute_travel_time(edge_id: usize, departure: &Departure) -> (r: Result<i128, TransitError>)
    requires
        departure.wf(),
    ensures
        departure.dst_arrival_time.nanos >= departure.src_departure_time.nanos ==> r == Ok::<
            i128,
            TransitError,
        >((departure.dst_arrival_time.nanos - departure.src_departure_time.nanos) as i128),
        departure.dst_arrival_time.nanos < departure.src_departure_time.nanos ==> (r matches Err(
            TransitError::InternalError(m),
        ) && m@ == negative_travel_message(edge_id, *departure)),
{
    let travel = departure.dst_arrival_time.nanos - departure.src_departure_time.nanos;
    if travel < 0 {
        let mut msg: Vec<char> = Vec::new();
        push_str(&mut msg, "fatal: caught negative travel time in schedule; edge_id: ");
        push_decimal(&mut msg, edge_id as u64);
        push_str(&mut msg, ", src_departure_time: ");
        let s = departure.src_departure_time.display();
        push_str(&mut msg, s.as_str());
        push_str(&mut msg, ", dst_arrival_time: ");
        let d = departure.dst_arrival_time.display();
        push_str(&mut msg, d.as_str());
        push_str(&mut msg, ", travel_duration_seconds: ");
        push_seconds_text(&mut msg, travel);
        return Err(TransitError::InternalError(string_of(&msg)));
    }
    Ok(travel)
}

/// What riding `departure` of route `next_route_id` adds to the state when the state
/// is on route `current_route_id` at `current_datetime`, given the wait and ride
/// spans: their sum goes to the trip and edge times, the route becomes the
/// departure's, and the wait counts as boarding time when the route changes, or as
/// dwell time when it does not and dwell time is recorded.
pub open spec fn ride_update(
    current_route_id: i64,
    next_route_id: i64,
    wait: int,
    travel: int,
    record_dwell_time: bool,
) -> TraversalUpdate {
    TraversalUpdate {
        added_time: (wait + travel) as i128,
        route_id: Some(next_route_id),
        boarding_time: if current_route_id != next_route_id {
            wait as i128
        } else {
            0
        },
        dwell_time: if current_route_id == next_route_id && record_dwell_time {
            wait as i128
        } else {
            0
        },
    }
}

/// What a ride charges: the trip and the edge are charged the whole wait plus the ride,
/// whether or not the route changes and whether or not dwell time is recorded; the
/// route becomes the departure's; and the wait is charged again to exactly one of
/// boarding time (on a change of route) and dwell time (on the same route, when dwell
/// time is recorded), or to neither on the same route when it is not recorded.
pub proof fn lemma_ride_charges_wait_and_travel(
    current_route_id: i64,
    next_route_id: i64,
    wait: int,
    travel: int,
    record_dwell_time: bool,
)
    requires
        0 <= wait,
        0 <= travel,
        wait + travel <= i128::MAX,
    ensures
        ride_update(current_route_id, next_route_id, wait, travel, record_dwell_time).added_time
            == wait + travel,
        ride_update(current_route_id, next_route_id, wait, travel, true).added_time
            == ride_update(current_route_id, next_route_id, wait, travel, false).added_time,
        ride_update(current_route_id, next_route_id, wait, travel, record_dwell_time).route_id
            == Some(next_route_id),
        current_route_id != next_route_id ==> {
            &&& ride_update(current_route_id, next_route_id, wait, travel, record_dwell_time).boarding_time == wait
            &&& ride_update(current_route_id, next_route_id, wait, travel, record_dwell_time).dwell_time == 0
        },
        current_route_id == next_route_id ==> {
            &&& ride_update(current_route_id, next_route_id, wait, travel, record_dwell_time).boarding_time == 0
            &&& ride_update(current_route_id, next_route_id, wait, travel, record_dwell_time).dwell_time
                == (if record_dwell_time { wait } else { 0 })
        },
{
}

/// The update of an edge on which no departure is left: the penalty, and nothing else.
pub open spec fn penalty_update() -> TraversalUpdate {
    TraversalUpdate {
        added_time: not_found_penalty() as i128,
        route_id: None,
        boarding_time: 0,
        dwell_time: 0,
    }
}

/// The decision of one traversal once the next departure over the edge is known:
/// `None` (no departure left) charges the penalty; otherwise the wait and the ride
/// are charged as [`ride_update`] says, or the first of their errors is returned.
pub fn traversal_update(
    edge_id: usize,
    start_datetime: &DateTime,
    current_datetime: &DateTime,
    current_route_id: i64,
    next: Option<(i64, Departure)>,
    record_dwell_time: bool,
) -> (r: Result<TraversalUpdate, TransitError>)
    requires
        start_datetime.wf(),
        current_datetime.wf(),
        next matches Some((_, d)) ==> d.wf(),
    ensures
        next is None ==> r == Ok::<TraversalUpdate, TransitError>(penalty_update()),
        next matches Some((route, dep)) ==> {
            let wait = dep.src_departure_time.nanos - current_datetime.nanos;
            let travel = dep.dst_arrival_time.nanos - dep.src_departure_time.nanos;
            &&& wait < 0 ==> (r matches Err(TransitError::InternalError(m)) && m@
                == past_departure_message(
                edge_id,
                *start_datetime,
                *current_datetime,
                current_route_id,
                route,
                dep,
            ))
            &&& wait >= 0 && travel < 0 ==> (r matches Err(TransitError::InternalError(m)) && m@
                == negative_travel_message(edge_id, dep))
            &&& wait >= 0 && travel >= 0 ==> r == Ok::<TraversalUpdate, TransitError>(
                ride_update(current_route_id, route, wait, travel, record_dwell_time),
            )
        },
{
    let (next_route_id, departure) = match next {
        Some(pair) => pair,
        None => {
            return Ok(
                TraversalUpdate {
                    added_time: NOT_FOUND_TIME_PENALTY_DAYS as i128 * 86_400_000_000_000i128,
                    route_id: None,
                    boarding_time: 0,
                    dwell_time: 0,
                },
            );
        },
    };
    let wait_time = match compute_wait_time(
        edge_id,
        current_datetime,
        current_route_id,
        next_route_id,
        start_datetime,
        &departure,
    ) {
        Ok(w) => w,
        Err(e) => {
            return Err(e);
        },
    };
    let travel_time = match compute_travel_time(edge_id, &departure) {
        Ok(t) => t,
        Err(e) => {
            return Err(e);
        },
    };
    let total_time = wait_time + travel_time;
    let boarding_time: i128 = if current_route_id != next_route_id {
        wait_time
    } else {
        0
    };
    let dwell_time: i128 = if current_route_id == next_route_id && record_dwell_time {
        wait_time
    } else {
        0
    };
    Ok(
        TraversalUpdate {
            added_time: total_time,
            route_id: Some(next_route_id),
            boarding_time,
            dwell_time,
        },
    )
}

/// Runs one traversal of edge `edge_id` for a state on route `current_route_id` whose
/// trip so far took `trip_seconds` and `trip_nanos` (with `trip_time_text` its value
/// in seconds, for messages), the search having started at `start_datetime`.
///
/// The current instant is composed as [`get_current_time`] does, the next departure
/// found as [`TransitTraversalEngine::get_next_departure`] does, and a departure at
/// positive infinity means that none is left; the update is then decided by
/// [`traversal_update`]. Errors of each step are returned as they come.
pub fn run_transit_traversal(
    engine: &TransitTraversalEngine,
    edge_id: usize,
    start_datetime: &DateTime,
    trip_seconds: i64,
    trip_nanos: u32,
    trip_time_text: &str,
    current_route_id: i64,
    record_dwell_time: bool,
) -> (r: Result<TraversalUpdate, TransitError>)
    requires
        engine.wf(),
        start_datetime.wf(),
    ensures
        !trip_span_ok(trip_seconds, trip_nanos) ==> r is Err,
        trip_span_ok(trip_seconds, trip_nanos) && !crate::transit::schedule::instant_ok(
            start_datetime.nanos + trip_seconds * NANOS_PER_SEC + trip_nanos,
        ) ==> r is Err,
        trip_span_ok(trip_seconds, trip_nanos) && crate::transit::schedule::instant_ok(
            start_datetime.nanos + trip_seconds * NANOS_PER_SEC + trip_nanos,
        ) ==> {
            let current = DateTime {
                nanos: (start_datetime.nanos + trip_seconds * NANOS_PER_SEC + trip_nanos) as i128,
            };
            &&& edge_id >= engine.edge_schedules@.len() ==> r is Err
            &&& edge_id < engine.edge_schedules@.len() && engine.edge_schedules@[edge_id as int]@.len()
                == 0 ==> r is Err
            &&& edge_id < engine.edge_schedules@.len() && engine.edge_schedules@[edge_id as int]@.len()
                > 0 ==> exists|i: int|
                #![trigger engine.next_on(edge_id as int, i, current)]
                0 <= i < engine.edge_schedules@[edge_id as int]@.len() && {
                    let dep = engine.next_on(edge_id as int, i, current);
                    let route = engine.edge_schedules@[edge_id as int]@[i].0;
                    let wait = dep.src_departure_time.nanos - current.nanos;
                    let travel = dep.dst_arrival_time.nanos - dep.src_departure_time.nanos;
                    let at_infinity = dep.src_departure_time.nanos
                        == crate::temporal::MAX_DATETIME_NANOS || dep.dst_arrival_time.nanos
                        == crate::temporal::MAX_DATETIME_NANOS;
                    &&& forall|j: int|
                        0 <= j < engine.edge_schedules@[edge_id as int]@.len()
                            ==> dep.dst_arrival_time.nanos <= #[trigger] engine.next_on(
                            edge_id as int,
                            j,
                            current,
                        ).dst_arrival_time.nanos
                    &&& forall|j: int|
                        0 <= j < i ==> dep.dst_arrival_time.nanos < #[trigger] engine.next_on(
                            edge_id as int,
                            j,
                            current,
                        ).dst_arrival_time.nanos
                    &&& at_infinity ==> r == Ok::<TraversalUpdate, TransitError>(penalty_update())
                    &&& !at_infinity && wait < 0 ==> r is Err
                    &&& !at_infinity && wait >= 0 && travel < 0 ==> r is Err
                    &&& !at_infinity && wait >= 0 && travel >= 0 ==> r == Ok::<
                        TraversalUpdate,
                        TransitError,
                    >(ride_update(current_route_id, route, wait, travel, record_dwell_time))
                }
        },
{
    let current_datetime = match get_current_time(
        start_datetime,
        trip_seconds,
        trip_nanos,
        trip_time_text,
    ) {
        Ok(c) => c,
        Err(e) => {
            return Err(e);
        },
    };
    let (route, departure) = match engine.get_next_departure(edge_id, &current_datetime) {
        Ok(pair) => pair,
        Err(e) => {
            return Err(e);
        },
    };
    let next = if departure.is_pos_infinity() {
        None
    } else {
        Some((route, departure))
    };
    traversal_update(
        edge_id,
        start_datetime,
        &current_datetime,
        current_route_id,
        next,
        record_dwell_time,
    )
}

} // verus!
