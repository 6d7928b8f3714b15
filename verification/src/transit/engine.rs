//! The transit traversal engine: per-edge route schedules and the search for the next
//! departure over an edge.
use vstd::prelude::*;

use std::collections::HashMap;

use crate::temporal::{DateTime, MAX_DATETIME_NANOS};
use crate::text::{decimal, push_decimal, push_str, string_of};
use crate::transit::ops::{
    TransitError, apply_date_mapping, date_mapping_wf, mapped_instant, reverse_date_mapping,
    reversed,
};
use crate::transit::schedule::{Departure, Schedule, next_held};

verus! {

/// The departure at positive infinity.
pub open spec fn infinite_departure() -> Departure {
    Departure {
        src_departure_time: DateTime { nanos: MAX_DATETIME_NANOS },
        dst_arrival_time: DateTime { nanos: MAX_DATETIME_NANOS },
    }
}

/// The message of an edge id beyond the engine's edges.
pub open spec fn edge_range_message(edge_id: usize) -> Seq<char> {
    "EdgeId "@ + decimal(edge_id as nat) + " exceeds schedules length"@
}

/// The message of an edge without any route schedule.
pub open spec fn empty_edge_message(edge_id: usize) -> Seq<char> {
    "failed to find next departure: schedules for edge_id "@ + decimal(edge_id as nat)
        + " appear to be empty"@
}

/// Builds the transit traversal model from its configuration.
#[derive(Clone, Copy, Debug)]
pub struct TransitTraversalBuilder {}

/// Schedules of every edge, each edge holding one schedule per route that runs over
/// it, and the date mapping of each route.
pub struct TransitTraversalEngine {
    pub edge_schedules: Vec<Vec<(i64, Schedule)>>,
    pub date_mapping: HashMap<i64, HashMap<i32, i32>>,
}

impl TransitTraversalEngine {
    /// Every schedule is well formed, each edge lists a route at most once, and every
    /// mapped date is representable.
    pub open spec fn wf(&self) -> bool {
        &&& date_mapping_wf(self.date_mapping@)
        &&& forall|e: int, k: int|
            0 <= e < self.edge_schedules@.len() && 0 <= k < self.edge_schedules@[e]@.len()
                ==> #[trigger] self.edge_schedules@[e]@[k].1.wf()
        &&& forall|e: int, k: int, l: int|
            0 <= e < self.edge_schedules@.len() && 0 <= k < l < self.edge_schedules@[e]@.len()
                ==> #[trigger] self.edge_schedules@[e]@[k].0 != #[trigger] self.edge_schedules@[
                e]@[l].0
    }

    /// The next departure of one route, as seen from `current`: the route's schedule
    /// is searched at the mapped instant, and the departure found (or positive
    /// infinity when none is left) is moved back by the mapping's shift.
    pub open spec fn route_next(&self, route: i64, schedule: Schedule, current: DateTime) -> Departure {
        let search = mapped_instant(self.date_mapping@, route, current);
        let found = match next_held(schedule.held(), search) {
            Some(f) => Departure::from_key(f),
            None => infinite_departure(),
        };
        reversed(current.nanos as int, search, found)
    }

    /// The next departure over the `k`-th route schedule of edge `e`.
    pub open spec fn next_on(&self, e: int, k: int, current: DateTime) -> Departure {
        self.route_next(
            self.edge_schedules@[e]@[k].0,
            self.edge_schedules@[e]@[k].1,
            current,
        )
    }

    fn next_for_route(&self, route: i64, schedule: &Schedule, current_datetime: &DateTime) -> (r:
        Departure)
        requires
            date_mapping_wf(self.date_mapping@),
            schedule.wf(),
            current_datetime.wf(),
        ensures
            r == self.route_next(route, *schedule, *current_datetime),
            r.wf(),
    {
        let search_datetime = apply_date_mapping(&self.date_mapping, &route, current_datetime);
        let search_query = Departure::construct_query(search_datetime);
        let next = match schedule.lower_bound(&search_query) {
            Some(d) => d,
            None => Departure::infinity(),
        };
        reverse_date_mapping(current_datetime, &search_datetime, next)
    }

    /// The next departure over an edge: for each route on the edge, its next
    /// departure as seen from `current_datetime`, and of those the one that arrives
    /// first (the earliest listed route among equal arrivals). A route with no
    /// departure left contributes positive infinity.
    ///
    /// Fails when the edge id is beyond the engine's edges or the edge has no route.
    pub fn get_next_departure(&self, edge_id: usize, current_datetime: &DateTime) -> (r: Result<
        (i64, Departure),
        TransitError,
    >)
        requires
            self.wf(),
            current_datetime.wf(),
        ensures
            edge_id >= self.edge_schedules@.len() ==> (r matches Err(
                TransitError::InternalError(m),
            ) && m@ == edge_range_message(edge_id)),
            edge_id < self.edge_schedules@.len() && self.edge_schedules@[edge_id as int]@.len()
                == 0 ==> (r matches Err(TransitError::InternalError(m)) && m@
                == empty_edge_message(edge_id)),
            edge_id < self.edge_schedules@.len() && self.edge_schedules@[edge_id as int]@.len()
                > 0 ==> (r matches Ok((route, dep)) && exists|i: int|
                0 <= i < self.edge_schedules@[edge_id as int]@.len() && {
                    &&& self.edge_schedules@[edge_id as int]@[i].0 == route
                    &&& dep == self.next_on(edge_id as int, i, *current_datetime)
                    &&& forall|j: int|
                        0 <= j < self.edge_schedules@[edge_id as int]@.len()
                            ==> dep.dst_arrival_time.nanos <= #[trigger] self.next_on(
                            edge_id as int,
                            j,
                            *current_datetime,
                        ).dst_arrival_time.nanos
                    &&& forall|j: int|
                        0 <= j < i ==> dep.dst_arrival_time.nanos < #[trigger] self.next_on(
                            edge_id as int,
                            j,
                            *current_datetime,
                        ).dst_arrival_time.nanos
                }),
            r matches Ok((_, dep)) ==> dep.wf(),
    {
        if edge_id >= self.edge_schedules.len() {
            let mut msg: Vec<char> = Vec::new();
            push_str(&mut msg, "EdgeId ");
            push_decimal(&mut msg, edge_id as u64);
            push_str(&mut msg, " exceeds schedules length");
            return Err(TransitError::InternalError(string_of(&msg)));
        }
        let routes = &self.edge_schedules[edge_id];
        if routes.len() == 0 {
            let mut msg: Vec<char> = Vec::new();
            push_str(&mut msg, "failed to find next departure: schedules for edge_id ");
            push_decimal(&mut msg, edge_id as u64);
            push_str(&mut msg, " appear to be empty");
            return Err(TransitError::InternalError(string_of(&msg)));
        }
        let ghost e = edge_id as int;
        let mut best_route: i64 = routes[0].0;
        let mut best: Departure = self.next_for_route(routes[0].0, &routes[0].1, current_datetime);
        let ghost mut best_index: int = 0;
        let mut k: usize = 1;
        while k < routes.len()
            invariant
                self.wf(),
                current_datetime.wf(),
                e == edge_id,
                0 <= e < self.edge_schedules@.len(),
                routes == self.edge_schedules@[e],
                1 <= k <= routes@.len(),
                0 <= best_index < k,
                routes@[best_index].0 == best_route,
                best == self.next_on(e, best_index, *current_datetime),
                best.wf(),
                forall|j: int|
                    0 <= j < k ==> best.dst_arrival_time.nanos <= #[trigger] self.next_on(
                        e,
                        j,
                        *current_datetime,
                    ).dst_arrival_time.nanos,
                forall|j: int|
                    0 <= j < best_index ==> best.dst_arrival_time.nanos < #[trigger] self.next_on(
                        e,
                        j,
                        *current_datetime,
                    ).dst_arrival_time.nanos,
            decreases routes@.len() - k,
        {
            let candidate = self.next_for_route(routes[k].0, &routes[k].1, current_datetime);
            if candidate.dst_arrival_time.nanos < best.dst_arrival_time.nanos {
                best = candidate;
                best_route = routes[k].0;
                proof {
                    best_index = k as int;
                }
            }
            k = k + 1;
        }
        Ok((best_route, best))
    }
}

} // verus!
