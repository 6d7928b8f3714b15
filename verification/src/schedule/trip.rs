//! The parts of a GTFS trip that schedule preparation reads.
use vstd::prelude::*;

verus! {

/// A stop visit of a trip: the stop and its scheduled times, as seconds after the
/// midnight of the service day (times past midnight exceed one day).
#[derive(Clone, Debug)]
pub struct StopTime {
    pub stop_id: String,
    pub arrival_time: Option<u32>,
    pub departure_time: Option<u32>,
}

/// A trip whose stop times are in visiting order.
#[derive(Clone, Debug)]
pub struct SortedTrip {
    pub trip_id: String,
    pub route_id: String,
    pub service_id: String,
    pub stop_times: Vec<StopTime>,
}

} // verus!
