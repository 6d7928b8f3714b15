//! Schedule rows and date mappings produced while preparing GTFS schedules.
use vstd::prelude::*;

use crate::schedule::fq_ops::{fq_route_id, get_fully_qualified_route_id, opt_as_str, opt_string_view};
use crate::temporal::{Date, DateTime};

verus! {

/// a row in the schedules CSV file representing, for a given route,
/// the time of departure from some source stop location and arrival at some destination
/// stop location, along some EdgeId in the RouteE Compass Graph. its unique namespace
/// is defined by it's edge_list_id, feed_id, agency_id, service_id and route_id.
#[derive(Debug, Clone)]
pub struct ScheduleRow {
    /// edge in Compass graph this row corresponds to.
    pub edge_id: usize,
    /// the GTFS feed or archive identifier
    pub feed_id: Option<String>,
    /// the unique name of this route within this GTFS Agency
    pub route_id: String,
    /// the unique name of the service schedule attached to this Route.
    pub service_id: String,
    /// the agency providing this route, if listed.
    pub agency_id: Option<String>,
    /// departure time at beginning of this edge.
    pub src_departure_time: DateTime,
    /// arrival time at end of this edge.
    pub dst_arrival_time: DateTime,
}

/// a schedule row written with its fully-qualified route id and edge list id.
#[derive(Debug, Clone)]
pub struct FullyQualifiedScheduleRow {
    pub fully_qualified_id: String,
    /// edge in Compass graph this row corresponds to.
    pub edge_id: usize,
    /// edge list in Compass graph this row corresponds to.
    pub edge_list_id: usize,
    pub feed_id: Option<String>,
    pub route_id: String,
    pub service_id: String,
    pub agency_id: Option<String>,
    pub src_departure_time: DateTime,
    pub dst_arrival_time: DateTime,
}

/// Copies an optional string.
pub fn clone_opt_string(s: &Option<String>) -> (r: Option<String>)
    ensures
        opt_string_view(r) == opt_string_view(*s),
{
    match s {
        Some(v) => Some(v.clone()),
        None => None,
    }
}

impl ScheduleRow {
    pub fn new(
        edge_id: usize,
        feed_id: Option<String>,
        route_id: String,
        service_id: String,
        agency_id: Option<String>,
        src_departure_time: DateTime,
        dst_arrival_time: DateTime,
    ) -> (r: ScheduleRow)
        ensures
            r.edge_id == edge_id,
            r.feed_id == feed_id,
            r.route_id == route_id,
            r.service_id == service_id,
            r.agency_id == agency_id,
            r.src_departure_time == src_departure_time,
            r.dst_arrival_time == dst_arrival_time,
    {
        ScheduleRow {
            edge_id,
            feed_id,
            route_id,
            service_id,
            agency_id,
            src_departure_time,
            dst_arrival_time,
        }
    }

    /// The fully-qualified route id of this row within an edge list.
    pub open spec fn spec_fq_id(self, edge_list_id: nat) -> Seq<char> {
        fq_route_id(
            opt_string_view(self.feed_id),
            opt_string_view(self.agency_id),
            self.route_id@,
            self.service_id@,
            edge_list_id,
        )
    }
}

impl FullyQualifiedScheduleRow {
    /// The row with its fully-qualified id for the given edge list.
    pub fn new(row: &ScheduleRow, edge_list_id: usize) -> (r: FullyQualifiedScheduleRow)
        ensures
            r.fully_qualified_id@ == row.spec_fq_id(edge_list_id as nat),
            r.edge_list_id == edge_list_id,
            r.edge_id == row.edge_id,
            opt_string_view(r.feed_id) == opt_string_view(row.feed_id),
            r.route_id@ == row.route_id@,
            r.service_id@ == row.service_id@,
            opt_string_view(r.agency_id) == opt_string_view(row.agency_id),
            r.src_departure_time == row.src_departure_time,
            r.dst_arrival_time == row.dst_arrival_time,
    {
        let fully_qualified_id = get_fully_qualified_route_id(
            opt_as_str(&row.feed_id),
            opt_as_str(&row.agency_id),
            row.route_id.as_str(),
            row.service_id.as_str(),
            edge_list_id,
        );
        FullyQualifiedScheduleRow {
            fully_qualified_id,
            edge_list_id,
            edge_id: row.edge_id,
            feed_id: clone_opt_string(&row.feed_id),
            route_id: row.route_id.clone(),
            service_id: row.service_id.clone(),
            agency_id: clone_opt_string(&row.agency_id),
            src_departure_time: row.src_departure_time,
            dst_arrival_time: row.dst_arrival_time,
        }
    }
}

/// a record that, for one route and service, a target date was served by a
/// different (picked) date of the archive.
#[derive(Clone, Debug, PartialEq, Eq, Hash)]
pub struct DateMapping {
    pub feed_id: Option<String>,
    pub agency_id: Option<String>,
    pub route_id: String,
    pub service_id: String,
    pub target_date: Date,
    pub picked_date: Date,
}

impl DateMapping {
    /// The fully-qualified route id of this mapping within an edge list.
    pub open spec fn spec_fq_id(self, edge_list_id: nat) -> Seq<char> {
        fq_route_id(
            opt_string_view(self.feed_id),
            opt_string_view(self.agency_id),
            self.route_id@,
            self.service_id@,
            edge_list_id,
        )
    }

    pub fn get_fully_qualified_id(&self, edge_list_id: usize) -> (r: String)
        ensures
            r@ == self.spec_fq_id(edge_list_id as nat),
    {
        get_fully_qualified_route_id(
            opt_as_str(&self.feed_id),
            opt_as_str(&self.agency_id),
            self.route_id.as_str(),
            self.service_id.as_str(),
            edge_list_id,
        )
    }
}

} // verus!
