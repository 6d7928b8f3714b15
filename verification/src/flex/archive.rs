//! Reading the zonal trips of a GTFS-Flex archive for one requested date: the services
//! active on the date, the agency of each route, and one zone record per flex trip.
use vstd::prelude::*;

use crate::flex::relation::{ZoneGeometry, ZoneRecord};
use crate::flex::zone_id::ZoneId;
use crate::flex::feed::Route;
use crate::schedule::calendar::{Calendar, CalendarDate, Exception};
use crate::schedule::outputs::{insert_sorted, strictly_sorted, text_lt, text_set};
use crate::temporal::{Date, Time, parse_outcome, spec_parse_date, weekday_of};
use crate::text::{decimal, push_decimal, push_str, string_of};

verus! {

/// Failures while reading a GTFS-Flex archive.
#[derive(Clone, Debug, PartialEq, Eq)]
pub enum GtfsFlexError {
    /// time values could not be worked with
    Chrono(String),
    /// the archive breaks a model invariant
    Runtime(String),
    /// an internal invariant broke
    Internal(String),
}

impl GtfsFlexError {
    /// The rendered message of this error.
    pub fn message(&self) -> (r: String)
        ensures
            r@ == match *self {
                GtfsFlexError::Chrono(m) => "gtfs flex modeling failed while working with time values due to: "@
                    + m@,
                GtfsFlexError::Runtime(m) =>
                    "gtfs flex modeling failed due to runtime error breaking model invariants: "@ + m@,
                GtfsFlexError::Internal(m) => "gtfs flex modeling failed due to internal error: "@ + m@,
            },
    {
        let mut out: Vec<char> = Vec::new();
        match self {
            GtfsFlexError::Chrono(m) => {
                push_str(&mut out, "gtfs flex modeling failed while working with time values due to: ");
                push_str(&mut out, m.as_str());
            },
            GtfsFlexError::Runtime(m) => {
                push_str(
                    &mut out,
                    "gtfs flex modeling failed due to runtime error breaking model invariants: ",
                );
                push_str(&mut out, m.as_str());
            },
            GtfsFlexError::Internal(m) => {
                push_str(&mut out, "gtfs flex modeling failed due to internal error: ");
                push_str(&mut out, m.as_str());
            },
        }
        string_of(&out)
    }
}

/// Whether a stop time allows pickup or drop off, as GTFS numbers the kinds.
#[derive(Clone, Copy, Debug, PartialEq, Eq, Structural)]
pub enum PickupDropOffType {
    Regular,
    NotAvailable,
    ArrangeByPhone,
    CoordinateWithDriver,
    Unknown(i16),
}

/// A stop time of a flex trip: its pickup and drop off kinds, the id of the zone
/// location it visits, if any, and its pickup/drop-off window in seconds of the day.
#[derive(Clone, Debug)]
pub struct FlexStopTime {
    pub pickup_type: PickupDropOffType,
    pub drop_off_type: PickupDropOffType,
    pub location_id: Option<String>,
    pub start_pickup_drop_off_window: Option<u32>,
    pub end_pickup_drop_off_window: Option<u32>,
}

/// A trip of a flex archive with its stop times in order, and the WKT of its first
/// stop's location geometry (or the message of why it could not be rendered), when
/// that stop has a location.
#[derive(Clone, Debug)]
pub struct FlexTrip {
    pub trip_id: String,
    pub route_id: String,
    pub service_id: String,
    pub stop_times: Vec<FlexStopTime>,
    pub origin_geometry: Option<Result<String, String>>,
}

/// The zone records, zone geometries and zone ids read from flex archives.
#[derive(Debug)]
pub struct GtfsFlexDataset {
    pub records: Vec<ZoneRecord>,
    pub geometries: Vec<ZoneGeometry>,
    pub zone_ids: Vec<ZoneId>,
}

impl GtfsFlexDataset {
    /// An empty dataset.
    pub fn empty() -> (r: GtfsFlexDataset)
        ensures
            r.records@.len() == 0,
            r.geometries@.len() == 0,
            r.zone_ids@.len() == 0,
    {
        GtfsFlexDataset { records: Vec::new(), geometries: Vec::new(), zone_ids: Vec::new() }
    }

    /// Appends the contents of another dataset to this one's.
    pub fn extend(&mut self, rhs: GtfsFlexDataset)
        ensures
            final(self).records@ == old(self).records@ + rhs.records@,
            final(self).geometries@ == old(self).geometries@ + rhs.geometries@,
            final(self).zone_ids@ == old(self).zone_ids@ + rhs.zone_ids@,
    {
        let GtfsFlexDataset { records: mut r, geometries: mut g, zone_ids: mut z } = rhs;
        self.records.append(&mut r);
        self.geometries.append(&mut g);
        self.zone_ids.append(&mut z);
    }
}

/// The pair of stop times of a flex trip: pickup by arrangement at the origin, drop off
/// by arrangement at the destination.
pub open spec fn valid_flex_pair(src: FlexStopTime, dst: FlexStopTime) -> bool {
    &&& src.pickup_type == PickupDropOffType::ArrangeByPhone
    &&& src.drop_off_type == PickupDropOffType::NotAvailable
    &&& dst.pickup_type == PickupDropOffType::NotAvailable
    &&& dst.drop_off_type == PickupDropOffType::ArrangeByPhone
}

/// Whether a pair of stop times forms a flex trip.
pub fn valid_flex_trip_stops(src: &FlexStopTime, dst: &FlexStopTime) -> (r: bool)
    ensures
        r == valid_flex_pair(*src, *dst),
{
    matches!(src.pickup_type, PickupDropOffType::ArrangeByPhone) && matches!(src.drop_off_type, PickupDropOffType::NotAvailable)
        && matches!(dst.pickup_type, PickupDropOffType::NotAvailable) && matches!(dst.drop_off_type, PickupDropOffType::ArrangeByPhone)
}

/// The calendar entry runs its service on the day.
pub open spec fn calendar_active(c: Calendar, days: int) -> bool {
    c.spec_runs_on(weekday_of(days)) && c.start_date.days <= days <= c.end_date.days
}

/// Some calendar entry for the service runs on the day.
pub open spec fn calendar_lists_active(cals: Seq<Calendar>, service_id: Seq<char>, days: int) -> bool {
    exists|i: int| 0 <= i < cals.len() && #[trigger] cals[i].id@ == service_id && calendar_active(cals[i], days)
}

/// A calendar_dates entry of the service on the day has the given exception type.
pub open spec fn service_exception(cds: Seq<CalendarDate>, service_id: Seq<char>, days: int, kind: Exception) -> bool {
    exists|i: int|
        0 <= i < cds.len() && #[trigger] cds[i].service_id@ == service_id && cds[i].date.days == days
            && cds[i].exception_type == kind
}

/// The service runs on the day, calendar.txt and calendar_dates.txt joined: a calendar
/// entry runs it and no exception removes it that day, or an exception adds it.
pub open spec fn service_active(cals: Seq<Calendar>, cds: Seq<CalendarDate>, service_id: Seq<char>, days: int) -> bool {
    ||| (calendar_lists_active(cals, service_id, days) && !service_exception(cds, service_id, days, Exception::Deleted))
    ||| service_exception(cds, service_id, days, Exception::Added)
}

/// Whether a calendar_dates entry of the service on the day has the exception type.
fn has_service_exception(cds: &Vec<CalendarDate>, service_id: &str, date: &Date, kind: Exception) -> (r: bool)
    ensures
        r == service_exception(cds@, service_id@, date.days as int, kind),
{
    let mut i: usize = 0;
    while i < cds.len()
        invariant
            i <= cds@.len(),
            forall|j: int|
                0 <= j < i ==> !(#[trigger] cds@[j].service_id@ == service_id@ && cds@[j].date.days == date.days
                    && cds@[j].exception_type == kind),
        decreases cds@.len() - i,
    {
        let e = &cds[i];
        if crate::schedule::metadata::str_eq(e.service_id.as_str(), service_id) && e.date.days == date.days
            && e.exception_type == kind {
            return true;
        }
        i = i + 1;
    }
    false
}

/// Whether a service runs on the day.
fn is_service_active(cals: &Vec<Calendar>, cds: &Vec<CalendarDate>, service_id: &str, date: &Date) -> (r: bool)
    requires
        date.wf(),
        forall|i: int| 0 <= i < cals@.len() ==> (#[trigger] cals@[i]).wf(),
    ensures
        r == service_active(cals@, cds@, service_id@, date.days as int),
{
    if has_service_exception(cds, service_id, date, Exception::Added) {
        return true;
    }
    if has_service_exception(cds, service_id, date, Exception::Deleted) {
        return false;
    }
    calendar_lists_day(cals, service_id, date)
}

/// Whether a calendar entry of the service runs it on the day.
fn calendar_lists_day(cals: &Vec<Calendar>, service_id: &str, date: &Date) -> (r: bool)
    requires
        date.wf(),
        forall|i: int| 0 <= i < cals@.len() ==> (#[trigger] cals@[i]).wf(),
    ensures
        r == calendar_lists_active(cals@, service_id@, date.days as int),
{
    let weekday = date.weekday();
    let mut i: usize = 0;
    while i < cals.len()
        invariant
            i <= cals@.len(),
            weekday == weekday_of(date.days as int),
            forall|j: int| 0 <= j < i ==> !(#[trigger] cals@[j].id@ == service_id@ && calendar_active(cals@[j], date.days as int)),
        decreases cals@.len() - i,
    {
        let c = &cals[i];
        if crate::schedule::metadata::str_eq(c.id.as_str(), service_id) && c.runs_on(weekday) && c.start_date.days
            <= date.days && date.days <= c.end_date.days {
            return true;
        }
        i = i + 1;
    }
    false
}

/// The agency of archive `idx` that stands in for a route listing none.
pub open spec fn default_agency(idx: nat) -> Seq<char> {
    "archive"@ + decimal(idx)
}

fn default_agency_exec(idx: usize) -> (r: String)
    ensures
        r@ == default_agency(idx as nat),
{
    let mut out: Vec<char> = Vec::new();
    push_str(&mut out, "archive");
    push_decimal(&mut out, idx as u64);
    proof {
        reveal_strlit("archive");
    }
    string_of(&out)
}

/// The agency a route resolves to: its own, or the archive's stand-in.
pub open spec fn route_agency(r: Route, idx: nat) -> Seq<char> {
    match r.agency_id {
        Some(a) => a@,
        None => default_agency(idx),
    }
}

/// The agency of the first route with the id, if any route has it.
pub open spec fn first_route_agency(routes: Seq<Route>, route_id: Seq<char>, idx: nat) -> Option<Seq<char>>
    decreases routes.len(),
{
    if routes.len() == 0 {
        None
    } else if routes[0].route_id@ == route_id {
        Some(route_agency(routes[0], idx))
    } else {
        first_route_agency(routes.drop_first(), route_id, idx)
    }
}

/// The agency of the first route with the id.
fn find_route_agency(routes: &Vec<Route>, route_id: &str, idx: usize) -> (r: Option<String>)
    ensures
        match r {
            Some(a) => first_route_agency(routes@, route_id@, idx as nat) == Some(a@),
            None => first_route_agency(routes@, route_id@, idx as nat) is None,
        },
{
    proof {
        assert(routes@.skip(0) =~= routes@);
    }
    let mut i: usize = 0;
    while i < routes.len()
        invariant
            i <= routes@.len(),
            first_route_agency(routes@, route_id@, idx as nat) == first_route_agency(
                routes@.skip(i as int),
                route_id@,
                idx as nat,
            ),
        decreases routes@.len() - i,
    {
        proof {
            assert(routes@.skip(i as int).drop_first() =~= routes@.skip(i + 1));
            assert(routes@.skip(i as int)[0] == routes@[i as int]);
        }
        if crate::schedule::metadata::str_eq(routes[i].route_id.as_str(), route_id) {
            return match &routes[i].agency_id {
                Some(a) => Some(a.clone()),
                None => Some(default_agency_exec(idx)),
            };
        }
        i = i + 1;
    }
    None
}

/// An error as plain values.
pub enum FlexErrorView {
    Chrono(Seq<char>),
    Runtime(Seq<char>),
    Internal(Seq<char>),
}

pub open spec fn flex_error_view(e: GtfsFlexError) -> FlexErrorView {
    match e {
        GtfsFlexError::Chrono(m) => FlexErrorView::Chrono(m@),
        GtfsFlexError::Runtime(m) => FlexErrorView::Runtime(m@),
        GtfsFlexError::Internal(m) => FlexErrorView::Internal(m@),
    }
}

/// A zone record as plain values.
pub struct RecordView {
    pub agency_id: Seq<char>,
    pub feed: Seq<char>,
    pub requested_date: Seq<char>,
    pub trip_id: Seq<char>,
    pub origin_zone: Seq<char>,
    pub start_window: Option<Time>,
    pub end_window: Option<Time>,
    pub destination_zone: Seq<char>,
}

pub open spec fn record_view(r: ZoneRecord) -> RecordView {
    RecordView {
        agency_id: r.agency_id@,
        feed: r.feed@,
        requested_date: r.requested_date@,
        trip_id: r.trip_id@,
        origin_zone: r.origin_zone@,
        start_window: r.start_pickup_drop_off_window,
        end_window: r.end_pickup_drop_off_window,
        destination_zone: r.destination_zone@,
    }
}

/// The time of day a window bound in seconds stands for; none past the day.
pub open spec fn window_time(s: Option<u32>) -> Option<Time> {
    match s {
        Some(v) => if v < 86_400 {
            Some(Time { secs: v, frac: 0 })
        } else {
            None
        },
        None => None,
    }
}

/// The trip is a flex trip of a service active on the day: two stop times, pickup by
/// arrangement at the first and drop off by arrangement at the second.
pub open spec fn flex_selected(cals: Seq<Calendar>, cds: Seq<CalendarDate>, t: FlexTrip, days: int) -> bool {
    &&& service_active(cals, cds, t.service_id@, days)
    &&& t.stop_times@.len() == 2
    &&& valid_flex_pair(t.stop_times@[0], t.stop_times@[1])
}

/// A trip's first stop, when it has a location, comes with that location's geometry.
pub open spec fn flex_trip_wf(t: FlexTrip) -> bool {
    t.stop_times@.len() > 0 && t.stop_times@[0].location_id is Some ==> t.origin_geometry is Some
}

pub open spec fn location_message(trip_id: Seq<char>, src: bool, dst: bool) -> Seq<char> {
    if !src && dst {
        "GTFS-Flex Trip "@ + trip_id + " has origin StopTime that is missing a 'location' entry"@
    } else if src && !dst {
        "GTFS-Flex Trip "@ + trip_id + " has destination StopTime that is missing a 'location' entry"@
    } else {
        "GTFS-Flex Trip "@ + trip_id + " has two StopTimes, both missing a 'location' entry"@
    }
}

pub open spec fn no_agency_message(trip_id: Seq<char>) -> Seq<char> {
    "after ensuring bijection from routes to agencies, found trip "@ + trip_id + " had no agency"@
}

/// The zone id of a location visited by a trip.
pub open spec fn zone_of(agency: Seq<char>, t: FlexTrip, location: Seq<char>) -> Seq<char> {
    agency + "-"@ + t.route_id@ + "-"@ + t.trip_id@ + "-"@ + location
}

/// What reading one selected trip gives: its zone record and its origin zone's
/// geometry, or the error it raises.
pub open spec fn flex_trip_outcome(
    routes: Seq<Route>,
    idx: nat,
    feed: Seq<char>,
    date_text: Seq<char>,
    t: FlexTrip,
) -> Result<(RecordView, (Seq<char>, Seq<char>)), FlexErrorView> {
    let src = t.stop_times@[0];
    let dst = t.stop_times@[1];
    match first_route_agency(routes, t.route_id@, idx) {
        None => Err(FlexErrorView::Internal(no_agency_message(t.trip_id@))),
        Some(agency) => if src.location_id is None || dst.location_id is None {
            Err(
                FlexErrorView::Runtime(
                    location_message(t.trip_id@, src.location_id is Some, dst.location_id is Some),
                ),
            )
        } else {
            let origin = zone_of(agency, t, src.location_id->Some_0@);
            let destination = zone_of(agency, t, dst.location_id->Some_0@);
            match t.origin_geometry {
                Some(Ok(wkt)) => Ok(
                    (
                        RecordView {
                            agency_id: agency,
                            feed,
                            requested_date: date_text,
                            trip_id: t.trip_id@,
                            origin_zone: origin,
                            start_window: window_time(src.start_pickup_drop_off_window),
                            end_window: window_time(dst.end_pickup_drop_off_window),
                            destination_zone: destination,
                        },
                        (origin, wkt@),
                    ),
                ),
                Some(Err(m)) => Err(FlexErrorView::Runtime(m@)),
                None => Err(FlexErrorView::Runtime(Seq::empty())),
            }
        },
    }
}

/// What reading the trips of an archive gives: the records and origin geometries of
/// the selected trips in order, or the first error a selected trip raises.
pub open spec fn flex_archive_outcome(
    cals: Seq<Calendar>,
    cds: Seq<CalendarDate>,
    routes: Seq<Route>,
    idx: nat,
    feed: Seq<char>,
    date_text: Seq<char>,
    days: int,
    trips: Seq<FlexTrip>,
) -> Result<Seq<(RecordView, (Seq<char>, Seq<char>))>, FlexErrorView>
    decreases trips.len(),
{
    if trips.len() == 0 {
        Ok(Seq::empty())
    } else {
        match flex_archive_outcome(cals, cds, routes, idx, feed, date_text, days, trips.drop_last()) {
            Err(e) => Err(e),
            Ok(rs) => if flex_selected(cals, cds, trips.last(), days) {
                match flex_trip_outcome(routes, idx, feed, date_text, trips.last()) {
                    Ok(x) => Ok(rs.push(x)),
                    Err(e) => Err(e),
                }
            } else {
                Ok(rs)
            },
        }
    }
}

/// The zone ids of records: the origin and the destination of each.
pub open spec fn record_zone_ids(rs: Seq<(RecordView, (Seq<char>, Seq<char>))>) -> Set<Seq<char>> {
    Set::new(
        |z: Seq<char>|
            exists|i: int|
                0 <= i < rs.len() && (#[trigger] rs[i].0.origin_zone == z || rs[i].0.destination_zone == z),
    )
}

/// Reads one selected trip as [`flex_trip_outcome`] says.
fn read_flex_trip(
    routes: &Vec<Route>,
    archive_idx: usize,
    feed_name: &str,
    date_requested: &str,
    t: &FlexTrip,
) -> (r: Result<(ZoneRecord, ZoneGeometry), GtfsFlexError>)
    requires
        t.stop_times@.len() == 2,
        flex_trip_wf(*t),
    ensures
        match flex_trip_outcome(routes@, archive_idx as nat, feed_name@, date_requested@, *t) {
            Ok(x) => r matches Ok((rec, geo)) && record_view(rec) == x.0 && geo.zone_id@ == x.1.0
                && geo.geometry@ == x.1.1,
            Err(e) => r matches Err(err) && flex_error_view(err) == e,
        },
{
    let src = &t.stop_times[0];
    let dst = &t.stop_times[1];
    let agency = match find_route_agency(routes, t.route_id.as_str(), archive_idx) {
        Some(a) => a,
        None => {
            let mut out: Vec<char> = Vec::new();
            push_str(&mut out, "after ensuring bijection from routes to agencies, found trip ");
            push_str(&mut out, t.trip_id.as_str());
            push_str(&mut out, " had no agency");
            return Err(GtfsFlexError::Internal(string_of(&out)));
        },
    };
    let (src_loc, dst_loc) = match (&src.location_id, &dst.location_id) {
        (Some(s), Some(d)) => (s, d),
        (None, Some(_)) => {
            let mut out: Vec<char> = Vec::new();
            push_str(&mut out, "GTFS-Flex Trip ");
            push_str(&mut out, t.trip_id.as_str());
            push_str(&mut out, " has origin StopTime that is missing a 'location' entry");
            return Err(GtfsFlexError::Runtime(string_of(&out)));
        },
        (Some(_), None) => {
            let mut out: Vec<char> = Vec::new();
            push_str(&mut out, "GTFS-Flex Trip ");
            push_str(&mut out, t.trip_id.as_str());
            push_str(&mut out, " has destination StopTime that is missing a 'location' entry");
            return Err(GtfsFlexError::Runtime(string_of(&out)));
        },
        (None, None) => {
            let mut out: Vec<char> = Vec::new();
            push_str(&mut out, "GTFS-Flex Trip ");
            push_str(&mut out, t.trip_id.as_str());
            push_str(&mut out, " has two StopTimes, both missing a 'location' entry");
            return Err(GtfsFlexError::Runtime(string_of(&out)));
        },
    };
    let origin = ZoneId::from_full_namespace(agency.as_str(), t.route_id.as_str(), t.trip_id.as_str(), src_loc.as_str());
    let destination = ZoneId::from_full_namespace(agency.as_str(), t.route_id.as_str(), t.trip_id.as_str(), dst_loc.as_str());
    let start = match src.start_pickup_drop_off_window {
        Some(s) => Time::from_num_seconds_from_midnight_opt(s),
        None => None,
    };
    let end = match dst.end_pickup_drop_off_window {
        Some(s) => Time::from_num_seconds_from_midnight_opt(s),
        None => None,
    };
    let wkt = match &t.origin_geometry {
        Some(Ok(w)) => w.clone(),
        Some(Err(m)) => return Err(GtfsFlexError::Runtime(m.clone())),
        None => return Err(GtfsFlexError::Runtime(String::new())),
    };
    let record = ZoneRecord {
        agency_id: agency,
        feed: feed_name.to_string(),
        requested_date: date_requested.to_string(),
        trip_id: t.trip_id.clone(),
        origin_zone: origin.duplicate(),
        start_pickup_drop_off_window: start,
        end_pickup_drop_off_window: end,
        destination_zone: destination,
    };
    Ok((record, ZoneGeometry { zone_id: origin, geometry: wkt }))
}

/// An error met among the first trips is what reading all of them gives.
proof fn lemma_outcome_error_stays(
    cals: Seq<Calendar>,
    cds: Seq<CalendarDate>,
    routes: Seq<Route>,
    idx: nat,
    feed: Seq<char>,
    date_text: Seq<char>,
    days: int,
    trips: Seq<FlexTrip>,
    k: int,
)
    requires
        0 <= k <= trips.len(),
        flex_archive_outcome(cals, cds, routes, idx, feed, date_text, days, trips.take(k)) is Err,
    ensures
        flex_archive_outcome(cals, cds, routes, idx, feed, date_text, days, trips) == flex_archive_outcome(
            cals,
            cds,
            routes,
            idx,
            feed,
            date_text,
            days,
            trips.take(k),
        ),
    decreases trips.len() - k,
{
    if k < trips.len() {
        assert(trips.take(k + 1).drop_last() =~= trips.take(k));
        lemma_outcome_error_stays(cals, cds, routes, idx, feed, date_text, days, trips, k + 1);
    } else {
        assert(trips.take(k) =~= trips);
    }
}

pub open spec fn zone_texts(v: Seq<ZoneId>) -> Seq<Seq<char>> {
    v.map_values(|z: ZoneId| z@)
}

pub open spec fn record_views(v: Seq<ZoneRecord>) -> Seq<RecordView> {
    v.map_values(|r: ZoneRecord| record_view(r))
}

pub open spec fn geometry_views(v: Seq<ZoneGeometry>) -> Seq<(Seq<char>, Seq<char>)> {
    v.map_values(|g: ZoneGeometry| (g.zone_id@, g.geometry@))
}

/// The dataset holds the records and geometries of an outcome, and its zone ids are
/// those of the records, once each, in ascending order.
pub open spec fn dataset_of(ds: GtfsFlexDataset, rs: Seq<(RecordView, (Seq<char>, Seq<char>))>) -> bool {
    &&& record_views(ds.records@) == rs.map_values(|x: (RecordView, (Seq<char>, Seq<char>))| x.0)
    &&& geometry_views(ds.geometries@) == rs.map_values(|x: (RecordView, (Seq<char>, Seq<char>))| x.1)
    &&& forall|i: int, j: int|
        0 <= i < j < ds.zone_ids@.len() ==> text_lt(#[trigger] ds.zone_ids@[i]@, #[trigger] ds.zone_ids@[j]@)
    &&& forall|z: Seq<char>|
        #[trigger] record_zone_ids(rs).contains(z) <==> exists|i: int|
            0 <= i < ds.zone_ids@.len() && #[trigger] ds.zone_ids@[i]@ == z
}

pub open spec fn invalid_date_message(m: Seq<char>) -> Seq<char> {
    "user date request is invalid: "@ + m
}

/// Reads the zonal trips of a flex archive for a requested date (`%Y%m%d`): for each
/// trip of a service active on the date ([`service_active`]: calendar.txt and
/// calendar_dates.txt joined) that is a flex trip, a zone record between
/// its origin and destination zones, named by agency, route, trip and location, and
/// the geometry of its origin zone; and the zone ids of all records, in ascending
/// order. Reading stops at the first trip that lacks an agency, a location or a
/// geometry.
pub fn process_archive(
    date_requested: &str,
    feed_name: &str,
    archive_idx: usize,
    calendars: &Vec<Calendar>,
    calendar_dates: &Vec<CalendarDate>,
    routes: &Vec<Route>,
    trips: &Vec<FlexTrip>,
) -> (r: Result<GtfsFlexDataset, GtfsFlexError>)
    requires
        forall|i: int| 0 <= i < calendars@.len() ==> (#[trigger] calendars@[i]).wf(),
        forall|i: int| 0 <= i < trips@.len() ==> flex_trip_wf(#[trigger] trips@[i]),
    ensures
        spec_parse_date(date_requested@, "%Y%m%d"@) matches Err(m) ==> (r matches Err(e) && flex_error_view(e)
            == FlexErrorView::Runtime(invalid_date_message(m))),
        spec_parse_date(date_requested@, "%Y%m%d"@) matches Ok(d) ==> match flex_archive_outcome(
            calendars@,
            calendar_dates@,
            routes@,
            archive_idx as nat,
            feed_name@,
            date_requested@,
            d.days as int,
            trips@,
        ) {
            Ok(rs) => r matches Ok(ds) && dataset_of(ds, rs),
            Err(e) => r matches Err(err) && flex_error_view(err) == e,
        },
{
    let date = match Date::parse(date_requested, "%Y%m%d") {
        Ok(d) => d,
        Err(e) => {
            let mut out: Vec<char> = Vec::new();
            push_str(&mut out, "user date request is invalid: ");
            push_str(&mut out, e.as_str());
            return Err(GtfsFlexError::Runtime(string_of(&out)));
        },
    };
    let ghost days = date.days as int;
    let mut records: Vec<ZoneRecord> = Vec::new();
    let mut geometries: Vec<ZoneGeometry> = Vec::new();
    let mut zone_texts_sorted: Vec<String> = Vec::new();
    proof {
        assert(trips@.take(0) =~= Seq::<FlexTrip>::empty());
        assert(record_views(records@) =~= Seq::<(RecordView, (Seq<char>, Seq<char>))>::empty().map_values(
            |x: (RecordView, (Seq<char>, Seq<char>))| x.0,
        ));
        assert(geometry_views(geometries@) =~= Seq::<(RecordView, (Seq<char>, Seq<char>))>::empty().map_values(
            |x: (RecordView, (Seq<char>, Seq<char>))| x.1,
        ));
        assert(text_set(zone_texts_sorted@) =~= record_zone_ids(Seq::empty()));
    }
    let mut k: usize = 0;
    while k < trips.len()
        invariant
            k <= trips@.len(),
            date.wf(),
            days == date.days,
            spec_parse_date(date_requested@, "%Y%m%d"@) == Ok::<Date, Seq<char>>(date),
            forall|i: int| 0 <= i < calendars@.len() ==> (#[trigger] calendars@[i]).wf(),
            forall|i: int| 0 <= i < trips@.len() ==> flex_trip_wf(#[trigger] trips@[i]),
            flex_archive_outcome(calendars@, calendar_dates@, routes@, archive_idx as nat, feed_name@, date_requested@, days, trips@.take(k as int)) is Ok,
            record_views(records@) == flex_archive_outcome(calendars@, calendar_dates@, routes@, archive_idx as nat, feed_name@, date_requested@, days, trips@.take(k as int))->Ok_0.map_values(
                |x: (RecordView, (Seq<char>, Seq<char>))| x.0,
            ),
            geometry_views(geometries@) == flex_archive_outcome(calendars@, calendar_dates@, routes@, archive_idx as nat, feed_name@, date_requested@, days, trips@.take(k as int))->Ok_0.map_values(
                |x: (RecordView, (Seq<char>, Seq<char>))| x.1,
            ),
            strictly_sorted(zone_texts_sorted@),
            text_set(zone_texts_sorted@) == record_zone_ids(flex_archive_outcome(calendars@, calendar_dates@, routes@, archive_idx as nat, feed_name@, date_requested@, days, trips@.take(k as int))->Ok_0),
        decreases trips@.len() - k,
    {
        let t = &trips[k];
        proof {
            assert(trips@.take(k + 1).drop_last() =~= trips@.take(k as int));
            assert(trips@.take(k + 1).last() == trips@[k as int]);
        }
        let rs_before = Ghost(flex_archive_outcome(calendars@, calendar_dates@, routes@, archive_idx as nat, feed_name@, date_requested@, days, trips@.take(k as int))->Ok_0);
        if is_service_active(calendars, calendar_dates, t.service_id.as_str(), &date) && t.stop_times.len() == 2
            && valid_flex_trip_stops(&t.stop_times[0], &t.stop_times[1]) {
            match read_flex_trip(routes, archive_idx, feed_name, date_requested, t) {
                Ok((record, geometry)) => {
                    let ghost x = (record_view(record), (geometry.zone_id@, geometry.geometry@));
                    let origin = record.origin_zone.to_string();
                    let destination = record.destination_zone.to_string();
                    let ghost before_texts = zone_texts_sorted@;
                    let ghost old_records = records@;
                    let ghost old_geometries = geometries@;
                    let _ = insert_sorted(&mut zone_texts_sorted, origin);
                    let _ = insert_sorted(&mut zone_texts_sorted, destination);
                    records.push(record);
                    geometries.push(geometry);
                    proof {
                        let rs = rs_before@;
                        assert(flex_selected(calendars@, calendar_dates@, *t, days));
                        assert(flex_trip_outcome(routes@, archive_idx as nat, feed_name@, date_requested@, *t) == Ok::<
                            (RecordView, (Seq<char>, Seq<char>)),
                            FlexErrorView,
                        >(x));
                        let p = trips@.take(k + 1);
                        assert(p.drop_last() =~= trips@.take(k as int));
                        assert(p.last() == *t);
                        assert(flex_archive_outcome(calendars@, calendar_dates@, routes@, archive_idx as nat, feed_name@, date_requested@, days, p.drop_last()) == Ok::<Seq<(RecordView, (Seq<char>, Seq<char>))>, FlexErrorView>(rs));
                        assert(flex_archive_outcome(calendars@, calendar_dates@, routes@, archive_idx as nat, feed_name@, date_requested@, days, p) == Ok::<Seq<(RecordView, (Seq<char>, Seq<char>))>, FlexErrorView>(rs.push(x)));
                        assert(flex_archive_outcome(calendars@, calendar_dates@, routes@, archive_idx as nat, feed_name@, date_requested@, days, trips@.take(k + 1)) == Ok::<Seq<(RecordView, (Seq<char>, Seq<char>))>, FlexErrorView>(rs.push(x)));
                        assert(record_views(records@) =~= record_views(old_records).push(x.0));
                        assert(geometry_views(geometries@) =~= geometry_views(old_geometries).push(x.1));
                        assert(record_views(records@) =~= rs.push(x).map_values(
                            |x: (RecordView, (Seq<char>, Seq<char>))| x.0,
                        ));
                        assert(geometry_views(geometries@) =~= rs.push(x).map_values(
                            |x: (RecordView, (Seq<char>, Seq<char>))| x.1,
                        ));
                        assert(text_set(zone_texts_sorted@) =~= record_zone_ids(rs.push(x))) by {
                            assert forall|z: Seq<char>| record_zone_ids(rs.push(x)).contains(z) <==> (
                            record_zone_ids(rs).contains(z) || z == x.0.origin_zone || z
                                == x.0.destination_zone) by {
                                if record_zone_ids(rs.push(x)).contains(z) {
                                    let i = choose|i: int|
                                        0 <= i < rs.push(x).len() && (#[trigger] rs.push(x)[i].0.origin_zone
                                            == z || rs.push(x)[i].0.destination_zone == z);
                                    if i < rs.len() {
                                        assert(rs.push(x)[i] == rs[i]);
                                        assert(rs[i].0.origin_zone == z || rs[i].0.destination_zone == z);
                                    }
                                }
                                if record_zone_ids(rs).contains(z) {
                                    let i = choose|i: int|
                                        0 <= i < rs.len() && (#[trigger] rs[i].0.origin_zone == z
                                            || rs[i].0.destination_zone == z);
                                    assert(rs.push(x)[i] == rs[i]);
                                    assert(rs.push(x)[i].0.origin_zone == z || rs.push(x)[i].0.destination_zone == z);
                                }
                                if z == x.0.origin_zone || z == x.0.destination_zone {
                                    assert(rs.push(x)[rs.len() as int] == x);
                                    assert(rs.push(x)[rs.len() as int].0.origin_zone == z || rs.push(x)[rs.len() as int].0.destination_zone == z);
                                }
                            }
                        }
                    }
                },
                Err(e) => {
                    proof {
                        let p = trips@.take(k + 1);
                        assert(p.drop_last() =~= trips@.take(k as int));
                        assert(p.last() == *t);
                        assert(flex_selected(calendars@, calendar_dates@, *t, days));
                        assert(flex_archive_outcome(calendars@, calendar_dates@, routes@, archive_idx as nat, feed_name@, date_requested@, days, p) == Err::<Seq<(RecordView, (Seq<char>, Seq<char>))>, FlexErrorView>(flex_error_view(e)));
                        lemma_outcome_error_stays(
                            calendars@,
                            calendar_dates@,
                            routes@,
                            archive_idx as nat,
                            feed_name@,
                            date_requested@,
                            days,
                            trips@,
                            k + 1,
                        );
                    }
                    return Err(e);
                },
            }
        } else {
            proof {
                assert(flex_archive_outcome(calendars@, calendar_dates@, routes@, archive_idx as nat, feed_name@, date_requested@, days, trips@.take(k + 1)) == flex_archive_outcome(calendars@, calendar_dates@, routes@, archive_idx as nat, feed_name@, date_requested@, days, trips@.take(k as int)));
            }
        }
        k = k + 1;
    }
    proof {
        assert(trips@.take(k as int) =~= trips@);
    }
    let mut zone_ids: Vec<ZoneId> = Vec::new();
    let mut i: usize = 0;
    while i < zone_texts_sorted.len()
        invariant
            i <= zone_texts_sorted@.len(),
            zone_ids@.len() == i,
            forall|t: int| 0 <= t < i ==> (#[trigger] zone_ids@[t])@ == zone_texts_sorted@[t]@,
        decreases zone_texts_sorted@.len() - i,
    {
        zone_ids.push(ZoneId::from_known(zone_texts_sorted[i].clone()));
        i = i + 1;
    }
    let ds = GtfsFlexDataset { records, geometries, zone_ids };
    proof {
        assert forall|a: int, b: int| 0 <= a < b < ds.zone_ids@.len() implies text_lt(
            #[trigger] ds.zone_ids@[a]@,
            #[trigger] ds.zone_ids@[b]@,
        ) by {
            assert(text_lt(zone_texts_sorted@[a]@, zone_texts_sorted@[b]@));
        }
        let rs = flex_archive_outcome(calendars@, calendar_dates@, routes@, archive_idx as nat, feed_name@, date_requested@, days, trips@.take(k as int))->Ok_0;
        assert forall|z: Seq<char>| #[trigger] record_zone_ids(rs).contains(z) <==> exists|t: int|
            0 <= t < ds.zone_ids@.len() && #[trigger] ds.zone_ids@[t]@ == z by {
            if record_zone_ids(rs).contains(z) {
                assert(text_set(zone_texts_sorted@).contains(z));
                let t = choose|t: int| 0 <= t < zone_texts_sorted@.len() && #[trigger] zone_texts_sorted@[t]@ == z;
                assert(ds.zone_ids@[t]@ == z);
            }
            if exists|t: int| 0 <= t < ds.zone_ids@.len() && #[trigger] ds.zone_ids@[t]@ == z {
                let t = choose|t: int| 0 <= t < ds.zone_ids@.len() && #[trigger] ds.zone_ids@[t]@ == z;
                assert(zone_texts_sorted@[t]@ == z);
                assert(text_set(zone_texts_sorted@).contains(z));
            }
        }
    }
    Ok(ds)
}

/// The agency of the last route with the id, if any route has it.
pub open spec fn last_route_agency(routes: Seq<Route>, route_id: Seq<char>, idx: nat) -> Option<Seq<char>>
    decreases routes.len(),
{
    if routes.len() == 0 {
        None
    } else if routes.last().route_id@ == route_id {
        Some(route_agency(routes.last(), idx))
    } else {
        last_route_agency(routes.drop_last(), route_id, idx)
    }
}

/// The agency of the last route with the id.
fn find_last_route_agency(routes: &Vec<Route>, route_id: &str, idx: usize) -> (r: Option<String>)
    ensures
        match r {
            Some(a) => last_route_agency(routes@, route_id@, idx as nat) == Some(a@),
            None => last_route_agency(routes@, route_id@, idx as nat) is None,
        },
{
    proof {
        assert(routes@.take(routes@.len() as int) =~= routes@);
    }
    let mut i: usize = routes.len();
    while i > 0
        invariant
            i <= routes@.len(),
            last_route_agency(routes@, route_id@, idx as nat) == last_route_agency(
                routes@.take(i as int),
                route_id@,
                idx as nat,
            ),
        decreases i,
    {
        proof {
            assert(routes@.take(i as int).drop_last() =~= routes@.take(i - 1));
            assert(routes@.take(i as int).last() == routes@[i - 1]);
        }
        if crate::schedule::metadata::str_eq(routes[i - 1].route_id.as_str(), route_id) {
            return match &routes[i - 1].agency_id {
                Some(a) => Some(a.clone()),
                None => Some(default_agency_exec(idx)),
            };
        }
        i = i - 1;
    }
    proof {
        assert(routes@.take(0) =~= Seq::<Route>::empty());
    }
    None
}

/// A valid origin-destination zone pair for a trip.
#[derive(Clone, Debug)]
pub struct ValidZone {
    pub agency_id: Option<String>,
    pub feed: String,
    pub requested_date: String,
    pub trip_id: String,
    pub origin_zone: String,
    pub start_pickup_drop_off_window: Option<Time>,
    pub end_pickup_drop_off_window: Option<Time>,
    pub destination_zone: String,
}

/// A valid zone pair as plain values.
pub struct ValidZoneView {
    pub agency_id: Option<Seq<char>>,
    pub feed: Seq<char>,
    pub requested_date: Seq<char>,
    pub trip_id: Seq<char>,
    pub origin_zone: Seq<char>,
    pub start_window: Option<Time>,
    pub end_window: Option<Time>,
    pub destination_zone: Seq<char>,
}

pub open spec fn valid_zone_view(z: ValidZone) -> ValidZoneView {
    ValidZoneView {
        agency_id: match z.agency_id {
            Some(a) => Some(a@),
            None => None,
        },
        feed: z.feed@,
        requested_date: z.requested_date@,
        trip_id: z.trip_id@,
        origin_zone: z.origin_zone@,
        start_window: z.start_pickup_drop_off_window,
        end_window: z.end_pickup_drop_off_window,
        destination_zone: z.destination_zone@,
    }
}

/// The zone pairs of the flex trips of services active on the day whose two stops
/// both have a location, in order; trips missing a location are passed over.
pub open spec fn joined_zones(
    cals: Seq<Calendar>,
    cds: Seq<CalendarDate>,
    routes: Seq<Route>,
    idx: nat,
    feed: Seq<char>,
    date_text: Seq<char>,
    days: int,
    trips: Seq<FlexTrip>,
) -> Seq<ValidZoneView>
    decreases trips.len(),
{
    if trips.len() == 0 {
        Seq::empty()
    } else {
        let rest = joined_zones(cals, cds, routes, idx, feed, date_text, days, trips.drop_last());
        let t = trips.last();
        if flex_selected(cals, cds, t, days) && t.stop_times@[0].location_id is Some
            && t.stop_times@[1].location_id is Some {
            rest.push(
                ValidZoneView {
                    agency_id: last_route_agency(routes, t.route_id@, idx),
                    feed,
                    requested_date: date_text,
                    trip_id: t.trip_id@,
                    origin_zone: t.stop_times@[0].location_id->Some_0@,
                    start_window: window_time(t.stop_times@[0].start_pickup_drop_off_window),
                    end_window: window_time(t.stop_times@[1].end_pickup_drop_off_window),
                    destination_zone: t.stop_times@[1].location_id->Some_0@,
                },
            )
        } else {
            rest
        }
    }
}

/// Joins the calendar, calendar dates, routes, trips and stop times of a flex archive for a requested
/// date (`%Y%m%d`) into the valid zone pairs of its flex trips, as [`joined_zones`]
/// says.
pub fn join_flex_files(
    date_requested: &str,
    feed_name: &str,
    archive_idx: usize,
    calendars: &Vec<Calendar>,
    calendar_dates: &Vec<CalendarDate>,
    routes: &Vec<Route>,
    trips: &Vec<FlexTrip>,
) -> (r: Result<Vec<ValidZone>, GtfsFlexError>)
    requires
        forall|i: int| 0 <= i < calendars@.len() ==> (#[trigger] calendars@[i]).wf(),
    ensures
        spec_parse_date(date_requested@, "%Y%m%d"@) matches Err(m) ==> (r matches Err(e) && flex_error_view(e)
            == FlexErrorView::Runtime(invalid_date_message(m))),
        spec_parse_date(date_requested@, "%Y%m%d"@) matches Ok(d) ==> (r matches Ok(zones)
            && zones@.map_values(|z: ValidZone| valid_zone_view(z)) == joined_zones(
            calendars@,
            calendar_dates@,
            routes@,
            archive_idx as nat,
            feed_name@,
            date_requested@,
            d.days as int,
            trips@,
        )),
{
    let date = match Date::parse(date_requested, "%Y%m%d") {
        Ok(d) => d,
        Err(e) => {
            let mut out: Vec<char> = Vec::new();
            push_str(&mut out, "user date request is invalid: ");
            push_str(&mut out, e.as_str());
            return Err(GtfsFlexError::Runtime(string_of(&out)));
        },
    };
    let ghost days = date.days as int;
    let mut zones: Vec<ValidZone> = Vec::new();
    proof {
        assert(trips@.take(0) =~= Seq::<FlexTrip>::empty());
        assert(zones@.map_values(|z: ValidZone| valid_zone_view(z)) =~= Seq::<ValidZoneView>::empty());
    }
    let mut k: usize = 0;
    while k < trips.len()
        invariant
            k <= trips@.len(),
            date.wf(),
            days == date.days,
            forall|i: int| 0 <= i < calendars@.len() ==> (#[trigger] calendars@[i]).wf(),
            zones@.map_values(|z: ValidZone| valid_zone_view(z)) == joined_zones(
                calendars@,
                calendar_dates@,
                routes@,
                archive_idx as nat,
                feed_name@,
                date_requested@,
                days,
                trips@.take(k as int),
            ),
        decreases trips@.len() - k,
    {
        let t = &trips[k];
        let ghost before = zones@;
        proof {
            assert(trips@.take(k + 1).drop_last() =~= trips@.take(k as int));
            assert(trips@.take(k + 1).last() == *t);
        }
        if is_service_active(calendars, calendar_dates, t.service_id.as_str(), &date) && t.stop_times.len() == 2
            && valid_flex_trip_stops(&t.stop_times[0], &t.stop_times[1]) {
            let src = &t.stop_times[0];
            let dst = &t.stop_times[1];
            match (&src.location_id, &dst.location_id) {
                (Some(origin), Some(destination)) => {
                    let zone = ValidZone {
                        agency_id: find_last_route_agency(routes, t.route_id.as_str(), archive_idx),
                        feed: feed_name.to_string(),
                        requested_date: date_requested.to_string(),
                        trip_id: t.trip_id.clone(),
                        origin_zone: origin.clone(),
                        start_pickup_drop_off_window: match src.start_pickup_drop_off_window {
                            Some(s) => Time::from_num_seconds_from_midnight_opt(s),
                            None => None,
                        },
                        end_pickup_drop_off_window: match dst.end_pickup_drop_off_window {
                            Some(s) => Time::from_num_seconds_from_midnight_opt(s),
                            None => None,
                        },
                        destination_zone: destination.clone(),
                    };
                    zones.push(zone);
                    proof {
                        assert(zones@.map_values(|z: ValidZone| valid_zone_view(z)) =~= before.map_values(
                            |z: ValidZone| valid_zone_view(z),
                        ).push(valid_zone_view(zone)));
                    }
                },
                _ => {},
            }
        }
        k = k + 1;
    }
    proof {
        assert(trips@.take(k as int) =~= trips@);
    }
    Ok(zones)
}

} // verus!
