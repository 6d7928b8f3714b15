//! Turning the trips of one GTFS archive into transit edges with schedule rows: the
//! schedule times of a stop pair, the edge each matched stop pair lies on, and the walk
//! over every target date and trip.
use vstd::prelude::*;

use std::collections::HashMap;

use crate::schedule::bundle::{
    EdgeConfig, GtfsEdge, copy_geometry, copy_row, edge_key, lemma_pair_code_injective, pair_code,
    pair_code_exec,
};
use crate::schedule::policy::{
    DateMappingPolicy, error_view, pick_error, lemma_picked_unique, pair_in_window, pick_ok, picked, policy_dates, policy_window,
    policy_wf, service_wf,
};
use crate::schedule::bundle::{MappingView, holds_mapping, mapping_set, mapping_view, mapping_views};
use crate::schedule::calendar::ServiceCalendar;
use crate::schedule::rows::DateMapping;
use crate::schedule::error::{ScheduleError, batch_processing_error, joined_messages};
use crate::schedule::bundle::GtfsBundle;
use crate::schedule::metadata::Metadata;
use crate::schedule::fq_ops::opt_string_view;
use crate::schedule::rows::{ScheduleRow, clone_opt_string};
use crate::schedule::trip::{SortedTrip, StopTime};
use crate::temporal::{Date, DateTime, NANOS_PER_DAY, NANOS_PER_SEC, MAX_DATETIME_NANOS, TimeDelta, spec_format_date};
use crate::text::{decimal, push_decimal, push_str, string_of};

verus! {

broadcast use vstd::std_specs::hash::group_hash_axioms;

/// Enumerates alternative ways to handle missing lon,lat data for a stop.
#[derive(Clone, Copy, Debug, PartialEq, Eq, Structural)]
pub enum MissingStopLocationPolicy {
    /// if a Stop cannot be map matched, end the import and report failure
    Fail,
    /// if a Stop cannot be map matched, remove the associated Trip(s) from the Gtfs
    Drop,
}

/// How chrono displays a span of whole, non-negative seconds (ISO 8601).
pub open spec fn offset_text(secs: nat) -> Seq<char> {
    if secs == 0 {
        "P0D"@
    } else {
        "PT"@ + decimal(secs) + "S"@
    }
}

/// The message of a schedule time that leaves the representable range.
pub open spec fn datetime_overflow_message(secs: nat, days: int) -> Seq<char> {
    "appending departure offset '"@ + offset_text(secs) + "' to picked_date '"@ + spec_format_date(
        days,
        "%m-%d-%Y"@,
    ) + "' produced an empty result (invalid combination)"@
}

/// The instant a GTFS time of day (seconds after midnight, possibly past one day) falls
/// on, on a date.
pub open spec fn schedule_instant(secs: nat, days: int) -> int {
    days * NANOS_PER_DAY + secs * NANOS_PER_SEC
}

/// The message of a stop pair whose times do not both fall in the representable range:
/// that of the departure when it is out of range, else that of the arrival.
pub open spec fn pair_overflow_message(dep: nat, arr: nat, days: int) -> Seq<char> {
    if !(schedule_instant(dep, days) <= MAX_DATETIME_NANOS) {
        datetime_overflow_message(dep, days)
    } else {
        datetime_overflow_message(arr, days)
    }
}

/// Builds a date-time from a GTFS time of day and a date; times past midnight fall on
/// the following days.
pub fn create_datetime(gtfs_time: u32, date: &Date) -> (r: Result<DateTime, ScheduleError>)
    requires
        date.wf(),
    ensures
        r is Ok <==> schedule_instant(gtfs_time as nat, date.days as int) <= MAX_DATETIME_NANOS,
        r matches Ok(dt) ==> dt.nanos == schedule_instant(gtfs_time as nat, date.days as int) && dt.wf(),
        r matches Err(e) ==> e matches ScheduleError::InvalidData(m) && m@ == datetime_overflow_message(
            gtfs_time as nat,
            date.days as int,
        ),
{
    let offset = TimeDelta::seconds(gtfs_time as i64);
    let midnight = date.and_nanos(0);
    match midnight.checked_add_signed(&offset) {
        Some(dt) => Ok(dt),
        None => {
            let mut out: Vec<char> = Vec::new();
            push_str(&mut out, "appending departure offset '");
            if gtfs_time == 0 {
                push_str(&mut out, "P0D");
            } else {
                push_str(&mut out, "PT");
                push_decimal(&mut out, gtfs_time as u64);
                push_str(&mut out, "S");
            }
            push_str(&mut out, "' to picked_date '");
            proof {
                crate::temporal::lemma_month_day_year_format();
            }
            let picked = date.format("%m-%d-%Y");
            push_str(&mut out, picked.as_str());
            push_str(&mut out, "' produced an empty result (invalid combination)");
            proof {
                reveal_strlit("P0D");
                reveal_strlit("PT");
                reveal_strlit("S");
            }
            Err(ScheduleError::InvalidData(string_of(&out)))
        },
    }
}

/// The departure and arrival times of a stop pair, as GTFS seconds of day: the source's
/// departure and the destination's arrival, either one standing for both when the
/// other is absent.
pub open spec fn pair_times(src: StopTime, dst: StopTime) -> Option<(nat, nat)> {
    match (src.departure_time, dst.arrival_time) {
        (None, Some(t)) => Some((t as nat, t as nat)),
        (Some(t), None) => Some((t as nat, t as nat)),
        (Some(dep), Some(arr)) => Some((dep as nat, arr as nat)),
        (None, None) => None,
    }
}

/// The instants a stop pair departs and arrives on a date.
pub fn schedule_times(src: &StopTime, dst: &StopTime, date: &Date) -> (r: Result<
    (DateTime, DateTime),
    ScheduleError,
>)
    requires
        date.wf(),
    ensures
        pair_times(*src, *dst) is None ==> (r matches Err(ScheduleError::MissingAllStopTimes(id))
            && id@ == src.stop_id@),
        pair_times(*src, *dst) matches Some((dep, arr)) ==> {
            &&& r is Ok <==> (schedule_instant(dep, date.days as int) <= MAX_DATETIME_NANOS
                && schedule_instant(arr, date.days as int) <= MAX_DATETIME_NANOS)
            &&& r matches Ok((d, a)) ==> d.nanos == schedule_instant(dep, date.days as int)
                && a.nanos == schedule_instant(arr, date.days as int) && d.wf() && a.wf()
            &&& r matches Err(e) ==> e matches ScheduleError::InvalidData(m) && (m@
                == pair_overflow_message(dep, arr, date.days as int))
        },
{
    match (src.departure_time, dst.arrival_time) {
        (None, Some(t)) => {
            let dt = create_datetime(t, date)?;
            Ok((dt, dt))
        },
        (Some(t), None) => {
            let dt = create_datetime(t, date)?;
            Ok((dt, dt))
        },
        (Some(dep), Some(arr)) => {
            let dep_dt = match create_datetime(dep, date) {
                Ok(v) => v,
                Err(e) => return Err(e),
            };
            let arr_dt = match create_datetime(arr, date) {
                Ok(v) => v,
                Err(e) => return Err(e),
            };
            Ok((dep_dt, arr_dt))
        },
        (None, None) => Err(ScheduleError::MissingAllStopTimes(src.stop_id.clone())),
    }
}

/// A stop pair matched onto the graph: the vertices its stops match, and the line
/// geometry (each coordinate as the bit patterns of its x and y) and length in meters
/// (a float's bit pattern) of the segment between the stops.
#[derive(Clone, Debug)]
pub struct MatchedSegment {
    pub src_vertex_id: usize,
    pub dst_vertex_id: usize,
    pub distance_bits: u64,
    pub geometry: Vec<(u64, u64)>,
}

/// The pair of vertices a segment joins.
pub open spec fn segment_key(s: MatchedSegment) -> (int, int) {
    (s.src_vertex_id as int, s.dst_vertex_id as int)
}

/// The edges built so far from one archive: at most one per pair of vertices, numbered
/// 0, 1, ... in order of creation.
pub struct EdgeAccumulator {
    edges: Vec<GtfsEdge>,
    index: HashMap<u128, usize>,
}

/// Edges numbered by position, joining distinct pairs, with rows naming their edge.
pub open spec fn numbered_edges(es: Seq<GtfsEdge>) -> bool {
    &&& forall|i: int| 0 <= i < es.len() ==> (#[trigger] es[i]).edge.edge_id == i
    &&& forall|i: int, t: int|
        0 <= i < es.len() && 0 <= t < es[i].schedules@.len() ==> (#[trigger] es[i].schedules@[t]).edge_id == i
    &&& forall|i: int, j: int|
        0 <= i < es.len() && 0 <= j < es.len() && i != j ==> edge_key(#[trigger] es[i]) != edge_key(
            #[trigger] es[j],
        )
}

/// The position of the edge joining a pair, if any.
pub open spec fn position_of(es: Seq<GtfsEdge>, k: (int, int)) -> Option<int> {
    if exists|i: int| 0 <= i < es.len() && #[trigger] edge_key(es[i]) == k {
        Some(choose|i: int| 0 <= i < es.len() && #[trigger] edge_key(es[i]) == k)
    } else {
        None
    }
}

impl EdgeAccumulator {
    pub closed spec fn spec_edges(&self) -> Seq<GtfsEdge> {
        self.edges@
    }

    /// Edges are numbered by position, join distinct pairs, and the index finds them.
    pub closed spec fn wf(&self) -> bool {
        &&& forall|i: int| 0 <= i < self.edges@.len() ==> (#[trigger] self.edges@[i]).edge.edge_id == i
        &&& forall|i: int, t: int|
            0 <= i < self.edges@.len() && 0 <= t < self.edges@[i].schedules@.len() ==> (
            #[trigger] self.edges@[i].schedules@[t]).edge_id == i
        &&& forall|i: int, j: int|
            0 <= i < self.edges@.len() && 0 <= j < self.edges@.len() && i != j ==> edge_key(
                #[trigger] self.edges@[i],
            ) != edge_key(#[trigger] self.edges@[j])
        &&& forall|i: int|
            0 <= i < self.edges@.len() ==> self.index@.contains_key(
                pair_code(edge_key(#[trigger] self.edges@[i]).0, edge_key(self.edges@[i]).1) as u128,
            ) && self.index@[pair_code(edge_key(self.edges@[i]).0, edge_key(self.edges@[i]).1) as u128]
                == i
        &&& forall|x: u128|
            #[trigger] self.index@.contains_key(x) ==> self.index@[x] < self.edges@.len() && pair_code(
                edge_key(self.edges@[self.index@[x] as int]).0,
                edge_key(self.edges@[self.index@[x] as int]).1,
            ) == x
    }

    /// No edges yet.
    pub fn new() -> (r: EdgeAccumulator)
        ensures
            r.wf(),
            r.spec_edges().len() == 0,
    {
        EdgeAccumulator { edges: Vec::new(), index: HashMap::new() }
    }

    /// The edges in order of creation.
    pub fn edges(&self) -> (r: &Vec<GtfsEdge>)
        ensures
            r@ == self.spec_edges(),
    {
        &self.edges
    }

    /// The edges in order of creation: each numbered by its position, joining a pair no
    /// other joins, with rows that name it.
    pub fn into_edges(self) -> (r: Vec<GtfsEdge>)
        requires
            self.wf(),
        ensures
            r@ == self.spec_edges(),
            numbered_edges(r@),
    {
        self.edges
    }

    /// The position of the edge joining the segment's pair, created from the segment
    /// with the next edge id when there is none.
    pub fn edge_for(&mut self, seg: &MatchedSegment) -> (p: usize)
        requires
            old(self).wf(),
        ensures
            final(self).wf(),
            match position_of(old(self).spec_edges(), segment_key(*seg)) {
                Some(q) => p == q && final(self).spec_edges() == old(self).spec_edges(),
                None => {
                    &&& p == old(self).spec_edges().len()
                    &&& final(self).spec_edges().len() == p + 1
                    &&& final(self).spec_edges().drop_last() == old(self).spec_edges()
                    &&& final(self).spec_edges()[p as int].edge == EdgeConfig {
                        edge_id: p,
                        src_vertex_id: seg.src_vertex_id,
                        dst_vertex_id: seg.dst_vertex_id,
                        distance_bits: seg.distance_bits,
                    }
                    &&& final(self).spec_edges()[p as int].geometry@ == seg.geometry@
                    &&& final(self).spec_edges()[p as int].schedules@.len() == 0
                },
            },
    {
        let code = pair_code_exec(seg.src_vertex_id, seg.dst_vertex_id);
        let ghost k = segment_key(*seg);
        match self.index.get(&code) {
            Some(q) => {
                let q = *q;
                proof {
                    lemma_pair_code_injective(
                        edge_key(self.edges@[q as int]).0,
                        edge_key(self.edges@[q as int]).1,
                        k.0,
                        k.1,
                    );
                    assert(edge_key(self.edges@[q as int]) == k);
                    let c = choose|i: int| 0 <= i < self.edges@.len() && #[trigger] edge_key(self.edges@[i]) == k;
                    assert(c == q);
                }
                q
            },
            None => {
                let p = self.edges.len();
                proof {
                    assert forall|i: int| 0 <= i < self.edges@.len() implies #[trigger] edge_key(self.edges@[i]) != k by {
                        if edge_key(self.edges@[i]) == k {
                            assert(self.index@.contains_key(code));
                        }
                    }
                }
                let e = GtfsEdge {
                    edge: EdgeConfig {
                        edge_id: p,
                        src_vertex_id: seg.src_vertex_id,
                        dst_vertex_id: seg.dst_vertex_id,
                        distance_bits: seg.distance_bits,
                    },
                    geometry: copy_geometry(&seg.geometry),
                    schedules: Vec::new(),
                };
                let ghost old_edges = self.edges@;
                self.edges.push(e);
                self.index.insert(code, p);
                proof {
                    assert(self.edges@.drop_last() =~= old_edges);
                    assert forall|x: u128| #[trigger] self.index@.contains_key(x) implies self.index@[x]
                        < self.edges@.len() && pair_code(
                        edge_key(self.edges@[self.index@[x] as int]).0,
                        edge_key(self.edges@[self.index@[x] as int]).1,
                    ) == x by {
                        if x != code {
                            assert(old_edges[self.index@[x] as int] == self.edges@[self.index@[x] as int]);
                        }
                    }
                }
                p
            },
        }
    }

    /// Records a schedule row along the edge at a position.
    pub fn add_row(&mut self, p: usize, row: ScheduleRow)
        requires
            old(self).wf(),
            p < old(self).spec_edges().len(),
            row.edge_id == p,
        ensures
            final(self).wf(),
            final(self).spec_edges().len() == old(self).spec_edges().len(),
            forall|i: int|
                0 <= i < old(self).spec_edges().len() && i != p ==> #[trigger] final(self).spec_edges()[i]
                    == old(self).spec_edges()[i],
            final(self).spec_edges()[p as int].edge == old(self).spec_edges()[p as int].edge,
            final(self).spec_edges()[p as int].geometry == old(self).spec_edges()[p as int].geometry,
            final(self).spec_edges()[p as int].schedules@ == old(self).spec_edges()[p as int].schedules@.push(row),
    {
        let ghost old_edges = self.edges@;
        self.edges[p].schedules.push(row);
        proof {
            assert forall|x: u128| #[trigger] self.index@.contains_key(x) implies self.index@[x]
                < self.edges@.len() && pair_code(
                edge_key(self.edges@[self.index@[x] as int]).0,
                edge_key(self.edges@[self.index@[x] as int]).1,
            ) == x by {
                assert(edge_key(old_edges[self.index@[x] as int]) == edge_key(self.edges@[self.index@[x] as int]));
            }
        }
    }
}

/// Where the edge for a segment lies: the position of the edge joining its pair, or
/// the next position.
pub open spec fn target_position(es: Seq<GtfsEdge>, seg: MatchedSegment) -> int {
    match position_of(es, segment_key(seg)) {
        Some(q) => q,
        None => es.len() as int,
    }
}

/// The edges after rows were recorded along the edge for a segment: an existing edge
/// joining the segment's pair gains the rows; otherwise a new edge numbered by its
/// position, with the segment's length and geometry, holds them.
pub open spec fn extended(old: Seq<GtfsEdge>, new: Seq<GtfsEdge>, seg: MatchedSegment, rows: Seq<ScheduleRow>) -> bool {
    let p = target_position(old, seg);
    &&& new.len() == if p < old.len() { old.len() } else { old.len() + 1 }
    &&& forall|i: int| 0 <= i < old.len() && i != p ==> #[trigger] new[i] == old[i]
    &&& if p < old.len() {
        &&& new[p].edge == old[p].edge
        &&& new[p].geometry@ == old[p].geometry@
        &&& new[p].schedules@ == old[p].schedules@ + rows
    } else {
        &&& new[p].edge == EdgeConfig {
            edge_id: p as usize,
            src_vertex_id: seg.src_vertex_id,
            dst_vertex_id: seg.dst_vertex_id,
            distance_bits: seg.distance_bits,
        }
        &&& new[p].geometry@ == seg.geometry@
        &&& new[p].schedules@ == rows
    }
}

/// The stop pair lies within the policy's time of day window, if it has one.
pub open spec fn in_window(policy: DateMappingPolicy, src: StopTime, dst: StopTime) -> bool {
    match policy_window(policy) {
        None => true,
        Some((st, et)) => pair_in_window(src.departure_time, dst.arrival_time, st, et),
    }
}

pub open spec fn missing_route_message(trip_id: Seq<char>, route_id: Seq<char>) -> Seq<char> {
    "trip "@ + trip_id + " has route id "@ + route_id + " which is missing from the archive"@
}

/// The row recorded for a stop pair of a trip on the edge at position `p`.
pub open spec fn recorded_row(
    row: ScheduleRow,
    p: int,
    feed_id: Option<String>,
    trip: SortedTrip,
    agency_id: Option<String>,
    dep: nat,
    arr: nat,
    days: int,
) -> bool {
    &&& row.edge_id == p
    &&& opt_string_view(row.feed_id) == opt_string_view(feed_id)
    &&& row.route_id@ == trip.route_id@
    &&& row.service_id@ == trip.service_id@
    &&& opt_string_view(row.agency_id) == opt_string_view(agency_id)
    &&& row.src_departure_time.nanos == schedule_instant(dep, days)
    &&& row.dst_arrival_time.nanos == schedule_instant(arr, days)
}

/// Records the schedule row of one stop pair of a trip on a picked date:
/// - a pair outside the policy's time window is skipped;
/// - a pair whose stops could not be located fails or is skipped, as the missing stop
///   policy says;
/// - otherwise the edge joining the matched vertices is found or created, and the row,
///   timed by [`schedule_times`] on the picked date, with the agency of the trip's
///   route (`route_agency`, `None` when the archive lacks the route), is recorded along
///   it.
pub fn process_schedule(
    picked_date: &Date,
    src: &StopTime,
    dst: &StopTime,
    trip: &SortedTrip,
    feed_id: &Option<String>,
    route_agency: &Option<Option<String>>,
    policy: &DateMappingPolicy,
    matched: &Option<MatchedSegment>,
    missing_stop_location_policy: MissingStopLocationPolicy,
    edges: &mut EdgeAccumulator,
) -> (r: Result<Option<ScheduleRow>, ScheduleError>)
    requires
        old(edges).wf(),
        picked_date.wf(),
    ensures
        final(edges).wf(),
        !in_window(*policy, *src, *dst) ==> (r matches Ok(None) && final(edges).spec_edges() == old(
            edges,
        ).spec_edges()),
        in_window(*policy, *src, *dst) && matched is None ==> final(edges).spec_edges() == old(
            edges,
        ).spec_edges() && match missing_stop_location_policy {
            MissingStopLocationPolicy::Fail => r matches Err(
                ScheduleError::MissingStopLocationAndParent(m),
            ) && m@ == src.stop_id@ + " or "@ + dst.stop_id@,
            MissingStopLocationPolicy::Drop => r matches Ok(None),
        },
        in_window(*policy, *src, *dst) && matched is Some ==> ({
            let seg = matched->Some_0;
            match pair_times(*src, *dst) {
            None => r matches Err(ScheduleError::MissingAllStopTimes(id)) && id@ == src.stop_id@
                && extended(old(edges).spec_edges(), final(edges).spec_edges(), seg, Seq::empty()),
            Some((dep, arr)) => if !(schedule_instant(dep, picked_date.days as int) <= MAX_DATETIME_NANOS
                && schedule_instant(arr, picked_date.days as int) <= MAX_DATETIME_NANOS) {
                &&& r matches Err(ScheduleError::InvalidData(m)) && m@ == pair_overflow_message(
                    dep,
                    arr,
                    picked_date.days as int,
                )
                &&& extended(old(edges).spec_edges(), final(edges).spec_edges(), seg, Seq::empty())
            } else if route_agency is None {
                &&& r matches Err(ScheduleError::MalformedGtfs(m)) && m@ == missing_route_message(
                    trip.trip_id@,
                    trip.route_id@,
                )
                &&& extended(old(edges).spec_edges(), final(edges).spec_edges(), seg, Seq::empty())
            } else {
                &&& r matches Ok(Some(row)) && recorded_row(
                    row,
                    target_position(old(edges).spec_edges(), seg),
                    *feed_id,
                    *trip,
                    route_agency->Some_0,
                    dep,
                    arr,
                    picked_date.days as int,
                )
                &&& extended(
                    old(edges).spec_edges(),
                    final(edges).spec_edges(),
                    seg,
                    seq![final(edges).spec_edges()[target_position(old(edges).spec_edges(), seg)].schedules@.last()],
                )
                &&& recorded_row(
                    final(edges).spec_edges()[target_position(old(edges).spec_edges(), seg)].schedules@.last(),
                    target_position(old(edges).spec_edges(), seg),
                    *feed_id,
                    *trip,
                    route_agency->Some_0,
                    dep,
                    arr,
                    picked_date.days as int,
                )
            },
        }}),
{
    // ignore times not within our expected time range
    if !policy.within_time_range(src, dst) {
        return Ok(None);
    }
    let seg = match matched {
        Some(seg) => seg,
        None => {
            return match missing_stop_location_policy {
                MissingStopLocationPolicy::Fail => {
                    let mut out: Vec<char> = Vec::new();
                    push_str(&mut out, src.stop_id.as_str());
                    push_str(&mut out, " or ");
                    push_str(&mut out, dst.stop_id.as_str());
                    Err(ScheduleError::MissingStopLocationAndParent(string_of(&out)))
                },
                MissingStopLocationPolicy::Drop => Ok(None),
            };
        },
    };
    let ghost before = edges.spec_edges();
    let p = edges.edge_for(seg);
    proof {
        assert(edges.spec_edges().len() == before.len() || edges.spec_edges().drop_last() == before);
        assert forall|i: int| 0 <= i < before.len() && i != p implies #[trigger] edges.spec_edges()[i]
            == before[i] by {
            if edges.spec_edges().len() != before.len() {
                assert(edges.spec_edges().drop_last()[i] == edges.spec_edges()[i]);
            }
        }
        if p < before.len() {
            assert(before[p as int].schedules@ + Seq::<ScheduleRow>::empty() =~= before[p as int].schedules@);
        } else {
            assert(edges.spec_edges()[p as int].schedules@ =~= Seq::<ScheduleRow>::empty());
        }
        assert(extended(before, edges.spec_edges(), *seg, Seq::empty()));
    }
    let (src_departure_time, dst_arrival_time) = schedule_times(src, dst, picked_date)?;
    let agency = match route_agency {
        Some(a) => a,
        None => {
            let mut out: Vec<char> = Vec::new();
            push_str(&mut out, "trip ");
            push_str(&mut out, trip.trip_id.as_str());
            push_str(&mut out, " has route id ");
            push_str(&mut out, trip.route_id.as_str());
            push_str(&mut out, " which is missing from the archive");
            return Err(ScheduleError::MalformedGtfs(string_of(&out)));
        },
    };
    let schedule = ScheduleRow::new(
        p,
        clone_opt_string(feed_id),
        trip.route_id.clone(),
        trip.service_id.clone(),
        clone_opt_string(agency),
        src_departure_time,
        dst_arrival_time,
    );
    let copy = copy_row(&schedule, p);
    let ghost mid = edges.spec_edges();
    edges.add_row(p, schedule);
    proof {
        assert forall|i: int| 0 <= i < before.len() && i != p implies #[trigger] edges.spec_edges()[i]
            == before[i] by {
            assert(edges.spec_edges()[i] == mid[i]);
        }
        if p < before.len() {
            assert(edges.spec_edges()[p as int].schedules@ =~= before[p as int].schedules@ + seq![
                edges.spec_edges()[p as int].schedules@.last(),
            ]);
        } else {
            assert(edges.spec_edges()[p as int].schedules@ =~= seq![edges.spec_edges()[p as int].schedules@.last()]);
        }
    }
    Ok(Some(copy))
}

/// The inputs of one trip: the trip with its stop times in visiting order, the calendar
/// entries of its service, the agency of its route (`None` when the archive lacks the
/// route), and for each pair of consecutive stops its match onto the graph (`None` when
/// a stop of the pair has no location).
pub struct TripInput {
    pub trip: SortedTrip,
    pub service: ServiceCalendar,
    pub route_agency: Option<Option<String>>,
    pub segments: Vec<Option<MatchedSegment>>,
}

/// The trip's segments line up with its consecutive stop pairs.
pub open spec fn trip_input_wf(t: TripInput) -> bool {
    &&& t.segments@.len() + 1 == t.trip.stop_times@.len() || (t.segments@.len() == 0
        && t.trip.stop_times@.len() <= 1)
    &&& service_wf(t.service)
}

/// The date mapping recorded when a trip's target date is served by another date.
pub open spec fn expected_mapping(feed_id: Option<String>, t: TripInput, target: int, picked_day: int) -> MappingView {
    MappingView {
        feed_id: opt_string_view(feed_id),
        agency_id: opt_string_view(t.route_agency->Some_0),
        route_id: t.trip.route_id@,
        service_id: t.trip.service_id@,
        target_days: target,
        picked_days: picked_day,
    }
}

pub open spec fn trip_not_found_message(trip_id: Seq<char>, route_id: Seq<char>) -> Seq<char> {
    "trip "@ + trip_id + " references route id "@ + route_id + " that does not exist"@
}

/// The target date `d` of a trip was served: by the picked date itself, or through a
/// recorded date mapping.
pub open spec fn date_served(
    policy: DateMappingPolicy,
    feed_id: Option<String>,
    mappings: Seq<DateMapping>,
    t: TripInput,
    d: int,
) -> bool {
    exists|p: int|
        picked(policy, t.service, d, p) && (p == d || mapping_set(mappings).contains(
            expected_mapping(feed_id, t, d, p),
        ))
}

/// A recorded date mapping comes from a trip whose target date `d`, one of the first
/// ones, was served by another date.
pub open spec fn mapping_justified(
    policy: DateMappingPolicy,
    feed_id: Option<String>,
    trips: Seq<TripInput>,
    done: spec_fn(int, int) -> bool,
    v: MappingView,
) -> bool {
    exists|d: int, j: int, p: int|
        done(d, j) && 0 <= j < trips.len() && p != d && picked(policy, trips[j].service, d, p) && v
            == #[trigger] expected_mapping(feed_id, trips[j], d, p)
}

proof fn lemma_served_grows(
    policy: DateMappingPolicy,
    feed_id: Option<String>,
    a: Seq<DateMapping>,
    b: Seq<DateMapping>,
    t: TripInput,
    d: int,
)
    requires
        mapping_set(a).subset_of(mapping_set(b)),
        date_served(policy, feed_id, a, t, d),
    ensures
        date_served(policy, feed_id, b, t, d),
{
    let p = choose|p: int|
        picked(policy, t.service, d, p) && (p == d || mapping_set(a).contains(
            expected_mapping(feed_id, t, d, p),
        ));
    if p != d {
        assert(mapping_set(b).contains(expected_mapping(feed_id, t, d, p)));
    }
}

/// Recording a stop pair on a picked day succeeds: the pair lies outside the time
/// window, or its stops could not be located and the policy drops such pairs, or it
/// has a time, both its instants are representable, and its route is in the archive.
pub open spec fn step_ok(
    policy: DateMappingPolicy,
    picked_day: int,
    src: StopTime,
    dst: StopTime,
    route_agency: Option<Option<String>>,
    matched: Option<MatchedSegment>,
    missing: MissingStopLocationPolicy,
) -> bool {
    !in_window(policy, src, dst) || match matched {
        None => missing == MissingStopLocationPolicy::Drop,
        Some(_) => match pair_times(src, dst) {
            None => false,
            Some((dep, arr)) => schedule_instant(dep, picked_day) <= MAX_DATETIME_NANOS
                && schedule_instant(arr, picked_day) <= MAX_DATETIME_NANOS && route_agency is Some,
        },
    }
}

/// Every stop pair of a trip can be recorded on a picked day.
pub open spec fn trip_steps_ok(
    policy: DateMappingPolicy,
    picked_day: int,
    t: TripInput,
    missing: MissingStopLocationPolicy,
) -> bool {
    forall|k: int|
        0 <= k < t.segments@.len() ==> #[trigger] step_ok(
            policy,
            picked_day,
            t.trip.stop_times@[k],
            t.trip.stop_times@[k + 1],
            t.route_agency,
            t.segments@[k],
            missing,
        )
}

/// A trip is processed without error on a target date: a date is picked for it, its
/// route is in the archive when that date differs from the target, and each of its
/// stop pairs can be recorded on the picked date.
pub open spec fn trip_ok(policy: DateMappingPolicy, d: int, t: TripInput, missing: MissingStopLocationPolicy) -> bool {
    &&& pick_ok(policy, t.service, d)
    &&& forall|p: int|
        #[trigger] picked(policy, t.service, d, p) ==> (p != d ==> t.route_agency is Some) && trip_steps_ok(
            policy,
            p,
            t,
            missing,
        )
}

/// Every trip is processed without error on every target date of the policy.
pub open spec fn all_trips_ok(policy: DateMappingPolicy, trips: Seq<TripInput>, missing: MissingStopLocationPolicy) -> bool {
    forall|d: int, j: int|
        policy_dates(policy).0 <= d <= policy_dates(policy).1 && 0 <= j < trips.len() ==> #[trigger] trip_ok(
            policy,
            d,
            trips[j],
            missing,
        )
}

/// The error recording a stop pair on a picked day gives, as [`process_schedule`]
/// raises it: an unlocated stop when such pairs fail the import, a pair without times,
/// a time past the representable range, or a route missing from the archive.
pub open spec fn step_error(
    policy: DateMappingPolicy,
    picked_day: int,
    src: StopTime,
    dst: StopTime,
    trip: SortedTrip,
    route_agency: Option<Option<String>>,
    matched: Option<MatchedSegment>,
    missing: MissingStopLocationPolicy,
    e: ScheduleError,
) -> bool {
    &&& in_window(policy, src, dst)
    &&& match matched {
        None => missing == MissingStopLocationPolicy::Fail && (e matches ScheduleError::MissingStopLocationAndParent(m)
            && m@ == src.stop_id@ + " or "@ + dst.stop_id@),
        Some(_) => match pair_times(src, dst) {
            None => e matches ScheduleError::MissingAllStopTimes(id) && id@ == src.stop_id@,
            Some((dep, arr)) => if !(schedule_instant(dep, picked_day) <= MAX_DATETIME_NANOS
                && schedule_instant(arr, picked_day) <= MAX_DATETIME_NANOS) {
                e matches ScheduleError::InvalidData(m) && m@ == pair_overflow_message(dep, arr, picked_day)
            } else {
                route_agency is None && (e matches ScheduleError::MalformedGtfs(m) && m@
                    == missing_route_message(trip.trip_id@, trip.route_id@))
            },
        },
    }
}

/// The error a trip fails with on a target date: the policy's error when no date is
/// picked; a missing route when the picked date differs from the target and the
/// route is not in the archive; else the error of its first stop pair that cannot be
/// recorded on the picked date.
pub open spec fn trip_error(
    policy: DateMappingPolicy,
    t: TripInput,
    d: int,
    missing: MissingStopLocationPolicy,
    e: ScheduleError,
) -> bool {
    if !pick_ok(policy, t.service, d) {
        error_view(e) == Some(pick_error(policy, t.service, t.trip.trip_id@, d))
    } else {
        exists|p: int|
            #[trigger] picked(policy, t.service, d, p) && if p != d && t.route_agency is None {
                e matches ScheduleError::MalformedGtfs(m) && m@ == trip_not_found_message(
                    t.trip.trip_id@,
                    t.trip.route_id@,
                )
            } else {
                exists|k: int|
                    0 <= k < t.segments@.len() && (forall|kk: int|
                        0 <= kk < k ==> #[trigger] step_ok(
                            policy,
                            p,
                            t.trip.stop_times@[kk],
                            t.trip.stop_times@[kk + 1],
                            t.route_agency,
                            t.segments@[kk],
                            missing,
                        )) && #[trigger] step_error(
                        policy,
                        p,
                        t.trip.stop_times@[k],
                        t.trip.stop_times@[k + 1],
                        t.trip,
                        t.route_agency,
                        t.segments@[k],
                        missing,
                        e,
                    )
            }
    }
}

/// Every trip walked before trip `j` on target date `d` was processed without error.
pub open spec fn walked_ok_before(
    policy: DateMappingPolicy,
    trips: Seq<TripInput>,
    missing: MissingStopLocationPolicy,
    d: int,
    j: int,
) -> bool {
    forall|dd: int, jj: int|
        ((policy_dates(policy).0 <= dd < d && 0 <= jj < trips.len()) || (dd == d && 0 <= jj < j))
            ==> #[trigger] trip_ok(policy, dd, trips[jj], missing)
}

/// The row recorded along the edge `e` at position `i` for the `k`-th stop pair of a
/// trip on the picked date `p`: the pair lies in the time window, its match joins the
/// edge's vertices, and the row carries the trip's route, service and agency and the
/// pair's times on `p`.
pub open spec fn trip_row(
    policy: DateMappingPolicy,
    feed_id: Option<String>,
    t: TripInput,
    k: int,
    p: int,
    e: GtfsEdge,
    i: int,
    row: ScheduleRow,
) -> bool {
    let src = t.trip.stop_times@[k];
    let dst = t.trip.stop_times@[k + 1];
    &&& in_window(policy, src, dst)
    &&& t.segments@[k] is Some
    &&& segment_key(t.segments@[k]->Some_0) == edge_key(e)
    &&& t.route_agency is Some
    &&& pair_times(src, dst) is Some
    &&& recorded_row(
        row,
        i,
        feed_id,
        t.trip,
        t.route_agency->Some_0,
        pair_times(src, dst)->Some_0.0,
        pair_times(src, dst)->Some_0.1,
        p,
    )
}

/// A row of the edge at position `i` was recorded for a stop pair of some trip on a
/// target date of the policy, on the date picked for that trip.
pub open spec fn row_justified(
    policy: DateMappingPolicy,
    feed_id: Option<String>,
    trips: Seq<TripInput>,
    e: GtfsEdge,
    i: int,
    row: ScheduleRow,
) -> bool {
    exists|d: int, j: int, k: int, p: int|
        #![trigger picked(policy, trips[j].service, d, p), trip_row(policy, feed_id, trips[j], k, p, e, i, row)]
        policy_dates(policy).0 <= d <= policy_dates(policy).1 && 0 <= j < trips.len() && 0 <= k
            < trips[j].segments@.len() && picked(policy, trips[j].service, d, p) && trip_row(
            policy,
            feed_id,
            trips[j],
            k,
            p,
            e,
            i,
            row,
        )
}

/// Every row of every edge was recorded for a stop pair of a trip.
pub open spec fn rows_sound(
    policy: DateMappingPolicy,
    feed_id: Option<String>,
    trips: Seq<TripInput>,
    es: Seq<GtfsEdge>,
) -> bool {
    forall|i: int, r: int|
        0 <= i < es.len() && 0 <= r < es[i].schedules@.len() ==> #[trigger] row_justified(
            policy,
            feed_id,
            trips,
            es[i],
            i,
            es[i].schedules@[r],
        )
}

/// An edge has the vertices, length and geometry of a segment.
pub open spec fn segment_matches(seg: MatchedSegment, e: GtfsEdge) -> bool {
    &&& edge_key(e) == segment_key(seg)
    &&& e.edge.distance_bits == seg.distance_bits
    &&& e.geometry@ == seg.geometry@
}

/// An edge carries a row, and was made from a segment of some trip.
pub open spec fn edge_justified(trips: Seq<TripInput>, e: GtfsEdge) -> bool {
    &&& e.schedules@.len() > 0
    &&& exists|j: int, k: int|
        0 <= j < trips.len() && 0 <= k < trips[j].segments@.len() && trips[j].segments@[k] is Some
            && #[trigger] segment_matches(trips[j].segments@[k]->Some_0, e)
}

/// Every edge carries a row and was made from a segment of some trip.
pub open spec fn edges_sound(trips: Seq<TripInput>, es: Seq<GtfsEdge>) -> bool {
    forall|i: int| 0 <= i < es.len() ==> #[trigger] edge_justified(trips, es[i])
}

/// The `k`-th stop pair of trip `j`, on target date `d`, lying in the time window and
/// matched onto the graph, has its row along an edge, on a date picked for the trip.
pub open spec fn step_recorded(
    policy: DateMappingPolicy,
    feed_id: Option<String>,
    trips: Seq<TripInput>,
    es: Seq<GtfsEdge>,
    d: int,
    j: int,
    k: int,
) -> bool {
    let t = trips[j];
    (in_window(policy, t.trip.stop_times@[k], t.trip.stop_times@[k + 1]) && t.segments@[k] is Some)
        ==> exists|p: int, i: int, r: int|
        #![trigger picked(policy, t.service, d, p), trip_row(policy, feed_id, t, k, p, es[i], i, es[i].schedules@[r])]
        picked(policy, t.service, d, p) && 0 <= i < es.len() && 0 <= r < es[i].schedules@.len()
            && trip_row(policy, feed_id, t, k, p, es[i], i, es[i].schedules@[r])
}

/// Every stop pair of every trip, on every target date of the policy, has its row.
pub open spec fn all_steps_recorded(
    policy: DateMappingPolicy,
    feed_id: Option<String>,
    trips: Seq<TripInput>,
    es: Seq<GtfsEdge>,
) -> bool {
    forall|d: int, j: int, k: int|
        policy_dates(policy).0 <= d <= policy_dates(policy).1 && 0 <= j < trips.len() && 0 <= k
            < trips[j].segments@.len() ==> #[trigger] step_recorded(policy, feed_id, trips, es, d, j, k)
}

/// The steps walked before the `k`-th pair of trip `j` on the `i`-th target date.
pub open spec fn step_done(first: int, i: int, j: int, k: int, d: int, jj: int, kk: int) -> bool {
    (first <= d < first + i) || (d == first + i && (jj < j || (jj == j && kk < k)))
}

/// Every step walked so far has its row.
pub open spec fn steps_recorded(
    policy: DateMappingPolicy,
    feed_id: Option<String>,
    trips: Seq<TripInput>,
    es: Seq<GtfsEdge>,
    first: int,
    i: int,
    j: int,
    k: int,
) -> bool {
    forall|d: int, jj: int, kk: int|
        step_done(first, i, j, k, d, jj, kk) && 0 <= jj < trips.len() && 0 <= kk < trips[jj].segments@.len()
            ==> #[trigger] step_recorded(policy, feed_id, trips, es, d, jj, kk)
}

/// The date a policy picks for a target date of a service (at most one is picked).
pub open spec fn picked_day(policy: DateMappingPolicy, svc: ServiceCalendar, d: int) -> int {
    choose|p: int| picked(policy, svc, d, p)
}

/// The `k`-th stop pair of a trip lies in the time window and is matched onto the graph,
/// so that recording it adds a row.
pub open spec fn recorded_step(policy: DateMappingPolicy, t: TripInput, k: int) -> bool {
    in_window(policy, t.trip.stop_times@[k], t.trip.stop_times@[k + 1]) && t.segments@[k] is Some
}

/// The match of a walked step `(d, j, k)`: the `k`-th pair of trip `j`.
pub open spec fn step_segment(trips: Seq<TripInput>, s: (int, int, int)) -> MatchedSegment {
    trips[s.1].segments@[s.2]->Some_0
}

/// The pair of vertices a walked step's match joins.
pub open spec fn step_key(trips: Seq<TripInput>, s: (int, int, int)) -> (int, int) {
    segment_key(step_segment(trips, s))
}

/// The stop pairs that add rows, as `(target date, trip, pair)`, in the order of the
/// walk over the first `i` target dates from `first`, then the first `j` trips on the
/// next date, then the first `k` pairs of the next trip.
pub open spec fn walk(policy: DateMappingPolicy, trips: Seq<TripInput>, first: int, i: nat, j: nat, k: nat) -> Seq<
    (int, int, int),
>
    decreases i, j, k,
{
    if k > 0 {
        let prev = walk(policy, trips, first, i, j, (k - 1) as nat);
        if j < trips.len() && k - 1 < trips[j as int].segments@.len() && recorded_step(
            policy,
            trips[j as int],
            k - 1,
        ) {
            prev.push((first + i, j as int, k - 1))
        } else {
            prev
        }
    } else if j > 0 {
        walk(
            policy,
            trips,
            first,
            i,
            (j - 1) as nat,
            if j - 1 < trips.len() {
                trips[j - 1].segments@.len()
            } else {
                0
            },
        )
    } else if i > 0 {
        walk(policy, trips, first, (i - 1) as nat, trips.len(), 0)
    } else {
        Seq::empty()
    }
}

/// The number of target dates of a policy.
pub open spec fn date_count(policy: DateMappingPolicy) -> nat {
    if policy_dates(policy).0 <= policy_dates(policy).1 {
        (policy_dates(policy).1 - policy_dates(policy).0 + 1) as nat
    } else {
        0
    }
}

/// Every stop pair that adds a row, in walk order.
pub open spec fn all_walked(policy: DateMappingPolicy, trips: Seq<TripInput>) -> Seq<(int, int, int)> {
    walk(policy, trips, policy_dates(policy).0, date_count(policy), 0, 0)
}

/// The date mappings recorded by the walk over the first `i` target dates from
/// `first`, then the first `j` trips on the next date: for each trip whose picked date
/// differs from the target, its mapping, each recorded once, in order of first
/// appearance.
pub open spec fn walk_mappings(
    policy: DateMappingPolicy,
    feed_id: Option<String>,
    trips: Seq<TripInput>,
    first: int,
    i: nat,
    j: nat,
) -> Seq<MappingView>
    decreases i, j,
{
    if j > 0 {
        let prev = walk_mappings(policy, feed_id, trips, first, i, (j - 1) as nat);
        let d = first + i;
        if j - 1 < trips.len() {
            let t = trips[j - 1];
            let p = picked_day(policy, t.service, d);
            if p != d && !prev.contains(expected_mapping(feed_id, t, d, p)) {
                prev.push(expected_mapping(feed_id, t, d, p))
            } else {
                prev
            }
        } else {
            prev
        }
    } else if i > 0 {
        walk_mappings(policy, feed_id, trips, first, (i - 1) as nat, trips.len())
    } else {
        Seq::empty()
    }
}

/// Every date mapping the walk over all target dates records, in order.
pub open spec fn walked_mappings(policy: DateMappingPolicy, feed_id: Option<String>, trips: Seq<TripInput>) -> Seq<
    MappingView,
> {
    walk_mappings(policy, feed_id, trips, policy_dates(policy).0, date_count(policy), 0)
}

/// The pairs of vertices the walked steps join, each once, in order of first appearance.
pub open spec fn first_keys(trips: Seq<TripInput>, w: Seq<(int, int, int)>) -> Seq<(int, int)>
    decreases w.len(),
{
    if w.len() == 0 {
        Seq::empty()
    } else {
        let prev = first_keys(trips, w.drop_last());
        if prev.contains(step_key(trips, w.last())) {
            prev
        } else {
            prev.push(step_key(trips, w.last()))
        }
    }
}

/// The walked steps that join the pair `key`, in walk order.
pub open spec fn steps_on(trips: Seq<TripInput>, w: Seq<(int, int, int)>, key: (int, int)) -> Seq<(int, int, int)>
    decreases w.len(),
{
    if w.len() == 0 {
        Seq::empty()
    } else {
        let prev = steps_on(trips, w.drop_last(), key);
        if step_key(trips, w.last()) == key {
            prev.push(w.last())
        } else {
            prev
        }
    }
}

/// Row `t` of the edge at position `i` is the row of the `t`-th walked step joining
/// the edge's pair, on the date picked for its trip.
pub open spec fn edge_row_ok(
    policy: DateMappingPolicy,
    feed_id: Option<String>,
    trips: Seq<TripInput>,
    w: Seq<(int, int, int)>,
    es: Seq<GtfsEdge>,
    i: int,
    t: int,
) -> bool {
    let s = steps_on(trips, w, edge_key(es[i]))[t];
    trip_row(
        policy,
        feed_id,
        trips[s.1],
        s.2,
        picked_day(policy, trips[s.1].service, s.0),
        es[i],
        i,
        es[i].schedules@[t],
    )
}

/// The edges that recording the walked steps `w` builds: one per pair of vertices the
/// steps join, in order of first appearance, with the length and geometry of the first
/// match joining it, and one row per step joining it, in walk order.
pub open spec fn walked_edges(
    policy: DateMappingPolicy,
    feed_id: Option<String>,
    trips: Seq<TripInput>,
    w: Seq<(int, int, int)>,
    es: Seq<GtfsEdge>,
) -> bool {
    &&& es.len() == first_keys(trips, w).len()
    &&& forall|i: int| 0 <= i < es.len() ==> edge_key(#[trigger] es[i]) == first_keys(trips, w)[i]
    &&& forall|i: int|
        0 <= i < es.len() ==> (#[trigger] es[i]).schedules@.len() == steps_on(trips, w, edge_key(es[i])).len()
            && steps_on(trips, w, edge_key(es[i])).len() > 0 && segment_matches(
            step_segment(trips, steps_on(trips, w, edge_key(es[i]))[0]),
            es[i],
        )
    &&& forall|i: int, t: int|
        0 <= i < es.len() && 0 <= t < es[i].schedules@.len() ==> #[trigger] edge_row_ok(
            policy,
            feed_id,
            trips,
            w,
            es,
            i,
            t,
        )
}

/// A pair of vertices is among the first keys exactly when some walked step joins it.
proof fn lemma_first_keys_contains(trips: Seq<TripInput>, w: Seq<(int, int, int)>, key: (int, int))
    ensures
        first_keys(trips, w).contains(key) <==> exists|s: int| 0 <= s < w.len() && step_key(trips, #[trigger] w[s]) == key,
        first_keys(trips, w).no_duplicates(),
        !first_keys(trips, w).contains(key) ==> steps_on(trips, w, key).len() == 0,
    decreases w.len(),
{
    if w.len() > 0 {
        let p = w.drop_last();
        let lk = step_key(trips, w.last());
        let fp = first_keys(trips, p);
        let fk = first_keys(trips, w);
        lemma_first_keys_contains(trips, p, key);
        lemma_first_keys_contains(trips, p, lk);
        assert forall|s: int| 0 <= s < p.len() implies #[trigger] p[s] == w[s] by {}
        assert(w.last() == w[w.len() - 1]);
        assert(fk.contains(key) <==> (fp.contains(key) || lk == key)) by {
            if !fp.contains(lk) {
                assert(fk == fp.push(lk));
                if fp.contains(key) {
                    let x = choose|x: int| 0 <= x < fp.len() && fp[x] == key;
                    assert(fk[x] == key);
                }
                if lk == key {
                    assert(fk[fp.len() as int] == key);
                }
                if fk.contains(key) {
                    let x = choose|x: int| 0 <= x < fk.len() && fk[x] == key;
                    if x < fp.len() {
                        assert(fp[x] == key);
                    }
                }
            }
        }
        assert((exists|s: int| 0 <= s < w.len() && step_key(trips, #[trigger] w[s]) == key) <==> ((exists|s: int|
            0 <= s < p.len() && step_key(trips, #[trigger] p[s]) == key) || lk == key)) by {
            if exists|s: int| 0 <= s < w.len() && step_key(trips, #[trigger] w[s]) == key {
                let s = choose|s: int| 0 <= s < w.len() && step_key(trips, #[trigger] w[s]) == key;
                if s < p.len() {
                    assert(step_key(trips, p[s]) == key);
                }
            }
            if exists|s: int| 0 <= s < p.len() && step_key(trips, #[trigger] p[s]) == key {
                let s = choose|s: int| 0 <= s < p.len() && step_key(trips, #[trigger] p[s]) == key;
                assert(step_key(trips, w[s]) == key);
            }
            if lk == key {
                assert(step_key(trips, w[w.len() - 1]) == key);
            }
        }
        if !fp.contains(lk) {
            assert(fk == fp.push(lk));
            assert forall|a: int, b: int| 0 <= a < fk.len() && 0 <= b < fk.len() && a != b implies fk[a] != fk[b] by {
                if a < fp.len() && b < fp.len() {
                } else if a < fp.len() {
                    assert(fp.contains(fp[a]));
                } else if b < fp.len() {
                    assert(fp.contains(fp[b]));
                }
            }
        }
        if !fk.contains(key) {
            assert(lk != key);
            assert(steps_on(trips, w, key) == steps_on(trips, p, key));
        }
    }
}

/// Adding a walked step joining an existing pair leaves the first keys as they are and
/// adds the step to that pair's steps; a new pair is added at the end.
proof fn lemma_walk_push(trips: Seq<TripInput>, w: Seq<(int, int, int)>, e: (int, int, int), key: (int, int))
    ensures
        first_keys(trips, w.push(e)) == (if first_keys(trips, w).contains(step_key(trips, e)) {
            first_keys(trips, w)
        } else {
            first_keys(trips, w).push(step_key(trips, e))
        }),
        steps_on(trips, w.push(e), key) == (if step_key(trips, e) == key {
            steps_on(trips, w, key).push(e)
        } else {
            steps_on(trips, w, key)
        }),
{
    assert(w.push(e).drop_last() =~= w);
    assert(w.push(e).last() == e);
}

/// What recording rows along the edge for a segment keeps and adds.
proof fn lemma_extended_facts(old: Seq<GtfsEdge>, new: Seq<GtfsEdge>, seg: MatchedSegment, rows: Seq<ScheduleRow>)
    requires
        extended(old, new, seg, rows),
    ensures
        0 <= target_position(old, seg) <= old.len(),
        target_position(old, seg) < new.len(),
        edge_key(new[target_position(old, seg)]) == segment_key(seg),
        new[target_position(old, seg)].schedules@ == (if target_position(old, seg) < old.len() {
            old[target_position(old, seg)].schedules@
        } else {
            Seq::empty()
        }) + rows,
        target_position(old, seg) < old.len() ==> new[target_position(old, seg)].edge == old[target_position(
            old,
            seg,
        )].edge && new[target_position(old, seg)].geometry@ == old[target_position(old, seg)].geometry@,
        target_position(old, seg) == old.len() ==> segment_matches(seg, new[target_position(old, seg)]),
        forall|i: int| 0 <= i < new.len() && i != target_position(old, seg) ==> i < old.len() && #[trigger] new[i] == old[i],
        forall|i: int| 0 <= i < old.len() ==> edge_key(#[trigger] new[i]) == edge_key(old[i]),
        forall|i: int, r: int|
            0 <= i < old.len() && 0 <= r < old[i].schedules@.len() ==> r < new[i].schedules@.len()
                && #[trigger] new[i].schedules@[r] == old[i].schedules@[r],
{
    let tp = target_position(old, seg);
    if let Some(q) = position_of(old, segment_key(seg)) {
        assert(0 <= q < old.len() && edge_key(old[q]) == segment_key(seg));
    }
    assert forall|i: int, r: int|
        0 <= i < old.len() && 0 <= r < old[i].schedules@.len() implies r < new[i].schedules@.len()
            && #[trigger] new[i].schedules@[r] == old[i].schedules@[r] by {
        if i == tp {
            assert(new[i].schedules@ == old[i].schedules@ + rows);
        }
    }
}

/// Recording the row of one stop pair keeps every earlier row, edge and step, and
/// records the pair.
proof fn lemma_record_step(
    policy: DateMappingPolicy,
    feed_id: Option<String>,
    trips: Seq<TripInput>,
    old: Seq<GtfsEdge>,
    new: Seq<GtfsEdge>,
    first: int,
    i: int,
    j: int,
    k: int,
    p: int,
)
    requires
        first == policy_dates(policy).0,
        first + i <= policy_dates(policy).1,
        0 <= i,
        0 <= j < trips.len(),
        0 <= k < trips[j].segments@.len(),
        trip_input_wf(trips[j]),
        picked(policy, trips[j].service, first + i, p),
        in_window(policy, trips[j].trip.stop_times@[k], trips[j].trip.stop_times@[k + 1]),
        trips[j].segments@[k] is Some,
        trips[j].route_agency is Some,
        pair_times(trips[j].trip.stop_times@[k], trips[j].trip.stop_times@[k + 1]) is Some,
        extended(
            old,
            new,
            trips[j].segments@[k]->Some_0,
            seq![new[target_position(old, trips[j].segments@[k]->Some_0)].schedules@.last()],
        ),
        recorded_row(
            new[target_position(old, trips[j].segments@[k]->Some_0)].schedules@.last(),
            target_position(old, trips[j].segments@[k]->Some_0),
            feed_id,
            trips[j].trip,
            trips[j].route_agency->Some_0,
            pair_times(trips[j].trip.stop_times@[k], trips[j].trip.stop_times@[k + 1])->Some_0.0,
            pair_times(trips[j].trip.stop_times@[k], trips[j].trip.stop_times@[k + 1])->Some_0.1,
            p,
        ),
        rows_sound(policy, feed_id, trips, old),
        edges_sound(trips, old),
        steps_recorded(policy, feed_id, trips, old, first, i, j, k),
    ensures
        rows_sound(policy, feed_id, trips, new),
        edges_sound(trips, new),
        steps_recorded(policy, feed_id, trips, new, first, i, j, k + 1),
{
    let seg = trips[j].segments@[k]->Some_0;
    let tp = target_position(old, seg);
    let last = new[tp].schedules@.last();
    lemma_extended_facts(old, new, seg, seq![last]);
    let t = new[tp].schedules@.len() - 1;
    assert(new[tp].schedules@[t] == last);
    assert(trip_row(policy, feed_id, trips[j], k, p, new[tp], tp, last));
    assert forall|a: int, r: int| 0 <= a < new.len() && 0 <= r < new[a].schedules@.len() implies #[trigger] row_justified(
        policy,
        feed_id,
        trips,
        new[a],
        a,
        new[a].schedules@[r],
    ) by {
        if a == tp && r == t {
            assert(picked(policy, trips[j].service, first + i, p));
        } else {
            assert(a < old.len() && r < old[a].schedules@.len());
            assert(new[a].schedules@[r] == old[a].schedules@[r]);
            assert(row_justified(policy, feed_id, trips, old[a], a, old[a].schedules@[r]));
            let (d, jj, kk, pp) = choose|d: int, jj: int, kk: int, pp: int|
                #![trigger picked(policy, trips[jj].service, d, pp), trip_row(policy, feed_id, trips[jj], kk, pp, old[a], a, old[a].schedules@[r])]
                policy_dates(policy).0 <= d <= policy_dates(policy).1 && 0 <= jj < trips.len() && 0 <= kk
                    < trips[jj].segments@.len() && picked(policy, trips[jj].service, d, pp) && trip_row(
                    policy,
                    feed_id,
                    trips[jj],
                    kk,
                    pp,
                    old[a],
                    a,
                    old[a].schedules@[r],
                );
            assert(edge_key(new[a]) == edge_key(old[a]));
            assert(trip_row(policy, feed_id, trips[jj], kk, pp, new[a], a, new[a].schedules@[r]));
        }
    }
    assert forall|a: int| 0 <= a < new.len() implies #[trigger] edge_justified(trips, new[a]) by {
        if a == tp {
            if tp < old.len() {
                assert(edge_justified(trips, old[a]));
                let (jj, kk) = choose|jj: int, kk: int|
                    0 <= jj < trips.len() && 0 <= kk < trips[jj].segments@.len() && trips[jj].segments@[kk] is Some
                        && #[trigger] segment_matches(trips[jj].segments@[kk]->Some_0, old[a]);
                assert(segment_matches(trips[jj].segments@[kk]->Some_0, new[a]));
            } else {
                assert(segment_matches(trips[j].segments@[k]->Some_0, new[a]));
            }
        } else {
            assert(new[a] == old[a]);
            assert(edge_justified(trips, old[a]));
        }
    }
    assert forall|d: int, jj: int, kk: int|
        step_done(first, i, j, k + 1, d, jj, kk) && 0 <= jj < trips.len() && 0 <= kk < trips[jj].segments@.len()
            implies #[trigger] step_recorded(policy, feed_id, trips, new, d, jj, kk) by {
        if d == first + i && jj == j && kk == k {
            assert(new[tp].schedules@[t] == last);
            assert(picked(policy, trips[j].service, d, p));
            assert(trip_row(policy, feed_id, trips[j], k, p, new[tp], tp, new[tp].schedules@[t]));
        } else {
            assert(step_done(first, i, j, k, d, jj, kk));
            assert(step_recorded(policy, feed_id, trips, old, d, jj, kk));
            let tt = trips[jj];
            if in_window(policy, tt.trip.stop_times@[kk], tt.trip.stop_times@[kk + 1]) && tt.segments@[kk] is Some {
                let (pp, a, r) = choose|pp: int, a: int, r: int|
                    #![trigger picked(policy, tt.service, d, pp), trip_row(policy, feed_id, tt, kk, pp, old[a], a, old[a].schedules@[r])]
                    picked(policy, tt.service, d, pp) && 0 <= a < old.len() && 0 <= r < old[a].schedules@.len()
                        && trip_row(policy, feed_id, tt, kk, pp, old[a], a, old[a].schedules@[r]);
                assert(new[a].schedules@[r] == old[a].schedules@[r]);
                assert(edge_key(new[a]) == edge_key(old[a]));
                assert(trip_row(policy, feed_id, tt, kk, pp, new[a], a, new[a].schedules@[r]));
            }
        }
    }
}

/// Recording the row of a walked step extends the edges of the walk so far to those of
/// the walk with that step.
proof fn lemma_walk_record(
    policy: DateMappingPolicy,
    feed_id: Option<String>,
    trips: Seq<TripInput>,
    w: Seq<(int, int, int)>,
    old: Seq<GtfsEdge>,
    new: Seq<GtfsEdge>,
    d: int,
    j: int,
    k: int,
)
    requires
        0 <= j < trips.len(),
        0 <= k < trips[j].segments@.len(),
        trips[j].segments@[k] is Some,
        in_window(policy, trips[j].trip.stop_times@[k], trips[j].trip.stop_times@[k + 1]),
        trips[j].route_agency is Some,
        pair_times(trips[j].trip.stop_times@[k], trips[j].trip.stop_times@[k + 1]) is Some,
        extended(
            old,
            new,
            trips[j].segments@[k]->Some_0,
            seq![new[target_position(old, trips[j].segments@[k]->Some_0)].schedules@.last()],
        ),
        recorded_row(
            new[target_position(old, trips[j].segments@[k]->Some_0)].schedules@.last(),
            target_position(old, trips[j].segments@[k]->Some_0),
            feed_id,
            trips[j].trip,
            trips[j].route_agency->Some_0,
            pair_times(trips[j].trip.stop_times@[k], trips[j].trip.stop_times@[k + 1])->Some_0.0,
            pair_times(trips[j].trip.stop_times@[k], trips[j].trip.stop_times@[k + 1])->Some_0.1,
            picked_day(policy, trips[j].service, d),
        ),
        walked_edges(policy, feed_id, trips, w, old),
    ensures
        walked_edges(policy, feed_id, trips, w.push((d, j, k)), new),
{
    let e = (d, j, k);
    let seg = trips[j].segments@[k]->Some_0;
    let key = segment_key(seg);
    let tp = target_position(old, seg);
    let w2 = w.push(e);
    let fk = first_keys(trips, w);
    assert(step_segment(trips, e) == seg);
    assert(step_key(trips, e) == key);
    lemma_extended_facts(old, new, seg, seq![new[tp].schedules@.last()]);
    lemma_first_keys_contains(trips, w, key);
    lemma_walk_push(trips, w, e, key);
    let last = new[tp].schedules@.last();
    assert forall|i: int| 0 <= i < old.len() && edge_key(old[i]) == key implies i == tp by {
        assert(fk[i] == key);
        if let Some(q) = position_of(old, key) {
            assert(edge_key(old[q]) == key);
            assert(fk[q] == key);
        } else {
            assert(edge_key(old[i]) == key);
        }
    }
    if fk.contains(key) {
        let x = choose|x: int| 0 <= x < fk.len() && fk[x] == key;
        assert(edge_key(old[x]) == key);
        assert(tp < old.len());
    } else {
        assert forall|i: int| 0 <= i < old.len() implies edge_key(#[trigger] old[i]) != key by {
            assert(fk[i] == edge_key(old[i]));
        }
        if let Some(q) = position_of(old, key) {
            assert(edge_key(old[q]) == key);
        }
        assert(tp == old.len());
        assert(steps_on(trips, w, key).len() == 0);
    }
    let fk2 = first_keys(trips, w2);
    assert forall|i: int| 0 <= i < new.len() implies edge_key(#[trigger] new[i]) == fk2[i] by {
        if i < old.len() {
            assert(edge_key(new[i]) == edge_key(old[i]));
        }
    }
    assert forall|i: int| 0 <= i < new.len() implies (#[trigger] new[i]).schedules@.len() == steps_on(
        trips,
        w2,
        edge_key(new[i]),
    ).len() && steps_on(trips, w2, edge_key(new[i])).len() > 0 && segment_matches(
        step_segment(trips, steps_on(trips, w2, edge_key(new[i]))[0]),
        new[i],
    ) by {
        lemma_walk_push(trips, w, e, edge_key(new[i]));
        if i == tp {
            if tp < old.len() {
                assert(old[i].schedules@.len() == steps_on(trips, w, key).len());
                assert(steps_on(trips, w2, key)[0] == steps_on(trips, w, key)[0]);
                assert(segment_matches(step_segment(trips, steps_on(trips, w, key)[0]), old[i]));
            } else {
                assert(steps_on(trips, w2, key) =~= seq![e]);
            }
        } else {
            assert(i < old.len() && new[i] == old[i]);
            assert(edge_key(old[i]) != key);
        }
    }
    assert forall|i: int, t: int| 0 <= i < new.len() && 0 <= t < new[i].schedules@.len() implies #[trigger] edge_row_ok(
        policy,
        feed_id,
        trips,
        w2,
        new,
        i,
        t,
    ) by {
        lemma_walk_push(trips, w, e, edge_key(new[i]));
        if i == tp {
            if tp < old.len() && t < old[i].schedules@.len() {
                assert(edge_row_ok(policy, feed_id, trips, w, old, i, t));
                assert(new[i].schedules@[t] == old[i].schedules@[t]);
                assert(steps_on(trips, w2, key)[t] == steps_on(trips, w, key)[t]);
            } else {
                assert(t == steps_on(trips, w, key).len());
                assert(steps_on(trips, w2, key)[t] == e);
                assert(new[i].schedules@[t] == last);
            }
        } else {
            assert(i < old.len() && new[i] == old[i]);
            assert(edge_key(old[i]) != key);
            assert(edge_row_ok(policy, feed_id, trips, w, old, i, t));
        }
    }
}

/// A stop pair that leaves no row leaves every step recorded.
proof fn lemma_skip_step(
    policy: DateMappingPolicy,
    feed_id: Option<String>,
    trips: Seq<TripInput>,
    es: Seq<GtfsEdge>,
    first: int,
    i: int,
    j: int,
    k: int,
)
    requires
        0 <= j < trips.len(),
        !(in_window(policy, trips[j].trip.stop_times@[k], trips[j].trip.stop_times@[k + 1])
            && trips[j].segments@[k] is Some),
        steps_recorded(policy, feed_id, trips, es, first, i, j, k),
    ensures
        steps_recorded(policy, feed_id, trips, es, first, i, j, k + 1),
{
    assert forall|d: int, jj: int, kk: int|
        step_done(first, i, j, k + 1, d, jj, kk) && 0 <= jj < trips.len() && 0 <= kk < trips[jj].segments@.len()
            implies #[trigger] step_recorded(policy, feed_id, trips, es, d, jj, kk) by {
        if !(d == first + i && jj == j && kk == k) {
            assert(step_done(first, i, j, k, d, jj, kk));
        }
    }
}

/// All pairs of a trip walked, the walk goes on with the next trip.
proof fn lemma_next_trip(
    policy: DateMappingPolicy,
    feed_id: Option<String>,
    trips: Seq<TripInput>,
    es: Seq<GtfsEdge>,
    first: int,
    i: int,
    j: int,
)
    requires
        0 <= j < trips.len(),
        steps_recorded(policy, feed_id, trips, es, first, i, j, trips[j].segments@.len() as int),
    ensures
        steps_recorded(policy, feed_id, trips, es, first, i, j + 1, 0),
{
    assert forall|d: int, jj: int, kk: int|
        step_done(first, i, j + 1, 0, d, jj, kk) && 0 <= jj < trips.len() && 0 <= kk < trips[jj].segments@.len()
            implies #[trigger] step_recorded(policy, feed_id, trips, es, d, jj, kk) by {
        assert(step_done(first, i, j, trips[j].segments@.len() as int, d, jj, kk));
    }
}

/// All trips walked on a target date, the walk goes on with the next date.
proof fn lemma_next_date(
    policy: DateMappingPolicy,
    feed_id: Option<String>,
    trips: Seq<TripInput>,
    es: Seq<GtfsEdge>,
    first: int,
    i: int,
)
    requires
        steps_recorded(policy, feed_id, trips, es, first, i, trips.len() as int, 0),
    ensures
        steps_recorded(policy, feed_id, trips, es, first, i + 1, 0, 0),
{
    assert forall|d: int, jj: int, kk: int|
        step_done(first, i + 1, 0, 0, d, jj, kk) && 0 <= jj < trips.len() && 0 <= kk < trips[jj].segments@.len()
            implies #[trigger] step_recorded(policy, feed_id, trips, es, d, jj, kk) by {
        assert(step_done(first, i, trips.len() as int, 0, d, jj, kk));
    }
}

/// Builds the transit edges and date mappings of one archive: for each target date of
/// the policy and each trip, the date picked for the trip, a date mapping when it
/// differs from the target, and the schedule rows of the trip's consecutive stop pairs
/// as [`process_schedule`] records them. Edges are numbered in order of creation, that
/// is of the first stop pair matched onto their pair of vertices ([`walked_edges`]);
/// the walk stops at the first trip that fails ([`trip_error`]).
pub fn process_trips(
    policy: &DateMappingPolicy,
    trips: &Vec<TripInput>,
    feed_id: &Option<String>,
    missing_stop_location_policy: MissingStopLocationPolicy,
) -> (r: Result<(Vec<GtfsEdge>, Vec<DateMapping>), ScheduleError>)
    requires
        policy_wf(*policy),
        forall|j: int| 0 <= j < trips@.len() ==> trip_input_wf(#[trigger] trips@[j]),
    ensures
        r is Ok <==> all_trips_ok(*policy, trips@, missing_stop_location_policy),
        r matches Err(e) ==> exists|d: int, j: int|
            policy_dates(*policy).0 <= d <= policy_dates(*policy).1 && 0 <= j < trips@.len() && walked_ok_before(
                *policy,
                trips@,
                missing_stop_location_policy,
                d,
                j,
            ) && #[trigger] trip_error(*policy, trips@[j], d, missing_stop_location_policy, e),
        r is Ok ==> forall|d: int, j: int|
            policy_dates(*policy).0 <= d <= policy_dates(*policy).1 && 0 <= j < trips@.len()
                ==> #[trigger] pick_ok(*policy, trips@[j].service, d),
        r matches Ok((edges, mappings)) ==> {
            &&& numbered_edges(edges@)
            &&& mapping_views(mappings@) == walked_mappings(*policy, *feed_id, trips@)
            &&& mapping_views(mappings@).no_duplicates()
            &&& forall|v: MappingView|
                #[trigger] mapping_set(mappings@).contains(v) ==> mapping_justified(
                    *policy,
                    *feed_id,
                    trips@,
                    |d: int, j: int| policy_dates(*policy).0 <= d <= policy_dates(*policy).1,
                    v,
                )
            &&& forall|d: int, j: int|
                policy_dates(*policy).0 <= d <= policy_dates(*policy).1 && 0 <= j < trips@.len()
                    ==> #[trigger] date_served(*policy, *feed_id, mappings@, trips@[j], d)
            &&& rows_sound(*policy, *feed_id, trips@, edges@)
            &&& edges_sound(trips@, edges@)
            &&& all_steps_recorded(*policy, *feed_id, trips@, edges@)
            &&& walked_edges(*policy, *feed_id, trips@, all_walked(*policy, trips@), edges@)
        },
{
    let dates = policy.iter();
    let mut acc = EdgeAccumulator::new();
    let mut mappings: Vec<DateMapping> = Vec::new();
    let ghost first = policy_dates(*policy).0;
    let ghost last = policy_dates(*policy).1;
    let ghost owed = all_trips_ok(*policy, trips@, missing_stop_location_policy);
    let mut i: usize = 0;
    while i < dates.len()
        invariant
            owed == all_trips_ok(*policy, trips@, missing_stop_location_policy),
            policy_wf(*policy),
            forall|j: int| 0 <= j < trips@.len() ==> trip_input_wf(#[trigger] trips@[j]),
            i <= dates@.len(),
            forall|t: int| 0 <= t < dates@.len() ==> (#[trigger] dates@[t]).days == first + t && dates@[t].wf(),
            first == policy_dates(*policy).0,
            last == policy_dates(*policy).1,
            dates@.len() == (if first <= last { last - first + 1 } else { 0 }),
            acc.wf(),
            rows_sound(*policy, *feed_id, trips@, acc.spec_edges()),
            edges_sound(trips@, acc.spec_edges()),
            steps_recorded(*policy, *feed_id, trips@, acc.spec_edges(), first, i as int, 0, 0),
            walked_edges(*policy, *feed_id, trips@, walk(*policy, trips@, first, i as nat, 0, 0), acc.spec_edges()),
            mapping_views(mappings@) == walk_mappings(*policy, *feed_id, trips@, first, i as nat, 0),
            forall|d: int, j: int|
                first <= d < first + i && 0 <= j < trips@.len() ==> #[trigger] trip_ok(
                    *policy,
                    d,
                    trips@[j],
                    missing_stop_location_policy,
                ),
            mapping_views(mappings@).no_duplicates(),
            forall|d: int, j: int|
                first <= d < first + i && 0 <= j < trips@.len() ==> #[trigger] pick_ok(
                    *policy,
                    trips@[j].service,
                    d,
                ),
            forall|v: MappingView|
                #[trigger] mapping_set(mappings@).contains(v) ==> mapping_justified(
                    *policy,
                    *feed_id,
                    trips@,
                    |d: int, j: int| first <= d < first + i,
                    v,
                ),
            forall|d: int, j: int|
                first <= d < first + i && 0 <= j < trips@.len() ==> #[trigger] date_served(
                    *policy,
                    *feed_id,
                    mappings@,
                    trips@[j],
                    d,
                ),
        decreases dates@.len() - i,
    {
        let target = &dates[i];
        let mut j: usize = 0;
        while j < trips.len()
            invariant
                owed == all_trips_ok(*policy, trips@, missing_stop_location_policy),
                first == policy_dates(*policy).0,
                last == policy_dates(*policy).1,
                dates@.len() == (if first <= last { last - first + 1 } else { 0 }),
                policy_wf(*policy),
                forall|j: int| 0 <= j < trips@.len() ==> trip_input_wf(#[trigger] trips@[j]),
                i < dates@.len(),
                j <= trips@.len(),
                *target == dates@[i as int],
                target.days == first + i,
                target.wf(),
                acc.wf(),
                rows_sound(*policy, *feed_id, trips@, acc.spec_edges()),
                edges_sound(trips@, acc.spec_edges()),
                steps_recorded(*policy, *feed_id, trips@, acc.spec_edges(), first, i as int, j as int, 0),
                walked_edges(
                    *policy,
                    *feed_id,
                    trips@,
                    walk(*policy, trips@, first, i as nat, j as nat, 0),
                    acc.spec_edges(),
                ),
                mapping_views(mappings@) == walk_mappings(*policy, *feed_id, trips@, first, i as nat, j as nat),
                forall|d: int, jj: int|
                    ((first <= d < first + i && 0 <= jj < trips@.len()) || (d == first + i && 0 <= jj
                        < j)) ==> #[trigger] trip_ok(*policy, d, trips@[jj], missing_stop_location_policy),
                mapping_views(mappings@).no_duplicates(),
                forall|d: int, jj: int|
                    ((first <= d < first + i && 0 <= jj < trips@.len()) || (d == first + i && 0 <= jj
                        < j)) ==> #[trigger] pick_ok(*policy, trips@[jj].service, d),
                forall|v: MappingView|
                    #[trigger] mapping_set(mappings@).contains(v) ==> mapping_justified(
                        *policy,
                        *feed_id,
                        trips@,
                        |d: int, jj: int| (first <= d < first + i) || (d == first + i && 0 <= jj < j),
                        v,
                    ),
                forall|d: int, jj: int|
                    ((first <= d < first + i && 0 <= jj < trips@.len()) || (d == first + i && 0 <= jj
                        < j)) ==> #[trigger] date_served(*policy, *feed_id, mappings@, trips@[jj], d),
            decreases trips@.len() - j,
        {
            let input = &trips[j];
            assert(trip_input_wf(trips@[j as int]));
            proof {
                if owed {
                    assert(trip_ok(*policy, target.days as int, trips@[j as int], missing_stop_location_policy));
                }
            }
            let picked_date = match policy.pick_date(target, &input.trip, &input.service) {
                Ok(d) => d,
                Err(e) => {
                    proof {
                        assert(walked_ok_before(*policy, trips@, missing_stop_location_policy, target.days as int, j as int));
                        assert(trip_error(*policy, trips@[j as int], target.days as int, missing_stop_location_policy, e));
                    }
                    return Err(e);
                },
            };
            proof {
                if owed {
                    assert(picked(*policy, trips@[j as int].service, target.days as int, picked_date.days as int));
                }
            }
            let ghost before = mappings@;
            let ghost td = target.days as int;
            let ghost pd = picked_date.days as int;
            proof {
                let svc = trips@[j as int].service;
                assert(picked(*policy, svc, td, pd));
                lemma_picked_unique(*policy, svc, td, picked_day(*policy, svc, td), pd);
            }
            if picked_date.days != target.days {
                let agency = match &input.route_agency {
                    Some(a) => a,
                    None => {
                        let mut out: Vec<char> = Vec::new();
                        push_str(&mut out, "trip ");
                        push_str(&mut out, input.trip.trip_id.as_str());
                        push_str(&mut out, " references route id ");
                        push_str(&mut out, input.trip.route_id.as_str());
                        push_str(&mut out, " that does not exist");
                        let e = ScheduleError::MalformedGtfs(string_of(&out));
                        proof {
                            reveal_strlit("trip ");
                            reveal_strlit(" references route id ");
                            reveal_strlit(" that does not exist");
                            assert(picked(*policy, trips@[j as int].service, td, pd));
                            assert(walked_ok_before(*policy, trips@, missing_stop_location_policy, td, j as int));
                            assert(trip_error(*policy, trips@[j as int], td, missing_stop_location_policy, e));
                        }
                        return Err(e);
                    },
                };
                let dm = DateMapping {
                    feed_id: clone_opt_string(feed_id),
                    agency_id: clone_opt_string(agency),
                    route_id: input.trip.route_id.clone(),
                    service_id: input.trip.service_id.clone(),
                    target_date: *target,
                    picked_date,
                };
                proof {
                    assert(mapping_view(dm) == expected_mapping(*feed_id, trips@[j as int], td, pd));
                }
                if !holds_mapping(&mappings, &dm) {
                    mappings.push(dm);
                    proof {
                        let vb = mapping_views(before);
                        let va = mapping_views(mappings@);
                        assert(va =~= vb.push(mapping_view(dm)));
                        assert forall|y: MappingView| va.contains(y) <==> (vb.contains(y) || y == mapping_view(dm)) by {
                            if va.contains(y) {
                                let t = choose|t: int| 0 <= t < va.len() && va[t] == y;
                                if t < vb.len() {
                                    assert(vb[t] == y);
                                }
                            }
                            if vb.contains(y) {
                                let t = choose|t: int| 0 <= t < vb.len() && vb[t] == y;
                                assert(va[t] == y);
                            }
                            if y == mapping_view(dm) {
                                assert(va[vb.len() as int] == y);
                            }
                        }
                        assert(mapping_set(mappings@) =~= mapping_set(before).insert(mapping_view(dm)));
                    }
                }
                proof {
                    assert(mapping_set(mappings@).contains(expected_mapping(*feed_id, trips@[j as int], td, pd)));
                }
            }
            proof {
                let prev = walk_mappings(*policy, *feed_id, trips@, first, i as nat, j as nat);
                let v = expected_mapping(*feed_id, trips@[j as int], td, pd);
                assert(mapping_set(before).contains(v) <==> prev.contains(v));
                assert(mapping_views(mappings@) == walk_mappings(
                    *policy,
                    *feed_id,
                    trips@,
                    first,
                    i as nat,
                    (j + 1) as nat,
                ));
                assert(mapping_set(before).subset_of(mapping_set(mappings@)));
                assert(date_served(*policy, *feed_id, mappings@, trips@[j as int], td));
                assert forall|d: int, jj: int|
                    ((first <= d < first + i && 0 <= jj < trips@.len()) || (d == first + i && 0 <= jj
                        < j + 1)) implies #[trigger] date_served(*policy, *feed_id, mappings@, trips@[jj], d) by {
                    if !(d == td && jj == j) {
                        lemma_served_grows(*policy, *feed_id, before, mappings@, trips@[jj], d);
                    }
                }
                assert forall|v: MappingView|
                    #[trigger] mapping_set(mappings@).contains(v) implies mapping_justified(
                        *policy,
                        *feed_id,
                        trips@,
                        |d: int, jj: int| (first <= d < first + i) || (d == first + i && 0 <= jj < j + 1),
                        v,
                    ) by {
                    if mapping_set(before).contains(v) {
                        let (d, jj, p) = choose|d: int, jj: int, p: int|
                            ((first <= d < first + i) || (d == first + i && 0 <= jj < j)) && 0 <= jj < trips@.len()
                                && p != d && picked(*policy, trips@[jj].service, d, p) && v
                                == #[trigger] expected_mapping(*feed_id, trips@[jj], d, p);
                        assert(v == expected_mapping(*feed_id, trips@[jj], d, p));
                    } else {
                        assert(v == expected_mapping(*feed_id, trips@[j as int], td, pd));
                    }
                }
            }
            proof {
                let svc = trips@[j as int].service;
                assert(picked(*policy, svc, td, pd));
                lemma_picked_unique(*policy, svc, td, picked_day(*policy, svc, td), pd);
                assert(walk(*policy, trips@, first, i as nat, j as nat, 0) == walk(*policy, trips@, first, i as nat, j as nat, 0));
            }
            let stops = &input.trip.stop_times;
            let mut k: usize = 0;
            while k < input.segments.len()
                invariant
                    owed == all_trips_ok(*policy, trips@, missing_stop_location_policy),
                    owed ==> trip_steps_ok(*policy, picked_date.days as int, *input, missing_stop_location_policy),
                    trip_input_wf(*input),
                    stops@ == input.trip.stop_times@,
                    picked_date.wf(),
                    k <= input.segments@.len(),
                    acc.wf(),
                    j < trips@.len(),
                    *input == trips@[j as int],
                    first == policy_dates(*policy).0,
                    first + i <= policy_dates(*policy).1,
                    picked(*policy, trips@[j as int].service, first + i, picked_date.days as int),
                    pick_ok(*policy, trips@[j as int].service, first + i),
                    picked_date.days != first + i ==> trips@[j as int].route_agency is Some,
                    walked_ok_before(*policy, trips@, missing_stop_location_policy, first + i, j as int),
                    rows_sound(*policy, *feed_id, trips@, acc.spec_edges()),
                    edges_sound(trips@, acc.spec_edges()),
                    steps_recorded(*policy, *feed_id, trips@, acc.spec_edges(), first, i as int, j as int, k as int),
                    picked_date.days == picked_day(*policy, trips@[j as int].service, first + i),
                    walked_edges(
                        *policy,
                        *feed_id,
                        trips@,
                        walk(*policy, trips@, first, i as nat, j as nat, k as nat),
                        acc.spec_edges(),
                    ),
                    forall|kk: int|
                        0 <= kk < k ==> #[trigger] step_ok(
                            *policy,
                            picked_date.days as int,
                            input.trip.stop_times@[kk],
                            input.trip.stop_times@[kk + 1],
                            input.route_agency,
                            input.segments@[kk],
                            missing_stop_location_policy,
                        ),
                decreases input.segments@.len() - k,
            {
                proof {
                    if owed {
                        assert(step_ok(
                            *policy,
                            picked_date.days as int,
                            input.trip.stop_times@[k as int],
                            input.trip.stop_times@[k + 1],
                            input.route_agency,
                            input.segments@[k as int],
                            missing_stop_location_policy,
                        ));
                    }
                }
                let ghost before_k = acc.spec_edges();
                match process_schedule(
                    &picked_date,
                    &stops[k],
                    &stops[k + 1],
                    &input.trip,
                    feed_id,
                    &input.route_agency,
                    policy,
                    &input.segments[k],
                    missing_stop_location_policy,
                    &mut acc,
                ) {
                    Ok(_) => {
                        proof {
                            let t = trips@[j as int];
                            assert(stops@[k as int] == t.trip.stop_times@[k as int]);
                            assert(stops@[k + 1] == t.trip.stop_times@[k + 1]);
                            assert(step_ok(
                                *policy,
                                picked_date.days as int,
                                input.trip.stop_times@[k as int],
                                input.trip.stop_times@[k + 1],
                                input.route_agency,
                                input.segments@[k as int],
                                missing_stop_location_policy,
                            ));
                            let ghost wk = walk(*policy, trips@, first, i as nat, j as nat, k as nat);
                            assert(walk(*policy, trips@, first, i as nat, j as nat, (k + 1) as nat) == if recorded_step(
                                *policy,
                                t,
                                k as int,
                            ) {
                                wk.push((first + i, j as int, k as int))
                            } else {
                                wk
                            });
                            if in_window(*policy, t.trip.stop_times@[k as int], t.trip.stop_times@[k + 1])
                                && t.segments@[k as int] is Some {
                                lemma_walk_record(
                                    *policy,
                                    *feed_id,
                                    trips@,
                                    wk,
                                    before_k,
                                    acc.spec_edges(),
                                    first + i,
                                    j as int,
                                    k as int,
                                );
                                lemma_record_step(
                                    *policy,
                                    *feed_id,
                                    trips@,
                                    before_k,
                                    acc.spec_edges(),
                                    first,
                                    i as int,
                                    j as int,
                                    k as int,
                                    picked_date.days as int,
                                );
                            } else {
                                lemma_skip_step(*policy, *feed_id, trips@, acc.spec_edges(), first, i as int, j as int, k as int);
                            }
                        }
                    },
                    Err(e) => {
                        proof {
                            let t = trips@[j as int];
                            assert(stops@[k as int] == t.trip.stop_times@[k as int]);
                            assert(stops@[k + 1] == t.trip.stop_times@[k + 1]);
                            assert(step_error(
                                *policy,
                                picked_date.days as int,
                                t.trip.stop_times@[k as int],
                                t.trip.stop_times@[k + 1],
                                t.trip,
                                t.route_agency,
                                t.segments@[k as int],
                                missing_stop_location_policy,
                                e,
                            ));
                            assert(trip_error(*policy, t, first + i, missing_stop_location_policy, e));
                            if owed {
                                let src = input.trip.stop_times@[k as int];
                                let dst = input.trip.stop_times@[k + 1];
                                assert(stops@[k as int] == src);
                                assert(stops@[k + 1] == dst);
                                assert(in_window(*policy, src, dst));
                                assert(input.segments@[k as int] is Some);
                                assert(pair_times(src, dst) is Some);
                            }
                        }
                        return Err(e);
                    },
                }
                k = k + 1;
            }
            proof {
                assert(walk(*policy, trips@, first, i as nat, (j + 1) as nat, 0) == walk(
                    *policy,
                    trips@,
                    first,
                    i as nat,
                    j as nat,
                    trips@[j as int].segments@.len(),
                ));
                lemma_next_trip(*policy, *feed_id, trips@, acc.spec_edges(), first, i as int, j as int);
                assert forall|p: int| #[trigger] picked(*policy, trips@[j as int].service, td, p) implies (p != td
                    ==> trips@[j as int].route_agency is Some) && trip_steps_ok(
                    *policy,
                    p,
                    trips@[j as int],
                    missing_stop_location_policy,
                ) by {
                    lemma_picked_unique(*policy, trips@[j as int].service, td, p, pd);
                }
                assert(trip_ok(*policy, td, trips@[j as int], missing_stop_location_policy));
            }
            j = j + 1;
        }
        proof {
            assert(walk(*policy, trips@, first, (i + 1) as nat, 0, 0) == walk(
                *policy,
                trips@,
                first,
                i as nat,
                trips@.len(),
                0,
            ));
            lemma_next_date(*policy, *feed_id, trips@, acc.spec_edges(), first, i as int);
        }
        proof {
            assert forall|v: MappingView|
                #[trigger] mapping_set(mappings@).contains(v) implies mapping_justified(
                    *policy,
                    *feed_id,
                    trips@,
                    |d: int, jj: int| first <= d < first + i + 1,
                    v,
                ) by {
                let (d, jj, p) = choose|d: int, jj: int, p: int|
                    ((first <= d < first + i) || (d == first + i && 0 <= jj < j)) && 0 <= jj < trips@.len()
                        && p != d && picked(*policy, trips@[jj].service, d, p) && v
                        == #[trigger] expected_mapping(*feed_id, trips@[jj], d, p);
                assert(v == expected_mapping(*feed_id, trips@[jj], d, p));
            }
        }
        i = i + 1;
    }
    proof {
        assert forall|v: MappingView|
            #[trigger] mapping_set(mappings@).contains(v) implies mapping_justified(
                *policy,
                *feed_id,
                trips@,
                |d: int, j: int| first <= d <= last,
                v,
            ) by {
            let (d, jj, p) = choose|d: int, jj: int, p: int|
                (first <= d < first + i) && 0 <= jj < trips@.len() && p != d && picked(
                    *policy,
                    trips@[jj].service,
                    d,
                    p,
                ) && v == #[trigger] expected_mapping(*feed_id, trips@[jj], d, p);
            assert(v == expected_mapping(*feed_id, trips@[jj], d, p));
        }
    }
    Ok((acc.into_edges(), mappings))
}

/// Builds the bundle of one archive from its trips, as [`process_trips`] says, with the
/// archive's metadata.
pub fn process_bundle(
    policy: &DateMappingPolicy,
    trips: &Vec<TripInput>,
    feed_id: &Option<String>,
    missing_stop_location_policy: MissingStopLocationPolicy,
    metadata: Metadata,
) -> (r: Result<GtfsBundle, ScheduleError>)
    requires
        policy_wf(*policy),
        forall|j: int| 0 <= j < trips@.len() ==> trip_input_wf(#[trigger] trips@[j]),
    ensures
        r is Ok <==> all_trips_ok(*policy, trips@, missing_stop_location_policy),
        r matches Err(e) ==> exists|d: int, j: int|
            policy_dates(*policy).0 <= d <= policy_dates(*policy).1 && 0 <= j < trips@.len() && walked_ok_before(
                *policy,
                trips@,
                missing_stop_location_policy,
                d,
                j,
            ) && #[trigger] trip_error(*policy, trips@[j], d, missing_stop_location_policy, e),
        r is Ok ==> forall|d: int, j: int|
            policy_dates(*policy).0 <= d <= policy_dates(*policy).1 && 0 <= j < trips@.len()
                ==> #[trigger] pick_ok(*policy, trips@[j].service, d),
        r matches Ok(b) ==> {
            &&& b.wf()
            &&& b.metadata == metadata
            &&& numbered_edges(b.edges@)
            &&& mapping_views(b.date_mapping@) == walked_mappings(*policy, *feed_id, trips@)
            &&& forall|v: MappingView|
                #[trigger] mapping_set(b.date_mapping@).contains(v) ==> mapping_justified(
                    *policy,
                    *feed_id,
                    trips@,
                    |d: int, j: int| policy_dates(*policy).0 <= d <= policy_dates(*policy).1,
                    v,
                )
            &&& forall|d: int, j: int|
                policy_dates(*policy).0 <= d <= policy_dates(*policy).1 && 0 <= j < trips@.len()
                    ==> #[trigger] date_served(*policy, *feed_id, b.date_mapping@, trips@[j], d)
            &&& rows_sound(*policy, *feed_id, trips@, b.edges@)
            &&& edges_sound(trips@, b.edges@)
            &&& all_steps_recorded(*policy, *feed_id, trips@, b.edges@)
            &&& walked_edges(*policy, *feed_id, trips@, all_walked(*policy, trips@), b.edges@)
        },
{
    match process_trips(policy, trips, feed_id, missing_stop_location_policy) {
        Ok((edges, date_mapping)) => Ok(GtfsBundle { edges, metadata, date_mapping }),
        Err(e) => Err(e),
    }
}

/// No edge of the bundle carries a schedule row.
pub open spec fn bundle_is_empty(b: GtfsBundle) -> bool {
    forall|i: int| 0 <= i < b.edges@.len() ==> (#[trigger] b.edges@[i]).schedules@.len() == 0
}

/// The bundles of a batch's results that hold schedule rows, in order.
pub open spec fn kept_bundles(rs: Seq<Result<GtfsBundle, ScheduleError>>) -> Seq<GtfsBundle>
    decreases rs.len(),
{
    if rs.len() == 0 {
        Seq::empty()
    } else {
        kept_bundles(rs.drop_last()) + match rs.last() {
            Ok(b) => if bundle_is_empty(b) {
                Seq::empty()
            } else {
                seq![b]
            },
            Err(_) => Seq::empty(),
        }
    }
}

/// The errors of a batch's results, in order.
pub open spec fn batch_errors(rs: Seq<Result<GtfsBundle, ScheduleError>>) -> Seq<ScheduleError>
    decreases rs.len(),
{
    if rs.len() == 0 {
        Seq::empty()
    } else {
        batch_errors(rs.drop_last()) + match rs.last() {
            Ok(_) => Seq::empty(),
            Err(e) => seq![e],
        }
    }
}

/// Separates the results of processing a batch of archives: the bundles that hold
/// schedule rows, in order, and the errors. Any error fails the batch, reporting all
/// of them, unless bad archives are to be ignored.
pub fn partition_results(results: Vec<Result<GtfsBundle, ScheduleError>>, ignore_bad_gtfs: bool) -> (r: Result<
    (Vec<GtfsBundle>, Vec<ScheduleError>),
    ScheduleError,
>)
    ensures
        batch_errors(results@).len() > 0 && !ignore_bad_gtfs ==> (r matches Err(
            ScheduleError::BatchProcessing(m),
        ) && m@ == "[\n  "@ + joined_messages(batch_errors(results@)) + "\n]"@),
        !(batch_errors(results@).len() > 0 && !ignore_bad_gtfs) ==> (r matches Ok((bundles, errors))
            && bundles@ == kept_bundles(results@) && errors@ == batch_errors(results@)),
{
    let ghost rs = results@;
    let mut rest = results;
    let mut reversed: Vec<Result<GtfsBundle, ScheduleError>> = Vec::new();
    while rest.len() > 0
        invariant
            rest@.len() + reversed@.len() == rs.len(),
            rest@ == rs.take(rest@.len() as int),
            forall|t: int| 0 <= t < reversed@.len() ==> #[trigger] reversed@[t] == rs[rs.len() - 1 - t],
        decreases rest@.len(),
    {
        let x = rest.pop().unwrap();
        reversed.push(x);
        proof {
            assert(rest@ =~= rs.take(rest@.len() as int));
        }
    }
    let mut bundles: Vec<GtfsBundle> = Vec::new();
    let mut errors: Vec<ScheduleError> = Vec::new();
    proof {
        assert(rs.take(0) =~= Seq::<Result<GtfsBundle, ScheduleError>>::empty());
    }
    while reversed.len() > 0
        invariant
            reversed@.len() <= rs.len(),
            forall|t: int| 0 <= t < reversed@.len() ==> #[trigger] reversed@[t] == rs[rs.len() - 1 - t],
            bundles@ == kept_bundles(rs.take(rs.len() - reversed@.len())),
            errors@ == batch_errors(rs.take(rs.len() - reversed@.len())),
        decreases reversed@.len(),
    {
        let ghost i = rs.len() - reversed@.len();
        let x = reversed.pop().unwrap();
        proof {
            assert(x == rs[i]);
            assert(rs.take(i + 1).drop_last() =~= rs.take(i));
            assert(rs.take(i + 1).last() == rs[i]);
        }
        match x {
            Ok(b) => {
                if !b.is_empty() {
                    bundles.push(b);
                }
                proof {
                    assert(errors@ =~= batch_errors(rs.take(i + 1)));
                    assert(bundles@ =~= kept_bundles(rs.take(i + 1)));
                }
            },
            Err(e) => {
                errors.push(e);
                proof {
                    assert(errors@ =~= batch_errors(rs.take(i + 1)));
                    assert(bundles@ =~= kept_bundles(rs.take(i + 1)));
                }
            },
        }
    }
    proof {
        assert(rs.take(rs.len() as int) =~= rs);
    }
    if errors.len() > 0 && !ignore_bad_gtfs {
        return Err(batch_processing_error(errors.as_slice()));
    }
    Ok((bundles, errors))
}

} // verus!
