//! Directed travel relations between GTFS-Flex zones and the records they are read
//! from.
//!
//! Every relation is built from records already filtered to a single service date,
//! so the only time variability left is the intra-day pickup and drop-off window; a
//! relation checks that window against the time of day only.
use vstd::prelude::*;
use vstd::multiset::Multiset;

use crate::flex::zone_id::{ZoneError, ZoneId};
use crate::flex::zone_schedule::{ScheduleList, ZoneSchedule, key_contains, window_key};
use crate::temporal::Time;
use crate::text::{push_str, string_of};

verus! {

broadcast use vstd::multiset::group_multiset_axioms;

/// A record of a GTFS-Flex travel relation, which may be
///   - service type 1: destination, start and end are absent;
///   - service type 2: start and end are absent;
///   - service type 3: no field is absent.
#[derive(Clone, Debug)]
pub struct ZonalRelationRecord {
    /// the trip the relation belongs to
    pub trip_id: String,
    /// fully-qualified id of the source location of the trip
    pub src_zone_id: ZoneId,
    /// fully-qualified id of the destination location of the trip
    pub dst_zone_id: Option<ZoneId>,
    /// when the pickup and drop-off window begins
    pub start_time: Option<Time>,
    /// when the pickup and drop-off window ends
    pub end_time: Option<Time>,
}

/// A valid origin-destination zone pair of a trip on a requested date.
#[derive(Clone, Debug)]
pub struct ZoneRecord {
    pub agency_id: String,
    pub feed: String,
    pub requested_date: String,
    pub trip_id: String,
    pub origin_zone: ZoneId,
    pub start_pickup_drop_off_window: Option<Time>,
    pub end_pickup_drop_off_window: Option<Time>,
    pub destination_zone: ZoneId,
}

/// The geometry, as WKT, of a fully-qualified zone.
#[derive(Clone, Debug)]
pub struct ZoneGeometry {
    pub zone_id: ZoneId,
    pub geometry: String,
}

/// The window of a record: absent when it has neither end; an open start is
/// midnight, an open end is 23:59:59.
pub open spec fn record_window(start: Option<Time>, end: Option<Time>) -> Option<ZoneSchedule> {
    match (start, end) {
        (None, None) => None,
        (None, Some(e)) => Some(ZoneSchedule { start_time: Time { secs: 0, frac: 0 }, end_time: e }),
        (Some(s), None) => Some(ZoneSchedule { start_time: s, end_time: Time { secs: 86_399, frac: 0 } }),
        (Some(s), Some(e)) => Some(ZoneSchedule { start_time: s, end_time: e }),
    }
}

impl ZonalRelationRecord {
    /// The record's times are times of day.
    pub open spec fn wf(self) -> bool {
        (self.start_time matches Some(s) ==> s.wf()) && (self.end_time matches Some(e) ==> e.wf())
    }

    /// The time range of the record, treating a missing start or end as open for the
    /// current date.
    pub fn get_zone_schedule(&self) -> (r: Option<ZoneSchedule>)
        ensures
            r == record_window(self.start_time, self.end_time),
    {
        match (self.start_time, self.end_time) {
            (None, None) => None,
            (None, Some(end)) => Some(ZoneSchedule::new(Time::midnight(), end)),
            (Some(start), None) => {
                let end = Time { secs: 86_399, frac: 0 };
                Some(ZoneSchedule::new(start, end))
            },
            (Some(start), Some(end)) => Some(ZoneSchedule::new(start, end)),
        }
    }
}

/// A directed travel relation to a zone, which may be the source zone itself.
pub enum ZonalRelation {
    /// a relation whose time is ignored
    ToZone { dst_zone_id: ZoneId },
    /// a relation with one time window
    ToZoneScheduled { dst_zone_id: ZoneId, schedule: ZoneSchedule },
    /// a relation with several time windows
    ToZoneMultipleSchedules { dst_zone_id: ZoneId, schedules: ScheduleList },
}

/// A relation as plain values: its destination and its windows.
pub enum RelationView {
    ToZone(Seq<char>),
    Scheduled(Seq<char>, (i128, i128)),
    Multiple(Seq<char>, Multiset<(i128, i128)>),
}

impl RelationView {
    /// The destination zone.
    pub open spec fn dst(self) -> Seq<char> {
        match self {
            RelationView::ToZone(d) => d,
            RelationView::Scheduled(d, _) => d,
            RelationView::Multiple(d, _) => d,
        }
    }

    /// The relation accepts the instant `t` (nanoseconds since midnight): always
    /// without windows; within the window with one; and with several, when some window
    /// holds it.
    pub open spec fn valid_at(self, t: int) -> bool {
        match self {
            RelationView::ToZone(_) => true,
            RelationView::Scheduled(_, k) => key_contains(k, t),
            RelationView::Multiple(_, m) => exists|k: (i128, i128)| m.contains(k) && key_contains(k, t),
        }
    }

    /// The relation with one more window.
    pub open spec fn with_window(self, k: (i128, i128)) -> RelationView {
        match self {
            RelationView::ToZone(d) => RelationView::Scheduled(d, k),
            RelationView::Scheduled(d, p) => RelationView::Multiple(
                d,
                Multiset::empty().insert(p).insert(k),
            ),
            RelationView::Multiple(d, m) => RelationView::Multiple(d, m.insert(k)),
        }
    }

    /// The windows of the relation.
    pub open spec fn windows(self) -> Multiset<(i128, i128)> {
        match self {
            RelationView::ToZone(_) => Multiset::empty(),
            RelationView::Scheduled(_, k) => Multiset::empty().insert(k),
            RelationView::Multiple(_, m) => m,
        }
    }
}

/// The message of a record whose optional fields do not make a relation.
pub open spec fn invalid_record_message(trip_id: Seq<char>) -> Seq<char> {
    "GTFS-Flex trip "@ + trip_id + " has invalid combination of optional fields"@
}

/// The relation a record describes: to its source zone without a destination, to
/// its destination with neither time or with both times; other combinations of
/// fields describe none.
pub open spec fn record_relation(record: ZonalRelationRecord) -> Option<RelationView> {
    match (record.dst_zone_id, record.start_time, record.end_time) {
        (None, None, None) => Some(RelationView::ToZone(record.src_zone_id@)),
        (Some(d), None, None) => Some(RelationView::ToZone(d@)),
        (Some(d), Some(s), Some(e)) => Some(
            RelationView::Scheduled(
                d@,
                window_key(ZoneSchedule { start_time: s, end_time: e }),
            ),
        ),
        _ => None,
    }
}

impl ZonalRelation {
    /// The relation as plain values.
    pub open spec fn view(self) -> RelationView {
        match self {
            ZonalRelation::ToZone { dst_zone_id } => RelationView::ToZone(dst_zone_id@),
            ZonalRelation::ToZoneScheduled { dst_zone_id, schedule } => RelationView::Scheduled(
                dst_zone_id@,
                window_key(schedule),
            ),
            ZonalRelation::ToZoneMultipleSchedules { dst_zone_id, schedules } => RelationView::Multiple(
                dst_zone_id@,
                schedules.windows(),
            ),
        }
    }

    /// The window of a one-window relation is made of times of day.
    pub open spec fn wf(self) -> bool {
        self matches ZonalRelation::ToZoneScheduled { schedule, .. } ==> schedule.wf()
    }

    /// The zone looked up when deciding whether the vehicle's current zone makes this
    /// relation apply: the destination (possibly the source itself, for a self-loop).
    pub fn lookup_id(&self) -> (r: &ZoneId)
        ensures
            r@ == self.view().dst(),
    {
        match self {
            ZonalRelation::ToZone { dst_zone_id } => dst_zone_id,
            ZonalRelation::ToZoneScheduled { dst_zone_id, .. } => dst_zone_id,
            ZonalRelation::ToZoneMultipleSchedules { dst_zone_id, .. } => dst_zone_id,
        }
    }

    /// Whether the relation accepts the time of day `nanos_of_day` (nanoseconds
    /// since midnight); only the time of day is checked.
    pub fn valid_time(&self, nanos_of_day: u64) -> (r: bool)
        requires
            self.wf(),
        ensures
            r == self.view().valid_at(nanos_of_day as int),
    {
        match self {
            ZonalRelation::ToZone { .. } => true,
            ZonalRelation::ToZoneScheduled { schedule, .. } => schedule.contains_instant(
                nanos_of_day,
            ),
            ZonalRelation::ToZoneMultipleSchedules { schedules, .. } => {
                schedules.any_contains(nanos_of_day)
            },
        }
    }

    /// Appends a time window: a relation without windows gets this one, a relation
    /// with one window gets both, and a relation with several gets one more.
    pub fn add_schedule(&mut self, schedule: ZoneSchedule)
        requires
            old(self).view().windows().len() < usize::MAX,
        ensures
            final(self).view() == old(self).view().with_window(window_key(schedule)),
            old(self).wf() && schedule.wf() ==> final(self).wf(),
    {
        let next = match self {
            ZonalRelation::ToZone { dst_zone_id } => Some(
                ZonalRelation::ToZoneScheduled { dst_zone_id: dst_zone_id.duplicate(), schedule },
            ),
            ZonalRelation::ToZoneScheduled { dst_zone_id, schedule: prev_schedule } => Some(
                ZonalRelation::ToZoneMultipleSchedules {
                    dst_zone_id: dst_zone_id.duplicate(),
                    schedules: ScheduleList::from_pair(*prev_schedule, schedule),
                },
            ),
            ZonalRelation::ToZoneMultipleSchedules { .. } => None,
        };
        match next {
            Some(n) => {
                *self = n;
            },
            None => {
                if let ZonalRelation::ToZoneMultipleSchedules { schedules, .. } = self {
                    schedules.insert(schedule);
                }
            },
        }
    }

    /// The relation a record describes, as [`record_relation`] states it; a `Build`
    /// error naming the trip when its optional fields do not make one.
    pub fn try_from_record(record: &ZonalRelationRecord) -> (r: Result<ZonalRelation, ZoneError>)
        requires
            record.wf(),
        ensures
            record_relation(*record) matches Some(v) ==> (r matches Ok(z) && z.view() == v
                && z.wf()),
            record_relation(*record) is None ==> (r matches Err(ZoneError::Build(m)) && m@
                == invalid_record_message(record.trip_id@)),
    {
        match (&record.dst_zone_id, &record.start_time, &record.end_time) {
            (None, None, None) => Ok(
                ZonalRelation::ToZone { dst_zone_id: record.src_zone_id.duplicate() },
            ),
            (Some(d_id), None, None) => Ok(ZonalRelation::ToZone { dst_zone_id: d_id.duplicate() }),
            (Some(d_id), Some(s_t), Some(e_t)) => Ok(
                ZonalRelation::ToZoneScheduled {
                    dst_zone_id: d_id.duplicate(),
                    schedule: ZoneSchedule::new(*s_t, *e_t),
                },
            ),
            _ => {
                let mut msg: Vec<char> = Vec::new();
                push_str(&mut msg, "GTFS-Flex trip ");
                push_str(&mut msg, record.trip_id.as_str());
                push_str(&mut msg, " has invalid combination of optional fields");
                Err(ZoneError::Build(string_of(&msg)))
            },
        }
    }
}

/// A relation with windows accepts an instant exactly when one of its windows holds it.
pub proof fn lemma_valid_time_within_a_window(v: RelationView, t: int)
    requires
        !(v is ToZone),
    ensures
        v.valid_at(t) <==> exists|k: (i128, i128)| v.windows().contains(k) && key_contains(k, t),
{
    match v {
        RelationView::Scheduled(_, k) => {
            assert(v.windows().contains(k));
            assert forall|x: (i128, i128)| v.windows().contains(x) implies x == k by {
                assert(Multiset::empty().insert(k).count(x) > 0);
            }
        },
        RelationView::Multiple(_, m) => {},
        RelationView::ToZone(_) => {},
    }
}

} // verus!
