use bambam::schedule::connectivity::disconnected_trip_ids;
use bambam::schedule::bundle::{EdgeConfig, GtfsBundle, GtfsEdge};
use bambam::schedule::calendar::{Calendar, ServiceCalendar};
use bambam::schedule::error::ScheduleError;
use bambam::schedule::metadata::Metadata;
use bambam::schedule::outputs::{compare_text, construct_fq_date_mapping, construct_fq_route_id_list};
use bambam::schedule::policy::DateMappingPolicy;
use bambam::schedule::processing::{
    create_datetime, partition_results, process_bundle, process_schedule, process_trips, schedule_times,
    EdgeAccumulator, MatchedSegment, MissingStopLocationPolicy, TripInput,
};
use bambam::schedule::rows::{DateMapping, ScheduleRow};
use bambam::schedule::trip::{SortedTrip, StopTime};
use bambam::temporal::{Date, DateTime, Time};

fn date(y: i32, m: u32, d: u32) -> Date {
    Date::from_ymd_opt(y, m, d).unwrap()
}

fn dt(text: &str) -> DateTime {
    DateTime::parse(text, "%Y-%m-%d %H:%M:%S").unwrap()
}

fn stop(id: &str, arrival: Option<u32>, departure: Option<u32>) -> StopTime {
    StopTime { stop_id: id.to_string(), arrival_time: arrival, departure_time: departure }
}

fn trip(stops: Vec<StopTime>) -> SortedTrip {
    SortedTrip {
        trip_id: "t1".to_string(),
        route_id: "r1".to_string(),
        service_id: "s1".to_string(),
        stop_times: stops,
    }
}

fn segment(src: usize, dst: usize) -> MatchedSegment {
    MatchedSegment {
        src_vertex_id: src,
        dst_vertex_id: dst,
        distance_bits: 42.0f64.to_bits(),
        geometry: vec![(1.0f64.to_bits(), 2.0f64.to_bits()), (3.0f64.to_bits(), 4.0f64.to_bits())],
    }
}

fn weekly_calendar(start: Date, end: Date) -> Calendar {
    Calendar {
        id: "s1".to_string(),
        start_date: start,
        end_date: end,
        monday: true,
        tuesday: true,
        wednesday: true,
        thursday: true,
        friday: true,
        saturday: true,
        sunday: true,
    }
}

#[test]
fn create_datetime_adds_the_time_of_day() {
    assert_eq!(create_datetime(8 * 3600, &date(2025, 1, 1)).unwrap(), dt("2025-01-01 08:00:00"));
    // times past midnight fall on the next day
    assert_eq!(create_datetime(25 * 3600, &date(2025, 1, 1)).unwrap(), dt("2025-01-02 01:00:00"));
}

#[test]
fn create_datetime_reports_a_time_past_the_last_date() {
    match create_datetime(86_400, &Date::max_value()) {
        Err(ScheduleError::InvalidData(m)) => {
            assert!(m.starts_with("appending departure offset 'PT86400S' to picked_date '"));
            assert!(m.ends_with("' produced an empty result (invalid combination)"));
        }
        other => panic!("unexpected {:?}", other),
    }
}

#[test]
fn schedule_times_use_one_time_for_both_when_one_is_missing() {
    let d = date(2025, 1, 1);
    let (dep, arr) = schedule_times(&stop("a", None, Some(3600)), &stop("b", None, None), &d).unwrap();
    assert_eq!(dep, arr);
    assert_eq!(dep, dt("2025-01-01 01:00:00"));
    match schedule_times(&stop("a", None, None), &stop("b", None, None), &d) {
        Err(ScheduleError::MissingAllStopTimes(id)) => assert_eq!(id, "a"),
        other => panic!("unexpected {:?}", other),
    }
}

#[test]
fn edge_accumulator_reuses_the_edge_of_a_pair() {
    let mut acc = EdgeAccumulator::new();
    let p = acc.edge_for(&segment(1, 2));
    let q = acc.edge_for(&segment(2, 3));
    let r = acc.edge_for(&segment(1, 2));
    assert_eq!((p, q, r), (0, 1, 0));
    let edges = acc.into_edges();
    assert_eq!(edges.len(), 2);
    assert_eq!(edges[1].edge.edge_id, 1);
    assert_eq!(edges[0].edge.distance_bits, 42.0f64.to_bits());
}

#[test]
fn process_schedule_follows_the_missing_stop_policy() {
    let d = date(2025, 1, 1);
    let t = trip(vec![stop("a", Some(0), Some(0)), stop("b", Some(60), Some(60))]);
    let policy = DateMappingPolicy::ExactDate(d);
    let mut acc = EdgeAccumulator::new();
    let failed = process_schedule(
        &d, &t.stop_times[0], &t.stop_times[1], &t, &None, &Some(None), &policy, &None,
        MissingStopLocationPolicy::Fail, &mut acc,
    );
    match failed {
        Err(ScheduleError::MissingStopLocationAndParent(m)) => assert_eq!(m, "a or b"),
        other => panic!("unexpected {:?}", other),
    }
    let dropped = process_schedule(
        &d, &t.stop_times[0], &t.stop_times[1], &t, &None, &Some(None), &policy, &None,
        MissingStopLocationPolicy::Drop, &mut acc,
    );
    assert!(matches!(dropped, Ok(None)));
    assert_eq!(acc.edges().len(), 0);
}

#[test]
fn process_schedule_records_a_row_on_the_matched_edge() {
    let d = date(2025, 1, 1);
    let t = trip(vec![stop("a", Some(0), Some(3600)), stop("b", Some(7200), Some(7200))]);
    let policy = DateMappingPolicy::ExactDate(d);
    let mut acc = EdgeAccumulator::new();
    let row = process_schedule(
        &d, &t.stop_times[0], &t.stop_times[1], &t, &Some("feed".to_string()), &Some(Some("ag".to_string())),
        &policy, &Some(segment(5, 6)), MissingStopLocationPolicy::Fail, &mut acc,
    )
    .unwrap()
    .unwrap();
    assert_eq!(row.edge_id, 0);
    assert_eq!(row.src_departure_time, dt("2025-01-01 01:00:00"));
    assert_eq!(row.dst_arrival_time, dt("2025-01-01 02:00:00"));
    assert_eq!(row.agency_id.as_deref(), Some("ag"));
    let edges = acc.into_edges();
    assert_eq!(edges[0].schedules.len(), 1);
    assert_eq!((edges[0].edge.src_vertex_id, edges[0].edge.dst_vertex_id), (5, 6));
}

#[test]
fn process_schedule_reports_a_missing_route() {
    let d = date(2025, 1, 1);
    let t = trip(vec![stop("a", Some(0), Some(0)), stop("b", Some(60), Some(60))]);
    let policy = DateMappingPolicy::ExactDate(d);
    let mut acc = EdgeAccumulator::new();
    match process_schedule(
        &d, &t.stop_times[0], &t.stop_times[1], &t, &None, &None, &policy, &Some(segment(1, 2)),
        MissingStopLocationPolicy::Fail, &mut acc,
    ) {
        Err(ScheduleError::MalformedGtfs(m)) => {
            assert_eq!(m, "trip t1 has route id r1 which is missing from the archive")
        }
        other => panic!("unexpected {:?}", other),
    }
}

#[test]
fn process_schedule_skips_pairs_outside_the_time_window() {
    let d = date(2025, 1, 1);
    let t = trip(vec![stop("a", Some(0), Some(0)), stop("b", Some(60), Some(60))]);
    let policy = DateMappingPolicy::ExactDatetimeRange {
        start_date: d,
        end_date: d,
        start_time: Time::from_hms_opt(8, 0, 0).unwrap(),
        end_time: Time::from_hms_opt(9, 0, 0).unwrap(),
    };
    let mut acc = EdgeAccumulator::new();
    let r = process_schedule(
        &d, &t.stop_times[0], &t.stop_times[1], &t, &None, &Some(None), &policy, &Some(segment(1, 2)),
        MissingStopLocationPolicy::Fail, &mut acc,
    );
    assert!(matches!(r, Ok(None)));
}

#[test]
fn process_trips_builds_edges_and_date_mappings() {
    let start = date(2025, 1, 6);
    let svc = ServiceCalendar { calendar: Some(weekly_calendar(start, date(2025, 1, 12))), calendar_dates: None };
    let input = TripInput {
        trip: trip(vec![stop("a", Some(0), Some(0)), stop("b", Some(60), Some(60)), stop("c", Some(120), Some(120))]),
        service: svc,
        route_agency: Some(Some("ag".to_string())),
        segments: vec![Some(segment(1, 2)), Some(segment(2, 3))],
    };
    // one week after the calendar ends: the nearest date with the same weekday is picked
    let policy = DateMappingPolicy::NearestDate { date: date(2025, 1, 15), date_tolerance: 30, match_weekday: true };
    let (edges, mappings) = process_trips(&policy, &vec![input], &None, MissingStopLocationPolicy::Fail).unwrap();
    assert_eq!(edges.len(), 2);
    assert_eq!(edges[0].schedules[0].src_departure_time, dt("2025-01-08 00:00:00"));
    assert_eq!(mappings.len(), 1);
    assert_eq!(mappings[0].target_date, date(2025, 1, 15));
    assert_eq!(mappings[0].picked_date, date(2025, 1, 8));
    assert_eq!(mappings[0].agency_id.as_deref(), Some("ag"));

    let bundle = process_bundle(&policy, &vec![], &None, MissingStopLocationPolicy::Fail, Metadata::Null).unwrap();
    assert!(bundle.is_empty());
}

#[test]
fn partition_results_fails_on_errors_unless_ignored() {
    let mut full = GtfsBundle::empty();
    let mut e = GtfsEdge::new(
        EdgeConfig { edge_id: 0, src_vertex_id: 0, dst_vertex_id: 1, distance_bits: 0 },
        vec![],
    );
    e.add_schedule(ScheduleRow::new(0, None, "r".to_string(), "s".to_string(), None, dt("2025-01-01 00:00:00"), dt("2025-01-01 00:00:00")));
    full.edges.push(e);
    let results = vec![Ok(GtfsBundle::empty()), Err(ScheduleError::InvalidResultKeys), Ok(full)];
    let (bundles, errors) = partition_results(results, true).unwrap();
    assert_eq!(bundles.len(), 1);
    assert_eq!(errors.len(), 1);
    let failed = partition_results(vec![Err(ScheduleError::InvalidResultKeys)], false);
    match failed {
        Err(ScheduleError::BatchProcessing(m)) => assert_eq!(m, "[\n  Invalid Edges and schedules keys\n]"),
        other => panic!("unexpected {:?}", other),
    }
}

#[test]
fn fq_route_ids_are_sorted_and_distinct() {
    let mut b = GtfsBundle::empty();
    let mut e = GtfsEdge::new(EdgeConfig { edge_id: 0, src_vertex_id: 0, dst_vertex_id: 1, distance_bits: 0 }, vec![]);
    let t = dt("2025-01-01 00:00:00");
    e.add_schedule(ScheduleRow::new(0, None, "rb".to_string(), "s".to_string(), None, t, t));
    e.add_schedule(ScheduleRow::new(0, None, "ra".to_string(), "s".to_string(), None, t, t));
    e.add_schedule(ScheduleRow::new(0, None, "rb".to_string(), "s".to_string(), None, t, t));
    b.edges.push(e);
    let ids = construct_fq_route_id_list(&b, 3);
    assert_eq!(ids.len(), 2);
    assert!(ids[0] < ids[1]);
    assert!(ids[0].contains("ra"));
}

#[test]
fn fq_date_mapping_groups_by_route_id() {
    let m = |route: &str, t: u32, p: u32| DateMapping {
        feed_id: None,
        agency_id: None,
        route_id: route.to_string(),
        service_id: "s".to_string(),
        target_date: date(2025, 1, t),
        picked_date: date(2025, 1, p),
    };
    let (keys, groups) = construct_fq_date_mapping(&vec![m("b", 1, 2), m("a", 3, 4), m("b", 5, 6)], 0);
    assert_eq!(keys.len(), 2);
    assert!(keys[0] < keys[1]);
    assert_eq!(groups[1], vec![(date(2025, 1, 1), date(2025, 1, 2)), (date(2025, 1, 5), date(2025, 1, 6))]);
}

#[test]
fn compare_text_orders_by_characters() {
    assert!(compare_text("abc", "abd") < 0);
    assert!(compare_text("ab", "abc") < 0);
    assert_eq!(compare_text("x", "x"), 0);
    assert!(compare_text("b", "a") > 0);
}

#[test]
fn process_trips_reports_the_first_failing_trip() {
    let start = date(2025, 1, 6);
    let svc = ServiceCalendar { calendar: Some(weekly_calendar(start, date(2025, 1, 12))), calendar_dates: None };
    let good = TripInput {
        trip: trip(vec![stop("a", Some(0), Some(0)), stop("b", Some(60), Some(60))]),
        service: svc.clone(),
        route_agency: Some(None),
        segments: vec![Some(segment(1, 2))],
    };
    let unlocated = TripInput {
        trip: trip(vec![stop("c", Some(0), Some(0)), stop("d", Some(60), Some(60))]),
        service: svc.clone(),
        route_agency: Some(None),
        segments: vec![None],
    };
    let untimed = TripInput {
        trip: trip(vec![stop("e", None, None), stop("f", None, None)]),
        service: svc,
        route_agency: Some(None),
        segments: vec![Some(segment(3, 4))],
    };
    let policy = DateMappingPolicy::ExactDate(date(2025, 1, 7));
    let trips = vec![good, unlocated, untimed];
    match process_trips(&policy, &trips, &None, MissingStopLocationPolicy::Fail) {
        Err(ScheduleError::MissingStopLocationAndParent(m)) => assert_eq!(m, "c or d"),
        other => panic!("unexpected {:?}", other),
    }
    // dropping unlocated pairs, the untimed trip fails next
    match process_trips(&policy, &trips, &None, MissingStopLocationPolicy::Drop) {
        Err(ScheduleError::MissingAllStopTimes(id)) => assert_eq!(id, "e"),
        other => panic!("unexpected {:?}", other),
    }
    // without the untimed trip the walk succeeds, with one row for the good trip
    let mut two = trips;
    two.pop();
    let (edges, mappings) = process_trips(&policy, &two, &None, MissingStopLocationPolicy::Drop).unwrap();
    assert_eq!(edges.len(), 1);
    assert_eq!(edges[0].schedules.len(), 1);
    assert!(mappings.is_empty());
}

#[test]
fn trips_visiting_a_disconnected_stop_are_listed_in_trip_order() {
    let ids = |v: &[&str]| v.iter().map(|s| s.to_string()).collect::<Vec<String>>();
    let trips = vec![
        ("t1".to_string(), ids(&["a", "b"])),
        ("t2".to_string(), ids(&["c", "x"])),
        ("t3".to_string(), ids(&[])),
        ("t4".to_string(), ids(&["y", "a"])),
    ];
    assert_eq!(disconnected_trip_ids(&trips, &ids(&["x", "y"])), ids(&["t2", "t4"]));
    assert_eq!(disconnected_trip_ids(&trips, &ids(&[])), ids(&[]));
    assert_eq!(disconnected_trip_ids(&trips, &ids(&["a"])), ids(&["t1", "t4"]));
}
