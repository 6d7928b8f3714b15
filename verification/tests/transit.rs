use std::collections::HashMap;

use bambam::temporal::{Date, DateTime, Time, TimeDelta};
use bambam::transit::engine::TransitTraversalEngine;
use bambam::transit::loading_policy::ScheduleLoadingPolicy;
use bambam::transit::ops::{get_current_time, reverse_date_mapping, TransitError};
use bambam::transit::schedule::{Departure, Schedule};
use bambam::transit::traversal::{
    run_transit_traversal, TraversalUpdate, NOT_FOUND_TIME_PENALTY_DAYS,
};

const FMT: &str = "%Y-%m-%d %H:%M:%S";
const NANOS: i128 = 1_000_000_000;

fn dt(text: &str) -> DateTime {
    DateTime::parse(text, FMT)
        .or_else(|| DateTime::parse(text, "%Y-%m-%d %H:%M:%S%.f"))
        .unwrap()
}

fn internal_date(time: &str) -> DateTime {
    DateTime::parse(&format!("20250101 {time}"), "%Y%m%d %H:%M:%S").unwrap()
}

fn dep(src: &str, dst: &str) -> Departure {
    Departure {
        src_departure_time: dt(src),
        dst_arrival_time: dt(dst),
    }
}

fn dummy_schedule(times: &[(&str, &str)]) -> Schedule {
    Schedule::from_departures(
        times
            .iter()
            .map(|(src, dst)| Departure {
                src_departure_time: internal_date(src),
                dst_arrival_time: internal_date(dst),
            })
            .collect(),
    )
}

fn get_dummy_engine(date_mapping: Option<HashMap<i64, HashMap<i32, i32>>>) -> TransitTraversalEngine {
    let schedules: Vec<Vec<(i64, Schedule)>> = vec![
        vec![
            (0, dummy_schedule(&[("16:00:00", "16:05:00"), ("16:25:00", "16:30:00")])),
            (1, dummy_schedule(&[("16:15:00", "16:45:00")])),
        ],
        vec![
            (0, dummy_schedule(&[("16:05:00", "16:10:00"), ("16:30:00", "16:35:00")])),
            (1, dummy_schedule(&[("16:45:00", "17:00:00")])),
        ],
    ];
    TransitTraversalEngine {
        edge_schedules: schedules,
        date_mapping: date_mapping.unwrap_or_default(),
    }
}

#[test]
fn test_departure_add_normal() {
    let departure = dep("2023-06-15 10:00:00", "2023-06-15 11:00:00");
    let delta = TimeDelta::try_hours(2).unwrap();
    let result = departure.add(&delta);
    assert_eq!(result.src_departure_time, dt("2023-06-15 12:00:00"));
    assert_eq!(result.dst_arrival_time, dt("2023-06-15 13:00:00"));
}

#[test]
fn test_departure_add_negative() {
    let departure = dep("2023-06-15 10:00:00", "2023-06-15 11:00:00");
    let delta = TimeDelta::try_hours(-2).unwrap();
    let result = departure.add(&delta);
    assert_eq!(result.src_departure_time, dt("2023-06-15 08:00:00"));
    assert_eq!(result.dst_arrival_time, dt("2023-06-15 09:00:00"));
}

#[test]
fn test_departure_add_overflow_to_max() {
    let departure = dep("9999-12-31 23:00:00", "9999-12-31 23:30:00");
    let delta = TimeDelta::try_days(365 * 1000000).unwrap();
    let result = departure.add(&delta);
    assert_eq!(
        result.src_departure_time,
        DateTime::max_value(),
        "Should clamp to MAX on positive overflow"
    );
    assert_eq!(
        result.dst_arrival_time,
        DateTime::max_value(),
        "Should clamp to MAX on positive overflow"
    );
}

#[test]
fn test_departure_add_underflow_to_min() {
    let departure = dep("0001-01-01 01:00:00", "0001-01-01 01:30:00");
    let delta = TimeDelta::try_days(-365 * 1000000).unwrap();
    let result = departure.add(&delta);
    assert_eq!(
        result.src_departure_time,
        DateTime::min_value(),
        "Should clamp to MIN on negative overflow"
    );
    assert_eq!(
        result.dst_arrival_time,
        DateTime::min_value(),
        "Should clamp to MIN on negative overflow"
    );
}

#[test]
fn test_departure_infinity() {
    let inf = Departure::infinity();
    assert!(inf.is_pos_infinity());
    assert_eq!(inf.src_departure_time, DateTime::max_value());
    assert_eq!(inf.dst_arrival_time, DateTime::max_value());
}

#[test]
fn test_departure_add_to_infinity_stays_infinity() {
    let inf = Departure::infinity();
    let delta = TimeDelta::try_hours(5).unwrap();
    let result = inf.add(&delta);
    assert_eq!(result.src_departure_time, DateTime::max_value());
    assert_eq!(result.dst_arrival_time, DateTime::max_value());
    assert!(result.is_pos_infinity());
}

#[test]
fn test_departure_ordering() {
    let early = dep("2023-06-15 10:00:00", "2023-06-15 11:00:00");
    let late = dep("2023-06-15 12:00:00", "2023-06-15 13:00:00");
    assert!(early < late);
    assert!(late > early);
    assert_eq!(early, early);
}

#[test]
fn test_invalid_midnight_wraparound_rejection() {
    let policy = ScheduleLoadingPolicy::All;
    let mut schedule = Schedule::new();
    let day = Date::from_ymd_opt(2025, 1, 1).unwrap();
    let invalid_departure = Departure {
        src_departure_time: day.and_time(&Time::from_hms_opt(23, 55, 0).unwrap()),
        dst_arrival_time: day.and_time(&Time::from_hms_opt(0, 5, 0).unwrap()),
    };
    policy.insert_if_valid(&mut schedule, invalid_departure);
    assert_eq!(
        schedule.len(),
        0,
        "Schedule should reject departures where arrival happens before departure"
    );
}

#[test]
fn test_get_current_time_various_scenarios() {
    let test_cases = vec![
        ("basic_composition", "2023-06-15 08:30:00", (3600, 0, "3600"), "2023-06-15 09:30:00"),
        (
            "fractional_seconds",
            "2023-06-15 08:30:00",
            (1800, 500_000_000, "1800.5"),
            "2023-06-15 09:00:00.500000000",
        ),
        ("midnight_wrapping", "2023-06-15 23:30:00", (3600, 0, "3600"), "2023-06-16 00:30:00"),
        ("zero_trip_time", "2023-06-15 14:45:30", (0, 0, "0"), "2023-06-15 14:45:30"),
        ("multi_day_journey", "2023-06-15 12:00:00", (259200, 0, "259200"), "2023-06-18 12:00:00"),
        ("year_boundary", "2023-12-31 23:59:59", (1, 0, "1"), "2024-01-01 00:00:00"),
        ("non_leap_month", "2023-02-28 23:30:00", (1800, 0, "1800"), "2023-03-01 00:00:00"),
        ("leap_year", "2024-02-28 23:30:00", (1800, 0, "1800"), "2024-02-29 00:00:00"),
    ];
    for (name, start, (secs, nanos, text), expected) in test_cases {
        let result = get_current_time(&dt(start), secs, nanos, text)
            .unwrap_or_else(|_| panic!("{name} should succeed"));
        assert_eq!(result, dt(expected), "{name}");
    }
}

#[test]
fn test_get_current_time_different_time_units() {
    let start_datetime = dt("2023-06-15 10:00:00");
    // 30 minutes and 0.5 hours, both 1800 seconds
    let result_minutes = get_current_time(&start_datetime, 1800, 0, "1800").unwrap();
    let result_hours = get_current_time(&start_datetime, 1800, 0, "1800").unwrap();
    let expected = dt("2023-06-15 10:30:00");
    assert_eq!(result_minutes, expected);
    assert_eq!(result_hours, expected);
    assert_eq!(result_minutes, result_hours);
}

#[test]
fn test_get_current_time_precise_fractional_composition() {
    let start_datetime = dt("2023-06-15 15:20:10");
    let result = get_current_time(&start_datetime, 125, 123_456_789, "125.123456789").unwrap();
    let expected = start_datetime
        .checked_add_signed(&TimeDelta::new(125, 123_456_789).unwrap())
        .unwrap();
    assert_eq!(result, expected);
    assert_eq!(result, dt("2023-06-15 15:22:15.123456789"));
}

#[test]
fn test_get_current_time_error_cases() {
    let start_datetime = dt("2023-06-15 12:00:00");
    let result = get_current_time(&start_datetime, -1, 0, "-1");
    match result {
        Ok(t) => assert!(t.nanos < start_datetime.nanos),
        Err(e) => assert!(matches!(
            e,
            TransitError::TraversalModelFailure(_) | TransitError::InternalError(_)
        )),
    }
}

#[test]
fn get_current_time_rejects_bad_nanos_and_overflow() {
    let start = dt("2023-06-15 12:00:00");
    match get_current_time(&start, 1, 1_000_000_000, "1") {
        Err(TransitError::TraversalModelFailure(m)) => assert_eq!(
            m,
            "unable to build Duration from seconds, nanos: 1, 1000000000"
        ),
        other => panic!("unexpected {other:?}"),
    }
    match get_current_time(&DateTime::max_value(), 1, 0, "1") {
        Err(TransitError::InternalError(m)) => {
            assert!(m.starts_with("Invalid Datetime from Date "));
            assert!(m.ends_with(" + 1 seconds"));
        }
        other => panic!("unexpected {other:?}"),
    }
}

#[test]
fn test_reverse_date_mapping_normal_cases() {
    let test_cases = vec![
        (
            "basic_positive_delay",
            "2023-06-15 14:30:00",
            "2023-06-15 10:00:00",
            "2023-06-15 11:00:00",
            "2023-06-15 11:30:00",
            "2023-06-15 15:30:00",
            "2023-06-15 16:00:00",
        ),
        (
            "search_after_current",
            "2023-06-15 14:30:00",
            "2023-06-20 10:00:00",
            "2023-06-20 15:00:00",
            "2023-06-20 15:30:00",
            "2023-06-15 19:30:00",
            "2023-06-15 20:00:00",
        ),
        (
            "negative_delay",
            "2023-06-15 14:30:00",
            "2023-06-15 12:00:00",
            "2023-06-15 10:00:00",
            "2023-06-15 10:30:00",
            "2023-06-15 12:30:00",
            "2023-06-15 13:00:00",
        ),
    ];
    for (name, current, search, dep_src, dep_dst, exp_src, exp_dst) in test_cases {
        let result = reverse_date_mapping(&dt(current), &dt(search), dep(dep_src, dep_dst));
        assert_eq!(result.src_departure_time, dt(exp_src), "{name}: src_departure_time");
        assert_eq!(result.dst_arrival_time, dt(exp_dst), "{name}: dst_arrival_time");
    }
}

#[test]
fn test_reverse_date_mapping_with_infinity_past_date() {
    let result = reverse_date_mapping(
        &dt("2023-06-15 14:30:00"),
        &dt("2023-06-20 10:00:00"),
        Departure::infinity(),
    );
    assert_eq!(result, Departure::infinity());
}

fn year_of(t: DateTime) -> i32 {
    t.display()[..].split('-').next().unwrap().trim_start_matches('+').parse().unwrap()
}

#[test]
fn test_reverse_date_mapping_large_future_departure() {
    let departure = dep("9999-12-31 23:59:59", "9999-12-31 23:59:59");
    let result =
        reverse_date_mapping(&dt("2023-06-15 14:30:00"), &dt("2023-06-15 10:00:00"), departure);
    assert!(year_of(result.src_departure_time) >= 10000);
    assert_eq!(result.src_departure_time, result.dst_arrival_time);
}

#[test]
fn test_reverse_date_mapping_search_after_current_with_large_departure() {
    let departure = dep("9999-12-31 23:59:59", "9999-12-31 23:59:59");
    let result =
        reverse_date_mapping(&dt("2023-06-15 14:30:00"), &dt("2020-01-01 00:00:00"), departure);
    assert!(year_of(result.src_departure_time) >= 10000);
    assert_eq!(result.src_departure_time, result.dst_arrival_time);
}

#[test]
fn test_reverse_date_mapping_overflow_to_max() {
    let base_date = dt("2020-01-01 00:00:00");
    let current_datetime = base_date
        .checked_add_signed(&TimeDelta::try_days(50000 * 365).unwrap())
        .unwrap();
    let near_max = DateTime::max_value()
        .checked_add_signed(&TimeDelta::try_days(-365).unwrap())
        .unwrap();
    let departure = Departure {
        src_departure_time: near_max,
        dst_arrival_time: near_max,
    };
    let result = reverse_date_mapping(&current_datetime, &base_date, departure);
    assert_eq!(result.src_departure_time, DateTime::max_value());
    assert_eq!(result.dst_arrival_time, DateTime::max_value());
}

#[test]
fn test_get_next_departure() {
    let engine = get_dummy_engine(None);
    let mut current_edge: usize = 0;
    let mut current_time = internal_date("15:50:00");
    let mut next_tuple = engine.get_next_departure(current_edge, &current_time).unwrap();
    let mut next_route = next_tuple.0;
    let mut next_departure = next_tuple.1;
    assert_eq!(next_route, 0);
    assert_eq!(next_departure.src_departure_time, internal_date("16:00:00"));
    for _ in 0..3 {
        next_tuple = engine.get_next_departure(current_edge, &current_time).unwrap();
        next_route = next_tuple.0;
        next_departure = next_tuple.1;
        current_time = next_departure.dst_arrival_time;
        current_edge = 1 - current_edge;
    }
    assert_eq!(next_route, 0);
    assert_eq!(current_time, internal_date("16:30:00"));
    next_tuple = engine.get_next_departure(current_edge, &current_time).unwrap();
    next_departure = next_tuple.1;
    current_time = next_departure.dst_arrival_time;
    current_edge = 1 - current_edge;
    next_tuple = engine.get_next_departure(current_edge, &current_time).unwrap();
    next_departure = next_tuple.1;
    assert_eq!(next_departure, Departure::infinity());
}

#[test]
fn test_schedule_from_iter() {
    let departures = vec![
        Departure {
            src_departure_time: internal_date("10:00:00"),
            dst_arrival_time: internal_date("10:15:00"),
        },
        Departure {
            src_departure_time: internal_date("08:00:00"),
            dst_arrival_time: internal_date("08:20:00"),
        },
        Departure {
            src_departure_time: internal_date("09:00:00"),
            dst_arrival_time: internal_date("09:10:00"),
        },
    ];
    let schedule = Schedule::from_departures(departures);
    assert_eq!(schedule.len(), 3);
    let ordered: Vec<Departure> = schedule.iter();
    assert_eq!(ordered[0].src_departure_time, internal_date("08:00:00"));
    assert_eq!(ordered[1].src_departure_time, internal_date("09:00:00"));
    assert_eq!(ordered[2].src_departure_time, internal_date("10:00:00"));
}

#[test]
fn test_schedule_comprehensive_search_scenario() {
    let schedule = dummy_schedule(&[
        ("06:00:00", "06:25:00"),
        ("06:30:00", "06:55:00"),
        ("07:00:00", "07:25:00"),
        ("07:15:00", "07:40:00"),
        ("07:30:00", "07:55:00"),
        ("08:00:00", "08:25:00"),
        ("09:00:00", "09:25:00"),
        ("10:00:00", "10:25:00"),
        ("17:00:00", "17:25:00"),
        ("17:30:00", "17:55:00"),
        ("18:00:00", "18:25:00"),
        ("22:00:00", "22:25:00"),
    ]);
    let test_cases = vec![
        ("05:30:00", Some("06:00:00")),
        ("06:00:00", Some("06:00:00")),
        ("06:10:00", Some("06:30:00")),
        ("07:20:00", Some("07:30:00")),
        ("12:00:00", Some("17:00:00")),
        ("21:00:00", Some("22:00:00")),
        ("23:00:00", None),
    ];
    for (search_time, expected_time) in test_cases {
        let search_departure = Departure {
            src_departure_time: internal_date(search_time),
            dst_arrival_time: internal_date(search_time),
        };
        let result = schedule.lower_bound(&search_departure);
        match expected_time {
            Some(expected) => {
                assert!(result.is_some());
                assert_eq!(result.unwrap().src_departure_time, internal_date(expected));
            }
            None => assert!(result.is_none()),
        }
    }
}

#[test]
fn test_positive_travel_time_after_datemapping() {
    let ref_date = Date::from_ymd_opt(2025, 1, 1).unwrap();
    let current_date = Date::from_ymd_opt(2025, 1, 2).unwrap();
    let single: HashMap<i32, i32> = [(current_date.days, ref_date.days)].into_iter().collect();
    let date_mapping: HashMap<i64, HashMap<i32, i32>> =
        [(0, single.clone()), (1, single.clone())].into_iter().collect();
    let engine = get_dummy_engine(Some(date_mapping));
    let current_time =
        DateTime::parse("20250102 15:55:00", "%Y%m%d %H:%M:%S").unwrap();
    let next_tuple = engine.get_next_departure(0, &current_time).unwrap();
    assert!(next_tuple.1.src_departure_time.nanos - current_time.nanos >= 0);
    assert_eq!(
        next_tuple.1.src_departure_time,
        DateTime::parse("20250102 16:00:00", "%Y%m%d %H:%M:%S").unwrap()
    );
}

#[test]
fn get_next_departure_rejects_unknown_and_empty_edges() {
    let engine = TransitTraversalEngine {
        edge_schedules: vec![vec![]],
        date_mapping: HashMap::new(),
    };
    match engine.get_next_departure(3, &internal_date("10:00:00")) {
        Err(TransitError::InternalError(m)) => assert_eq!(m, "EdgeId 3 exceeds schedules length"),
        other => panic!("unexpected {other:?}"),
    }
    match engine.get_next_departure(0, &internal_date("10:00:00")) {
        Err(TransitError::InternalError(m)) => assert_eq!(
            m,
            "failed to find next departure: schedules for edge_id 0 appear to be empty"
        ),
        other => panic!("unexpected {other:?}"),
    }
}

/// the trip time of a state as whole seconds, nanoseconds and text.
fn trip_parts(trip_nanos: i128) -> (i64, u32, String) {
    let secs = (trip_nanos / NANOS) as i64;
    let nanos = (trip_nanos % NANOS) as u32;
    (secs, nanos, format!("{secs}"))
}

const EMPTY_ROUTE: i64 = -1;

#[test]
fn test_transfer_vs_dwell_edge_metrics() {
    let start_datetime = internal_date("12:00:00");
    let engine = TransitTraversalEngine {
        edge_schedules: vec![
            vec![(1, dummy_schedule(&[("12:05:00", "12:10:00")]))],
            vec![(1, dummy_schedule(&[("12:15:00", "12:20:00")]))],
            vec![(2, dummy_schedule(&[("12:25:00", "12:30:00")]))],
        ],
        date_mapping: HashMap::new(),
    };
    let mut trip_time: i128 = 0;
    let mut route = EMPTY_ROUTE;

    let (s, n, t) = trip_parts(trip_time);
    let update =
        run_transit_traversal(&engine, 0, &start_datetime, s, n, &t, route, true).unwrap();
    assert_eq!(update.boarding_time, 300 * NANOS);
    assert_eq!(update.dwell_time, 0);
    trip_time += update.added_time;
    route = update.route_id.unwrap_or(route);

    let (s, n, t) = trip_parts(trip_time);
    let update =
        run_transit_traversal(&engine, 1, &start_datetime, s, n, &t, route, true).unwrap();
    assert_eq!(update.boarding_time, 0);
    assert_eq!(update.dwell_time, 300 * NANOS);
    trip_time += update.added_time;
    route = update.route_id.unwrap_or(route);

    let (s, n, t) = trip_parts(trip_time);
    let update =
        run_transit_traversal(&engine, 2, &start_datetime, s, n, &t, route, true).unwrap();
    assert_eq!(update.boarding_time, 300 * NANOS);
    assert_eq!(update.dwell_time, 0);
    assert_eq!(update.route_id, Some(2));
}

fn empty_route_engine() -> TransitTraversalEngine {
    TransitTraversalEngine {
        edge_schedules: vec![vec![(1, Schedule::new())]],
        date_mapping: HashMap::new(),
    }
}

#[test]
fn test_no_departure_adds_not_found_penalty() {
    let engine = empty_route_engine();
    let start_datetime = internal_date("12:00:00");
    let update =
        run_transit_traversal(&engine, 0, &start_datetime, 0, 0, "0", EMPTY_ROUTE, false).unwrap();
    let penalty = NOT_FOUND_TIME_PENALTY_DAYS as i128 * 86_400 * NANOS;
    assert_eq!(
        update,
        TraversalUpdate {
            added_time: penalty,
            route_id: None,
            boarding_time: 0,
            dwell_time: 0,
        }
    );
}

#[test]
fn test_no_departure_penalty_accumulates_existing_trip_time() {
    let engine = empty_route_engine();
    let start_datetime = internal_date("12:00:00");
    let existing_trip_time: i128 = 15 * 60 * NANOS;
    let (s, n, t) = trip_parts(existing_trip_time);
    let update =
        run_transit_traversal(&engine, 0, &start_datetime, s, n, &t, EMPTY_ROUTE, false).unwrap();
    let penalty = NOT_FOUND_TIME_PENALTY_DAYS as i128 * 86_400 * NANOS;
    assert_eq!(existing_trip_time + update.added_time, existing_trip_time + penalty);
    assert_eq!(update.added_time, penalty);
}

#[test]
fn schedule_loading_policy_date_range() {
    let policy = ScheduleLoadingPolicy::InDateRange {
        start_date: dt("2023-06-15 08:00:00"),
        end_date: dt("2023-06-15 10:00:00"),
    };
    let mut schedule = Schedule::new();
    policy.insert_if_valid(&mut schedule, dep("2023-06-15 07:59:59", "2023-06-15 08:30:00"));
    policy.insert_if_valid(&mut schedule, dep("2023-06-15 08:00:00", "2023-06-15 08:30:00"));
    policy.insert_if_valid(&mut schedule, dep("2023-06-15 10:00:00", "2023-06-15 10:30:00"));
    policy.insert_if_valid(&mut schedule, dep("2023-06-15 10:00:01", "2023-06-15 10:30:00"));
    assert_eq!(schedule.len(), 2);
    assert_eq!(ScheduleLoadingPolicy::default(), ScheduleLoadingPolicy::All);
}

#[test]
fn reversing_a_date_mapping_keeps_the_wait() {
    let current = dt("2024-03-04 10:00:00");
    let mapped = dt("2024-03-11 10:00:00");
    let found = dep("2024-03-11 10:15:00", "2024-03-11 10:40:00");
    let back = reverse_date_mapping(&current, &mapped, found);
    assert_eq!(back.src_departure_time, dt("2024-03-04 10:15:00"));
    assert_eq!(back.dst_arrival_time, dt("2024-03-04 10:40:00"));
    let same = reverse_date_mapping(&current, &current, dep("2024-03-04 11:00:00", "2024-03-04 11:30:00"));
    assert_eq!(same, dep("2024-03-04 11:00:00", "2024-03-04 11:30:00"));
}

#[test]
fn an_inserted_departure_is_found_by_a_search_at_its_time() {
    let mut schedule = Schedule::from_departures(vec![dep("2024-03-04 09:00:00", "2024-03-04 09:30:00")]);
    schedule.insert(dep("2024-03-04 12:00:00", "2024-03-04 12:20:00"));
    let found = schedule.lower_bound(&Departure::construct_query(dt("2024-03-04 12:00:00"))).unwrap();
    assert_eq!(found, dep("2024-03-04 12:00:00", "2024-03-04 12:20:00"));
    let earlier = schedule.lower_bound(&Departure::construct_query(dt("2024-03-04 10:00:00"))).unwrap();
    assert_eq!(earlier, dep("2024-03-04 12:00:00", "2024-03-04 12:20:00"));
}

#[test]
fn departures_leaving_together_are_found_latest_added_first() {
    let first = dep("2024-03-04 09:00:00", "2024-03-04 09:20:00");
    let second = dep("2024-03-04 09:00:00", "2024-03-04 09:45:00");
    let third = dep("2024-03-04 09:00:00", "2024-03-04 09:10:00");
    let mut schedule = Schedule::from_departures(vec![first, second]);
    let query = Departure::construct_query(dt("2024-03-04 08:30:00"));
    assert_eq!(schedule.lower_bound(&query), Some(second));
    schedule.insert(third);
    assert_eq!(schedule.lower_bound(&query), Some(third));
    let at_nine = Departure::construct_query(dt("2024-03-04 09:00:00"));
    assert_eq!(schedule.lower_bound(&at_nine), Some(third));
    assert_eq!(schedule.iter(), vec![third, second, first]);
}

#[test]
fn listing_orders_by_departure_then_latest_added() {
    let a = dep("2024-03-04 10:00:00", "2024-03-04 10:05:00");
    let b = dep("2024-03-04 08:00:00", "2024-03-04 08:50:00");
    let c = dep("2024-03-04 10:00:00", "2024-03-04 10:01:00");
    let d = dep("2024-03-04 08:00:00", "2024-03-04 08:30:00");
    let schedule = Schedule::from_departures(vec![a, b, c, d]);
    assert_eq!(schedule.len(), 4);
    assert_eq!(schedule.iter(), vec![d, b, c, a]);
}
