use bambam::flex::graph::ZoneGraph;
use bambam::flex::relation::{ZonalRelation, ZonalRelationRecord};
use bambam::flex::zone_id::{parse_zone_id, ZoneId};
use bambam::flex::zone_schedule::ZoneSchedule;
use bambam::schedule::calendar::{Calendar, CalendarDate, Exception, ServiceCalendar};
use bambam::schedule::policy::{pick_nearest_date, DateMappingPolicy};
use bambam::schedule::trip::{SortedTrip, StopTime};
use bambam::temporal::{Date, DateTime, Time};

fn date(y: i32, m: u32, d: u32) -> Date {
    Date::from_ymd_opt(y, m, d).unwrap()
}

fn trip() -> SortedTrip {
    SortedTrip { trip_id: "t1".to_string(), route_id: "r1".to_string(), service_id: "s1".to_string(), stop_times: vec![] }
}

fn all_days(start: Date, end: Date) -> Calendar {
    Calendar {
        id: "s1".to_string(),
        start_date: start,
        end_date: end,
        monday: true,
        tuesday: true,
        wednesday: true,
        thursday: true,
        friday: true,
        saturday: true,
        sunday: true,
    }
}

fn added(d: Date) -> CalendarDate {
    CalendarDate { service_id: "s1".to_string(), date: d, exception_type: Exception::Added }
}

fn time(h: u32, m: u32) -> Time {
    Time::from_hms_opt(h, m, 0).unwrap()
}

#[test]
fn the_nearest_added_date_is_picked_beside_a_calendar() {
    // the calendar ends long before the target; exceptions add service near it
    let svc = ServiceCalendar {
        calendar: Some(all_days(date(2024, 1, 1), date(2024, 1, 31))),
        calendar_dates: Some(vec![added(date(2025, 3, 20)), added(date(2025, 3, 12)), added(date(2025, 3, 8))]),
    };
    let picked = pick_nearest_date(&date(2025, 3, 10), &trip(), &svc, 5, false).unwrap();
    // 8th and 12th are equally near: the earlier wins
    assert_eq!(picked, date(2025, 3, 8));
    // outside the tolerance nothing is picked
    assert!(pick_nearest_date(&date(2025, 3, 1), &trip(), &svc, 2, false).is_err());
}

#[test]
fn a_deleted_added_date_is_not_picked() {
    let svc = ServiceCalendar {
        calendar: Some(all_days(date(2024, 1, 1), date(2024, 1, 31))),
        calendar_dates: Some(vec![
            added(date(2025, 3, 11)),
            CalendarDate { service_id: "s1".to_string(), date: date(2025, 3, 11), exception_type: Exception::Deleted },
            added(date(2025, 3, 13)),
        ]),
    };
    assert_eq!(pick_nearest_date(&date(2025, 3, 10), &trip(), &svc, 5, false).unwrap(), date(2025, 3, 13));
}

#[test]
fn a_relation_with_several_windows_accepts_a_time_in_any_of_them() {
    let z = ZoneId::try_from_str("a-b-c-d").unwrap();
    let mut r = ZonalRelation::ToZoneScheduled { dst_zone_id: z, schedule: ZoneSchedule::new(time(8, 0), time(10, 0)) };
    r.add_schedule(ZoneSchedule::new(time(12, 0), time(14, 0)));
    let nanos = |h: u64| h * 3600 * 1_000_000_000;
    assert!(r.valid_time(nanos(9)));
    assert!(r.valid_time(nanos(13)));
    assert!(!r.valid_time(nanos(11)));
    assert!(!r.valid_time(nanos(15)));
}

#[test]
fn later_records_add_their_windows_to_a_relation() {
    let rec = |s: u32, e: u32| ZonalRelationRecord {
        trip_id: "t".to_string(),
        src_zone_id: ZoneId::try_from_str("a-b-c-src").unwrap(),
        dst_zone_id: Some(ZoneId::try_from_str("a-b-c-dst").unwrap()),
        start_time: Some(time(s, 0)),
        end_time: Some(time(e, 0)),
    };
    let g = ZoneGraph::from_records(&vec![rec(8, 10), rec(12, 14)]).unwrap();
    let src = ZoneId::try_from_str("a-b-c-src").unwrap();
    let at = |h: u32| Date::from_ymd_opt(2025, 1, 1).unwrap().and_time(&time(h, 30));
    assert_eq!(g.valid_departure(&src, &at(9)), Ok(true));
    assert_eq!(g.valid_departure(&src, &at(13)), Ok(true));
    assert_eq!(g.valid_departure(&src, &at(11)), Ok(false));
    assert_eq!(g.keys().len(), 1);
}

#[test]
fn zone_ids_are_four_hyphenated_parts() {
    assert!(ZoneId::try_from_str("ag-route-trip-loc").is_ok());
    assert!(ZoneId::try_from_str("ag-route-trip-loc-extra").is_ok());
    assert!(ZoneId::try_from_str("a-b-c").is_err());
    assert!(ZoneId::try_from_str("-b-c-d").is_err());
    assert!(ZoneId::try_from_str("a-b-c-").is_err());
    assert!(ZoneId::try_from_str("a-b\n-c-d").is_err());
    let z = ZoneId::from_full_namespace("ag", "r", "t", "loc");
    assert_eq!(ZoneId::try_from_str(&z.to_string()).unwrap().to_string(), "ag-r-t-loc");
}

#[test]
fn a_zone_id_row_that_is_no_zone_id_is_named() {
    assert_eq!(parse_zone_id(0, "a-b-c-d".to_string()).unwrap().to_string(), "a-b-c-d");
    assert_eq!(
        parse_zone_id(3, "a-b-c".to_string()).unwrap_err(),
        "failure decoding ZoneId at row 3. error: failure building zonal model: invalid zone id 'a-b-c'; expected format matching '.+-.+-.+-.+'"
    );
}

#[test]
fn a_leap_second_counts_as_the_next_second() {
    let leap = DateTime::parse("2016-12-31 23:59:60", "%Y-%m-%d %H:%M:%S").unwrap();
    let next = DateTime::parse("2017-01-01 00:00:00", "%Y-%m-%d %H:%M:%S").unwrap();
    assert_eq!(leap, next);
}

#[test]
fn dates_format_with_date_specifiers() {
    assert_eq!(date(2025, 3, 8).format("%m-%d-%Y"), "03-08-2025");
}

#[test]
fn dates_count_days_from_the_first_of_year_one() {
    assert_eq!(Date::from_ymd_opt(1, 1, 1).unwrap().days, 1);
    assert_eq!(Date::from_ymd_opt(2025, 1, 1).unwrap().days, 739_252);
    assert_eq!(Date::from_ymd_opt(0, 12, 31).unwrap().days, 0);
    assert!(Date::from_ymd_opt(2024, 2, 29).is_some());
    assert!(Date::from_ymd_opt(2023, 2, 29).is_none());
    assert!(Date::from_ymd_opt(2025, 13, 1).is_none());
    assert!(Date::from_ymd_opt(400_000, 1, 1).is_none());
}

#[test]
fn a_leap_second_is_read_after_second_fifty_nine() {
    let leap = Time::parse("08:00:60", "%H:%M:%S").unwrap();
    assert_eq!(leap.secs, 8 * 3600 + 59);
    assert_eq!(leap.frac, 1_000_000_000);
    let plain = Time::parse("08:00:59", "%H:%M:%S").unwrap();
    assert_eq!(plain.frac, 0);
    assert!(plain.at_or_before(&leap));
    assert!(!leap.at_or_before(&plain));
    assert!(leap.at_or_before(&Time::from_hms_opt(8, 1, 0).unwrap()));
}

#[test]
fn a_window_starting_at_a_leap_second_excludes_second_fifty_nine() {
    let start = Time::parse("08:00:60", "%H:%M:%S").unwrap();
    let end = Time::parse("09:00:00", "%H:%M:%S").unwrap();
    let d = date(2025, 1, 1);
    let policy = DateMappingPolicy::ExactDatetimeRange { start_date: d, end_date: d, start_time: start, end_time: end };
    let at = |secs: u32| StopTime { stop_id: "a".to_string(), arrival_time: Some(secs), departure_time: Some(secs) };
    assert!(!policy.within_time_range(&at(8 * 3600 + 59), &at(8 * 3600 + 59)));
    assert!(policy.within_time_range(&at(8 * 3600 + 60), &at(8 * 3600 + 60)));
    let window = ZoneSchedule::new(start, end);
    assert!(!window.contains(&Time::from_hms_opt(8, 0, 59).unwrap()));
    assert!(window.contains(&Time::from_hms_opt(8, 1, 0).unwrap()));
}

#[test]
fn a_window_ending_at_a_leap_second_includes_second_fifty_nine() {
    let start = Time::parse("23:00:00", "%H:%M:%S").unwrap();
    let end = Time::parse("23:59:60", "%H:%M:%S").unwrap();
    let d = date(2025, 1, 1);
    let policy = DateMappingPolicy::ExactDatetimeRange { start_date: d, end_date: d, start_time: start, end_time: end };
    let at = |secs: u32| StopTime { stop_id: "a".to_string(), arrival_time: Some(secs), departure_time: Some(secs) };
    assert!(policy.within_time_range(&at(86_399), &at(86_399)));
    assert!(ZoneSchedule::new(start, end).contains(&Time::from_hms_opt(23, 59, 59).unwrap()));
}

#[test]
fn time_ranges_are_ordered_by_start_time_alone() {
    let a = ZoneSchedule::new(time(8, 0), time(12, 0));
    let b = ZoneSchedule::new(time(9, 0), time(10, 0));
    let c = ZoneSchedule::new(time(8, 0), time(9, 0));
    assert!(a < b);
    assert!(b > c);
    assert_eq!(a.partial_cmp(&c), Some(std::cmp::Ordering::Equal));
    assert_ne!(a, c);
}
