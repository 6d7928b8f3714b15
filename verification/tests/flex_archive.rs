use bambam::flex::archive::{
    join_flex_files, process_archive, FlexStopTime, FlexTrip, GtfsFlexDataset, GtfsFlexError,
    PickupDropOffType,
};
use bambam::flex::feed::Route;
use bambam::schedule::calendar::{Calendar, CalendarDate, Exception};
use bambam::temporal::{Date, Time};

fn calendar(id: &str) -> Calendar {
    Calendar {
        id: id.to_string(),
        start_date: Date::from_ymd_opt(2025, 1, 1).unwrap(),
        end_date: Date::from_ymd_opt(2025, 12, 31).unwrap(),
        monday: true,
        tuesday: true,
        wednesday: true,
        thursday: true,
        friday: true,
        saturday: false,
        sunday: false,
    }
}

fn stop(pickup: PickupDropOffType, drop_off: PickupDropOffType, loc: Option<&str>) -> FlexStopTime {
    FlexStopTime {
        pickup_type: pickup,
        drop_off_type: drop_off,
        location_id: loc.map(|s| s.to_string()),
        start_pickup_drop_off_window: Some(8 * 3600),
        end_pickup_drop_off_window: Some(17 * 3600),
    }
}

fn flex_trip(id: &str, route: &str, service: &str, origin: Option<&str>, destination: Option<&str>) -> FlexTrip {
    FlexTrip {
        trip_id: id.to_string(),
        route_id: route.to_string(),
        service_id: service.to_string(),
        stop_times: vec![
            stop(PickupDropOffType::ArrangeByPhone, PickupDropOffType::NotAvailable, origin),
            stop(PickupDropOffType::NotAvailable, PickupDropOffType::ArrangeByPhone, destination),
        ],
        origin_geometry: origin.map(|_| Ok("POLYGON((0 0,1 0,1 1,0 0))".to_string())),
    }
}

fn routes() -> Vec<Route> {
    vec![
        Route { route_id: "r1".to_string(), agency_id: Some("ag".to_string()) },
        Route { route_id: "r2".to_string(), agency_id: None },
    ]
}

#[test]
fn process_archive_builds_records_for_active_flex_trips() {
    let trips = vec![
        flex_trip("t1", "r1", "weekday", Some("zb"), Some("za")),
        flex_trip("t2", "r2", "weekday", Some("zc"), Some("zd")),
        flex_trip("t3", "r1", "other", Some("zc"), Some("zd")),
    ];
    // 2025-01-08 is a Wednesday
    let ds: GtfsFlexDataset =
        process_archive("20250108", "feed", 4, &vec![calendar("weekday")], &vec![], &routes(), &trips).unwrap();
    assert_eq!(ds.records.len(), 2);
    assert_eq!(ds.records[0].origin_zone.as_str(), "ag-r1-t1-zb");
    assert_eq!(ds.records[0].destination_zone.as_str(), "ag-r1-t1-za");
    assert_eq!(ds.records[1].agency_id, "archive4");
    assert_eq!(ds.records[0].start_pickup_drop_off_window, Time::from_hms_opt(8, 0, 0));
    assert_eq!(ds.geometries.len(), 2);
    assert_eq!(ds.geometries[0].zone_id.as_str(), "ag-r1-t1-zb");
    let ids: Vec<&str> = ds.zone_ids.iter().map(|z| z.as_str()).collect();
    assert_eq!(ids, vec!["ag-r1-t1-za", "ag-r1-t1-zb", "archive4-r2-t2-zc", "archive4-r2-t2-zd"]);
}

#[test]
fn process_archive_rejects_an_invalid_date() {
    match process_archive("2025-01-08", "feed", 0, &vec![], &vec![], &routes(), &vec![]) {
        Err(GtfsFlexError::Runtime(m)) => assert!(m.starts_with("user date request is invalid: ")),
        other => panic!("unexpected {:?}", other),
    }
}

#[test]
fn process_archive_reports_trips_missing_a_location_or_agency() {
    let trips = vec![flex_trip("t1", "r1", "weekday", None, Some("za"))];
    match process_archive("20250108", "feed", 0, &vec![calendar("weekday")], &vec![], &routes(), &trips) {
        Err(GtfsFlexError::Runtime(m)) => {
            assert_eq!(m, "GTFS-Flex Trip t1 has origin StopTime that is missing a 'location' entry")
        }
        other => panic!("unexpected {:?}", other),
    }
    let trips = vec![flex_trip("t9", "nope", "weekday", Some("zb"), Some("za"))];
    match process_archive("20250108", "feed", 0, &vec![calendar("weekday")], &vec![], &routes(), &trips) {
        Err(GtfsFlexError::Internal(m)) => {
            assert_eq!(m, "after ensuring bijection from routes to agencies, found trip t9 had no agency")
        }
        other => panic!("unexpected {:?}", other),
    }
}

#[test]
fn process_archive_skips_weekends_without_service() {
    let trips = vec![flex_trip("t1", "r1", "weekday", Some("zb"), Some("za"))];
    // 2025-01-11 is a Saturday
    let ds = process_archive("20250111", "feed", 0, &vec![calendar("weekday")], &vec![], &routes(), &trips).unwrap();
    assert!(ds.records.is_empty());
    assert!(ds.zone_ids.is_empty());
}

#[test]
fn join_flex_files_passes_over_trips_missing_a_location() {
    let trips = vec![
        flex_trip("t1", "r1", "weekday", None, Some("za")),
        flex_trip("t2", "r1", "weekday", Some("zc"), Some("zd")),
    ];
    let zones = join_flex_files("20250108", "feed", 0, &vec![calendar("weekday")], &vec![], &routes(), &trips).unwrap();
    assert_eq!(zones.len(), 1);
    assert_eq!(zones[0].origin_zone, "zc");
    assert_eq!(zones[0].destination_zone, "zd");
    assert_eq!(zones[0].agency_id.as_deref(), Some("ag"));
    assert_eq!(zones[0].end_pickup_drop_off_window, Time::from_hms_opt(17, 0, 0));
}

#[test]
fn flex_datasets_extend_in_order() {
    let trips = vec![flex_trip("t1", "r1", "weekday", Some("zb"), Some("za"))];
    let mut a = process_archive("20250108", "feed", 0, &vec![calendar("weekday")], &vec![], &routes(), &trips).unwrap();
    let b = process_archive("20250108", "feed2", 1, &vec![calendar("weekday")], &vec![], &routes(), &trips).unwrap();
    a.extend(b);
    assert_eq!(a.records.len(), 2);
    assert_eq!(a.records[1].feed, "feed2");
    assert_eq!(a.zone_ids.len(), 4);
}

fn exception(service: &str, y: i32, m: u32, d: u32, kind: Exception) -> CalendarDate {
    CalendarDate { service_id: service.to_string(), date: Date::from_ymd_opt(y, m, d).unwrap(), exception_type: kind }
}

#[test]
fn a_deleted_date_removes_an_active_flex_trip() {
    let trips = vec![flex_trip("t1", "r1", "weekday", Some("zb"), Some("za"))];
    let removed = vec![exception("weekday", 2025, 1, 8, Exception::Deleted)];
    let zones = join_flex_files("20250108", "feed", 0, &vec![calendar("weekday")], &removed, &routes(), &trips).unwrap();
    assert!(zones.is_empty());
    let ds = process_archive("20250108", "feed", 0, &vec![calendar("weekday")], &removed, &routes(), &trips).unwrap();
    assert!(ds.records.is_empty());
    // a deletion on another day leaves the trip active
    let other = vec![exception("weekday", 2025, 1, 9, Exception::Deleted)];
    let zones = join_flex_files("20250108", "feed", 0, &vec![calendar("weekday")], &other, &routes(), &trips).unwrap();
    assert_eq!(zones.len(), 1);
}

#[test]
fn an_added_date_makes_a_flex_trip_active() {
    let trips = vec![flex_trip("t1", "r1", "weekend", Some("zb"), Some("za"))];
    // 2025-01-11 is a Saturday, and no calendar lists the service
    let added = vec![exception("weekend", 2025, 1, 11, Exception::Added)];
    let zones = join_flex_files("20250111", "feed", 0, &vec![], &added, &routes(), &trips).unwrap();
    assert_eq!(zones.len(), 1);
    assert_eq!(zones[0].trip_id, "t1");
    let zones = join_flex_files("20250111", "feed", 0, &vec![], &vec![], &routes(), &trips).unwrap();
    assert!(zones.is_empty());
}
