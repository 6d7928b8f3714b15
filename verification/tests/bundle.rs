use bambam::schedule::bundle::{EdgeConfig, GtfsBundle, GtfsEdge};
use bambam::schedule::metadata::{FieldValue, InnerValue, JsonNumber, Metadata};
use bambam::schedule::rows::{DateMapping, ScheduleRow};
use bambam::temporal::{Date, DateTime};

fn make_test_edge(src: usize, dst: usize, edge_id: usize, feed_id: &str, route_id: &str) -> GtfsEdge {
    let edge = EdgeConfig {
        edge_id,
        src_vertex_id: src,
        dst_vertex_id: dst,
        distance_bits: 100.0f64.to_bits(),
    };
    let geometry = vec![
        (0.0f64.to_bits(), 0.0f64.to_bits()),
        (1.0f64.to_bits(), 1.0f64.to_bits()),
    ];
    let mut gtfs_edge = GtfsEdge::new(edge, geometry);
    let dt = DateTime::parse("2025-01-01 08:00:00", "%Y-%m-%d %H:%M:%S").unwrap();
    gtfs_edge.add_schedule(ScheduleRow::new(
        edge_id,
        Some(feed_id.to_string()),
        route_id.to_string(),
        "service_1".to_string(),
        Some("agency_1".to_string()),
        dt,
        dt,
    ));
    gtfs_edge
}

fn text_array(items: &[&str]) -> FieldValue {
    FieldValue::Array(items.iter().map(|s| s.to_string()).collect())
}

fn duration(secs: u64, nanos: u64) -> FieldValue {
    FieldValue::Object(vec![
        ("secs".to_string(), InnerValue::Number(JsonNumber::PosInt(secs))),
        ("nanos".to_string(), InnerValue::Number(JsonNumber::PosInt(nanos))),
    ])
}

fn bundle_metadata(agency: &str, publisher: &str, secs: u64, nanos: u64, service: &str, cal: &str, date: &str) -> Metadata {
    Metadata::Object(vec![
        ("agencies".to_string(), text_array(&[&format!("{{\"id\":\"{}\"}}", agency)])),
        ("feed_info".to_string(), text_array(&[&format!("{{\"publisher\":\"{}\"}}", publisher)])),
        ("read_duration".to_string(), duration(secs, nanos)),
        (
            "calendar".to_string(),
            FieldValue::Object(vec![(service.to_string(), InnerValue::Other(format!("\"{}\"", cal)))]),
        ),
        (
            "calendar_dates".to_string(),
            FieldValue::Object(vec![(service.to_string(), InnerValue::Array(vec![format!("\"{}\"", date)]))]),
        ),
    ])
}

fn mapping(feed: &str, agency: &str, route: &str, service: &str, target: (i32, u32, u32), picked: (i32, u32, u32)) -> DateMapping {
    DateMapping {
        feed_id: Some(feed.to_string()),
        agency_id: Some(agency.to_string()),
        route_id: route.to_string(),
        service_id: service.to_string(),
        target_date: Date::from_ymd_opt(target.0, target.1, target.2).unwrap(),
        picked_date: Date::from_ymd_opt(picked.0, picked.1, picked.2).unwrap(),
    }
}

#[test]
fn test_merge_all_consolidates_and_renumbers_dense_ids() {
    // Bundle 1 has edge (1 -> 2) with edge_id 0 and edge (2 -> 3) with edge_id 1
    let bundle1 = GtfsBundle {
        edges: vec![
            make_test_edge(1, 2, 0, "feed_a", "route_1"),
            make_test_edge(2, 3, 1, "feed_a", "route_2"),
        ],
        metadata: bundle_metadata("agency_a", "pub_a", 1, 500_000_000, "serv_a", "cal_a", "date_a1"),
        date_mapping: vec![mapping("feed_a", "agency_a", "route_1", "serv_a", (2025, 1, 1), (2025, 1, 2))],
    };

    // Bundle 2 shares edge (1 -> 2) but with edge_id 0, plus a new edge (3 -> 4) with edge_id 1
    let bundle2 = GtfsBundle {
        edges: vec![
            make_test_edge(1, 2, 0, "feed_b", "route_x"),
            make_test_edge(3, 4, 1, "feed_b", "route_y"),
        ],
        metadata: bundle_metadata("agency_b", "pub_b", 2, 700_000_000, "serv_b", "cal_b", "date_b1"),
        date_mapping: vec![mapping("feed_b", "agency_b", "route_x", "serv_b", (2025, 1, 1), (2025, 1, 3))],
    };

    let bundles = vec![bundle1, bundle2];
    assert!(GtfsBundle::merge_all_fits(&bundles));
    let merged = GtfsBundle::merge_all(bundles);

    // Total unique vertex pairs: (1, 2), (2, 3), (3, 4) => exactly 3 edges
    assert_eq!(merged.edges.len(), 3);

    // Edge IDs must be dense: 0, 1, 2
    for (expected_id, edge) in merged.edges.iter().enumerate() {
        assert_eq!(edge.edge.edge_id, expected_id);
        for schedule in edge.schedules.iter() {
            assert_eq!(schedule.edge_id, expected_id);
        }
    }

    // Edge (1 -> 2) was merged and should have 2 schedules from feed_a and feed_b
    let edge_1_2 = &merged.edges[0];
    assert_eq!(edge_1_2.edge.src_vertex_id, 1);
    assert_eq!(edge_1_2.edge.dst_vertex_id, 2);
    assert_eq!(edge_1_2.schedules.len(), 2);
    assert_eq!(edge_1_2.schedules[0].feed_id.as_deref(), Some("feed_a"));
    assert_eq!(edge_1_2.schedules[1].feed_id.as_deref(), Some("feed_b"));

    // Date mappings must contain both entries
    assert_eq!(merged.date_mapping.len(), 2);

    // Metadata check
    match merged.metadata.field("agencies") {
        Some(FieldValue::Array(agencies)) => assert_eq!(agencies.len(), 2),
        other => panic!("agencies is not an array: {:?}", other),
    }
    let duration = merged.metadata.field("read_duration").unwrap();
    assert_eq!(duration.entry("secs"), Some(&InnerValue::Number(JsonNumber::PosInt(4)))); // 1 + 2 + 1 carry from 1.2s nanos
    assert_eq!(duration.entry("nanos"), Some(&InnerValue::Number(JsonNumber::PosInt(200_000_000))));
    let calendar = merged.metadata.field("calendar").unwrap();
    assert!(calendar.entry("serv_a").is_some());
    assert!(calendar.entry("serv_b").is_some());
}

#[test]
fn merge_all_keeps_first_geometry_and_sorts_rows_by_departure() {
    let mut late = make_test_edge(5, 6, 7, "feed_a", "late");
    late.edge.distance_bits = 250.0f64.to_bits();
    late.schedules[0].src_departure_time = DateTime::parse("2025-01-01 09:00:00", "%Y-%m-%d %H:%M:%S").unwrap();
    let early = make_test_edge(5, 6, 3, "feed_b", "early");
    let bundle = GtfsBundle {
        edges: vec![late, make_test_edge(0, 9, 1, "feed_c", "other"), early],
        metadata: Metadata::Null,
        date_mapping: vec![],
    };
    let merged = GtfsBundle::merge_all(vec![bundle]);
    assert_eq!(merged.edges.len(), 2);
    assert_eq!((merged.edges[0].edge.src_vertex_id, merged.edges[0].edge.dst_vertex_id), (0, 9));
    let joined = &merged.edges[1];
    assert_eq!(joined.edge.edge_id, 1);
    assert_eq!(joined.edge.distance_bits, 250.0f64.to_bits());
    assert_eq!(joined.schedules.len(), 2);
    assert_eq!(joined.schedules[0].route_id, "early");
    assert_eq!(joined.schedules[1].route_id, "late");
    assert!(joined.schedules.iter().all(|s| s.edge_id == 1));
}

#[test]
fn extend_takes_union_of_date_mappings() {
    let m = mapping("feed_a", "agency_a", "route_1", "serv_a", (2025, 1, 1), (2025, 1, 2));
    let mut a = GtfsBundle::empty();
    a.date_mapping.push(m.clone());
    let b = GtfsBundle {
        edges: vec![make_test_edge(1, 2, 0, "feed_a", "route_1")],
        metadata: Metadata::Null,
        date_mapping: vec![m.clone(), mapping("feed_a", "agency_a", "route_2", "serv_a", (2025, 1, 1), (2025, 1, 2))],
    };
    a.extend(b);
    assert_eq!(a.date_mapping.len(), 2);
    assert_eq!(a.edges.len(), 1);
    assert!(!a.is_empty());
    assert!(GtfsBundle::empty().is_empty());
}

#[test]
fn merging_into_null_metadata_takes_the_source() {
    let mut a = GtfsBundle::empty();
    let b = GtfsBundle {
        edges: vec![],
        metadata: bundle_metadata("agency_a", "pub_a", 1, 0, "serv_a", "cal_a", "date_a1"),
        date_mapping: vec![],
    };
    a.extend(b);
    assert_eq!(a.metadata, bundle_metadata("agency_a", "pub_a", 1, 0, "serv_a", "cal_a", "date_a1"));
}

#[test]
fn merging_calendar_dates_concatenates_arrays() {
    let mut a = GtfsBundle::empty();
    a.metadata = bundle_metadata("agency_a", "pub_a", 0, 0, "serv", "cal_a", "d1");
    let b = GtfsBundle {
        edges: vec![],
        metadata: bundle_metadata("agency_b", "pub_b", 0, 0, "serv", "cal_b", "d2"),
        date_mapping: vec![],
    };
    a.extend(b);
    let dates = a.metadata.field("calendar_dates").unwrap();
    assert_eq!(
        dates.entry("serv"),
        Some(&InnerValue::Array(vec!["\"d1\"".to_string(), "\"d2\"".to_string()]))
    );
    let cal = a.metadata.field("calendar").unwrap();
    assert_eq!(cal.entry("serv"), Some(&InnerValue::Other("\"cal_b\"".to_string())));
}

#[test]
fn single_element_array_metadata_is_normalized() {
    let inner = bundle_metadata("agency_a", "pub_a", 1, 0, "serv_a", "cal_a", "date_a1");
    let entries = match inner {
        Metadata::Object(e) => e,
        _ => unreachable!(),
    };
    let mut a = GtfsBundle::empty();
    a.metadata = Metadata::Array(vec![bambam::schedule::metadata::MetadataItem::Object(entries)]);
    let b = GtfsBundle {
        edges: vec![],
        metadata: bundle_metadata("agency_b", "pub_b", 2, 0, "serv_b", "cal_b", "date_b1"),
        date_mapping: vec![],
    };
    a.extend(b);
    let d = a.metadata.field("read_duration").unwrap();
    assert_eq!(d.entry("secs"), Some(&InnerValue::Number(JsonNumber::PosInt(3))));
}
