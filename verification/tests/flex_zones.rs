use bambam::category::CategoricalMapping;
use bambam::flex::graph::ZoneGraph;
use bambam::flex::ops::{valid_frontier, validate_flex_destination};
use bambam::flex::relation::ZonalRelationRecord;
use bambam::flex::zone_id::ZoneId;
use bambam::temporal::{Date, DateTime, Time};
use bambam::transit::ops::TransitError;

fn zone(s: &str) -> ZoneId {
    ZoneId::try_from_str(s).unwrap()
}

fn at(hour: u32, min: u32) -> DateTime {
    Date::from_ymd_opt(2024, 1, 1)
        .unwrap()
        .and_time(&Time::from_hms_opt(hour, min, 0).unwrap())
}

fn graph() -> ZoneGraph {
    let record = ZonalRelationRecord {
        trip_id: "t1".to_string(),
        src_zone_id: zone("ag-r1-t1-z1"),
        dst_zone_id: Some(zone("ag-r1-t1-z2")),
        start_time: Some(Time::from_hms_opt(8, 0, 0).unwrap()),
        end_time: Some(Time::from_hms_opt(12, 0, 0).unwrap()),
    };
    ZoneGraph::from_records(&vec![record]).unwrap()
}

fn mapping() -> CategoricalMapping {
    CategoricalMapping::new(vec!["ag-r1-t1-z1".to_string(), "ag-r1-t1-z2".to_string()]).unwrap()
}

#[test]
fn a_related_zone_at_the_vertex_is_a_valid_destination() {
    let zones = vec![zone("ag-r1-t1-z9"), zone("ag-r1-t1-z2")];
    let r = validate_flex_destination(&graph(), &mapping(), 0, &at(9, 0), 30, &zones);
    assert_eq!(r, Ok(true));
}

#[test]
fn an_unrelated_zone_at_the_vertex_is_no_destination() {
    let zones = vec![zone("ag-r1-t1-z9")];
    let r = validate_flex_destination(&graph(), &mapping(), 0, &at(9, 0), 30, &zones);
    assert_eq!(r, Ok(false));
    let none: Vec<ZoneId> = Vec::new();
    assert_eq!(validate_flex_destination(&graph(), &mapping(), 0, &at(9, 0), 30, &none), Ok(false));
}

#[test]
fn a_destination_check_without_a_source_zone_is_an_internal_error() {
    let zones = vec![zone("ag-r1-t1-z2")];
    let r = validate_flex_destination(&graph(), &mapping(), -1, &at(9, 0), 30, &zones);
    assert_eq!(
        r,
        Err(TransitError::InternalError(
            "field 'trip_src_zone_id' exists in state get_src_zone_id fails".to_string()
        ))
    );
    assert_eq!(
        r.unwrap_err().message(),
        "internal error: field 'trip_src_zone_id' exists in state get_src_zone_id fails"
    );
}

#[test]
fn a_destination_check_with_an_unknown_label_fails() {
    let zones = vec![zone("ag-r1-t1-z2")];
    let r = validate_flex_destination(&graph(), &mapping(), 7, &at(9, 0), 30, &zones);
    assert_eq!(
        r,
        Err(TransitError::TraversalModelFailure(
            "while validating flex destination, label 7 has no corresponding ZoneId in mapping".to_string()
        ))
    );
}

#[test]
fn a_destination_check_past_a_minute_of_trip_time_fails() {
    let zones = vec![zone("ag-r1-t1-z2")];
    let r = validate_flex_destination(&graph(), &mapping(), 0, &at(9, 0), 60, &zones);
    assert_eq!(
        r,
        Err(TransitError::TraversalModelFailure(
            "while validating flex destination, overflow when adding 60 seconds to 2024-01-01 09:00:00"
                .to_string()
        ))
    );
}

#[test]
fn a_trip_under_way_continues_over_any_edge() {
    assert_eq!(valid_frontier(&graph(), 0, None, &at(23, 0), 75), Ok(true));
}

#[test]
fn a_trip_boards_only_in_a_zone_with_a_departure_at_the_current_time() {
    let g = graph();
    assert_eq!(valid_frontier(&g, -1, Some(zone("ag-r1-t1-z1")), &at(9, 0), 10), Ok(true));
    assert_eq!(valid_frontier(&g, -1, Some(zone("ag-r1-t1-z1")), &at(13, 0), 10), Ok(false));
    assert_eq!(valid_frontier(&g, -1, Some(zone("ag-r1-t1-z2")), &at(9, 0), 10), Ok(false));
    assert_eq!(valid_frontier(&g, -1, None, &at(9, 0), 10), Ok(false));
}

#[test]
fn a_departure_check_past_a_minute_of_trip_time_fails() {
    let r = valid_frontier(&graph(), -1, None, &at(9, 0), 61);
    assert_eq!(
        r,
        Err("while validating frontier for gtfs-flex trip and constructing current datetime at edge traversal, overflow when adding 61 seconds to 2024-01-01 09:00:00".to_string())
    );
}

#[test]
fn transit_errors_read_with_their_kind() {
    assert_eq!(TransitError::BuildError("x".to_string()).message(), "failure building traversal model: x");
    assert_eq!(TransitError::TraversalModelFailure("y".to_string()).message(), "y");
}
