use bambam::temporal::DateTime;
use bambam::transit::engine::TransitTraversalEngine;
use bambam::transit::loader::RawScheduleRow;
use bambam::transit::loading_policy::ScheduleLoadingPolicy;
use bambam::transit::ops::TransitError;

fn at(text: &str) -> DateTime {
    DateTime::parse(text, "%Y-%m-%d %H:%M:%S").unwrap()
}

fn row(edge_id: usize, route: &str, dep: &str, arr: &str) -> RawScheduleRow {
    RawScheduleRow {
        edge_id,
        fully_qualified_id: route.to_string(),
        src_departure_time: at(dep),
        dst_arrival_time: at(arr),
    }
}

fn ids(names: &[&str]) -> Vec<String> {
    names.iter().map(|n| n.to_string()).collect()
}

fn build_error(r: Result<TransitTraversalEngine, TransitError>) -> String {
    match r {
        Err(TransitError::BuildError(m)) => m,
        Err(other) => panic!("unexpected error {:?}", other),
        Ok(_) => panic!("expected an error"),
    }
}

#[test]
fn an_engine_is_built_from_its_parts() {
    let rows = vec![
        row(0, "r1", "2025-01-01 08:00:00", "2025-01-01 08:10:00"),
        row(0, "r2", "2025-01-01 08:05:00", "2025-01-01 08:08:00"),
        row(1, "r1", "2025-01-01 09:00:00", "2025-01-01 09:10:00"),
    ];
    let engine = TransitTraversalEngine::from_parts(
        ids(&["r1", "r2"]),
        &ids(&["r1", "r2"]),
        &vec![],
        &rows,
        ScheduleLoadingPolicy::All,
    );
    let engine = match engine {
        Ok(e) => e,
        Err(e) => panic!("unexpected {:?}", e),
    };
    let (route, dep) = engine.get_next_departure(0, &at("2025-01-01 07:00:00")).unwrap();
    assert_eq!(route, 1);
    assert_eq!(dep.dst_arrival_time, at("2025-01-01 08:08:00"));
    let (route, dep) = engine.get_next_departure(1, &at("2025-01-01 07:00:00")).unwrap();
    assert_eq!(route, 0);
    assert_eq!(dep.src_departure_time, at("2025-01-01 09:00:00"));
}

#[test]
fn a_repeated_route_id_fails_the_engine() {
    let r = TransitTraversalEngine::from_parts(ids(&["r1", "r2", "r1"]), &vec![], &vec![], &vec![], ScheduleLoadingPolicy::All);
    assert_eq!(build_error(r), "category 'r1' appears more than once");
}

#[test]
fn an_unenumerated_archive_route_fails_the_engine() {
    let r = TransitTraversalEngine::from_parts(ids(&["r1"]), &ids(&["r9"]), &vec![], &vec![], ScheduleLoadingPolicy::All);
    assert_eq!(build_error(r), "fully-qualified route id '{route_id}' has no entry in enumeration table from file");
}

#[test]
fn a_row_of_an_unknown_route_fails_the_engine() {
    let rows = vec![row(0, "r7", "2025-01-01 08:00:00", "2025-01-01 08:10:00")];
    let r = TransitTraversalEngine::from_parts(ids(&["r1"]), &ids(&["r1"]), &vec![], &rows, ScheduleLoadingPolicy::All);
    assert_eq!(build_error(r), "Cannot find route id mapping for string r7");
}

#[test]
fn a_gap_in_edge_ids_fails_the_engine() {
    let rows = vec![row(1, "r1", "2025-01-01 08:00:00", "2025-01-01 08:10:00")];
    let r = TransitTraversalEngine::from_parts(ids(&["r1"]), &ids(&["r1"]), &vec![], &rows, ScheduleLoadingPolicy::All);
    assert_eq!(build_error(r), "Invalid schedules file. Missing edge_id 0 when the maximum edge_id is 1");
}

#[test]
fn of_rows_leaving_together_the_later_row_is_the_next_departure() {
    let rows = vec![
        row(0, "r1", "2025-01-01 08:00:00", "2025-01-01 08:10:00"),
        row(0, "r1", "2025-01-01 08:00:00", "2025-01-01 08:40:00"),
    ];
    let engine = match TransitTraversalEngine::from_parts(ids(&["r1"]), &ids(&["r1"]), &vec![], &rows, ScheduleLoadingPolicy::All) {
        Ok(e) => e,
        Err(e) => panic!("unexpected {:?}", e),
    };
    let (route, dep) = engine.get_next_departure(0, &at("2025-01-01 07:00:00")).unwrap();
    assert_eq!(route, 0);
    assert_eq!(dep.src_departure_time, at("2025-01-01 08:00:00"));
    assert_eq!(dep.dst_arrival_time, at("2025-01-01 08:40:00"));
}
