use bambam::schedule::fq_ops::get_fully_qualified_route_id;

#[test]
fn test_fully_qualified_route_id_with_feed_and_agency() {
    let fq_id = get_fully_qualified_route_id(Some("denver_rtd"), Some("RTD"), "15", "weekday", 1);
    assert_eq!(fq_id, "1->denver_rtd->RTD->15->weekday");
}

#[test]
fn test_fully_qualified_route_id_empty_feed_and_agency() {
    let fq_id = get_fully_qualified_route_id(None, None, "15", "weekday", 0);
    assert_eq!(fq_id, "0->()->()->15->weekday");
}

#[test]
fn test_fully_qualified_route_id_cleans_commas() {
    let fq_id = get_fully_qualified_route_id(
        Some("feed,1"),
        Some("agency,1"),
        "route,1",
        "service,1",
        2,
    );
    assert_eq!(fq_id, "2->feed_1->agency_1->route_1->service_1");
}

#[test]
fn fully_qualified_route_id_treats_empty_ids_as_missing() {
    let fq_id = get_fully_qualified_route_id(Some(""), Some(""), "r", "s", 1234567);
    assert_eq!(fq_id, "1234567->()->()->r->s");
}
