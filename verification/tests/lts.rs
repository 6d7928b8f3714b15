use bambam::metrics::cycleway_tag::CyclewayTag;
use bambam::metrics::lts::{compute_lts, Lts, LtsError, MAX_LTS, MIN_LTS};
use bambam::metrics::network::EdgeAttributes;

#[test]
fn dedicated_with_buffer_is_always_lts1() {
    let lts = Lts::from_table_lookup(70, CyclewayTag::DedicatedWithBuffer, false).unwrap();
    assert_eq!(lts, Lts::new(1).unwrap());
}

#[test]
fn no_dedicated_no_facilities_high_speed_is_lts4() {
    let lts = Lts::from_table_lookup(50, CyclewayTag::NoDedicatedNoFacilities, false).unwrap();
    assert_eq!(lts, Lts::new(4).unwrap());
}

#[test]
fn no_dedicated_no_facilities_low_speed_is_lts2() {
    let lts = Lts::from_table_lookup(20, CyclewayTag::NoDedicatedNoFacilities, false).unwrap();
    assert_eq!(lts, Lts::new(2).unwrap());
}

#[test]
fn dedicated_no_buffer_high_speed_is_lts4() {
    let lts = Lts::from_table_lookup(45, CyclewayTag::DedicatedNoBuffer, false).unwrap();
    assert_eq!(lts, Lts::new(4).unwrap());
}

#[test]
fn no_dedicated_with_facilities_high_speed_is_lts4() {
    let lts = Lts::from_table_lookup(41, CyclewayTag::NoDedicatedWithFacilities, false).unwrap();
    assert_eq!(lts, Lts::new(4).unwrap());
}

fn street() -> EdgeAttributes {
    EdgeAttributes {
        traffic_speed_limit: None,
        cycleway_tag: None,
        walkable: true,
        walkable_highway: false,
        sidewalk: false,
        footway: false,
        unbikeable: false,
        non_motorized: false,
        oneway: false,
    }
}

#[test]
fn lts_new_rejects_out_of_range_levels() {
    assert_eq!(Lts::new(0), Err(LtsError::InvalidLts(0)));
    assert_eq!(Lts::new(5), Err(LtsError::InvalidLts(5)));
    assert_eq!(Lts::new(MIN_LTS).unwrap().level(), 1);
    assert_eq!(Lts::new(MAX_LTS).unwrap().level(), 4);
    assert_eq!(
        LtsError::InvalidLts(9).message(),
        "invalid LTS value 9, must be between 1 and 4"
    );
}

#[test]
fn buffered_cycleway_is_lts1_at_every_speed() {
    for speed in [0u8, 25, 26, 35, 36, 90, 255] {
        for oneway in [false, true] {
            let lts =
                Lts::from_table_lookup(speed, CyclewayTag::DedicatedWithBuffer, oneway).unwrap();
            assert_eq!(lts.level(), 1);
        }
    }
}

#[test]
fn lts_table_speed_boundaries() {
    let tag = CyclewayTag::DedicatedNoBuffer;
    assert_eq!(Lts::from_table_lookup(25, tag, false).unwrap().level(), 1);
    assert_eq!(Lts::from_table_lookup(26, tag, false).unwrap().level(), 2);
    assert_eq!(Lts::from_table_lookup(30, tag, false).unwrap().level(), 2);
    assert_eq!(Lts::from_table_lookup(35, tag, false).unwrap().level(), 3);
    assert_eq!(Lts::from_table_lookup(36, tag, false).unwrap().level(), 4);
    let none = CyclewayTag::NoDedicatedNoFacilities;
    assert_eq!(Lts::from_table_lookup(25, none, true).unwrap().level(), 1);
    assert_eq!(Lts::from_table_lookup(30, none, false).unwrap().level(), 3);
}

#[test]
fn compute_lts_unbikeable_and_non_motorized() {
    let mut edge = street();
    edge.unbikeable = true;
    edge.non_motorized = true;
    assert_eq!(compute_lts(&edge, None).unwrap().level(), MAX_LTS);
    edge.unbikeable = false;
    assert_eq!(compute_lts(&edge, Some(60)).unwrap().level(), MIN_LTS);
}

#[test]
fn compute_lts_speed_fallbacks() {
    let mut edge = street();
    // no limit and no neighbor estimate: 25 mph, no facilities, two-way
    assert_eq!(compute_lts(&edge, None).unwrap().level(), 2);
    // the neighbor estimate is used when the edge has no limit
    assert_eq!(compute_lts(&edge, Some(40)).unwrap().level(), 4);
    // the edge's own limit wins over the estimate, clamped into 0..=255
    edge.traffic_speed_limit = Some(-10);
    assert_eq!(compute_lts(&edge, Some(40)).unwrap().level(), 2);
    edge.traffic_speed_limit = Some(1000);
    edge.cycleway_tag = Some(CyclewayTag::DedicatedNoBuffer);
    assert_eq!(compute_lts(&edge, None).unwrap().level(), 4);
}

#[test]
fn lts_to_string_is_the_level() {
    assert_eq!(Lts::new(3).unwrap().to_string(), "3");
}
