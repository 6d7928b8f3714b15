use bambam::metrics::cycleway_tag::CyclewayTag;
use bambam::metrics::lts::Lts;
use bambam::metrics::modal_metric::{ModalMetric, ModalMetricError, ModalMetricValue, NeighborSummary};
use bambam::metrics::network::{EdgeAttributes, VertexAttributes};
use bambam::metrics::wci::{
    compute_wci, cycleway_comfort_from_tag, traffic_speed_comfort_from_speed, Wci, WciComponents,
    WciError, MAX_WCI, MIN_WCI, NO_CYCLEWAY_FOUND_SCORE,
};

/// the scores inferred from an empty neighborhood: no cycleway found, and an
/// estimated speed of 0 mph.
const NO_NEIGHBOR_CYCLEWAY: i32 = NO_CYCLEWAY_FOUND_SCORE;
const NO_NEIGHBOR_SPEED: i32 = 2;

fn edge(
    walkable: bool,
    sidewalk: bool,
    footway: bool,
    speed_limit: Option<i32>,
    cycleway: Option<CyclewayTag>,
) -> EdgeAttributes {
    EdgeAttributes {
        traffic_speed_limit: speed_limit,
        cycleway_tag: cycleway,
        walkable,
        walkable_highway: false,
        sidewalk,
        footway,
        unbikeable: false,
        non_motorized: false,
        oneway: false,
    }
}

fn vertex(has_signals: bool, has_stop: bool) -> VertexAttributes {
    VertexAttributes {
        traffic_signals: has_signals,
        stop_sign: has_stop,
    }
}

#[test]
fn test_min_wci() {
    let e = edge(false, false, false, Some(65), None);
    let wci = compute_wci(&e, false, NO_NEIGHBOR_CYCLEWAY, NO_NEIGHBOR_SPEED, Some(vertex(false, false)))
        .unwrap();
    assert_eq!(wci.total, Wci::new(MIN_WCI).unwrap());
}

#[test]
fn test_max_wci() {
    let e = edge(true, false, true, None, None);
    let wci = compute_wci(&e, false, NO_NEIGHBOR_CYCLEWAY, NO_NEIGHBOR_SPEED, Some(vertex(false, false)))
        .unwrap();
    assert_eq!(wci.total, Wci::new(MAX_WCI).unwrap());
}

#[test]
fn test_positive_wci() {
    let e = edge(true, false, false, Some(25), Some(CyclewayTag::NoDedicatedWithFacilities));
    let wci = compute_wci(&e, false, NO_NEIGHBOR_CYCLEWAY, NO_NEIGHBOR_SPEED, Some(vertex(false, true)))
        .unwrap();
    assert_eq!(wci.traffic_speed_comfort, Some(Wci::new(2).unwrap()));
    assert_eq!(wci.traffic_signal_comfort, Some(Wci::new(1).unwrap()));
    assert_eq!(wci.cycleway_comfort, Some(Wci::new(0).unwrap()));
    assert_eq!(wci.walkability, Some(Wci::new(-2).unwrap()));
    assert!(wci.total > Wci::new(0).unwrap());
}

#[test]
fn test_negative_wci() {
    let e = edge(true, false, false, Some(45), None);
    let wci = compute_wci(&e, false, NO_NEIGHBOR_CYCLEWAY, NO_NEIGHBOR_SPEED, Some(vertex(false, true)))
        .unwrap();
    assert_eq!(wci.traffic_speed_comfort, Some(Wci::new(-1).unwrap()));
    assert_eq!(wci.traffic_signal_comfort, Some(Wci::new(1).unwrap()));
    assert_eq!(wci.cycleway_comfort, Some(Wci::new(-2).unwrap()));
    assert_eq!(wci.walkability, Some(Wci::new(-2).unwrap()));
    assert_eq!(wci.total, Wci::new(-4).unwrap());
    assert!(wci.total < Wci::new(0).unwrap());
}

#[test]
fn test_neighbor_wci_contribution() {
    const WAY_SCORE_NO_NEIGHBORS: i32 = -4;
    let e = edge(true, false, false, Some(45), None);
    // one neighboring edge with a dedicated cycleway carries the whole distance
    // weight, inferring its score of 2.
    let neighbor_cycleway = cycleway_comfort_from_tag(&CyclewayTag::DedicatedNoBuffer);
    let wci = compute_wci(&e, true, neighbor_cycleway, NO_NEIGHBOR_SPEED, Some(vertex(false, true)))
        .unwrap();
    assert!(wci.total > Wci::new(WAY_SCORE_NO_NEIGHBORS).unwrap());
}

#[test]
fn wci_sidewalk_without_neighbors_is_max() {
    let e = edge(true, true, false, Some(65), None);
    let wci = compute_wci(&e, false, -2, -2, None).unwrap();
    assert_eq!(wci.total.value(), MAX_WCI);
    assert_eq!(wci.walkability, None);
    // with neighbors, a sidewalk is scored by its components
    let wci = compute_wci(&e, true, -2, -2, None).unwrap();
    assert_eq!(wci.walkability, Some(Wci::new(2).unwrap()));
    assert_eq!(wci.traffic_signal_comfort, Some(Wci::zero()));
    assert_eq!(wci.total.value(), 2 - 2 - 2 + 0);
}

#[test]
fn wci_components_min_max() {
    let min = WciComponents::min_wci().unwrap();
    assert_eq!(min.total.value(), -8);
    assert!(min.walkability.is_none() && min.cycleway_comfort.is_none());
    let max = WciComponents::max_wci().unwrap();
    assert_eq!(max.total.value(), 8);
    assert!(max.traffic_speed_comfort.is_none() && max.traffic_signal_comfort.is_none());
}

#[test]
fn wci_new_range_and_error() {
    assert_eq!(Wci::new(9), Err(WciError::InvalidWci(9)));
    assert_eq!(Wci::new(-9), Err(WciError::InvalidWci(-9)));
    assert_eq!(
        WciError::InvalidWci(-9).message(),
        "invalid WCI value -9, must be between -8 and 8"
    );
    assert_eq!(Wci::new(-3).unwrap().to_string(), "-3");
}

#[test]
fn comfort_scores() {
    assert_eq!(cycleway_comfort_from_tag(&CyclewayTag::DedicatedWithBuffer), 2);
    assert_eq!(cycleway_comfort_from_tag(&CyclewayTag::DedicatedNoBuffer), 2);
    assert_eq!(cycleway_comfort_from_tag(&CyclewayTag::NoDedicatedWithFacilities), 0);
    assert_eq!(cycleway_comfort_from_tag(&CyclewayTag::NoDedicatedNoFacilities), -2);
    assert_eq!(traffic_speed_comfort_from_speed(-5), 2);
    assert_eq!(traffic_speed_comfort_from_speed(25), 2);
    assert_eq!(traffic_speed_comfort_from_speed(26), 1);
    assert_eq!(traffic_speed_comfort_from_speed(30), 1);
    assert_eq!(traffic_speed_comfort_from_speed(31), 0);
    assert_eq!(traffic_speed_comfort_from_speed(40), 0);
    assert_eq!(traffic_speed_comfort_from_speed(41), -1);
    assert_eq!(traffic_speed_comfort_from_speed(45), -1);
    assert_eq!(traffic_speed_comfort_from_speed(46), -2);
}

#[test]
fn modal_metric_parse() {
    assert_eq!(ModalMetric::parse("wci").unwrap(), ModalMetric::WalkingComfortIndex);
    assert_eq!(ModalMetric::parse("LtS").unwrap(), ModalMetric::LevelOfTrafficStress);
    assert_eq!(
        ModalMetric::parse("speed"),
        Err(ModalMetricError::InvalidModalMetric("speed".to_string()))
    );
    assert_eq!("WCI".parse::<ModalMetric>().unwrap(), ModalMetric::WalkingComfortIndex);
}

#[test]
fn modal_metric_csv_output() {
    let mut out = String::new();
    ModalMetric::WalkingComfortIndex.write_csv_header(&mut out);
    ModalMetric::LevelOfTrafficStress.write_csv_header(&mut out);
    assert_eq!(out, "wci_total,wci_walk,wci_speed,wci_cycle,wci_signal\nlts\n");

    let e = edge(true, false, false, Some(45), None);
    let neighbors = NeighborSummary {
        has_neighbors: false,
        estimated_speed_mph: None,
        cycleway_score: NO_NEIGHBOR_CYCLEWAY,
        speed_score: NO_NEIGHBOR_SPEED,
    };
    let value = ModalMetric::WalkingComfortIndex
        .compute_metric(&e, &neighbors, Some(vertex(false, true)))
        .unwrap();
    let mut row = String::new();
    value.write_csv_row(&mut row);
    assert_eq!(row, "-4,-2,-1,-2,1\n");

    let mut row = String::new();
    ModalMetricValue::Wci(WciComponents::min_wci().unwrap()).write_csv_row(&mut row);
    assert_eq!(row, "-8,,,,\n");

    let mut row = String::new();
    ModalMetricValue::Lts(Lts::new(3).unwrap()).write_csv_row(&mut row);
    assert_eq!(row, "3\n");

    let lts = ModalMetric::LevelOfTrafficStress
        .compute_metric(&e, &neighbors, None)
        .unwrap();
    assert_eq!(lts, ModalMetricValue::Lts(Lts::new(4).unwrap()));
}
