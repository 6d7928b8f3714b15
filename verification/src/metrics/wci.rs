//! The Walking Comfort Index (WCI): the sum of four component scores, each from -2
//! (uncomfortable) to 2 (comfortable), for walkability, traffic speed, cycling
//! facilities and traffic control at the edge's source vertex.
use vstd::prelude::*;

use core::cmp::Ordering;
use vstd::std_specs::cmp::PartialOrdSpecImpl;

use crate::metrics::cycleway_tag::CyclewayTag;
use crate::metrics::network::{EdgeAttributes, VertexAttributes};
use crate::text::{push_signed_decimal, push_str, signed_decimal, string_of};

verus! {

/// The lowest index: every component at its lowest.
pub const MIN_WCI: i32 = -8;

/// The highest index: every component at its highest.
pub const MAX_WCI: i32 = 8;

/// The cycling comfort score of an edge without a cycleway tag whose neighbors carry
/// none either.
pub const NO_CYCLEWAY_FOUND_SCORE: i32 = -2;

/// An error building an index value.
#[derive(Clone, Copy, Debug, PartialEq, Eq, Structural)]
pub enum WciError {
    /// the value lies outside `MIN_WCI..=MAX_WCI`
    InvalidWci(i32),
}

/// The message of an error building an index value.
pub open spec fn wci_error_message(e: WciError) -> Seq<char> {
    match e {
        WciError::InvalidWci(v) => "invalid WCI value "@ + signed_decimal(v as int)
            + ", must be between -8 and 8"@,
    }
}

impl WciError {
    /// The error's message.
    pub fn message(&self) -> (r: String)
        ensures
            r@ == wci_error_message(*self),
    {
        match self {
            WciError::InvalidWci(v) => {
                let mut msg: Vec<char> = Vec::new();
                push_str(&mut msg, "invalid WCI value ");
                push_signed_decimal(&mut msg, *v as i64);
                push_str(&mut msg, ", must be between -8 and 8");
                string_of(&msg)
            },
        }
    }
}

/// A walking comfort value, always within `MIN_WCI..=MAX_WCI`.
#[derive(Clone, Copy, Debug, PartialEq, Eq, Structural)]
pub struct Wci {
    value: i32,
}

/// Values are ordered as the integers they hold.
impl PartialOrd for Wci {
    fn partial_cmp(&self, other: &Self) -> (r: Option<Ordering>) {
        if self.value < other.value {
            Some(Ordering::Less)
        } else if self.value == other.value {
            Some(Ordering::Equal)
        } else {
            Some(Ordering::Greater)
        }
    }
}

impl PartialOrdSpecImpl for Wci {
    open spec fn obeys_partial_cmp_spec() -> bool {
        true
    }

    open spec fn partial_cmp_spec(&self, other: &Self) -> Option<Ordering> {
        if self.spec_value() < other.spec_value() {
            Some(Ordering::Less)
        } else if self.spec_value() == other.spec_value() {
            Some(Ordering::Equal)
        } else {
            Some(Ordering::Greater)
        }
    }
}

/// The comfort score of a cycling facility.
pub open spec fn cycleway_score(tag: CyclewayTag) -> int {
    match tag {
        CyclewayTag::DedicatedWithBuffer => 2,
        CyclewayTag::DedicatedNoBuffer => 2,
        CyclewayTag::NoDedicatedWithFacilities => 0,
        CyclewayTag::NoDedicatedNoFacilities => -2,
    }
}

/// The comfort score of a traffic speed in miles per hour: 2 up to 25, 1 up to 30,
/// 0 up to 40, -1 up to 45, and -2 above.
pub open spec fn speed_score(speed_mph: i32) -> int {
    if speed_mph <= 25 {
        2
    } else if speed_mph <= 30 {
        1
    } else if speed_mph <= 40 {
        0
    } else if speed_mph <= 45 {
        -1
    } else {
        -2
    }
}

/// The walkability score of an edge: 2 for a sidewalk, 0 for a walkable low-traffic
/// roadway, -2 otherwise.
pub open spec fn walkability_score(edge: EdgeAttributes) -> int {
    if edge.sidewalk {
        2
    } else if edge.walkable_highway {
        0
    } else {
        -2
    }
}

/// The traffic control score of a vertex: 2 for a traffic signal, 1 for a stop
/// sign, 0 for neither.
pub open spec fn signal_score(vertex: VertexAttributes) -> int {
    if vertex.traffic_signals {
        2
    } else if vertex.stop_sign {
        1
    } else {
        0
    }
}

/// Converts a cycleway tag classification to a numerical comfort index.
pub fn cycleway_comfort_from_tag(tag: &CyclewayTag) -> (r: i32)
    ensures
        r == cycleway_score(*tag),
{
    match tag {
        CyclewayTag::DedicatedWithBuffer => 2,
        CyclewayTag::DedicatedNoBuffer => 2,
        CyclewayTag::NoDedicatedWithFacilities => 0,
        CyclewayTag::NoDedicatedNoFacilities => -2,
    }
}

/// Converts a speed in miles per hour to a numerical comfort index.
pub fn traffic_speed_comfort_from_speed(speed_mph: i32) -> (r: i32)
    ensures
        r == speed_score(speed_mph),
{
    if speed_mph <= 25 {
        2
    } else if speed_mph > 25 && speed_mph <= 30 {
        1
    } else if speed_mph > 30 && speed_mph <= 40 {
        0
    } else if speed_mph > 40 && speed_mph <= 45 {
        -1
    } else {
        -2
    }
}

/// Whether an edge is eligible for walking, on its own attributes.
pub fn is_walk_eligible(edge: &EdgeAttributes) -> (r: bool)
    ensures
        r == edge.walkable,
{
    edge.walkable
}

impl Wci {
    /// The value held.
    pub closed spec fn spec_value(self) -> i32 {
        self.value
    }

    /// The value lies within `MIN_WCI..=MAX_WCI`.
    pub open spec fn wf(self) -> bool {
        MIN_WCI <= self.spec_value() <= MAX_WCI
    }

    /// The value held.
    pub fn value(&self) -> (r: i32)
        ensures
            r == self.spec_value(),
    {
        self.value
    }

    /// An index value; an error for a value outside `MIN_WCI..=MAX_WCI`.
    pub fn new(value: i32) -> (r: Result<Wci, WciError>)
        ensures
            MIN_WCI <= value <= MAX_WCI ==> (r matches Ok(w) && w.spec_value() == value && w.wf()),
            !(MIN_WCI <= value <= MAX_WCI) ==> r == Err::<Wci, WciError>(WciError::InvalidWci(value)),
    {
        if MIN_WCI <= value && value <= MAX_WCI {
            Ok(Wci { value })
        } else {
            Err(WciError::InvalidWci(value))
        }
    }

    /// The neutral value 0.
    pub fn zero() -> (r: Wci)
        ensures
            r.spec_value() == 0,
            r.wf(),
    {
        Wci { value: 0 }
    }

    /// A component score, which lies within -2..=2.
    fn score(value: i32) -> (r: Wci)
        requires
            -2 <= value <= 2,
        ensures
            r.spec_value() == value,
            r.wf(),
    {
        Wci { value }
    }

    /// The sum of two values, when it stays within the index's range.
    pub fn add(&self, other: &Wci) -> (r: Wci)
        requires
            MIN_WCI <= self.spec_value() + other.spec_value() <= MAX_WCI,
        ensures
            r.spec_value() == self.spec_value() + other.spec_value(),
            r.wf(),
    {
        Wci { value: self.value + other.value }
    }

    /// The walkability component of an edge.
    pub fn walkability(edge: &EdgeAttributes) -> (r: Wci)
        ensures
            r.spec_value() == walkability_score(*edge),
            r.wf(),
    {
        if edge.sidewalk {
            Wci::score(2)
        } else if edge.walkable_highway {
            Wci::score(0)
        } else {
            Wci::score(-2)
        }
    }

    /// The cycling comfort component of an edge: the score of its own cycleway tag,
    /// else the score inferred from its neighbors.
    pub fn cycleway_comfort(edge: &EdgeAttributes, neighbor_score: i32) -> (r: Wci)
        requires
            -2 <= neighbor_score <= 2,
        ensures
            r.spec_value() == match edge.cycleway_tag {
                Some(t) => cycleway_score(t),
                None => neighbor_score as int,
            },
            r.wf(),
    {
        match &edge.cycleway_tag {
            Some(t) => Wci::score(cycleway_comfort_from_tag(t)),
            None => Wci::score(neighbor_score),
        }
    }

    /// The traffic speed component of an edge: the score of its own posted limit,
    /// else the score inferred from its neighbors.
    pub fn traffic_speed_comfort(edge: &EdgeAttributes, neighbor_score: i32) -> (r: Wci)
        requires
            -2 <= neighbor_score <= 2,
        ensures
            r.spec_value() == match edge.traffic_speed_limit {
                Some(s) => speed_score(s),
                None => neighbor_score as int,
            },
            r.wf(),
    {
        match edge.traffic_speed_limit {
            Some(s) => Wci::score(traffic_speed_comfort_from_speed(s)),
            None => Wci::score(neighbor_score),
        }
    }

    /// The traffic control component of a source vertex.
    pub fn traffic_signal_comfort(vertex: &VertexAttributes) -> (r: Wci)
        ensures
            r.spec_value() == signal_score(*vertex),
            r.wf(),
    {
        if vertex.traffic_signals {
            Wci::score(2)
        } else if vertex.stop_sign {
            Wci::score(1)
        } else {
            Wci::score(0)
        }
    }

    /// The value as text.
    pub fn to_string(&self) -> (r: String)
        ensures
            r@ == signed_decimal(self.spec_value() as int),
    {
        let mut cs: Vec<char> = Vec::new();
        push_signed_decimal(&mut cs, self.value as i64);
        string_of(&cs)
    }
}

/// The index of an edge with the components it was summed from, if any.
#[derive(Clone, Copy, Debug, PartialEq, Eq, Structural)]
pub struct WciComponents {
    pub total: Wci,
    pub walkability: Option<Wci>,
    pub traffic_speed_comfort: Option<Wci>,
    pub cycleway_comfort: Option<Wci>,
    pub traffic_signal_comfort: Option<Wci>,
}

impl WciComponents {
    /// The lowest index, with no components.
    pub fn min_wci() -> (r: Result<WciComponents, WciError>)
        ensures
            r matches Ok(c) && c.total.spec_value() == MIN_WCI && c.walkability is None
                && c.traffic_speed_comfort is None && c.cycleway_comfort is None
                && c.traffic_signal_comfort is None,
    {
        let total = match Wci::new(MIN_WCI) {
            Ok(t) => t,
            Err(e) => {
                return Err(e);
            },
        };
        Ok(
            WciComponents {
                total,
                walkability: None,
                traffic_speed_comfort: None,
                cycleway_comfort: None,
                traffic_signal_comfort: None,
            },
        )
    }

    /// The highest index, with no components.
    pub fn max_wci() -> (r: Result<WciComponents, WciError>)
        ensures
            r matches Ok(c) && c.total.spec_value() == MAX_WCI && c.walkability is None
                && c.traffic_speed_comfort is None && c.cycleway_comfort is None
                && c.traffic_signal_comfort is None,
    {
        let total = match Wci::new(MAX_WCI) {
            Ok(t) => t,
            Err(e) => {
                return Err(e);
            },
        };
        Ok(
            WciComponents {
                total,
                walkability: None,
                traffic_speed_comfort: None,
                cycleway_comfort: None,
                traffic_signal_comfort: None,
            },
        )
    }
}

/// `c` is the walking comfort of an edge. An edge that is not walk-eligible gets the
/// lowest index; a footway, or a sidewalk with no neighboring edge, gets the highest;
/// both without components. Any other edge gets the sum of its four components,
/// each recorded. The cycling and speed components fall back to the scores inferred
/// from neighboring edges (`neighbor_cycleway_score`, `neighbor_speed_score`) where
/// the edge has no tag or limit of its own, and the traffic control component is 0
/// without a source vertex.
pub open spec fn is_wci_of(
    c: WciComponents,
    edge: EdgeAttributes,
    has_neighbors: bool,
    neighbor_cycleway_score: int,
    neighbor_speed_score: int,
    src_vertex: Option<VertexAttributes>,
) -> bool {
    if !edge.walkable {
        &&& c.total.spec_value() == MIN_WCI
        &&& c.walkability is None
        &&& c.traffic_speed_comfort is None
        &&& c.cycleway_comfort is None
        &&& c.traffic_signal_comfort is None
    } else if edge.footway || (!has_neighbors && edge.sidewalk) {
        &&& c.total.spec_value() == MAX_WCI
        &&& c.walkability is None
        &&& c.traffic_speed_comfort is None
        &&& c.cycleway_comfort is None
        &&& c.traffic_signal_comfort is None
    } else {
        let walk = walkability_score(edge);
        let speed = match edge.traffic_speed_limit {
            Some(s) => speed_score(s),
            None => neighbor_speed_score,
        };
        let cycle = match edge.cycleway_tag {
            Some(t) => cycleway_score(t),
            None => neighbor_cycleway_score,
        };
        let signal = match src_vertex {
            Some(v) => signal_score(v),
            None => 0int,
        };
        &&& c.total.spec_value() == walk + speed + cycle + signal
        &&& c.walkability is Some
        &&& c.walkability->Some_0.spec_value() == walk
        &&& c.traffic_speed_comfort is Some
        &&& c.traffic_speed_comfort->Some_0.spec_value() == speed
        &&& c.cycleway_comfort is Some
        &&& c.cycleway_comfort->Some_0.spec_value() == cycle
        &&& c.traffic_signal_comfort is Some
        &&& c.traffic_signal_comfort->Some_0.spec_value() == signal
    }
}

/// The walking comfort of an edge, as [`is_wci_of`] states it.
pub fn compute_wci(
    edge: &EdgeAttributes,
    has_neighbors: bool,
    neighbor_cycleway_score: i32,
    neighbor_speed_score: i32,
    src_vertex: Option<VertexAttributes>,
) -> (r: Result<WciComponents, WciError>)
    requires
        -2 <= neighbor_cycleway_score <= 2,
        -2 <= neighbor_speed_score <= 2,
    ensures
        r matches Ok(c) && is_wci_of(
            c,
            *edge,
            has_neighbors,
            neighbor_cycleway_score as int,
            neighbor_speed_score as int,
            src_vertex,
        ) && c.total.wf(),
{
    if !is_walk_eligible(edge) {
        WciComponents::min_wci()
    } else if edge.footway || (!has_neighbors && edge.sidewalk) {
        WciComponents::max_wci()
    } else {
        let walkability = Wci::walkability(edge);
        let cycleway_comfort = Wci::cycleway_comfort(edge, neighbor_cycleway_score);
        let traffic_speed_comfort = Wci::traffic_speed_comfort(edge, neighbor_speed_score);
        let traffic_signal_comfort = match &src_vertex {
            Some(v) => Wci::traffic_signal_comfort(v),
            None => Wci::zero(),
        };
        let total = walkability.add(&traffic_speed_comfort).add(&cycleway_comfort).add(
            &traffic_signal_comfort,
        );
        Ok(
            WciComponents {
                total,
                walkability: Some(walkability),
                traffic_speed_comfort: Some(traffic_speed_comfort),
                cycleway_comfort: Some(cycleway_comfort),
                traffic_signal_comfort: Some(traffic_signal_comfort),
            },
        )
    }
}

/// A walk-eligible footway is as comfortable as a walk can be: whatever its other
/// attributes, whether or not it has neighboring edges, and whatever its source
/// vertex, its index is the highest, with no component recorded, and no walk-eligible
/// edge scores above it.
pub proof fn lemma_footway_is_most_comfortable(
    c: WciComponents,
    edge: EdgeAttributes,
    has_neighbors: bool,
    neighbor_cycleway_score: int,
    neighbor_speed_score: int,
    src_vertex: Option<VertexAttributes>,
    other: WciComponents,
    other_edge: EdgeAttributes,
    other_has_neighbors: bool,
    other_src_vertex: Option<VertexAttributes>,
)
    requires
        edge.walkable,
        edge.footway,
        is_wci_of(c, edge, has_neighbors, neighbor_cycleway_score, neighbor_speed_score, src_vertex),
        -2 <= neighbor_cycleway_score <= 2,
        -2 <= neighbor_speed_score <= 2,
        is_wci_of(
            other,
            other_edge,
            other_has_neighbors,
            neighbor_cycleway_score,
            neighbor_speed_score,
            other_src_vertex,
        ),
    ensures
        c.total.spec_value() == MAX_WCI,
        c.walkability is None,
        c.traffic_speed_comfort is None,
        c.cycleway_comfort is None,
        c.traffic_signal_comfort is None,
        other.total.spec_value() <= c.total.spec_value(),
{
    if other_edge.walkable && !(other_edge.footway || (!other_has_neighbors && other_edge.sidewalk)) {
        match other_src_vertex {
            Some(v) => {
                lemma_component_sum_in_range(
                    other_edge,
                    neighbor_cycleway_score as i32,
                    neighbor_speed_score as i32,
                    v,
                );
            },
            None => {},
        }
    }
}

/// What decides an edge's walking comfort: an edge that is not walk-eligible gets the
/// lowest index with no component; a walk-eligible sidewalk with no neighboring edge gets
/// the highest; any other walk-eligible edge that is not a footway records all four
/// components and its index is their sum; an edge's own speed limit and cycleway tag
/// make the scores inferred from its neighbors irrelevant; and without a source vertex
/// the traffic control component is 0.
pub proof fn lemma_wci_inputs(
    c: WciComponents,
    edge: EdgeAttributes,
    has_neighbors: bool,
    neighbor_cycleway_score: int,
    neighbor_speed_score: int,
    src_vertex: Option<VertexAttributes>,
    d: WciComponents,
    other_cycleway_score: int,
    other_speed_score: int,
)
    requires
        is_wci_of(c, edge, has_neighbors, neighbor_cycleway_score, neighbor_speed_score, src_vertex),
        is_wci_of(d, edge, has_neighbors, other_cycleway_score, other_speed_score, src_vertex),
    ensures
        !edge.walkable ==> c.total.spec_value() == MIN_WCI && c.walkability is None,
        edge.walkable && edge.sidewalk && !has_neighbors ==> c.total.spec_value() == MAX_WCI
            && c.walkability is None,
        edge.walkable && !edge.footway && (has_neighbors || !edge.sidewalk) ==> {
            &&& c.walkability matches Some(w) && w.spec_value() == walkability_score(edge)
            &&& c.traffic_speed_comfort is Some
            &&& c.cycleway_comfort is Some
            &&& c.traffic_signal_comfort matches Some(s) && s.spec_value() == (match src_vertex {
                Some(v) => signal_score(v),
                None => 0int,
            })
            &&& c.total.spec_value() == c.walkability->Some_0.spec_value()
                + c.traffic_speed_comfort->Some_0.spec_value()
                + c.cycleway_comfort->Some_0.spec_value()
                + c.traffic_signal_comfort->Some_0.spec_value()
        },
        edge.traffic_speed_limit is Some && edge.cycleway_tag is Some ==> c.total.spec_value()
            == d.total.spec_value(),
{
}

/// Every index that [`compute_wci`] can produce lies within `MIN_WCI..=MAX_WCI`: the
/// four components each lie within -2..=2.
pub proof fn lemma_component_sum_in_range(
    edge: EdgeAttributes,
    neighbor_cycleway_score: i32,
    neighbor_speed_score: i32,
    vertex: VertexAttributes,
)
    requires
        -2 <= neighbor_cycleway_score <= 2,
        -2 <= neighbor_speed_score <= 2,
    ensures
        MIN_WCI <= walkability_score(edge) + (match edge.traffic_speed_limit {
            Some(s) => speed_score(s),
            None => neighbor_speed_score as int,
        }) + (match edge.cycleway_tag {
            Some(t) => cycleway_score(t),
            None => neighbor_cycleway_score as int,
        }) + signal_score(vertex) <= MAX_WCI,
{
}

} // verus!
