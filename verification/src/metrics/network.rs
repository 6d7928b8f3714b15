//! The attributes of network edges and vertices that the metrics read.
use vstd::prelude::*;

use crate::metrics::cycleway_tag::CyclewayTag;

verus! {

/// An edge (graph link) carrying the attributes that modal metrics read. A map
/// provider's edge type (an OpenStreetMap way, an Overture Maps segment) implements
/// it; the predicates inspect the edge's own attributes only.
pub trait EdgeForModalMetric {
    /// the posted traffic speed limit in miles per hour, if known
    fn get_traffic_speed_limit(&self) -> Option<i32>;

    /// the cycleway classification, if the edge carries one
    fn get_cycleway_tag(&self) -> Option<CyclewayTag>;

    /// the edge is walk-eligible on its own attributes
    fn is_walkable(&self) -> bool;

    /// the edge is a low-traffic, low-speed walkable roadway
    fn is_walkable_highway(&self) -> bool;

    /// the edge is a sidewalk
    fn is_sidewalk(&self) -> bool;

    /// the edge is a footway
    fn is_footway(&self) -> bool;

    /// the edge cannot be ridden by bike
    fn is_unbikeable(&self) -> bool;

    /// the edge carries no motorized traffic
    fn is_non_motorized(&self) -> bool;

    /// the edge is one-way
    fn is_oneway(&self) -> bool;
}

/// A vertex (graph node) carrying the attributes that modal metrics read.
pub trait VertexForModalMetric {
    /// the vertex has a traffic signal
    fn has_traffic_signals(&self) -> bool;

    /// the vertex has a stop sign
    fn has_stop_sign(&self) -> bool;
}

/// The attributes of an edge that the metrics read, as plain values.
#[derive(Clone, Copy, Debug, PartialEq, Eq, Structural)]
pub struct EdgeAttributes {
    pub traffic_speed_limit: Option<i32>,
    pub cycleway_tag: Option<CyclewayTag>,
    pub walkable: bool,
    pub walkable_highway: bool,
    pub sidewalk: bool,
    pub footway: bool,
    pub unbikeable: bool,
    pub non_motorized: bool,
    pub oneway: bool,
}

impl EdgeForModalMetric for EdgeAttributes {
    fn get_traffic_speed_limit(&self) -> (r: Option<i32>)
        ensures
            r == self.traffic_speed_limit,
    {
        self.traffic_speed_limit
    }

    fn get_cycleway_tag(&self) -> (r: Option<CyclewayTag>)
        ensures
            r == self.cycleway_tag,
    {
        self.cycleway_tag
    }

    fn is_walkable(&self) -> (r: bool)
        ensures
            r == self.walkable,
    {
        self.walkable
    }

    fn is_walkable_highway(&self) -> (r: bool)
        ensures
            r == self.walkable_highway,
    {
        self.walkable_highway
    }

    fn is_sidewalk(&self) -> (r: bool)
        ensures
            r == self.sidewalk,
    {
        self.sidewalk
    }

    fn is_footway(&self) -> (r: bool)
        ensures
            r == self.footway,
    {
        self.footway
    }

    fn is_unbikeable(&self) -> (r: bool)
        ensures
            r == self.unbikeable,
    {
        self.unbikeable
    }

    fn is_non_motorized(&self) -> (r: bool)
        ensures
            r == self.non_motorized,
    {
        self.non_motorized
    }

    fn is_oneway(&self) -> (r: bool)
        ensures
            r == self.oneway,
    {
        self.oneway
    }
}

/// The attributes of a vertex that the metrics read, as plain values.
#[derive(Clone, Copy, Debug, PartialEq, Eq, Structural)]
pub struct VertexAttributes {
    pub traffic_signals: bool,
    pub stop_sign: bool,
}

impl VertexForModalMetric for VertexAttributes {
    fn has_traffic_signals(&self) -> (r: bool)
        ensures
            r == self.traffic_signals,
    {
        self.traffic_signals
    }

    fn has_stop_sign(&self) -> (r: bool)
        ensures
            r == self.stop_sign,
    {
        self.stop_sign
    }
}

} // verus!
