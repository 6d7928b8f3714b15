//! The builder of the GTFS-Flex departure constraint.
use vstd::prelude::*;

verus! {

/// Builds the GTFS-Flex departure constraint from a zone lookup configuration.
#[derive(Clone, Copy, Debug)]
pub struct GtfsFlexDepartureFrontierBuilder {}

} // verus!
