//! The builder of the GTFS-Flex departure frontier.
use vstd::prelude::*;

verus! {

/// Builds the GTFS-Flex departure frontier from a zone lookup configuration.
#[derive(Clone, Copy, Debug)]
pub struct GtfsFlexDepartureFrontierBuilder {}

} // verus!
