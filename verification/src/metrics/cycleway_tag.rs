//! Classification of the cycling facilities along an edge.
use vstd::prelude::*;

verus! {

/// The cycling facility an edge offers, from most to least separated from traffic.
#[derive(Clone, Copy, Debug, PartialEq, Eq, Structural, Hash)]
pub enum CyclewayTag {
    /// a dedicated cycleway separated from traffic by a buffer
    DedicatedWithBuffer,
    /// a dedicated cycleway without a buffer, such as a painted lane
    DedicatedNoBuffer,
    /// no dedicated cycleway, but facilities such as shared-lane markings
    NoDedicatedWithFacilities,
    /// neither a dedicated cycleway nor facilities
    NoDedicatedNoFacilities,
}

} // verus!
