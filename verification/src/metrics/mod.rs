//! Modal comfort and stress metrics of road network edges: the Level of Traffic
//! Stress (LTS) for cycling and the Walking Comfort Index (WCI).
pub mod cycleway_tag;
pub mod network;
pub mod lts;


pub mod wci;
pub mod modal_metric;
