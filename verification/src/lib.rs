//! Transit schedule modeling for multimodal accessibility analysis: GTFS schedule
//! date mapping, transit traversal over departure schedules, GTFS-Flex zonal
//! relations, and modal comfort and stress metrics.
pub mod temporal;
pub mod text;
pub mod schedule;
pub mod transit;
pub mod metrics;
pub mod category;
pub mod flex;
