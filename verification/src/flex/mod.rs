//! GTFS-Flex zonal travel: zone ids, zone-to-zone relations and their schedules.
pub mod zone_id;
pub mod zone_schedule;
pub mod relation;
pub mod graph;
pub mod ops;
pub mod archive;
pub mod feed;
pub mod constraint;
pub mod frontier;
