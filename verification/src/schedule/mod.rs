//! GTFS schedule preparation: identifiers, date mapping policies and bundles.
pub mod error;
pub mod fq_ops;
pub mod rows;
pub mod calendar;
pub mod date_ops;
pub mod policy_config;
pub mod trip;
pub mod policy;
pub mod metadata;
pub mod bundle;
pub mod processing;
pub mod outputs;
pub mod connectivity;
