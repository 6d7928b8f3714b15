//! Transit traversal over departure schedules.
pub mod schedule;
pub mod loading_policy;
pub mod ops;
pub mod engine;
pub mod traversal;
pub mod loader;
