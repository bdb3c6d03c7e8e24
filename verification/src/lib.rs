//! Verified core of the FlowSight desktop agent: parsing of the local vision
//! model's output into a category and a structured description, telemetry
//! bookkeeping, and the pure decisions behind paths, configuration and crash
//! containment.

pub mod text;
pub mod unicode;
pub mod analysis;
pub mod telemetry;
pub mod paths;
pub mod config;
pub mod crash_guard;
