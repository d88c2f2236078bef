//! Occupancy tracking for a single shared machine, driven by Start/Stop events.
pub mod error;
pub mod generator;
pub mod laws;
pub mod machine;
pub mod outside;
pub mod resource;
