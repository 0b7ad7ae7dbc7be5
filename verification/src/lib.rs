//! Bridges from the MQTT messages of a Glow energy display to other services: metrics for
//! Prometheus, and devices that vibrate with the power drawn.
pub mod fnv;
pub mod glow;
pub mod history;
pub mod keys;
pub mod metrics;
pub mod mqtt;
pub mod reading;
pub mod rounding;
pub mod routes;
pub mod store;
pub mod topic;
pub mod vibrate;
