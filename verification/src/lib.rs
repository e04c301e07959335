//! Geo-routing sidecar core: replica selection for a distributed SQL engine.
//!
//! Given a client's location and a query's read/write intent, the routing
//! engine picks the backend replica that should serve the request, scoring
//! candidates by great-circle distance, load, latency and leadership.
//! The crate also holds the sidecar's framed wire protocol, its request
//! dispatcher, connection accounting, lock-free-style request metrics, and a
//! hybrid logical clock used elsewhere in the engine to order events.

pub mod conn;
pub mod geo;
pub mod hlc;
pub mod metrics;
pub mod protocol;
pub mod routing;
