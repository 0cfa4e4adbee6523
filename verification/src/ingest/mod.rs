//! The ways in: telemetry protocols, admission, and what is counted on the
//! way.

pub mod backpressure;
pub mod cardinality;
pub mod datadog;
pub mod export;
pub mod forward;
pub mod kafka;
pub mod otlp;
pub mod otlp_http;
pub mod otlp_logs;
pub mod otlp_metrics;
pub mod otlp_models;
pub mod otlp_wire;
pub mod prom_remote_write;
pub mod stats;
