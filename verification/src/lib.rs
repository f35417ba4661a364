//! `tonggeret`: ultra-low-memory telemetry for web services.
//!
//! This crate is the verified core: how names and labels are made safe, how
//! samples are keyed, batched, stored and moved to cold exports, which
//! collector an observation goes to, how unique visitors are estimated, and
//! in which order the engine is brought up and down. It offers samples to the
//! channel between the engine and its writer and takes them out without
//! waiting. Whatever waits or touches the file system, a thread or a socket is
//! done by the application around it, which asks the core what to do next.

pub mod bytes;
pub mod config;
pub mod engine;
pub mod error;
pub mod json;
pub mod middleware;
pub mod prometheus;
pub mod storage;
pub mod text;
pub mod types;
pub mod visitors;

pub use config::{Config, FjallConfig, PrometheusConfig};
pub use engine::{is_initialized, prometheus_text, EngineHandle};
pub use error::Error;
pub use storage::SCHEMA_VERSION;
pub use types::{MetricEntry, MetricType};
