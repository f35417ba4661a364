//! The embedded store: what is written to it, and how samples move from the
//! hot store to cold exports.
//!
//! * [`fjall_engine`]: composite keys and value payloads.
//! * [`writer`]: batches of rows from the pipeline.
//! * [`parquet_exporter`]: schema, expiry and names of exports.
//! * [`compaction`]: one pass from the hot store to an export.
//! * [`batch`]: a chunk of rows as record batch.

use vstd::prelude::*;

pub mod batch;
pub mod compaction;
pub mod fjall_engine;
pub mod parquet_exporter;
pub mod writer;

pub use fjall_engine::{cutoff_prefix, decode_key, encode_key, encode_value, entry_micros};
pub use parquet_exporter::{arrow_schema, latest_cold_file, PARQUET_FILE_PREFIX};

verus! {

/// Version of the stored formats: keys, values and export schema.
pub const SCHEMA_VERSION: u32 = 1;

} // verus!
