# tonggeret

Ultra-low-memory telemetry for web services: counters, gauges and histograms
go to a Prometheus registry and, through a bounded channel, to an embedded
Fjall store, from which expired samples move to Parquet files.

The crate has two parts.

* `src/` is the core, verified with Verus. It decides: how names and labels
  are made safe, how samples are keyed and batched, what a stored payload
  holds, which keys have expired and when they may be purged, which collector
  an observation goes to, how unique visitors are estimated, and in which
  order the engine is brought up and down. It makes the channel, offers
  samples to it and drains it without waiting.
* `app/` does what the core decides: it owns the global engine, the writer
  thread, which waits for samples, the store, the export files and the web
  middleware.

| Module | What it states |
|--------|----------------|
| `types` | sanitized names and labels, entries |
| `config` | defaults, validation, directories |
| `engine` | where observations go; bringing the engine up and down |
| `prometheus` | collectors and their label keys |
| `storage::fjall_engine` | keys and payloads of the hot store |
| `storage::writer` | batches from the pipeline |
| `storage::parquet_exporter` | schema, expiry and names of exports |
| `storage::compaction` | one pass from the hot store to an export |
| `visitors` | regions, visitor keys, sketches, the tracker |
| `middleware` | labels of requests, answers of endpoints |

Properties that span several functions are stated as proof functions whose
names begin with `law_`.
