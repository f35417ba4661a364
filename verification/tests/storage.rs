//! Keys, payloads, the writer, exports and compaction.

use arrow::array::{Array, Float64Array, StringArray, TimestampMicrosecondArray};
use arrow::datatypes::{DataType, TimeUnit};
use tonggeret::config::TimeSpan;
use tonggeret::error::Error;
use tonggeret::storage::batch::{fits_batch, record_batch};
use tonggeret::storage::compaction::{ColdRow, CompactionScan, EndStep, ScanStep};
use tonggeret::storage::fjall_engine::{flush_batch, PARTITION_METRICS};
use tonggeret::storage::parquet_exporter::{
    cold_file_name, cutoff_micros, decode_value, payload_columns, temp_file_name, utc_stamp,
    within_calendar, ROWS_PER_BATCH,
};
use tonggeret::storage::writer::{Writer, WriterStep};
use tonggeret::storage::{
    arrow_schema, cutoff_prefix, decode_key, encode_key, encode_value, entry_micros,
    latest_cold_file, PARQUET_FILE_PREFIX, SCHEMA_VERSION,
};
use tonggeret::types::{MetricEntry, MetricType, PipelineMsg, Timestamp};

fn at(secs: u64, nanos: u32) -> Timestamp {
    Timestamp { before_epoch: false, secs, nanos }
}

fn entry(name: &str, secs: u64, value: f64) -> MetricEntry<serde_json::Value> {
    MetricEntry::at(
        at(secs, 0),
        name,
        serde_json::Value::from(value),
        MetricType::Counter,
        vec![("method".to_string(), "GET".to_string())],
    )
}

fn metric(name: &str) -> Option<PipelineMsg<serde_json::Value>> {
    Some(PipelineMsg::Metric(entry(name, 1, 1.0)))
}

fn names(rows: &[(Vec<u8>, Vec<u8>)]) -> Vec<String> {
    rows.iter().map(|(k, _)| decode_key(k).unwrap().1).collect()
}

#[test]
fn key_codec_roundtrips_and_orders_chronologically() {
    let old = encode_key(1_000, 7, "http_requests_total");
    let new = encode_key(2_000, 3, "http_requests_total");
    assert!(old < new, "byte order must match chronological order");

    let (ts, name) = decode_key(&new).expect("decodable");
    assert_eq!(ts, 2_000);
    assert_eq!(name, "http_requests_total");

    // Sequence disambiguates identical timestamps.
    let a = encode_key(5_000, 0, "m");
    let b = encode_key(5_000, 1, "m");
    assert_ne!(a, b);
    assert!(a < b);
    assert!(decode_key(b"not-a-key").is_none());
}

#[test]
fn keys_have_the_documented_form() {
    assert_eq!(SCHEMA_VERSION, 1);
    assert_eq!(PARTITION_METRICS, "metrics");
    assert_eq!(
        encode_key(0xabc, 0x1f, "m:x"),
        b"0000000000000abc:0000001f:m:x".to_vec()
    );
    assert_eq!(
        encode_key(u64::MAX, u32::MAX, ""),
        b"ffffffffffffffff:ffffffff:".to_vec()
    );
    for (ts, seq, name) in [(0, 0, ""), (77, 1, "a:b"), (u64::MAX, 9, "\u{e9}")] {
        assert_eq!(
            decode_key(&encode_key(ts, seq, name)),
            Some((ts, name.to_string()))
        );
    }
}

#[test]
fn foreign_keys_are_told_apart() {
    assert_eq!(decode_key(b"+Ff:x:n"), Some((255, "n".to_string())));
    assert_eq!(decode_key(b"0::"), Some((0, String::new())));
    assert_eq!(decode_key(b"10000000000000000:0:n"), None);
    assert_eq!(decode_key(b"00ffffffffffffffff:0:n"), Some((u64::MAX, "n".to_string())));
    assert_eq!(decode_key(b":0:n"), None);
    assert_eq!(decode_key(b"+:0:n"), None);
    assert_eq!(decode_key(b"-1:0:n"), None);
    assert_eq!(decode_key(b"0g:0:n"), None);
    assert_eq!(decode_key(b"1:2"), None);
    assert_eq!(decode_key(b""), None);
    assert_eq!(decode_key(b"1:\xff:n"), Some((1, "n".to_string())));
    assert_eq!(decode_key(b"1:2:\xff"), None);
    assert_eq!(decode_key(b"\xff:2:n"), None);
}

#[test]
fn cutoff_separates_old_from_new() {
    assert_eq!(cutoff_prefix(0xabc), "0000000000000abc");
    let bound = cutoff_prefix(5_000).into_bytes();
    assert!(encode_key(4_999, u32::MAX, "zzz") < bound);
    assert!(encode_key(5_000, 0, "") > bound);
    assert!(encode_key(5_001, 0, "") > bound);
}

#[test]
fn micros_saturate() {
    let mut e = entry("m", 3, 1.0);
    e.timestamp = at(3, 4_999);
    assert_eq!(entry_micros(&e), 3_000_004);
    e.timestamp = Timestamp { before_epoch: true, secs: 3, nanos: 0 };
    assert_eq!(entry_micros(&e), 0);
    e.timestamp = at(u64::MAX, 0);
    assert_eq!(entry_micros(&e), u64::MAX);
}

#[test]
fn payloads_have_the_documented_form() {
    let e = entry("m", 1, 1.0);
    let text = String::from_utf8(encode_value(&e)).unwrap();
    assert_eq!(
        text,
        r#"{"labels":{"method":"GET"},"metric_type":"counter","value":1.0}"#
    );
    let nan = entry("m", 1, f64::NAN);
    let text = String::from_utf8(encode_value(&nan)).unwrap();
    assert!(text.ends_with(r#""value":null}"#), "{text}");
}

#[test]
fn payloads_read_back() {
    let mut e = entry("m", 1, 0.1);
    e.metric_type = MetricType::Histogram;
    e.labels = vec![
        ("a".to_string(), "quote \" and \u{e9}\n".to_string()),
        ("b".to_string(), "1".to_string()),
        ("b".to_string(), "2".to_string()),
    ];
    let (sample, kind, labels) = decode_value(&encode_value(&e));
    assert_eq!(sample.as_f64(), Some(0.1));
    assert_eq!(kind, "histogram");
    assert_eq!(labels, "{\"a\":\"quote \\\" and \u{e9}\\n\",\"b\":\"2\"}");
    let (sample, _, _) = decode_value(&encode_value(&entry("m", 1, f64::INFINITY)));
    assert_eq!(sample.as_f64(), Some(0.0));
}

#[test]
fn foreign_payloads_have_defaults() {
    let zero = serde_json::Number::from(0);
    let unknown = (zero.clone(), "unknown".to_string(), "{}".to_string());
    assert_eq!(decode_value(b"not json"), unknown);
    assert_eq!(decode_value(b""), unknown);
    assert_eq!(decode_value(b"[1,2]"), unknown);
    assert_eq!(decode_value(b"{}"), unknown);
    assert_eq!(
        decode_value(br#"{"value":"1","metric_type":2,"labels":[]}"#),
        unknown
    );
    let (sample, kind, labels) =
        decode_value(br#" {"value": -3, "metric_type": "x", "labels": { "z" : 1, "a": [ ] } } "#);
    assert_eq!(sample.as_i64(), Some(-3));
    assert_eq!(kind, "x");
    assert_eq!(labels, r#"{"a":[],"z":1}"#);
    let (sample, kind, _) = payload_columns(&serde_json::Value::Null);
    assert_eq!(sample, zero);
    assert_eq!(kind, "unknown");
}

#[test]
fn rows_get_wrapping_sequence_numbers() {
    let batch = vec![entry("a", 1, 1.0), entry("b", 1, 2.0), entry("c", 1, 3.0)];
    let mut seq = u32::MAX - 1;
    let rows = flush_batch(&batch, &mut seq);
    assert_eq!(seq, 1);
    assert_eq!(rows.len(), 3);
    assert_eq!(rows[0].0, encode_key(1_000_000, u32::MAX - 1, "a"));
    assert_eq!(rows[1].0, encode_key(1_000_000, u32::MAX, "b"));
    assert_eq!(rows[2].0, encode_key(1_000_000, 0, "c"));
    assert_eq!(rows[2].1, encode_value(&batch[2]));
}

#[test]
fn writer_batches_and_flushes() {
    let mut w = Writer::new(2);
    assert!(matches!(w.received(metric("a")), WriterStep::Drain));
    match w.polled(metric("b")) {
        WriterStep::Flush(rows) => assert_eq!(names(&rows), vec!["a", "b"]),
        other => panic!("{other:?}"),
    }
    assert!(matches!(w.received(metric("c")), WriterStep::Drain));
    match w.polled(None) {
        WriterStep::Flush(rows) => {
            assert_eq!(names(&rows), vec!["c"]);
            assert_eq!(rows[0].0, encode_key(1_000_000, 2, "c"));
        }
        other => panic!("{other:?}"),
    }
    assert!(matches!(w.received(metric("d")), WriterStep::Drain));
    match w.polled(Some(PipelineMsg::Shutdown)) {
        WriterStep::FlushAndStop(rows) => assert_eq!(names(&rows), vec!["d"]),
        other => panic!("{other:?}"),
    }
}

#[test]
fn writer_stops_while_it_waits() {
    let mut w = Writer::new(2);
    assert!(matches!(w.received(Some(PipelineMsg::Shutdown)), WriterStep::Stop));
    assert!(matches!(w.received(None), WriterStep::Stop));
    let mut single = Writer::new(1);
    match single.received(metric("a")) {
        WriterStep::Flush(rows) => assert_eq!(names(&rows), vec!["a"]),
        other => panic!("{other:?}"),
    }
}

#[test]
fn export_schema_is_the_contract() {
    let schema = arrow_schema();
    let columns: Vec<(&str, &DataType, bool)> = schema
        .fields()
        .iter()
        .map(|f| (f.name().as_str(), f.data_type(), f.is_nullable()))
        .collect();
    assert_eq!(
        columns,
        vec![
            ("ts", &DataType::Timestamp(TimeUnit::Microsecond, None), false),
            ("name", &DataType::Utf8, false),
            ("value", &DataType::Float64, false),
            ("metric_type", &DataType::Utf8, false),
            ("labels", &DataType::Utf8, false),
        ]
    );
}

#[test]
fn cutoff_follows_retention() {
    let day = TimeSpan::from_secs(86_400);
    assert_eq!(cutoff_micros(100_000, 1_999, day).unwrap(), 13_600_000_001);
    assert_eq!(cutoff_micros(86_400, 0, day).unwrap(), 0);
    assert_eq!(cutoff_micros(10, 0, day).unwrap(), 0);
    assert_eq!(cutoff_micros(10, 500, TimeSpan::new(9, 999_999_999)).unwrap(), 0);
    assert_eq!(cutoff_micros(10, 1_000, TimeSpan::new(9, 999_999_999)).unwrap(), 1);
    // One millisecond more than the calendar can subtract.
    let too_long = TimeSpan::new(9_223_372_036_854_775, 807_000_001);
    match cutoff_micros(0, 0, too_long) {
        Err(Error::Storage(m)) => assert_eq!(
            m,
            "invalid retention: Source duration value is out of range for the target type"
        ),
        other => panic!("{other:?}"),
    }
    match cutoff_micros(0, 0, TimeSpan::from_secs(u64::MAX)) {
        Err(Error::Storage(_)) => {}
        other => panic!("{other:?}"),
    }
}

#[test]
fn calendar_bounds_the_retention() {
    let day = TimeSpan::from_secs(86_400);
    assert!(within_calendar(0, 0, day));
    assert!(!within_calendar(0, 1_000_000_000, day));
    assert!(within_calendar(8_210_266_876_799, 0, day));
    assert!(!within_calendar(8_210_266_876_800, 0, day));
    assert!(within_calendar(-8_334_601_228_800 + 86_400, 0, day));
    assert!(!within_calendar(-8_334_601_228_800 + 86_399, 0, day));
    assert!(within_calendar(0, 0, TimeSpan::from_secs(8_334_601_228_800)));
    assert!(!within_calendar(0, 0, TimeSpan::from_secs(8_334_601_228_801)));
    assert!(within_calendar(0, 0, TimeSpan::from_secs(u64::MAX)));
    let first = chrono::DateTime::<chrono::Utc>::MIN_UTC.timestamp();
    let last = chrono::DateTime::<chrono::Utc>::MAX_UTC.timestamp();
    assert_eq!((first, last), (-8_334_601_228_800, 8_210_266_876_799));
}

#[test]
fn rows_in_store_read_back_in_an_export() {
    let mut w = Writer::new(10);
    assert!(matches!(
        w.received(Some(PipelineMsg::Metric(entry("a_total", 7, 0.5)))),
        WriterStep::Drain
    ));
    let rows = match w.polled(None) {
        WriterStep::Flush(rows) => rows,
        other => panic!("{other:?}"),
    };
    let mut scan = CompactionScan::new();
    assert!(matches!(scan.scan(&rows[0].0, &rows[0].1), ScanStep::Open));
    match scan.finish().next() {
        EndStep::Write(cold) => {
            assert_eq!(cold[0].ts, 7_000_000);
            assert_eq!(cold[0].name, "a_total");
            assert_eq!(cold[0].kind, "counter");
            assert_eq!(cold[0].labels, r#"{"method":"GET"}"#);
            assert_eq!(cold[0].value.as_f64(), Some(0.5));
        }
        other => panic!("{other:?}"),
    }
}

#[test]
fn export_names_carry_the_stamp() {
    assert_eq!(PARQUET_FILE_PREFIX, "metrics_cold_");
    assert_eq!(utc_stamp(0).unwrap(), "19700101T000000");
    assert_eq!(utc_stamp(1_431_648_005).unwrap(), "20150515T000005");
    assert_eq!(utc_stamp(253_402_300_799).unwrap(), "99991231T235959");
    assert!(utc_stamp(i64::MAX).is_none());
    assert_eq!(temp_file_name("S"), ".metrics_cold_S.parquet.tmp");
    assert_eq!(cold_file_name("S"), "metrics_cold_S.parquet");
    let mut last = String::new();
    for secs in [0, 1, 59, 60, 86_399, 86_400, 951_782_400, 4_102_444_800, 253_402_300_799] {
        let name = cold_file_name(&utc_stamp(secs).unwrap());
        assert!(last < name, "{last} before {name}");
        last = name;
    }
}

#[test]
fn newest_export_is_found() {
    let list = |names: &[&str]| -> Vec<Vec<u8>> {
        names.iter().map(|n| n.as_bytes().to_vec()).collect()
    };
    assert_eq!(latest_cold_file(&list(&[])), None);
    assert_eq!(
        latest_cold_file(&list(&[
            ".metrics_cold_20260101T000000.parquet.tmp",
            "metrics_cold_20260101T000000.parquet.tmp",
            "metrics_cold_",
            "metrics_hot_20260101T000000.parquet",
            "xmetrics_cold_20260101T000000.parquet",
            "metrics_cold_20260101T000000parquet",
        ])),
        None
    );
    assert_eq!(
        latest_cold_file(&list(&[
            "metrics_cold_20260101T000000.parquet",
            "metrics_cold_20260103T000000.parquet",
            "other",
            "metrics_cold_20260102T000000.parquet",
        ])),
        Some(b"metrics_cold_20260103T000000.parquet".to_vec())
    );
    let odd = vec![b"metrics_cold_\xff.parquet".to_vec(), b"metrics_cold_z.parquet".to_vec()];
    assert_eq!(latest_cold_file(&odd), Some(odd[0].clone()));
}

fn finish(scan: CompactionScan) -> (Vec<usize>, Vec<&'static str>, u64, u64) {
    let mut end = scan.finish();
    let mut chunks = Vec::new();
    let mut order = Vec::new();
    let mut purged = 0;
    loop {
        match end.next() {
            EndStep::Write(rows) => {
                chunks.push(rows.len());
                order.push("write");
            }
            EndStep::Publish => order.push("publish"),
            EndStep::Purge(n) => {
                purged = n;
                order.push("purge");
            }
            EndStep::Persist => order.push("persist"),
            EndStep::Done(moved) => return (chunks, order, purged, moved),
        }
    }
}

#[test]
fn pass_without_rows_changes_nothing() {
    let mut scan = CompactionScan::new();
    assert!(matches!(scan.scan(b"junk", b"{}"), ScanStep::Skip));
    let (chunks, order, purged, moved) = finish(scan);
    assert!(chunks.is_empty());
    assert!(order.is_empty());
    assert_eq!((purged, moved), (0, 0));
}

#[test]
fn pass_publishes_before_it_purges() {
    let mut scan = CompactionScan::new();
    let stale = entry("stale_total", 0, 2.0);
    assert!(matches!(scan.scan(b"junk", b"{}"), ScanStep::Skip));
    assert!(matches!(
        scan.scan(&encode_key(0, 0, &stale.name), &encode_value(&stale)),
        ScanStep::Open
    ));
    assert!(matches!(
        scan.scan(&encode_key(1, 0, &stale.name), &encode_value(&stale)),
        ScanStep::Keep
    ));
    assert!(matches!(scan.scan(b"more junk", b"{}"), ScanStep::Skip));
    let (chunks, order, purged, moved) = finish(scan);
    assert_eq!(chunks, vec![2]);
    assert_eq!(order, vec!["write", "publish", "purge", "persist"]);
    assert_eq!(purged, 4);
    assert_eq!(moved, 2);
}

#[test]
fn rows_carry_key_and_payload() {
    let mut scan = CompactionScan::new();
    let e = entry("stale_total", 0, 2.5);
    let _ = scan.scan(&encode_key(u64::MAX, 0, "stale_total"), &encode_value(&e));
    let mut end = scan.finish();
    match end.next() {
        EndStep::Write(rows) => {
            let ColdRow { ts, name, value, kind, labels } = &rows[0];
            assert_eq!(*ts, i64::MAX);
            assert_eq!(name, "stale_total");
            assert_eq!(value.as_f64(), Some(2.5));
            assert_eq!(kind, "counter");
            assert_eq!(labels, r#"{"method":"GET"}"#);
        }
        other => panic!("{other:?}"),
    }
}

#[test]
fn chunks_are_bounded() {
    let mut scan = CompactionScan::new();
    let value = encode_value(&entry("m", 0, 1.0));
    let mut written = 0;
    for i in 0..ROWS_PER_BATCH as u64 {
        match scan.scan(&encode_key(i, 0, "m"), &value) {
            ScanStep::Write(rows) => {
                assert_eq!(i, ROWS_PER_BATCH as u64 - 1);
                written += rows.len();
            }
            ScanStep::Open => assert_eq!(i, 0),
            ScanStep::Keep => {}
            ScanStep::Skip => panic!("row {i} was skipped"),
        }
    }
    assert_eq!(written, ROWS_PER_BATCH);
    // A key without a row after the last chunk is not purged.
    assert!(matches!(scan.scan(b"junk", b""), ScanStep::Skip));
    let (chunks, order, purged, moved) = finish(scan);
    assert!(chunks.is_empty());
    assert_eq!(order, vec!["publish", "purge", "persist"]);
    assert_eq!(purged, ROWS_PER_BATCH as u64);
    assert_eq!(moved, ROWS_PER_BATCH as u64);
}

fn cold(ts: i64, name: &str, value: f64) -> ColdRow {
    ColdRow {
        ts,
        name: name.to_string(),
        value: serde_json::Number::from_f64(value).unwrap(),
        kind: "gauge".to_string(),
        labels: "{}".to_string(),
    }
}

#[test]
fn batches_hold_the_rows_in_columns() {
    let rows = vec![cold(-1, "a", 0.25), cold(i64::MAX, "\u{e9}", -3.0)];
    assert!(fits_batch(&rows));
    let batch = record_batch(rows).unwrap().batch;
    assert_eq!(batch.schema(), arrow_schema());
    assert_eq!(batch.num_rows(), 2);
    let ts = batch.column(0).as_any().downcast_ref::<TimestampMicrosecondArray>().unwrap();
    assert_eq!((ts.value(0), ts.value(1)), (-1, i64::MAX));
    let names = batch.column(1).as_any().downcast_ref::<StringArray>().unwrap();
    assert_eq!((names.value(0), names.value(1)), ("a", "\u{e9}"));
    let values = batch.column(2).as_any().downcast_ref::<Float64Array>().unwrap();
    assert_eq!((values.value(0), values.value(1)), (0.25, -3.0));
    let kinds = batch.column(3).as_any().downcast_ref::<StringArray>().unwrap();
    assert_eq!(kinds.value(1), "gauge");
    let labels = batch.column(4).as_any().downcast_ref::<StringArray>().unwrap();
    assert_eq!(labels.value(0), "{}");
    assert!(batch.columns().iter().all(|c| c.null_count() == 0));
    assert_eq!(record_batch(Vec::new()).unwrap().batch.num_rows(), 0);
}

#[test]
fn sanitized_labels_read_back() {
    let e = MetricEntry::new(
        "m",
        serde_json::Value::from(2.5),
        MetricType::Gauge,
        vec![("$serde_json::private::RawValue".to_string(), "GET".to_string())],
    );
    let (sample, kind, labels) = decode_value(&encode_value(&e));
    assert_eq!(sample.as_f64(), Some(2.5));
    assert_eq!(kind, "gauge");
    assert_eq!(labels, r#"{"_serde_json::private::RawValue":"GET"}"#);
}

#[test]
fn samples_become_doubles() {
    let mut rows = vec![cold(0, "a", 0.0), cold(0, "b", 0.0), cold(0, "c", 0.0)];
    rows[0].value = serde_json::Number::from(9_007_199_254_740_993_u64);
    rows[1].value = serde_json::Number::from(0_u64);
    let batch = record_batch(rows).unwrap().batch;
    let values = batch.column(2).as_any().downcast_ref::<Float64Array>().unwrap();
    assert_eq!(values.value(0), 9_007_199_254_740_992.0);
    assert_eq!(values.value(1).to_bits(), 0);
    assert_eq!(values.value(2).to_bits(), 0);
}

#[test]
fn writer_drains_what_is_there() {
    let (tx, mut rx) = tokio::sync::mpsc::channel(16);
    for name in ["b", "c", "d"] {
        tx.try_send(PipelineMsg::Metric(entry(name, 1, 1.0))).unwrap();
    }
    let mut w = Writer::new(3);
    assert!(matches!(w.received(metric("a")), WriterStep::Drain));
    match w.drain(&mut rx) {
        WriterStep::Flush(rows) => assert_eq!(names(&rows), vec!["a", "b", "c"]),
        other => panic!("{other:?}"),
    }
    tx.try_send(PipelineMsg::Shutdown).unwrap();
    let first = rx.try_recv().ok();
    assert!(matches!(w.received(first), WriterStep::Drain));
    match w.drain(&mut rx) {
        WriterStep::FlushAndStop(rows) => assert_eq!(names(&rows), vec!["d"]),
        other => panic!("{other:?}"),
    }
    assert!(matches!(w.received(metric("e")), WriterStep::Drain));
    match w.drain(&mut rx) {
        WriterStep::Flush(rows) => assert_eq!(names(&rows), vec!["e"]),
        other => panic!("{other:?}"),
    }
}
