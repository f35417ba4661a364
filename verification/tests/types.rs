//! Names, labels, flavours and entries.

use tonggeret::error::Error;
use tonggeret::types::{
    label_names_and_values, sanitize_labels, sanitize_metric_name, MetricEntry, MetricType,
    Timestamp,
};

fn pair(k: &str, v: &str) -> (String, String) {
    (k.to_string(), v.to_string())
}

#[test]
fn sanitizes_names() {
    assert_eq!(
        sanitize_metric_name("http.requests-total"),
        "http_requests_total"
    );
    assert_eq!(sanitize_metric_name("9lives"), "_lives");
    assert_eq!(sanitize_metric_name(""), "_unnamed");
}

#[test]
fn sanitized_names_are_left_alone() {
    for name in ["", "9", "a b", "snow\u{2603}man", ":x:9", "_", "http.requests-total"] {
        let once = sanitize_metric_name(name);
        assert_eq!(sanitize_metric_name(&once), once);
    }
    assert_eq!(sanitize_metric_name("snow\u{2603}man"), "snow_man");
    assert_eq!(sanitize_metric_name(":x:9"), ":x:9");
}

#[test]
fn truncates_and_caps_labels() {
    let labels = vec![("k".to_string(), "x".repeat(300))];
    let out = sanitize_labels(labels);
    assert_eq!(out[0].1.len(), 256);
}

#[test]
fn truncation_counts_characters() {
    let out = sanitize_labels(vec![pair("k", &"\u{e9}".repeat(300))]);
    assert_eq!(out[0].1, "\u{e9}".repeat(256));
    let out = sanitize_labels(vec![pair(&"k".repeat(200), "v")]);
    assert_eq!(out[0].0, "k".repeat(128));
    let out = sanitize_labels(vec![pair(&"k".repeat(128), &"v".repeat(256))]);
    assert_eq!(out[0], pair(&"k".repeat(128), &"v".repeat(256)));
}

#[test]
fn labels_without_key_are_dropped_and_pairs_capped() {
    let out = sanitize_labels(vec![
        pair("", "a"),
        pair(" \u{a0}\t", "b"),
        pair(" http method ", "c"),
        pair("_unnamed", "d"),
    ]);
    assert_eq!(out, vec![pair("http_method", "c"), pair("_unnamed", "d")]);

    let many: Vec<(String, String)> = (0..20).map(|i| pair(&format!("k{i}"), "v")).collect();
    let out = sanitize_labels(many.clone());
    assert_eq!(out, many[..16].to_vec());
    assert_eq!(sanitize_labels(out.clone()), out);
}

#[test]
fn labels_split_in_order() {
    let (names, values) = label_names_and_values(&[pair("a", "1"), pair("b", "2")]);
    assert_eq!(names, vec!["a", "b"]);
    assert_eq!(values, vec!["1", "2"]);
}

#[test]
fn type_names_lead_back() {
    for t in [MetricType::Counter, MetricType::Gauge, MetricType::Histogram] {
        assert_eq!(MetricType::from_name(t.as_str()).unwrap(), t);
        assert_eq!(t.as_str().parse::<MetricType>().unwrap(), t);
    }
    assert_eq!(MetricType::Histogram.as_str(), "histogram");
    match MetricType::from_name("summary") {
        Err(Error::InvalidConfig(m)) => assert_eq!(
            m,
            "unknown metric type `summary`, expected counter|gauge|histogram"
        ),
        other => panic!("{other:?}"),
    }
}

#[test]
fn entries_are_sanitized_and_stamped() {
    let t = Timestamp { before_epoch: false, secs: 5, nanos: 6 };
    let e = MetricEntry::at(t, "a-b", 1.5_f64, MetricType::Gauge, vec![pair(" x y ", "1")]);
    assert_eq!(e.name, "a_b");
    assert_eq!(e.value, 1.5);
    assert_eq!(e.metric_type, MetricType::Gauge);
    assert_eq!(e.labels, vec![pair("x_y", "1")]);
    assert_eq!((e.timestamp.secs, e.timestamp.nanos), (5, 6));

    let now = MetricEntry::new("a", 1_u8, MetricType::Counter, vec![]);
    assert!(!now.timestamp.before_epoch);
    assert!(now.timestamp.secs > 1_600_000_000);
    assert!(now.timestamp.nanos < 1_000_000_000);
}

#[test]
fn errors_describe_themselves() {
    assert_eq!(
        Error::AlreadyInitialized.message(),
        "tonggeret already initialized"
    );
    assert_eq!(
        Error::NotInitialized.message(),
        "tonggeret not initialized; call tonggeret::init() first"
    );
    assert_eq!(
        Error::InvalidConfig("x".to_string()).message(),
        "invalid config: x"
    );
    assert_eq!(Error::Storage("x".to_string()).message(), "storage error: x");
    assert_eq!(
        Error::Prometheus("x".to_string()).message(),
        "prometheus error: x"
    );
    assert_eq!(Error::Io("x".to_string()).message(), "io error: x");
    assert_eq!(Error::ChannelClosed.message(), "metrics pipeline closed");
}
