//! The registry: collectors, label keys and exposition.

use prometheus::proto::MetricType as Kind;
use tonggeret::error::Error;
use tonggeret::prometheus::{exposition_text, families_text, Observation, PromRegistry};
use tonggeret::types::{MetricEntry, MetricType};

fn registry(buckets: Vec<f64>) -> PromRegistry {
    PromRegistry::new(prometheus::HistogramOpts::new("default", "default").buckets(buckets))
        .unwrap()
}

fn observe(o: Observation, value: f64) {
    match o {
        Observation::Counter(f, values) => f.vec.with_label_values(&values).inc_by(value),
        Observation::Gauge(f, values) => f.vec.with_label_values(&values).set(value),
        Observation::Histogram(f, values) => f.vec.with_label_values(&values).observe(value),
    }
}

fn update(reg: &mut PromRegistry, entry: &MetricEntry<f64>) -> bool {
    match reg.update(entry) {
        Some(o) => {
            observe(o, entry.value);
            true
        }
        None => false,
    }
}

fn labels(pairs: &[(&str, &str)]) -> Vec<(String, String)> {
    pairs.iter().map(|(k, v)| (k.to_string(), v.to_string())).collect()
}

#[test]
fn counter_gauge_histogram_roundtrip() {
    let mut reg = registry(vec![1.0, 5.0, 10.0]);
    assert!(update(
        &mut reg,
        &MetricEntry::new("test_counter_total", 2.0, MetricType::Counter, vec![])
    ));
    assert!(update(
        &mut reg,
        &MetricEntry::new(
            "test_gauge",
            7.5,
            MetricType::Gauge,
            vec![("role".to_string(), "web".to_string())],
        )
    ));
    assert!(update(
        &mut reg,
        &MetricEntry::new("test_hist", 3.0, MetricType::Histogram, vec![])
    ));
    let text = reg.gather_text().unwrap();
    assert!(text.contains("test_counter_total"));
    assert!(text.contains("test_gauge"));
    assert!(text.contains("test_hist"));
    assert!(text.contains("test_counter_total 2"));
    assert!(text.contains("test_gauge{role=\"web\"} 7.5"));
    assert!(text.contains("test_hist_bucket{le=\"1\"} 0"), "{text}");
    assert!(text.contains("test_hist_bucket{le=\"5\"} 1"), "{text}");
    assert!(text.contains("# HELP test_hist duckmetrics histogram test_hist"), "{text}");
}

#[test]
fn counter_gauge_histogram_exported() {
    let mut reg = registry(vec![5.0, 10.0, 25.0, 50.0]);
    let entries = [
        MetricEntry::new(
            "it_requests_total",
            3.0,
            MetricType::Counter,
            labels(&[("method", "GET"), ("path", "/")]),
        ),
        MetricEntry::new("it_queue_depth", 9.0, MetricType::Gauge, vec![]),
        MetricEntry::new(
            "it_latency_ms",
            42.0,
            MetricType::Histogram,
            labels(&[("route", "/")]),
        ),
    ];
    for entry in &entries {
        assert!(update(&mut reg, entry));
    }
    let text = reg.gather_text().expect("gather");
    assert!(
        text.contains("it_requests_total"),
        "missing counter:\n{text}"
    );
    assert!(text.contains("it_queue_depth"), "missing gauge:\n{text}");
    assert!(text.contains("it_latency_ms"), "missing histogram:\n{text}");
    // Internal drop counter is always registered.
    assert!(
        text.contains("tonggeret_dropped_total"),
        "missing drop counter:\n{text}"
    );
}

#[test]
fn direct_api_matches_macros() {
    let mut reg = registry(vec![5.0]);
    let entry = MetricEntry::new(
        "it_direct_total",
        1.0,
        MetricType::Counter,
        vec![("a".to_string(), "b".to_string())],
    );
    assert!(update(&mut reg, &entry));
    let text = reg.gather_text().unwrap();
    assert!(text.contains("it_direct_total"));
}

#[test]
fn drops_are_counted() {
    let reg = registry(vec![1.0]);
    assert!(reg.gather_text().unwrap().contains("tonggeret_dropped_total 0"));
    reg.inc_dropped();
    reg.inc_dropped();
    let text = reg.gather_text().unwrap();
    assert!(text.contains("tonggeret_dropped_total 2"), "{text}");
    assert!(text.contains(
        "# HELP tonggeret_dropped_total Total metric samples dropped because the Fjall channel was full"
    ));
}

#[test]
fn other_label_keys_are_rejected() {
    let mut reg = registry(vec![1.0]);
    for kind in [MetricType::Counter, MetricType::Gauge, MetricType::Histogram] {
        let name = format!("stable_{}", kind.as_str());
        let first = MetricEntry::new(&name, 1.0, kind, labels(&[("a", "1"), ("b", "2")]));
        assert!(reg.find(&first).is_none());
        assert!(update(&mut reg, &first));
        assert!(matches!(reg.find(&first), Some(Some(_))));
        for other in [
            labels(&[]),
            labels(&[("a", "1")]),
            labels(&[("a", "1"), ("a", "2")]),
            labels(&[("a", "1"), ("c", "2")]),
            labels(&[("a", "1"), ("b", "2"), ("c", "3")]),
        ] {
            let entry = MetricEntry::new(&name, 1.0, kind, other);
            assert!(matches!(reg.find(&entry), Some(None)));
            assert!(!update(&mut reg, &entry));
        }
        assert!(update(&mut reg, &first));
    }
    let text = reg.gather_text().unwrap();
    assert!(text.contains("stable_counter{a=\"1\",b=\"2\"} 2"), "{text}");
}

#[test]
fn label_keys_match_in_any_order() {
    let mut reg = registry(vec![1.0]);
    for kind in [MetricType::Counter, MetricType::Gauge, MetricType::Histogram] {
        let name = format!("ordered_{}", kind.as_str());
        let first = MetricEntry::new(
            &name,
            1.0,
            kind,
            labels(&[("a", "1"), ("b", "2"), ("c", "3")]),
        );
        assert!(update(&mut reg, &first));
        for turned in [
            labels(&[("b", "2"), ("c", "3"), ("a", "1")]),
            labels(&[("c", "3"), ("b", "2"), ("a", "1")]),
        ] {
            let entry = MetricEntry::new(&name, 1.0, kind, turned);
            match reg.find(&entry) {
                Some(Some(
                    Observation::Counter(_, values)
                    | Observation::Gauge(_, values)
                    | Observation::Histogram(_, values),
                )) => assert_eq!(values, ["1", "2", "3"]),
                other => panic!("{other:?}"),
            }
            assert!(update(&mut reg, &entry));
        }
    }
    let text = reg.gather_text().unwrap();
    assert!(text.contains("ordered_counter{a=\"1\",b=\"2\",c=\"3\"} 3"), "{text}");
    assert!(text.contains("ordered_gauge{a=\"1\",b=\"2\",c=\"3\"} 1"), "{text}");
    assert!(text.contains("ordered_histogram_count{a=\"1\",b=\"2\",c=\"3\"} 3"), "{text}");
}

#[test]
fn known_names_share_their_collector() {
    let mut reg = registry(vec![1.0]);
    let entry = MetricEntry::new("shared_total", 1.0, MetricType::Counter, vec![]);
    let (first, second) = match (reg.update(&entry), reg.update(&entry)) {
        (Some(Observation::Counter(f, _)), Some(Observation::Counter(g, _))) => (f, g),
        other => panic!("{other:?}"),
    };
    first.vec.with_label_values::<&str>(&[]).inc();
    assert_eq!(second.vec.with_label_values::<&str>(&[]).get(), 1.0);
    assert!(reg.gather_text().unwrap().contains("shared_total 1"));
}

#[test]
fn unacceptable_descriptions_are_dropped() {
    let mut reg = registry(vec![1.0]);
    let colon = MetricEntry::new("ok_total", 1.0, MetricType::Counter, labels(&[("a:b", "1")]));
    assert!(!update(&mut reg, &colon));
    let twice = MetricEntry::new(
        "ok_total",
        1.0,
        MetricType::Counter,
        labels(&[("a", "1"), ("a", "2")]),
    );
    assert!(!update(&mut reg, &twice));
    let fine = MetricEntry::new("ok_total", 1.0, MetricType::Counter, labels(&[("a", "1")]));
    assert!(update(&mut reg, &fine));
}

#[test]
fn one_name_has_one_flavour() {
    let mut reg = registry(vec![1.0]);
    assert!(update(
        &mut reg,
        &MetricEntry::new("shared", 1.0, MetricType::Counter, vec![])
    ));
    // The registry refuses a second collector under the same name.
    assert!(!update(
        &mut reg,
        &MetricEntry::new("shared", 1.0, MetricType::Gauge, vec![])
    ));
}

#[test]
fn custom_collectors_share_the_registry() {
    let reg = registry(vec![1.0]);
    let own = prometheus::Counter::new("own_total", "own").unwrap();
    reg.registry().register(Box::new(own.clone())).unwrap();
    own.inc();
    assert!(reg.gather_text().unwrap().contains("own_total 1"));
}

#[test]
fn exposition_errors_are_named() {
    assert_eq!(exposition_text(Ok(b"abc".to_vec()), true).unwrap(), "abc");
    match exposition_text(Ok(vec![0xff]), true) {
        Err(Error::Prometheus(m)) => assert!(m.contains("utf-8"), "{m}"),
        other => panic!("{other:?}"),
    }
    for complete in [true, false] {
        match exposition_text(Err("broken".to_string()), complete) {
            Err(Error::Prometheus(m)) => assert_eq!(m, "broken"),
            other => panic!("{other:?}"),
        }
    }
    match exposition_text(Ok(b"abc".to_vec()), false) {
        Err(Error::Prometheus(m)) => assert_eq!(m, "untyped metric families cannot be rendered"),
        other => panic!("{other:?}"),
    }
}

fn family(name: &str, kind: prometheus::proto::MetricType) -> prometheus::proto::MetricFamily {
    let mut f = prometheus::proto::MetricFamily::default();
    f.set_name(name.to_string());
    f.set_field_type(kind);
    f.set_metric(vec![prometheus::proto::Metric::default()]);
    f
}

#[test]
fn families_are_rendered_up_to_an_untyped_one() {
    assert_eq!(families_text(&Vec::new()).unwrap(), "");
    let typed = vec![
        family("a", Kind::COUNTER),
        family("b", Kind::GAUGE),
        family("c", Kind::HISTOGRAM),
        family("d", Kind::SUMMARY),
    ];
    let text = families_text(&typed).unwrap();
    assert!(text.contains("# TYPE a counter\na 0\n"), "{text}");
    assert!(text.contains("# TYPE b gauge\nb 0\n"), "{text}");
    assert!(text.contains("# TYPE c histogram\n"), "{text}");
    assert!(text.contains("# TYPE d summary\n"), "{text}");
    match families_text(&vec![family("a", Kind::COUNTER), family("u", Kind::UNTYPED)]) {
        Err(Error::Prometheus(m)) => assert_eq!(m, "untyped metric families cannot be rendered"),
        other => panic!("{other:?}"),
    }
    match families_text(&vec![family("", Kind::COUNTER), family("u", Kind::UNTYPED)]) {
        Err(Error::Prometheus(m)) => assert!(m.contains("no name"), "{m}"),
        other => panic!("{other:?}"),
    }
}

struct Untyped {
    desc: prometheus::core::Desc,
}

impl prometheus::core::Collector for Untyped {
    fn desc(&self) -> Vec<&prometheus::core::Desc> {
        vec![&self.desc]
    }

    fn collect(&self) -> Vec<prometheus::proto::MetricFamily> {
        vec![family("odd", prometheus::proto::MetricType::UNTYPED)]
    }
}

#[test]
fn untyped_collectors_are_an_error() {
    let reg = registry(vec![1.0]);
    let desc = prometheus::core::Desc::new(
        "odd".to_string(),
        "odd".to_string(),
        Vec::new(),
        std::collections::HashMap::new(),
    )
    .unwrap();
    reg.registry().register(Box::new(Untyped { desc })).unwrap();
    match reg.gather_text() {
        Err(Error::Prometheus(m)) => assert_eq!(m, "untyped metric families cannot be rendered"),
        other => panic!("{other:?}"),
    }
}

#[test]
fn registrations_are_settled_by_their_outcome() {
    let mut reg = registry(vec![1.0]);
    let mut other = registry(vec![1.0]);
    let keys = vec!["a".to_string()];
    for kind in [MetricType::Counter, MetricType::Gauge, MetricType::Histogram] {
        let name = format!("settled_{}", kind.as_str());
        let entry = MetricEntry::new(&name, 1.0, kind, labels(&[("a", "1")]));
        for (outcome, known) in [(Err("refused".to_string()), false), (Ok(()), true)] {
            let settled = match other.update(&entry) {
                Some(Observation::Counter(f, _)) => {
                    reg.settle_counter(&name, &keys, f, outcome).is_some()
                }
                Some(Observation::Gauge(f, _)) => {
                    reg.settle_gauge(&name, &keys, f, outcome).is_some()
                }
                Some(Observation::Histogram(f, _)) => {
                    reg.settle_histogram(&name, &keys, f, outcome).is_some()
                }
                None => panic!("no collector for {name}"),
            };
            assert_eq!(settled, known);
            assert_eq!(reg.find(&entry).is_some(), known);
        }
    }
}
