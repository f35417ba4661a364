//! Regions, visitor keys, sketches and the tracker.

use std::hash::{Hash, Hasher};
use tonggeret::prometheus::{Observation, PromRegistry};
use tonggeret::types::{MetricEntry, MetricType};
use tonggeret::visitors::{
    global_tracker, normalize_region, observe_visitor, parse_region, snapshot_visitors,
    visit_labels, visitor_key, Hll, VisitorsTracker, REGION_OTHER, REGION_UNKNOWN,
    UNIQUE_VISITORS_ESTIMATE, VISITORS_TOTAL,
};

fn record(reg: &mut PromRegistry, entry: &MetricEntry<f64>) {
    match reg.update(entry) {
        Some(Observation::Counter(f, values)) => {
            f.vec.with_label_values(&values).inc_by(entry.value);
        }
        Some(Observation::Gauge(f, values)) => f.vec.with_label_values(&values).set(entry.value),
        Some(Observation::Histogram(f, values)) => {
            f.vec.with_label_values(&values).observe(entry.value);
        }
        None => {}
    }
}

#[test]
fn hll_estimates_known_cardinality() {
    let mut hll = Hll::new();
    assert_eq!(hll.estimate(), 0);
    for i in 0..10_000 {
        hll.add(&format!("visitor-{i}"));
    }
    let est = hll.estimate();
    let err = (f64::from(u32::try_from(est).unwrap_or(u32::MAX)) - 10_000.0).abs() / 10_000.0;
    assert!(err < 0.05, "estimate {est} too far from 10000");
}

#[test]
fn hll_ignores_duplicates() {
    let mut hll = Hll::new();
    for _ in 0..1_000 {
        hll.add("same-visitor");
    }
    assert_eq!(hll.estimate(), 1);
}

#[test]
fn linear_counting_is_the_nearest_integer() {
    let mut hll = Hll::new();
    for used in 1..=4095_u64 {
        hll.add_hash(((used - 1) << 52) | (1 << 51));
        let zeros = 4096.0 - used as f64;
        let sum = zeros + used as f64 / 2.0;
        let raw = (0.7213 / (1.0 + 1.079 / 4096.0)) * 4096.0 * 4096.0 / sum;
        assert!(raw <= 2.5 * 4096.0);
        let linear = (4096.0 * (4096.0 / zeros).ln()).round() as u64;
        assert_eq!(hll.estimate(), linear, "{used} registers used");
    }
}

#[test]
fn raw_estimate_is_the_nearest_integer() {
    for rank in 2..=52_u64 {
        let mut hll = Hll::new();
        for i in 0..4096_u64 {
            hll.add_hash((i << 52) | (1 << (52 - rank)));
        }
        let sum = 4096.0 * 2f64.powi(-(rank as i32));
        let raw = (0.7213 / (1.0 + 1.079 / 4096.0)) * 4096.0 * 4096.0 / sum;
        let expected = raw.round() as u64;
        let est = hll.estimate();
        assert!(
            est.abs_diff(expected) as f64 <= expected as f64 * 1e-12,
            "rank {rank}: {est} against {expected}"
        );
        if rank < 30 {
            assert_eq!(est, expected, "rank {rank}");
        }
    }
}

#[test]
fn largest_estimate_saturates() {
    let mut hll = Hll::new();
    for i in 0..4096_u64 {
        hll.add_hash(i << 52);
    }
    assert_eq!(hll.estimate(), u64::MAX);
}

#[test]
fn keys_are_hashed_like_text() {
    for key in ["", "a", "203.0.113.7\0curl", "\u{e9}"] {
        let mut h = std::collections::hash_map::DefaultHasher::new();
        key.hash(&mut h);
        let mut by_hash = Hll::new();
        by_hash.add_hash(h.finish());
        let mut by_key = Hll::new();
        by_key.add(key);
        assert_eq!(format!("{by_hash:?}"), format!("{by_key:?}"));
    }
}

#[test]
fn order_of_visitors_does_not_matter() {
    let mut a = Hll::new();
    let mut b = Hll::default();
    for i in 0..500 {
        a.add(&format!("v{i}"));
        b.add(&format!("v{}", 499 - i));
    }
    assert_eq!(format!("{a:?}"), format!("{b:?}"));
}

#[test]
fn tracker_counts_totals_and_uniques_per_region() {
    let mut tracker = VisitorsTracker::new(512);
    for i in 0..100 {
        assert!(tracker.observe(&format!("de-{i}"), "DE"));
        assert!(tracker.observe(&format!("us-{i}"), "US"));
    }
    assert!(tracker.observe("de-0", "DE")); // duplicate
    assert_eq!(tracker.region_count(), 2);
    let de = tracker.estimate("DE");
    assert!((95..=105).contains(&de), "DE estimate {de}");
    let mut exported = Vec::new();
    assert_eq!(tracker.snapshot(&mut exported), 2);
    assert_eq!(exported.len(), 2);
    assert!(exported.contains(&("DE".to_string(), de)));
}

#[test]
fn tracker_caps_regions_into_other() {
    let mut tracker = VisitorsTracker::new(2);
    assert!(tracker.observe("a", "AA"));
    assert!(tracker.observe("b", "BB"));
    assert!(tracker.observe("c", "CC")); // over cap, into the shared bucket
    assert_eq!(tracker.region_count(), 3); // AA, BB, other
    assert_eq!(tracker.estimate("CC"), 0);
    assert!(tracker.estimate(REGION_OTHER) >= 1);
}

#[test]
fn known_regions_stay_open_beyond_the_cap() {
    let mut tracker = VisitorsTracker::new(0);
    assert!(tracker.observe("a", "AA"));
    assert!(tracker.observe("b", "BB"));
    assert!(tracker.observe("c", "CC"));
    assert!(tracker.observe("d", "aa "));
    assert_eq!(tracker.region_count(), 2);
    assert_eq!(tracker.estimate("AA"), 2);
    assert_eq!(tracker.estimate("other"), 2);
}

#[test]
fn invalid_regions_normalize_to_unknown() {
    assert_eq!(normalize_region(""), REGION_UNKNOWN);
    assert_eq!(normalize_region("USA"), REGION_UNKNOWN);
    assert_eq!(normalize_region("1A"), REGION_UNKNOWN);
    assert_eq!(normalize_region(" de "), "DE");
    let mut tracker = VisitorsTracker::new(512);
    assert!(tracker.observe("x", "!!!"));
    assert_eq!(tracker.estimate(REGION_UNKNOWN), 1);
}

#[test]
fn internal_buckets_are_kept() {
    assert_eq!(normalize_region(" Other\n"), REGION_OTHER);
    assert_eq!(normalize_region(REGION_UNKNOWN), REGION_UNKNOWN);
    assert_eq!(normalize_region("\u{df}\u{df}"), REGION_UNKNOWN);
}

#[test]
fn first_valid_header_wins() {
    assert_eq!(parse_region(Some("de"), None, None), "DE");
    assert_eq!(parse_region(None, Some("\u{8fc7}\u{671f}"), None), REGION_UNKNOWN);
    assert_eq!(parse_region(None, None, None), REGION_UNKNOWN);
    assert_eq!(parse_region(Some("XXX"), Some(" fr\t"), Some("us")), "FR");
    assert_eq!(parse_region(Some(""), Some("f1"), Some("us")), "US");
}

#[test]
fn visitor_keys_use_the_first_forwarded_entry() {
    assert_eq!(
        visitor_key(Some("203.0.113.7, 70.41.3.18"), "10.0.0.1", "curl"),
        "203.0.113.7\0curl"
    );
    assert_eq!(visitor_key(None, "10.0.0.1", "curl"), "10.0.0.1\0curl");
    assert_eq!(visitor_key(Some(" , 1.2.3.4"), "10.0.0.1", ""), "10.0.0.1\0");
    assert_eq!(visitor_key(Some(""), "p", "u"), "p\0u");
    assert_eq!(visitor_key(Some(" 1.2.3.4 "), "p", "u"), "1.2.3.4\0u");
}

#[test]
fn contention_is_reported() {
    let mut tracker = global_tracker();
    assert!(observe_visitor(Some(&mut tracker), "k", "DE"));
    assert!(!observe_visitor(None, "k", "DE"));
    let mut out = vec![("kept".to_string(), 9)];
    assert_eq!(snapshot_visitors(None, &mut out), 0);
    assert_eq!(out.len(), 1);
    assert_eq!(snapshot_visitors(Some(&tracker), &mut out), 1);
    assert_eq!(out, vec![("kept".to_string(), 9), ("DE".to_string(), 1)]);
}

#[test]
fn totals_and_unique_estimates_exported_per_region() {
    let opts = prometheus::HistogramOpts::new("default", "default").buckets(vec![5.0]);
    let mut reg = PromRegistry::new(opts).unwrap();
    let mut tracker = global_tracker();
    let mut visit = |reg: &mut PromRegistry, key: &str, region: &str| {
        let entry =
            MetricEntry::new(VISITORS_TOTAL, 1.0, MetricType::Counter, visit_labels(region));
        record(reg, &entry);
        observe_visitor(Some(&mut tracker), key, region)
    };

    assert_eq!(parse_region(Some("qx"), None, None), "QX");
    for i in 0..50 {
        assert!(visit(&mut reg, &format!("qx-visitor-{i}"), "QX"));
        assert!(visit(&mut reg, &format!("qz-visitor-{i}"), "QZ"));
    }
    // Duplicates must not inflate uniques.
    for _ in 0..10 {
        assert!(visit(&mut reg, "qx-visitor-0", "QX"));
    }
    // Invalid region normalizes to unknown.
    assert!(visit(&mut reg, "anon-0", "!!!"));

    let mut exported = Vec::new();
    let regions = snapshot_visitors(Some(&tracker), &mut exported);
    assert!(regions >= 3, "expected QX, QZ, unknown; got {regions}");
    for (region, estimate) in &exported {
        let entry = MetricEntry::new(
            UNIQUE_VISITORS_ESTIMATE,
            *estimate as f64,
            MetricType::Gauge,
            visit_labels(region),
        );
        record(&mut reg, &entry);
    }

    let text = reg.gather_text().expect("gather");
    assert!(text.contains("visitors_total"), "missing totals:\n{text}");
    assert!(
        text.contains("unique_visitors_estimate"),
        "missing estimates:\n{text}"
    );
    assert!(text.contains(r#"region="QX""#), "missing QX:\n{text}");
    assert!(text.contains(r#"region="QZ""#), "missing QZ:\n{text}");
    assert!(
        text.contains(&format!(r#"region="{REGION_UNKNOWN}""#)),
        "missing unknown:\n{text}"
    );
    assert!(text.contains(r#"visitors_total{region="QX"} 60"#), "{text}");
}
