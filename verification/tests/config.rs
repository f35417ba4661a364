//! Configuration defaults, validation and directories.

use tonggeret::config::{Config, FjallConfig, PrometheusConfig, TimeSpan};
use tonggeret::error::Error;

fn rejected(r: Result<(), Error>) -> String {
    match r {
        Err(Error::InvalidConfig(m)) => m,
        other => panic!("{other:?}"),
    }
}

#[test]
fn default_memory_budget_stays_under_10mb() {
    let budget = FjallConfig::default().memory_budget_bytes();
    assert!(
        budget <= 10 * 1024 * 1024,
        "budget {budget} exceeds 10 MiB target"
    );
}

#[test]
fn memory_budget_saturates() {
    let mut cfg = FjallConfig::new("x");
    cfg.cache_size_bytes = u64::MAX;
    assert_eq!(cfg.memory_budget_bytes(), u64::MAX);
    cfg.cache_size_bytes = 5;
    cfg.memtable_bytes = 7;
    assert_eq!(cfg.memory_budget_bytes(), 12);
    assert_eq!(cfg.write_buffer_bytes(), 14);
}

#[test]
fn defaults_are_as_documented() {
    let cfg = FjallConfig::new("/var/lib/m");
    assert_eq!(cfg.dir, "/var/lib/m");
    assert_eq!(cfg.cache_size_bytes, 8 * 1024 * 1024);
    assert_eq!(cfg.memtable_bytes, 2 * 1024 * 1024);
    assert!(cfg.cold_storage_dir.is_none());
    assert!(cfg.enable_compaction);
    assert_eq!(cfg.compaction_interval.as_secs(), 3600);
    assert_eq!(cfg.retention.as_secs(), 24 * 3600);
    assert_eq!(cfg.retention.subsec_nanos(), 0);
    assert_eq!(cfg.batch_rows, 1_000);

    let light: Config<f64> = Config::default_light();
    assert_eq!(light.channel_capacity, 16_384);
    assert!(light.fjall.is_none());
    assert_eq!(
        light.prometheus.default_histogram_buckets,
        vec![5.0, 10.0, 25.0, 50.0, 100.0, 250.0, 500.0, 1_000.0, 2_500.0]
    );
    let default: Config<f64> = Config::default();
    assert_eq!(default.channel_capacity, 16_384);
    let full: Config<f64> = Config::default_full("./data/fjall");
    assert_eq!(full.fjall.unwrap().dir, "./data/fjall");
}

#[test]
fn default_configurations_pass_validation() {
    let light: Config<f64> = Config::default_light();
    assert!(light.validate(true).is_ok());
    assert!(light.validate(false).is_ok());
    let full: Config<f64> = Config::default_full("./data/fjall");
    assert!(full.validate(true).is_ok());
    assert_eq!(
        rejected(full.validate(false)),
        "fjall config supplied but `fjall-backend` feature is not enabled"
    );
}

#[test]
fn each_bad_setting_is_named() {
    let small: Config<f64> = Config::default_light().with_channel_capacity(15);
    assert_eq!(rejected(small.validate(true)), "channel_capacity must be >= 16");
    let least: Config<f64> = Config::default_light().with_channel_capacity(16);
    assert!(least.validate(true).is_ok());

    let mut bare: Config<f64> = Config::default_light();
    bare.prometheus = PrometheusConfig { default_histogram_buckets: vec![] };
    assert_eq!(
        rejected(bare.validate(true)),
        "prometheus.default_histogram_buckets must not be empty"
    );

    let mut f = FjallConfig::new("x");
    f.cache_size_bytes = 1024 * 1024 - 1;
    assert_eq!(rejected(f.validate()), "fjall.cache_size_bytes must be >= 1 MiB");
    f.cache_size_bytes = 1024 * 1024;
    f.memtable_bytes = 256 * 1024 - 1;
    assert_eq!(rejected(f.validate()), "fjall.memtable_bytes must be >= 256 KiB");
    f.memtable_bytes = 256 * 1024;
    f.batch_rows = 0;
    let cfg: Config<f64> = Config::default_light().with_fjall(f.clone());
    assert_eq!(rejected(cfg.validate(true)), "fjall.batch_rows must be > 0");
    f.batch_rows = 1;
    assert!(f.validate().is_ok());
}

#[test]
fn cold_files_go_to_the_parent() {
    for dir in [
        "./data/fjall", "data", "/", "/a", "//a", "/.", "/./a", ".", "./", "./.", "./a", "./a/",
        "..", "../a", "a/..", "a/.", "a//b", "a/./b", "a/b/", "a/b/.", "a/b//./", "", "a/.b",
        "a.b", "/a/b.", "././a", ".a/b", "..//b", "a/ b", "/..", "x/\u{e9}\u{e8}/y",
    ] {
        let expected = std::path::Path::new(dir)
            .parent()
            .map_or_else(|| ".".to_string(), |p| p.to_str().unwrap().to_string());
        assert_eq!(FjallConfig::new(dir).cold_dir(), expected, "parent of {dir:?}");
    }
    let mut cfg = FjallConfig::new("./data/fjall");
    assert_eq!(cfg.cold_dir(), "./data");
    assert_eq!(cfg.cold_dir_from(Some("up".to_string())), "up");
    assert_eq!(cfg.cold_dir_from(None), ".");
    cfg.cold_storage_dir = Some("cold".to_string());
    assert_eq!(cfg.cold_dir(), "cold");
    assert_eq!(cfg.cold_dir_from(Some("up".to_string())), "cold");
}

#[test]
fn spans_keep_their_parts() {
    let s = TimeSpan::new(7, 999_999_999);
    assert_eq!((s.as_secs(), s.subsec_nanos()), (7, 999_999_999));
}
