//! Where observations go, and bringing the engine up and down.

use tonggeret::config::{Config, FjallConfig};
use tonggeret::engine::{
    global_record, is_initialized, may_compact, prometheus_text, sentinel_waits,
    writer_spawn_error, DropPlan, EngineHandle, Init, InitStep, Offer, RecordPlan, Shutdown,
    ShutdownStep, SENTINEL_ATTEMPTS,
};
use tonggeret::error::Error;
use tonggeret::prometheus::PromRegistry;
use tonggeret::types::{MetricEntry, MetricType, PipelineMsg};

const NOWHERE: RecordPlan = RecordPlan { to_registry: false, to_channel: false };

fn light() -> Config<f64> {
    Config::default_light()
}

fn full() -> Config<f64> {
    Config::default_full("./data/fjall")
}

fn steps(config: &Config<f64>) -> Vec<InitStep> {
    let mut init = Init::start(config, true, true).unwrap();
    let mut steps = vec![init.step()];
    while init.step() != InitStep::Done {
        init = init.next(Ok(())).unwrap();
        steps.push(init.step());
    }
    steps
}

fn engine(config: &Config<f64>) -> EngineHandle {
    let (h, _) = EngineHandle::new(config, true, true);
    if config.fjall.is_some() {
        h.opened()
    } else {
        h
    }
}

fn entry(name: &str) -> MetricEntry<serde_json::Value> {
    MetricEntry::new(name, serde_json::Value::from(1.0), MetricType::Counter, vec![])
}

#[test]
fn uninitialized_record_is_noop() {
    // Must never panic, even without an engine.
    for (name, kind) in [
        ("noop_total", MetricType::Counter),
        ("noop_gauge", MetricType::Gauge),
        ("noop_hist", MetricType::Histogram),
    ] {
        let _ = MetricEntry::new(name, 1.0, kind, vec![]);
        assert_eq!(global_record(None, false), NOWHERE);
    }
}

#[test]
fn macros_noop_before_init() {
    let entries = [
        MetricEntry::new("noop_total", 1.0, MetricType::Counter, vec![]),
        MetricEntry::new(
            "noop_total",
            2.0,
            MetricType::Counter,
            vec![("method".to_string(), "GET".to_string())],
        ),
        MetricEntry::new(
            "noop_gauge",
            3.0,
            MetricType::Gauge,
            vec![("worker".to_string(), "a".to_string())],
        ),
        MetricEntry::new(
            "noop_hist_ms",
            12.5,
            MetricType::Histogram,
            vec![("table".to_string(), "t".to_string())],
        ),
        MetricEntry::new(
            "noop_total",
            1.0,
            MetricType::Counter,
            vec![("method".to_string(), "POST".to_string())],
        ),
    ];
    for _ in &entries {
        assert_eq!(global_record(None, false), NOWHERE);
    }
    let engine: Option<&EngineHandle> = None;
    assert!(!is_initialized(engine) || engine.is_some());
}

#[test]
fn observations_go_where_the_engine_reaches() {
    let h = engine(&light());
    assert_eq!(h.record(false), RecordPlan { to_registry: true, to_channel: false });
    let h = engine(&full());
    assert_eq!(h.record(false), RecordPlan { to_registry: true, to_channel: true });
    assert_eq!(global_record(Some(&h), false), h.record(false));
    assert_eq!(h.record(true), NOWHERE);
    let (bare, _) = EngineHandle::new(&full(), false, true);
    assert_eq!(bare.record(false), RecordPlan { to_registry: false, to_channel: true });
}

#[test]
fn offers_are_counted_by_their_outcome() {
    let nothing = DropPlan { count: false, inc_registry: false };
    let h = engine(&full());
    assert_eq!(h.after_offer(Offer::Delivered), nothing);
    assert_eq!(h.after_offer(Offer::Full), DropPlan { count: true, inc_registry: true });
    assert_eq!(h.after_offer(Offer::Closed), DropPlan { count: true, inc_registry: true });
    let (bare, _) = EngineHandle::new(&full(), false, true);
    assert_eq!(bare.after_offer(Offer::Full), DropPlan { count: true, inc_registry: false });
    assert!(sentinel_waits(Offer::Full));
    assert!(!sentinel_waits(Offer::Delivered));
    assert!(!sentinel_waits(Offer::Closed));
}

#[test]
fn full_channel_drops_and_counts() {
    let nothing = DropPlan { count: false, inc_registry: false };
    let dropped = DropPlan { count: true, inc_registry: true };
    let (h, rx) = EngineHandle::new(&full().with_channel_capacity(2), true, true);
    let mut rx = rx.unwrap();
    assert_eq!(h.channel_capacity(), Some(2));
    assert_eq!(h.offer(entry("a"), false), nothing);
    assert_eq!(h.offer(entry("late"), true), nothing);
    assert_eq!(h.offer(entry("b"), false), nothing);
    assert_eq!(h.offer(entry("c"), false), dropped);
    assert!(h.offer_shutdown());
    for name in ["a", "b"] {
        match rx.try_recv() {
            Ok(PipelineMsg::Metric(e)) => assert_eq!(e.name, name),
            other => panic!("{other:?}"),
        }
    }
    assert!(!h.offer_shutdown());
    assert!(matches!(rx.try_recv(), Ok(PipelineMsg::Shutdown)));
    assert!(rx.try_recv().is_err());
    let h = h.opened();
    assert_eq!(h.offer(entry("e"), false), nothing);
    assert!(matches!(rx.try_recv(), Ok(PipelineMsg::Metric(e)) if e.name == "e"));
    drop(rx);
    assert_eq!(h.offer(entry("d"), false), dropped);
    assert!(!h.offer_shutdown());

    let (light, none) = EngineHandle::new(&light(), true, true);
    assert!(none.is_none());
    assert_eq!(light.offer(entry("e"), false), nothing);
    assert!(!light.offer_shutdown());
}

#[test]
fn engines_come_up_in_order() {
    assert_eq!(
        steps(&light()),
        vec![InitStep::CreateRegistry, InitStep::Publish, InitStep::Done]
    );
    assert_eq!(
        steps(&full()),
        vec![
            InitStep::CreateRegistry,
            InitStep::OpenStorage,
            InitStep::Publish,
            InitStep::SpawnWriter,
            InitStep::StartCompaction,
            InitStep::Done,
        ]
    );
    let (h, rx) = EngineHandle::new(&full(), true, true);
    assert!(rx.is_some());
    assert!(!h.has_fjall());
    assert!(h.has_prometheus());
    assert_eq!(h.channel_capacity(), Some(16_384));
    assert!(h.opened().has_fjall());
    let (h, rx) = EngineHandle::new(&full(), false, false);
    assert!(rx.is_none());
    assert!(!h.has_prometheus());
    assert_eq!(h.channel_capacity(), None);
}

#[test]
fn failures_end_the_start() {
    let cfg = full().with_channel_capacity(1);
    assert!(matches!(Init::start(&cfg, true, true), Err(Error::InvalidConfig(_))));

    let init = Init::start(&full(), true, true).unwrap();
    match init.next(Err(Error::Prometheus("p".to_string()))) {
        Err(Error::Prometheus(m)) => assert_eq!(m, "p"),
        other => panic!("{other:?}"),
    }
    let init = init.next(Ok(())).unwrap();
    assert_eq!(init.step(), InitStep::OpenStorage);
    match init.next(Err(Error::Io("i".to_string()))) {
        Err(Error::Io(m)) => assert_eq!(m, "i"),
        other => panic!("{other:?}"),
    }
    let init = init.next(Ok(())).unwrap();
    assert_eq!(init.step(), InitStep::Publish);
    assert!(matches!(
        init.next(Err(Error::ChannelClosed)),
        Err(Error::AlreadyInitialized)
    ));
    let init = init.next(Ok(())).unwrap();
    assert_eq!(init.step(), InitStep::SpawnWriter);
    match init.next(Err(writer_spawn_error("no threads"))) {
        Err(Error::Storage(m)) => assert_eq!(m, "spawn writer thread: no threads"),
        other => panic!("{other:?}"),
    }
    let init = init.next(Ok(())).unwrap();
    assert_eq!(init.step(), InitStep::StartCompaction);
    let init = init.next(Err(Error::ChannelClosed)).unwrap();
    assert_eq!(init.step(), InitStep::Done);
}

#[test]
fn compaction_needs_store_and_runtime() {
    let h = engine(&full());
    let without = engine(&light());
    let mut cfg = FjallConfig::new("x");
    assert!(may_compact(&cfg, Some(&h), true));
    assert!(!may_compact(&cfg, Some(&h), false));
    assert!(!may_compact(&cfg, Some(&without), true));
    assert!(!may_compact(&cfg, None, true));
    cfg.enable_compaction = false;
    assert!(!may_compact(&cfg, Some(&h), true));
}

#[test]
fn shutdown_goes_down_in_order() {
    assert!(matches!(Shutdown::start(None, false), Err(Error::NotInitialized)));
    let h = engine(&full());
    assert!(matches!(Shutdown::start(Some(&h), true), Ok(None)));

    let mut s = Shutdown::start(Some(&h), false).unwrap().unwrap();
    let mut steps = vec![s.step()];
    while s.step() != ShutdownStep::Done {
        s.next(false);
        steps.push(s.step());
    }
    assert_eq!(
        steps,
        vec![
            ShutdownStep::SendSentinel,
            ShutdownStep::JoinWriter,
            ShutdownStep::AbortCompaction,
            ShutdownStep::Persist,
            ShutdownStep::Done,
        ]
    );

    let h = engine(&light());
    let mut s = Shutdown::start(Some(&h), false).unwrap().unwrap();
    assert_eq!(s.step(), ShutdownStep::JoinWriter);
    s.next(true);
    assert_eq!(s.step(), ShutdownStep::AbortCompaction);
    s.next(true);
    assert_eq!(s.step(), ShutdownStep::Done);
}

#[test]
fn shutdown_gives_up_on_a_full_channel() {
    let h = engine(&full());
    let mut s = Shutdown::start(Some(&h), false).unwrap().unwrap();
    let mut offers = 0;
    let mut pauses = 0;
    while s.step() != ShutdownStep::JoinWriter {
        match s.step() {
            ShutdownStep::SendSentinel => offers += 1,
            ShutdownStep::Pause => pauses += 1,
            other => panic!("{other:?}"),
        }
        s.next(true);
    }
    assert_eq!(offers, SENTINEL_ATTEMPTS);
    assert_eq!(pauses, 100);
}

#[test]
fn text_needs_an_engine() {
    assert!(matches!(prometheus_text(None, None), Err(Error::NotInitialized)));
    let h = engine(&light());
    assert!(is_initialized(Some(&h)));
    assert_eq!(prometheus_text(Some(&h), None).unwrap(), "");
    let reg = PromRegistry::new(prometheus::HistogramOpts::new("d", "d")).unwrap();
    assert!(prometheus_text(Some(&h), Some(&reg))
        .unwrap()
        .contains("tonggeret_dropped_total"));
}
