//! Labels of requests and answers of endpoints.

use tonggeret::config::Config;
use tonggeret::engine::{prometheus_text, EngineHandle};
use tonggeret::error::Error;
use tonggeret::middleware::{
    answer_scrape, duration_labels, no_export_reply, recorded_path, request_labels, scrape_reply,
    truncate_path, HTTP_REQUESTS_TOTAL, HTTP_REQUEST_DURATION_MS,
};
use tonggeret::prometheus::PromRegistry;

fn pair(k: &str, v: &str) -> (String, String) {
    (k.to_string(), v.to_string())
}

#[test]
fn requests_are_labelled() {
    assert_eq!(HTTP_REQUESTS_TOTAL, "http_requests_total");
    assert_eq!(HTTP_REQUEST_DURATION_MS, "http_request_duration_ms");
    assert_eq!(
        request_labels("GET", "/users/{id}", 404),
        vec![pair("method", "GET"), pair("path", "/users/{id}"), pair("status", "404")]
    );
    assert_eq!(
        duration_labels("GET", "/"),
        vec![pair("method", "GET"), pair("path", "/")]
    );
    for status in [0_u16, 9, 10, 99, 100, 200, 599, 65_535] {
        assert_eq!(request_labels("", "", status)[2].1, status.to_string());
    }
}

#[test]
fn raw_paths_are_truncated() {
    assert_eq!(truncate_path(&"a".repeat(200)), "a".repeat(128));
    assert_eq!(truncate_path(&"\u{e9}".repeat(200)), "\u{e9}".repeat(128));
    assert_eq!(truncate_path("/short"), "/short");
    assert_eq!(recorded_path(Some("/users/:id"), "/users/7"), "/users/:id");
    assert_eq!(recorded_path(None, "/users/7"), "/users/7");
    let long = "x".repeat(300);
    assert_eq!(recorded_path(Some(&long), ""), long);
}

#[test]
fn scrapes_are_answered() {
    let ok = scrape_reply(Ok("text".to_string()));
    assert_eq!(ok.status, 200);
    assert_eq!(ok.content_type, Some("text/plain; version=0.0.4; charset=utf-8"));
    assert_eq!(ok.body, "text");
    let failed = scrape_reply(Err(Error::Prometheus("bad".to_string())));
    assert_eq!(failed.status, 503);
    assert_eq!(failed.content_type, None);
    assert_eq!(failed.body, "metrics unavailable: prometheus error: bad");
}

#[test]
fn scrapes_before_init_are_unavailable() {
    let r = answer_scrape(None, None);
    assert_eq!(r.status, 503);
    assert_eq!(
        r.body,
        "metrics unavailable: tonggeret not initialized; call tonggeret::init() first"
    );
    let cfg: Config<f64> = Config::default_light();
    let (h, _) = EngineHandle::new(&cfg, false, false);
    let r = answer_scrape(Some(&h), None);
    assert_eq!((r.status, r.body.as_str()), (200, ""));
}

#[test]
fn scrapes_hold_the_registry() {
    let reg = PromRegistry::new(prometheus::HistogramOpts::new("default", "default")).unwrap();
    let cfg: Config<f64> = Config::default_light();
    let (h, _) = EngineHandle::new(&cfg, true, false);
    let text = reg.gather_text().unwrap();
    assert!(text.contains("tonggeret_dropped_total 0"), "{text}");
    assert_eq!(prometheus_text(Some(&h), Some(&reg)).unwrap(), text);
    let r = answer_scrape(Some(&h), Some(&reg));
    assert_eq!((r.status, r.body.as_str()), (200, text.as_str()));
    assert_eq!(r.content_type, Some("text/plain; version=0.0.4; charset=utf-8"));
    assert_eq!(answer_scrape(None, Some(&reg)).status, 503);
}

#[test]
fn missing_export_is_not_found() {
    let r = no_export_reply();
    assert_eq!(r.status, 404);
    assert_eq!(
        r.body,
        "no parquet export available yet (compaction has not exported any keys)"
    );
}
