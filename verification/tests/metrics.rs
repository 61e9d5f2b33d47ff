//! Metrics.
use hematite::audit::{Action, AuditRecord};
use hematite::metrics::{escape_label, DialResult, DnsOutcome, Metrics};
use hematite::resolve::DnsDecisionKind;
use hematite::strmap::StrMap;
use hematite::summary::Mode;
use hematite::verdict::{Annotation, Swap, Trace, TraceVerdict};

const BOUNDS: [f64; 12] = [0.005, 0.01, 0.025, 0.05, 0.1, 0.25, 0.5, 1.0, 2.5, 5.0, 10.0, 30.0];

/// The band that a duration falls into.
fn band(duration_ms: f64) -> usize {
    BOUNDS.iter().position(|b| duration_ms / 1000.0 <= *b).unwrap_or(BOUNDS.len())
}

fn record(mode: Mode, action: Action, rejected_by: Option<&str>) -> AuditRecord {
    let mut r = AuditRecord::bare("httpbin.org", "GET", "/", None, None, mode, action);
    r.rejected_by = rejected_by.map(String::from);
    r
}

fn render(m: &Metrics) -> String {
    m.render(&StrMap::new())
}

#[test]
fn requests_counter_and_histogram() {
    let mut m = Metrics::new("1.2.3");
    m.observe_record(&record(Mode::Https, Action::Allow, None), band(42.0));
    m.observe_record(&record(Mode::Https, Action::Reject, Some("allowlist")), band(1.0));
    let out = render(&m);
    assert!(out.contains(r#"hematite_requests_total{mode="https",action="allow",rejected_by=""} 1"#));
    assert!(out.contains(
        r#"hematite_requests_total{mode="https",action="reject",rejected_by="allowlist"} 1"#
    ));
    // 42 ms = 0.042 s falls in the le="0.05" band; cumulative invariant:
    // every bucket at or above 0.05 must equal 1, and +Inf == count == 1.
    assert!(out.contains(
        r#"hematite_request_duration_seconds_bucket{mode="https",action="allow",le="0.05"} 1"#
    ));
    assert!(out.contains(
        r#"hematite_request_duration_seconds_bucket{mode="https",action="allow",le="0.1"} 1"#
    ));
    assert!(out.contains(
        r#"hematite_request_duration_seconds_bucket{mode="https",action="allow",le="30"} 1"#
    ));
    assert!(out.contains(
        r#"hematite_request_duration_seconds_bucket{mode="https",action="allow",le="+Inf"} 1"#
    ));
    assert!(out.contains(r#"hematite_request_duration_seconds_count{mode="https",action="allow"} 1"#));
    assert!(out.contains("hematite_request_duration_seconds_sum"));
    assert!(out.contains(r#"hematite_build_info{version="1.2.3"} 1"#));
    assert!(out.contains("# TYPE hematite_requests_total counter"));
}

#[test]
fn no_host_in_exposition() {
    let mut m = Metrics::new("0");
    m.observe_record(&record(Mode::Http, Action::Allow, None), band(5.0));
    assert!(!render(&m).contains("httpbin"));
}

#[test]
fn point_counters_render() {
    let mut m = Metrics::new("0");
    m.inc_dial(DialResult::GuardDenied);
    m.inc_dns(DnsOutcome::Passthrough);
    m.inc_tls_cache(true);
    m.inc_reload(false);
    let out = render(&m);
    assert!(out.contains(r#"hematite_upstream_dials_total{result="guard-denied"} 1"#));
    assert!(out.contains(r#"hematite_dns_queries_total{outcome="passthrough"} 1"#));
    assert!(out.contains(r#"hematite_tls_leaf_cache_events_total{event="hit"} 1"#));
    assert!(out.contains(r#"hematite_config_reloads_total{result="error"} 1"#));
}

#[test]
fn label_values_escaped() {
    let mut m = Metrics::new("0");
    m.observe_record(&record(Mode::Http, Action::Reject, Some("a\"b\\c")), band(1.0));
    assert!(render(&m).contains(r#"rejected_by="a\"b\\c""#));
    assert_eq!(escape_label("a\nb"), "a\\nb");
}

#[test]
fn sums_are_written_as_they_are_given() {
    let mut m = Metrics::new("0");
    m.observe_record(&record(Mode::Tunnel, Action::Allow, None), 12);
    let mut sums = StrMap::new();
    sums.insert(r#"mode="tunnel",action="allow""#.to_string(), "31.5".to_string());
    let out = m.render(&sums);
    assert!(out.contains(
        "hematite_request_duration_seconds_sum{mode=\"tunnel\",action=\"allow\"} 31.5\n"
    ));
    assert!(out.contains(
        r#"hematite_request_duration_seconds_bucket{mode="tunnel",action="allow",le="30"} 0"#
    ), "above the last band");
    assert!(out.contains(
        r#"hematite_request_duration_seconds_bucket{mode="tunnel",action="allow",le="+Inf"} 1"#
    ));
}

#[test]
fn swaps_are_counted() {
    let mut notes = StrMap::new();
    notes.insert(
        "swapped".to_string(),
        Annotation::Swaps(vec![
            Swap { secret: "A".into(), locations: vec!["query".into()] },
            Swap { secret: "B".into(), locations: vec!["body".into()] },
        ]),
    );
    notes.insert("secret_unavailable".to_string(), Annotation::Texts(vec!["C".into()]));
    let mut r = record(Mode::Http, Action::Reject, Some("secrets"));
    r.request_transforms = vec![Trace {
        name: "secrets".into(),
        verdict: TraceVerdict::Reject,
        error: None,
        annotations: notes,
    }];
    let mut m = Metrics::new("0");
    m.observe_record(&r, 0);
    let out = render(&m);
    assert!(out.contains(r#"hematite_secrets_swaps_total{result="swapped"} 2"#));
    assert!(out.contains(r#"hematite_secrets_swaps_total{result="source-error"} 1"#));
    assert!(out.contains(r#"hematite_secrets_swaps_total{result="missing-required"} 1"#));
}

#[test]
fn decisions_have_their_labels() {
    assert_eq!(DnsOutcome::of(DnsDecisionKind::Static).as_str(), "static");
    assert_eq!(DnsOutcome::of(DnsDecisionKind::Error).as_str(), "error");
    assert_eq!(DialResult::Dialed.as_str(), "ok");
    assert_eq!(DialResult::Reused.as_str(), "reused");
}

#[test]
fn a_bucket_counts_the_bands_up_to_its_bound() {
    let mut m = Metrics::new("0");
    for ms in [1.0, 42.0, 42.0, 60_000.0] {
        m.observe_record(&record(Mode::Http, Action::Allow, None), band(ms));
    }
    m.observe_record(&record(Mode::Http, Action::Error, None), band(1.0));
    let out = render(&m);
    for (bound, n) in [("0.005", 1), ("0.025", 1), ("0.05", 3), ("30", 3), ("+Inf", 4)] {
        assert!(out.contains(&format!(
            "hematite_request_duration_seconds_bucket{{mode=\"http\",action=\"allow\",le=\"{bound}\"}} {n}\n"
        )));
    }
    assert!(out.contains(
        "hematite_request_duration_seconds_count{mode=\"http\",action=\"allow\"} 4\n"
    ));
}

#[test]
fn a_request_raises_its_own_counters_only() {
    let mut m = Metrics::new("0");
    m.inc_dial(DialResult::Dialed);
    m.observe_record(&record(Mode::Http, Action::Allow, None), 0);
    let before = render(&m);
    m.observe_record(&record(Mode::Https, Action::Reject, Some("guard")), 0);
    let after = render(&m);
    for line in before.lines() {
        assert!(after.lines().any(|l| l == line), "{line}");
    }
    assert!(after.contains(
        "hematite_requests_total{mode=\"https\",action=\"reject\",rejected_by=\"guard\"} 1\n"
    ));
}
