//! The pipeline and its transforms.
use hematite::audit::{conformance_record, level_for, Action, Level, PendingAudit};
use hematite::config::{
    build_pipeline, AllowlistConfig, AnnotateConfig, AnnotateGroupSpec, BodyCaptureConfig,
    BuiltPipeline, HeaderAllowlistConfig, RuleSpec, TransformConfig, TransformSpec,
};
use hematite::pipeline::{
    replace_response, Ctx, Outcome, ResponseAction, TransformError,
};
use hematite::pipeline::settle;
use hematite::secret::{NoResolver, Secret, SecretResolver, SourceKind, SourceRef};
use hematite::summary::{Body, Headers, Mode, RequestSummary};
use hematite::verdict::{Annotation, Response, TraceVerdict, Verdict};

fn summary(host: &str, method: &str, path: &str, headers: Vec<(&str, &str)>) -> RequestSummary {
    RequestSummary {
        mode: Mode::Https,
        method: method.into(),
        host: host.into(),
        port: 443,
        path: path.into(),
        query: String::new(),
        headers: Headers::new(
            headers.into_iter().map(|(n, v)| (n.to_string(), v.to_string())).collect(),
        ),
        body: Body::new(Vec::new(), false),
        sni: Some(host.into()),
        remote_addr: None,
    }
}

fn strings(v: &[&str]) -> Vec<String> {
    v.iter().map(|s| s.to_string()).collect()
}

fn allowlist(domains: &[&str], warn: bool) -> TransformSpec {
    TransformSpec {
        name: "allowlist".into(),
        config: TransformConfig::Allowlist(AllowlistConfig {
            domains: strings(domains),
            cidrs: Vec::new(),
            warn,
        }),
    }
}

fn header_allowlist(headers: &[&str]) -> TransformSpec {
    TransformSpec {
        name: "header_allowlist".into(),
        config: TransformConfig::HeaderAllowlist(HeaderAllowlistConfig {
            headers: strings(headers),
            rules: None,
        }),
    }
}

fn rule(host: &str) -> RuleSpec {
    RuleSpec { host: host.into(), methods: None, paths: None }
}

fn pipeline(specs: Vec<TransformSpec>) -> BuiltPipeline<NoResolver> {
    build_pipeline(&specs).unwrap()
}

#[test]
fn secret_debug_is_value_free() {
    let s = Secret::new(b"sk-live-hunter2".to_vec());
    let debug = s.to_text();
    assert_eq!(debug, "Secret(<redacted>)");
    assert!(!debug.contains("hunter2"));
}

#[test]
fn allowlist_warn_mode_annotates_and_continues() {
    let built = pipeline(vec![allowlist(&["allowed.example"], true)]);
    let mut req = summary("blocked.example", "GET", "/", vec![]);
    let outcome = built.pipeline.evaluate_request(&mut req);
    assert!(matches!(outcome.outcome, Outcome::Continue(_)));
    let trace = &outcome.request_traces[0];
    assert!(matches!(trace.annotations.get("warn"), Some(Annotation::Flag(true))));
}

#[test]
fn header_allowlist_strips_and_annotates_sorted() {
    let built = pipeline(vec![
        allowlist(&["api.example.com"], false),
        header_allowlist(&["Accept", "/^x-keep-.*$/"]),
    ]);
    let mut req = summary(
        "api.example.com",
        "GET",
        "/",
        vec![("X-Zed", "1"), ("Accept", "*/*"), ("x-keep-this", "2"), ("X-Alpha", "3")],
    );
    let outcome = built.pipeline.evaluate_request(&mut req);
    assert!(matches!(outcome.outcome, Outcome::Continue(_)));
    let trace = &outcome.request_traces[1];
    match trace.annotations.get("stripped_headers") {
        Some(Annotation::Texts(names)) => assert_eq!(
            *names,
            strings(&["X-Alpha", "X-Zed"]),
            "removed names are canonical and sorted"
        ),
        _ => panic!("expected names"),
    }
    assert_eq!(req.headers.len(), 2);
}

#[test]
fn body_capture_attaches_group_and_truncates() {
    let built = pipeline(vec![
        allowlist(&["api.example.com"], false),
        TransformSpec {
            name: "body_capture".into(),
            config: TransformConfig::BodyCapture(BodyCaptureConfig {
                max_request_body_bytes: 4,
                rules: vec![rule("api.example.com")],
            }),
        },
    ]);
    let mut req = summary("api.example.com", "POST", "/v1", vec![]);
    req.body = Body::new(b"123456".to_vec(), false);
    let outcome = built.pipeline.evaluate_request(&mut req);
    let capture = outcome.body_capture.as_ref().expect("capture group present");
    assert_eq!(capture.request_body, "1234");
    assert!(capture.request_body_truncated);
    let trace = &outcome.request_traces[1];
    assert!(matches!(trace.annotations.get("captured_bytes"), Some(Annotation::Count(4))));
    assert!(matches!(trace.annotations.get("truncated"), Some(Annotation::Flag(true))));
}

#[test]
fn over_cap_body_is_read_only() {
    let mut body = Body::new(b"prefix".to_vec(), true);
    assert!(body.replace(b"rewritten".to_vec()).is_err());
    assert_eq!(body.read(), b"prefix");
}

#[test]
fn config_without_allowlist_fails_validation() {
    assert!(build_pipeline(&vec![header_allowlist(&["Accept"])]).is_err());
}

#[test]
fn allowlist_not_first_warns() {
    let built =
        pipeline(vec![header_allowlist(&["Accept"]), allowlist(&["api.example.com"], false)]);
    assert_eq!(built.warnings.len(), 1);
}

#[test]
fn unknown_transform_fails_validation() {
    let specs = vec![
        allowlist(&["a.example"], false),
        TransformSpec {
            name: "judge".into(),
            config: TransformConfig::Unreadable("no such transform".into()),
        },
    ];
    let error = build_pipeline(&specs).err().unwrap();
    assert_eq!(
        error.to_text(),
        "config error: unknown transform \"judge\": the v1 registry is closed"
    );
}

#[test]
fn transform_error_maps_to_error_action_and_502() {
    let built = pipeline(vec![allowlist(&["allowed.example"], false)]);
    let mut req = summary("blocked.example", "GET", "/x", vec![]);
    let outcome = built.pipeline.evaluate_request(&mut req);
    let record = conformance_record(&req, &outcome);
    assert_eq!(record.action, Action::Reject);
    assert_eq!(record.status_code, Some(403));
    assert_eq!(record.rejected_by.as_deref(), Some("allowlist"));
}

#[test]
fn a_failed_transform_stops_with_an_error() {
    let (trace, stop, _) =
        settle("secrets", Err(TransformError("broken".into())), Ctx::new());
    assert_eq!(trace.verdict, TraceVerdict::Error);
    assert_eq!(trace.error.as_deref(), Some("broken"));
    let mut pipeline_outcome = match stop {
        Some(Outcome::Error { by, message }) => {
            assert_eq!((by.as_str(), message.as_str()), ("secrets", "broken"));
            hematite::pipeline::PipelineOutcome {
                outcome: Outcome::Error { by, message },
                request_traces: vec![trace],
                body_capture: None,
                request_path: "/".into(),
            }
        }
        _ => panic!("expected an error"),
    };
    let record = conformance_record(&summary("a", "GET", "/", vec![]), &pipeline_outcome);
    assert_eq!(record.action, Action::Error);
    assert_eq!(record.status_code, Some(502));
    assert_eq!(record.error.as_deref(), Some("broken"));
    pipeline_outcome.request_path = String::new();
}

#[test]
fn a_stop_on_the_response_path_replaces_the_answer() {
    match replace_response(Outcome::Reject { by: "x".into(), response: None }) {
        ResponseAction::Replace { by, response, stub } => {
            assert_eq!(by, "x");
            assert_eq!((response.status, response.body.len(), stub), (403, 0, false));
        }
        _ => panic!("expected a replacement"),
    }
    let stub = Response { status: 204, headers: vec![], body: vec![1] };
    match replace_response(Outcome::Stub { by: "y".into(), response: stub }) {
        ResponseAction::Replace { response, stub, .. } => {
            assert_eq!((response.status, stub), (204, true))
        }
        _ => panic!("expected a replacement"),
    }
    assert!(matches!(
        replace_response(Outcome::Error { by: "z".into(), message: "m".into() }),
        ResponseAction::Error { .. }
    ));
}

#[test]
fn annotate_copies_the_named_headers() {
    let built = pipeline(vec![
        allowlist(&["a.example"], false),
        TransformSpec {
            name: "annotate".into(),
            config: TransformConfig::Annotate(AnnotateConfig {
                annotations: vec![AnnotateGroupSpec {
                    rules: vec![rule("a.example")],
                    headers: strings(&["x-request-id", "x-missing"]),
                }],
            }),
        },
    ]);
    assert_eq!(built.pipeline.transform_names(), vec!["allowlist", "annotate"]);
    let mut req = summary("a.example", "GET", "/", vec![("X-Request-Id", "42")]);
    let outcome = built.pipeline.evaluate_request(&mut req);
    let notes = &outcome.request_traces[1].annotations;
    match notes.get("header:X-Request-Id") {
        Some(Annotation::Text(v)) => assert_eq!(v, "42"),
        _ => panic!("expected the value"),
    }
    assert_eq!(notes.len(), 1);
    assert_eq!(req.host, "a.example");
    assert_eq!(built.pipeline.evaluate_response(&req).traces.len(), 2);
}

#[test]
fn errors_of_the_configuration() {
    let error = |specs: Vec<TransformSpec>| build_pipeline(&specs).err().unwrap().0;
    assert_eq!(error(vec![]), "no allowlist transform: default-deny is structural");
    assert_eq!(
        error(vec![allowlist(&[], false)]),
        "allowlist: at least one of domains/cidrs must be non-empty"
    );
    assert_eq!(
        error(vec![allowlist(&["a.example"], false), header_allowlist(&[])]),
        "header_allowlist: headers must be non-empty"
    );
    assert_eq!(
        error(vec![
            allowlist(&["a.example"], false),
            TransformSpec {
                name: "annotate".into(),
                config: TransformConfig::Unreadable("missing field".into()),
            }
        ]),
        "transform \"annotate\": missing field"
    );
    assert_eq!(
        error(vec![allowlist(&["a.*.example"], false)]),
        "invalid matcher: `*` is only valid as the leading label: \"a.*.example\""
    );
    assert_eq!(
        error(vec![
            allowlist(&["a.example"], false),
            TransformSpec {
                name: "body_capture".into(),
                config: TransformConfig::BodyCapture(BodyCaptureConfig {
                    max_request_body_bytes: 1,
                    rules: vec![],
                }),
            }
        ]),
        "empty rule list"
    );
}

#[test]
fn every_request_leaves_one_record() {
    assert_eq!(level_for(Action::Allow), Level::Info);
    assert_eq!(level_for(Action::Reject), Level::Warn);
    assert_eq!(level_for(Action::Error), Level::Error);
    let mut pending = PendingAudit::new(Some("1.2.3.4:5".into()));
    let lost = pending.finish().expect("a record for a request that was lost");
    assert_eq!(lost.action, Action::Error);
    assert_eq!(lost.remote_addr.as_deref(), Some("1.2.3.4:5"));
    let mut pending = PendingAudit::new(None);
    assert_eq!(pending.emit(&lost), Level::Error);
    assert!(pending.finish().is_none(), "the record was already written");
}

#[test]
fn headers_keep_order_and_casing() {
    let mut headers = Headers::new(vec![
        ("Accept".into(), "a".into()),
        ("X-One".into(), "1".into()),
        ("accept".into(), "b".into()),
    ]);
    assert_eq!(headers.first("ACCEPT"), Some("a"));
    assert_eq!(headers.iter(), vec![("Accept", "a"), ("X-One", "1"), ("accept", "b")]);
    headers.map_values(|name: &str, value: &str| {
        if name == "X-One" { Some(format!("{value}!")) } else { None }
    });
    assert_eq!(headers.first("x-one"), Some("1!"));
    let removed = headers.retain(|name: &str| !name.eq_ignore_ascii_case("accept"));
    assert_eq!(removed, strings(&["Accept", "Accept"]), "canonical names");
    assert_eq!(headers.len(), 1);
    assert!(!headers.is_empty());
}

#[test]
fn a_verdict_becomes_a_trace() {
    let response = Response { status: 418, headers: vec![], body: vec![] };
    let (trace, stop, _) = settle("t", Ok(Verdict::Reject(Some(response))), Ctx::new());
    assert_eq!(trace.verdict, TraceVerdict::Reject);
    match stop {
        Some(Outcome::Reject { by, response: Some(r) }) => {
            assert_eq!((by.as_str(), r.status), ("t", 418))
        }
        _ => panic!("expected a rejection"),
    }
    let (trace, stop, _) = settle("t", Ok(Verdict::Continue), Ctx::new());
    assert_eq!(trace.verdict, TraceVerdict::Continue);
    assert!(stop.is_none());
}

fn watching_pipeline() -> BuiltPipeline<NoResolver> {
    pipeline(vec![
        allowlist(&["other.example"], true),
        TransformSpec {
            name: "annotate".into(),
            config: TransformConfig::Annotate(AnnotateConfig {
                annotations: vec![AnnotateGroupSpec {
                    rules: vec![rule("api.example.com")],
                    headers: strings(&["X-Id"]),
                }],
            }),
        },
        TransformSpec {
            name: "body_capture".into(),
            config: TransformConfig::BodyCapture(BodyCaptureConfig {
                max_request_body_bytes: 2,
                rules: vec![rule("api.example.com")],
            }),
        },
    ])
}

#[test]
fn what_only_watches_changes_nothing() {
    let built = watching_pipeline();
    let mut req = summary("api.example.com", "POST", "/a", vec![("X-Id", "7"), ("x-b", "c")]);
    req.body = Body::new(b"body".to_vec(), false);
    let outcome = built.pipeline.evaluate_request(&mut req);
    assert!(matches!(outcome.outcome, Outcome::Continue(_)));
    assert_eq!(outcome.request_traces.len(), 3);
    assert_eq!(req.headers.iter(), vec![("X-Id", "7"), ("x-b", "c")]);
    assert_eq!((req.path.as_str(), req.body.read()), ("/a", &b"body"[..]));
}

#[test]
fn the_same_request_gets_the_same_decision() {
    let built = watching_pipeline();
    let run = || {
        let mut req = summary("api.example.com", "GET", "/a", vec![("X-Id", "7")]);
        let outcome = built.pipeline.evaluate_request(&mut req);
        let record = conformance_record(&req, &outcome);
        let names: Vec<String> =
            outcome.request_traces.iter().map(|t| t.name.clone()).collect();
        (format!("{:?}", req), record.action, names)
    };
    assert_eq!(run(), run());
}

#[test]
fn without_a_resolver_nothing_is_resolved() {
    let source = SourceRef {
        kind: SourceKind::Env { var: "TOKEN".into() },
        json_key: None,
        ttl: None,
        failure_ttl: None,
    };
    let e = NoResolver.resolve(&source).err().unwrap();
    assert_eq!(e.to_text(), "secret source \"TOKEN\" failed to resolve: no resolver");
}
