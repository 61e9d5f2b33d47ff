//! The handling of requests, from the head to the answer.
use hematite::audit::{Action, GuardDenial};
use hematite::config::{build_pipeline, AllowlistConfig, TransformConfig, TransformSpec};
use hematite::dial::{Dial, DialAction, DialError, DialEvent};
use hematite::hop::strip_hop_by_hop;
use hematite::http::{
    answer, cancelled, dial_failed, dial_target, judge, open_request, outbound, relay, summarize,
    upstream_failed, Answer, BodyBuffer, ConnCtx, Reply, UpstreamFailure,
};
use hematite::ip::IpAddr;
use hematite::metrics::DialResult;
use hematite::pipeline::{AllowProof, Outcome, Pipeline, ResponseAction, ResponseOutcome};
use hematite::pool::{acquire, Acquired, Pool, PoolKey};
use hematite::secret::NoResolver;
use hematite::state::Guard;
use hematite::summary::Mode;
use hematite::target::{extract_target, is_websocket, split_host_port, Head, TargetError};
use hematite::tunnel::ConnectTarget;
use hematite::verdict::Response;

fn pipeline(cidr: &str) -> Pipeline<NoResolver> {
    let specs = vec![TransformSpec {
        name: "allowlist".into(),
        config: TransformConfig::Allowlist(AllowlistConfig {
            domains: vec!["localhost".into()],
            cidrs: vec![cidr.into()],
            warn: false,
        }),
    }];
    build_pipeline(&specs).unwrap().pipeline
}

fn head(authority: Option<(&str, Option<u16>)>, path: &str, headers: &[(&str, &str)]) -> Head {
    Head {
        method: "GET".into(),
        authority: authority.map(|(h, p)| (h.to_string(), p)),
        path: path.into(),
        query: String::new(),
        headers: headers
            .iter()
            .map(|(n, v)| (n.to_string(), v.as_bytes().to_vec()))
            .collect(),
    }
}

fn plain() -> ConnCtx {
    ConnCtx::plain("9.9.9.9:1234".into())
}

fn status(reply: &Reply) -> u16 {
    match reply {
        Reply::Status(s) => *s,
        Reply::Response(r) => r.status,
    }
}

fn proof_for(host: &str) -> AllowProof {
    let ctx = plain();
    let h = head(Some((host, None)), "/", &[]);
    let target = open_request(&h, &ctx).ok().unwrap();
    let mut summary = summarize(&h, &ctx, target, &BodyBuffer::new(10));
    match pipeline("127.0.0.1/32").evaluate_request(&mut summary).outcome {
        Outcome::Continue(proof) => proof,
        _ => panic!("expected to pass"),
    }
}

#[test]
fn hosts_and_ports_are_split() {
    assert_eq!(split_host_port(" Example.COM:8080 "), ("example.com".into(), Some(8080)));
    assert_eq!(split_host_port("[2001:DB8::1]:443"), ("2001:db8::1".into(), Some(443)));
    assert_eq!(split_host_port("[::1]"), ("::1".into(), None));
    assert_eq!(split_host_port("2001:db8::1"), ("2001:db8::1".into(), None));
    assert_eq!(split_host_port("host:port"), ("host".into(), None));
    assert_eq!(split_host_port("[::1"), ("[::1".into(), None));
}

#[test]
fn the_target_must_be_named_and_agree() {
    let t = extract_target(&head(None, "/get", &[("host", "A.test:81")]), 80).unwrap();
    assert_eq!((t.host.as_str(), t.port, t.path.as_str()), ("a.test", 81, "/get"));
    let t = extract_target(&head(Some(("A.test", None)), "/", &[("host", "a.test:9")]), 443).unwrap();
    assert_eq!((t.host.as_str(), t.port), ("a.test", 443));
    let TargetError::Bad { reason, host } =
        extract_target(&head(Some(("a.test", None)), "/", &[("host", "evil.example")]), 80)
            .unwrap_err();
    assert_eq!(reason, "request-target authority disagrees with Host header");
    assert_eq!(host, "a.test");
    let TargetError::Bad { reason, host } = extract_target(&head(None, "/", &[]), 80).unwrap_err();
    assert_eq!((reason, host.as_str()), ("missing or empty Host / authority", ""));
    let TargetError::Bad { reason, host } =
        extract_target(&head(Some(("", Some(80))), "/", &[("host", ":80")]), 80).unwrap_err();
    assert_eq!((reason, host.as_str()), ("missing or empty Host / authority", ""));
    let mut h = head(None, "/", &[]);
    h.headers = vec![("host".into(), vec![b'a', 0xff])];
    assert!(extract_target(&h, 80).is_err(), "a value that cannot be shown names nothing");
}

#[test]
fn the_listener_refuses_climbing_paths() {
    for path in ["/a/../b", "/%2e%2e/etc", "/a/./b"] {
        let end = open_request(&head(Some(("127.0.0.1", Some(1))), path, &[]), &plain())
            .err()
            .expect("refused");
        assert_eq!(status(&end.reply), 400);
        assert_eq!(end.record.action, Action::Reject);
        assert_eq!(end.record.rejected_by.as_deref(), Some("listener"));
        assert_eq!(end.record.status_code, Some(400));
        assert_eq!(end.record.path, path);
    }
}

#[test]
fn the_server_name_must_be_the_host() {
    let mut ctx = plain();
    ctx.mode = Mode::Https;
    ctx.scheme_https = true;
    ctx.sni = Some("a.test".into());
    let t = open_request(&head(None, "/", &[("host", "A.test:8443")]), &ctx).ok().unwrap();
    assert_eq!((t.host.as_str(), t.port), ("a.test", 8443));
    let end = open_request(&head(None, "/", &[("host", "b.test")]), &ctx).err().unwrap();
    assert_eq!(end.record.host, "b.test");
    assert_eq!(end.record.sni.as_deref(), Some("a.test"));
    ctx.forced_upstream = Some(ConnectTarget { host: "c.test".into(), port: 7 });
    let t = open_request(&head(None, "/", &[("host", "b.test")]), &ctx).ok().unwrap();
    assert_eq!((t.host.as_str(), t.port), ("c.test", 7), "a tunnel fixes the target");
}

#[test]
fn a_rejected_request_ends_with_its_record() {
    let ctx = plain();
    let h = head(Some(("127.0.0.1", Some(1))), "/x", &[("host", "127.0.0.1:1")]);
    let target = open_request(&h, &ctx).ok().unwrap();
    let mut summary = summarize(&h, &ctx, target, &BodyBuffer::new(10));
    let end = judge(&pipeline("10.9.9.9/32"), &mut summary, &ctx).err().unwrap();
    assert_eq!(status(&end.reply), 403);
    assert_eq!(end.record.action, Action::Reject);
    assert_eq!(end.record.rejected_by.as_deref(), Some("allowlist"));
    assert_eq!(end.record.status_code, Some(403));
    assert!(end.record.response_transforms.is_empty());
    assert_eq!(end.record.remote_addr.as_deref(), Some("9.9.9.9:1234"));
}

#[test]
fn an_allowed_request_goes_upstream_and_back() {
    let ctx = plain();
    let mut h = head(
        Some(("127.0.0.1", Some(81))),
        "/get",
        &[
            ("host", "127.0.0.1:81"),
            ("accept", "*/*"),
            ("connection", "close, X-Doomed"),
            ("x-doomed", "1"),
            ("content-length", "99"),
        ],
    );
    h.query = "a=b".into();
    let p = pipeline("127.0.0.1/32");
    let target = open_request(&h, &ctx).ok().unwrap();
    let mut buffer = BodyBuffer::new(10);
    assert!(buffer.wants_more());
    buffer.push(b"hello");
    let mut summary = summarize(&h, &ctx, target, &buffer);
    let (_proof, record) = judge(&p, &mut summary, &ctx).ok().expect("allowed");
    let dial = dial_target(&ctx, &summary);
    assert_eq!((dial.host.as_str(), dial.port), ("127.0.0.1", 81));
    let out = outbound(&summary, buffer, false);
    assert_eq!(out.path_and_query, "/get?a=b");
    assert_eq!(out.body, b"hello");
    assert!(!out.chained);
    let names: Vec<&str> = out.headers.iter().map(|(n, _)| n.as_str()).collect();
    assert_eq!(names, vec!["host", "accept"]);
    let reply_headers = vec![
        ("content-type".to_string(), b"text/plain".to_vec()),
        ("keep-alive".to_string(), b"timeout=5".to_vec()),
    ];
    match answer(&p, &summary, record, false, 200, &reply_headers) {
        Answer::Forward { record, status, headers } => {
            assert_eq!(status, 200);
            assert_eq!(record.action, Action::Allow);
            assert_eq!(record.status_code, Some(200));
            assert_eq!(record.request_transforms.len(), 1);
            assert_eq!(record.response_transforms.len(), 1, "response path traced");
            assert_eq!(headers, vec![("content-type".to_string(), "text/plain".to_string())]);
        }
        _ => panic!("expected to forward"),
    }
}

#[test]
fn a_body_over_the_cap_goes_as_it_came() {
    let ctx = plain();
    let h = head(Some(("127.0.0.1", None)), "/", &[("content-length", "12")]);
    let target = open_request(&h, &ctx).ok().unwrap();
    let mut buffer = BodyBuffer::new(4);
    buffer.push(b"1234");
    assert!(buffer.wants_more(), "exactly the cap is not over it");
    buffer.push(b"5678");
    assert!(!buffer.wants_more());
    let summary = summarize(&h, &ctx, target, &buffer);
    assert_eq!(summary.body.read(), b"1234");
    assert!(summary.body.over_cap());
    let out = outbound(&summary, buffer, false);
    assert_eq!(out.body, b"12345678");
    assert!(out.chained);
    assert_eq!(out.headers.len(), 1, "the length still holds");
}

#[test]
fn ends_on_the_way_upstream() {
    let ctx = plain();
    let h = head(Some(("127.0.0.1", None)), "/", &[]);
    let record = || {
        let target = open_request(&h, &ctx).ok().unwrap();
        let mut summary = summarize(&h, &ctx, target, &BodyBuffer::new(4));
        judge(&pipeline("127.0.0.1/32"), &mut summary, &ctx).ok().unwrap().1
    };
    let denial = GuardDenial { denied_addr: "127.0.0.1".into(), prefix: "127.0.0.0/8".into() };
    let end = dial_failed(record(), DialError::Denied(denial));
    assert_eq!(end.record.action, Action::Reject, "a denial is no error");
    assert_eq!(end.record.rejected_by.as_deref(), Some("guard"));
    assert_eq!(end.record.status_code, Some(502));
    assert_eq!(end.record.guard.as_ref().unwrap().prefix, "127.0.0.0/8");
    let end = dial_failed(record(), DialError::Failed("refused".into()));
    assert_eq!(end.record.action, Action::Error);
    assert_eq!(end.record.error.as_deref(), Some("refused"));
    assert_eq!(status(&end.reply), 502);
    let text = |f: UpstreamFailure| upstream_failed(record(), f).record.error.unwrap();
    assert_eq!(text(UpstreamFailure::Build("e".into())), "building upstream request: e");
    assert_eq!(text(UpstreamFailure::Handshake("e".into())), "upstream handshake: e");
    assert_eq!(text(UpstreamFailure::Request("e".into())), "upstream request: e");
    assert_eq!(text(UpstreamFailure::HeaderTimeout), "upstream response header timeout");
    let target = open_request(&h, &ctx).ok().unwrap();
    let end = cancelled(&ctx, &target, "GET");
    assert_eq!(end.record.action, Action::ClientCancel);
    assert_eq!(end.record.status_code, None);
}

#[test]
fn the_response_path_can_replace_the_answer() {
    let record = || {
        cancelled(
            &plain(),
            &open_request(&head(Some(("a", None)), "/", &[]), &plain()).ok().unwrap(),
            "GET",
        )
        .record
    };
    let replaced = |stub: bool| {
        let response = Response { status: 451, headers: vec![], body: vec![] };
        let action = ResponseAction::Replace { by: "t".into(), response, stub };
        match relay(record(), ResponseOutcome { traces: vec![], action }, 200, &vec![]) {
            Answer::Finished(f) => f,
            _ => panic!("expected an end"),
        }
    };
    let end = replaced(false);
    assert_eq!((end.record.action, end.record.rejected_by.as_deref()), (Action::Reject, Some("t")));
    assert_eq!(status(&end.reply), 451);
    let end = replaced(true);
    assert_eq!((end.record.action, end.record.stubbed_by.as_deref()), (Action::Stub, Some("t")));
    let action = ResponseAction::Error { by: "t".into(), message: "m".into() };
    match relay(record(), ResponseOutcome { traces: vec![], action }, 200, &vec![]) {
        Answer::Finished(f) => assert_eq!((status(&f.reply), f.record.error.as_deref()), (502, Some("m"))),
        _ => panic!("expected an end"),
    }
}

#[test]
fn websockets_keep_their_handshake() {
    let h = head(
        Some(("127.0.0.1", None)),
        "/ws",
        &[("upgrade", "WebSocket"), ("connection", "keep-alive, Upgrade")],
    );
    assert!(is_websocket(&h));
    assert!(!is_websocket(&head(None, "/", &[("upgrade", "websocket")])));
    let ctx = plain();
    let p = pipeline("127.0.0.1/32");
    let target = open_request(&h, &ctx).ok().unwrap();
    let buffer = BodyBuffer::new(1);
    let mut summary = summarize(&h, &ctx, target, &buffer);
    let (_proof, record) = judge(&p, &mut summary, &ctx).ok().unwrap();
    assert_eq!(outbound(&summary, buffer, true).headers.len(), 2);
    let headers = vec![("upgrade".to_string(), b"websocket".to_vec())];
    match answer(&p, &summary, record, true, 101, &headers) {
        Answer::Switch { record, headers } => {
            assert_eq!(record.status_code, Some(101));
            assert_eq!(headers.len(), 1);
            assert!(record.response_transforms.is_empty());
        }
        _ => panic!("expected to switch"),
    }
}

#[test]
fn hop_headers_are_stripped_once_and_for_all() {
    let mut headers: Vec<(String, String)> = [
        ("Connection", "close, X-Named"),
        ("X-Named", "1"),
        ("TE", "gzip, trailers"),
        ("Transfer-Encoding", "chunked"),
        ("Accept", "*/*"),
    ]
    .iter()
    .map(|(n, v)| (n.to_string(), v.to_string()))
    .collect();
    strip_hop_by_hop(&mut headers, false);
    let expected: Vec<(String, String)> =
        vec![("TE".into(), "trailers".into()), ("Accept".into(), "*/*".into())];
    assert_eq!(headers, expected);
    strip_hop_by_hop(&mut headers, false);
    assert_eq!(headers, expected);
}

#[test]
fn a_name_is_looked_up_and_its_addresses_tried() {
    let guard = Guard::new(&vec!["10.0.0.0/8".into()]).unwrap();
    let (dial, action, _) = Dial::start(proof_for("localhost"), "localhost", 80, false, &guard);
    assert!(matches!(action, DialAction::Lookup));
    let addrs = vec![IpAddr::parse("1.1.1.1").unwrap(), IpAddr::parse("::1").unwrap()];
    let (dial, action, _) = dial.on_event(DialEvent::LookedUp(addrs), &guard);
    assert!(matches!(action, DialAction::Connect(IpAddr::V4(0x0101_0101))));
    let (dial, action, _) = dial.on_event(DialEvent::ConnectFailed("refused".into()), &guard);
    assert!(matches!(action, DialAction::Connect(IpAddr::V6(1))));
    let (_, action, count) = dial.on_event(DialEvent::ConnectTimedOut, &guard);
    match action {
        DialAction::Stop(DialError::Failed(m)) => assert_eq!(m, "connect [::1]:80: dial timeout"),
        _ => panic!("expected to stop"),
    }
    assert_eq!(count, Some(DialResult::ConnectError));
}

#[test]
fn the_guard_decides_on_the_dialled_address() {
    let guard = Guard::new(&vec!["127.0.0.0/8".into()]).unwrap();
    let (_, action, count) = Dial::start(proof_for("127.0.0.1"), "127.0.0.1", 9, false, &guard);
    match action {
        DialAction::Stop(DialError::Denied(d)) => assert_eq!(d.prefix, "127.0.0.0/8"),
        _ => panic!("expected a denial"),
    }
    assert_eq!(count, Some(DialResult::GuardDenied));
}

#[test]
fn tls_follows_the_connection_where_asked() {
    let guard = Guard::new(&vec![]).unwrap();
    let (dial, _, _) = Dial::start(proof_for("127.0.0.1"), "127.0.0.1", 443, true, &guard);
    let (dial, action, _) = dial.on_event(DialEvent::Connected, &guard);
    assert!(matches!(action, DialAction::Secure));
    let (_, action, count) = dial.on_event(DialEvent::Secured, &guard);
    assert!(matches!(action, DialAction::Done(IpAddr::V4(0x7f00_0001))));
    assert_eq!(count, Some(DialResult::Dialed));
}

#[test]
fn idle_connections_are_used_first_and_only_where_the_guard_agrees() {
    let mut pool = Pool::new();
    let peer = IpAddr::parse("127.0.0.1").unwrap();
    pool.checkin(PoolKey::new("localhost", 80, false), 7, peer, 0, &vec![]);
    let open = Guard::new(&vec![]).unwrap();
    let (got, count) =
        acquire(&mut pool, proof_for("localhost"), "LOCALHOST", 80, false, 1, &open);
    assert!(matches!(got, Acquired::Idle { handle: 7, .. }));
    assert_eq!(count, Some(DialResult::Reused));
    let (got, count) = acquire(&mut pool, proof_for("localhost"), "localhost", 80, false, 1, &open);
    assert!(matches!(got, Acquired::Dial { .. }), "it is gone from the pool");
    assert_eq!(count, None);
    pool.checkin(PoolKey::new("localhost", 80, false), 8, peer, 0, &vec![]);
    let shut = Guard::new(&vec!["127.0.0.0/8".into()]).unwrap();
    let (got, _) = acquire(&mut pool, proof_for("localhost"), "localhost", 80, false, 1, &shut);
    assert!(matches!(got, Acquired::Dial { .. }), "the pool is no way around the guard");
}

#[test]
fn a_websocket_handshake_is_stripped_once_and_for_all() {
    let mut headers: Vec<(String, String)> = [
        ("Connection", "Upgrade, X-Named"),
        ("Upgrade", "websocket"),
        ("X-Named", "1"),
        ("Keep-Alive", "1"),
        ("Accept", "*/*"),
    ]
    .iter()
    .map(|(n, v)| (n.to_string(), v.to_string()))
    .collect();
    strip_hop_by_hop(&mut headers, true);
    let names: Vec<&str> = headers.iter().map(|(n, _)| n.as_str()).collect();
    assert_eq!(names, vec!["Connection", "Upgrade", "Accept"]);
    let once = headers.clone();
    strip_hop_by_hop(&mut headers, true);
    assert_eq!(headers, once);
}
