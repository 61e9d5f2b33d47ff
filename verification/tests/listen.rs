//! Listeners that terminate TLS or open tunnels.
use hematite::audit::{Action, GuardDenial};
use hematite::config::{build_pipeline, AllowlistConfig, TransformConfig, TransformSpec};
use hematite::dial::DialError;
use hematite::listen::{
    check_splice, decide_tunnel, look_inside, mint_target, settle_tunnel, splice_failed,
    synthetic_connect_summary, tls_context, tunnel_context, welcome_bytes, Asked, ConnectReader,
    InnerStep, Socks5, Socks5Step, SpliceStep, TunnelStep,
};
use hematite::matcher::DomainGlob;
use hematite::pipeline::{Outcome, Pipeline, PipelineOutcome};
use hematite::secret::NoResolver;
use hematite::summary::Mode;
use hematite::tunnel::ConnectTarget;

const REMOTE: &str = "9.9.9.9:1234";

fn pipeline(domain: &str) -> Pipeline<NoResolver> {
    let specs = vec![TransformSpec {
        name: "allowlist".into(),
        config: TransformConfig::Allowlist(AllowlistConfig {
            domains: vec![domain.into()],
            cidrs: vec![],
            warn: false,
        }),
    }];
    build_pipeline(&specs).unwrap().pipeline
}

fn target(host: &str) -> ConnectTarget {
    ConnectTarget { host: host.into(), port: 443 }
}

#[test]
fn a_leaf_is_made_for_the_right_name() {
    assert_eq!(mint_target(&None, &Some("a.test".into()), REMOTE).ok().unwrap(), "a.test");
    let record = mint_target(&None, &None, REMOTE).err().expect("no name to mint for");
    assert_eq!(record.action, Action::Reject);
    assert_eq!(record.rejected_by.as_deref(), Some("listener"));
    assert_eq!((record.mode, record.status_code), (Mode::Https, Some(0)));
    let forced = Some(target("a.test"));
    assert_eq!(mint_target(&forced, &Some("A.test".into()), REMOTE).ok().unwrap(), "a.test");
    assert_eq!(mint_target(&forced, &None, REMOTE).ok().unwrap(), "a.test");
    let record = mint_target(&forced, &Some("evil.test".into()), REMOTE).err().unwrap();
    assert_eq!((record.host.as_str(), record.mode), ("a.test", Mode::Tunnel));
}

#[test]
fn connections_carry_what_the_listener_knows() {
    let ctx = tls_context(REMOTE.into(), Some("a.test".into()), None);
    assert_eq!((ctx.mode, ctx.scheme_https), (Mode::Https, true));
    assert!(ctx.forced_upstream.is_none());
    let ctx = tls_context(REMOTE.into(), None, Some((target("a.test"), vec![])));
    assert_eq!(ctx.mode, Mode::Tunnel);
    assert_eq!(ctx.tunnel_target.as_deref(), Some("a.test:443"));
    let ctx = tunnel_context(REMOTE.into(), target("a.test"), vec![]);
    assert_eq!((ctx.mode, ctx.scheme_https), (Mode::Tunnel, false));
    assert_eq!(ctx.forced_upstream, Some(target("a.test")));
}

fn read_head(head: &[u8]) -> Option<Option<ConnectTarget>> {
    let mut reader = ConnectReader::new();
    for b in head {
        if !reader.wants_more() {
            return None;
        }
        if let Some(t) = reader.push(*b) {
            return Some(t);
        }
    }
    None
}

#[test]
fn a_connect_head_is_read_to_its_end() {
    let head = b"CONNECT a.test:8443 HTTP/1.1\r\nHost: a.test\r\n\r\nrest";
    let t = read_head(head).expect("complete").expect("a target");
    assert_eq!((t.host.as_str(), t.port), ("a.test", 8443));
    assert_eq!(read_head(b"GET / HTTP/1.1\r\n\r\n"), Some(None));
    assert_eq!(read_head(b"CONNECT a.test HTTP/1.1\r\n"), None);
    assert_eq!(read_head(&[b'x'; 20_000]), None, "too long");
}

fn negotiate(bytes: &[u8]) -> (Vec<u8>, Option<ConnectTarget>) {
    let mut socks = Socks5::start();
    let mut written = Vec::new();
    let mut at = 0;
    loop {
        let n = socks.wanted();
        let piece = bytes[at..at + n].to_vec();
        at += n;
        match socks.on_read(piece) {
            Socks5Step::Read { reply, wanted } => {
                written.extend_from_slice(&reply);
                assert_eq!(wanted, socks.wanted());
            }
            Socks5Step::Close { reply } => {
                written.extend_from_slice(&reply);
                return (written, None);
            }
            Socks5Step::Done(t) => return (written, Some(t)),
        }
    }
}

#[test]
fn a_socks5_negotiation_ends_in_a_target_or_a_reply() {
    let v4 = [5, 1, 0, 5, 1, 0, 1, 127, 0, 0, 1, 0x1f, 0x90];
    let (written, t) = negotiate(&v4);
    assert_eq!(written, vec![5, 0], "no-auth selected");
    assert_eq!(t, Some(ConnectTarget { host: "127.0.0.1".into(), port: 8080 }));
    let mut name = vec![5, 2, 2, 0, 5, 1, 0, 3, 6];
    name.extend_from_slice(b"a.test\x01\xbb");
    assert_eq!(negotiate(&name).1, Some(target("a.test")));
    let mut v6 = vec![5, 1, 0, 5, 1, 0, 4];
    v6.extend_from_slice(&[0; 15]);
    v6.extend_from_slice(&[1, 0, 80]);
    assert_eq!(negotiate(&v6).1, Some(ConnectTarget { host: "::1".into(), port: 80 }));
    assert_eq!(negotiate(&[4, 1]), (vec![], None), "another version");
    assert_eq!(negotiate(&[5, 1, 2]), (vec![5, 0xff], None), "no method in common");
    let (written, t) = negotiate(&[5, 1, 0, 5, 1, 0, 9]);
    assert_eq!((&written[2..4], t), (&[5u8, 8][..], None), "unknown address type");
    let (written, t) = negotiate(&[5, 1, 0, 5, 2, 0, 1, 1, 2, 3, 4, 0, 80]);
    assert_eq!((&written[2..4], t), (&[5u8, 7][..], None), "only CONNECT");
}

#[test]
fn a_tunnel_faces_the_allowlist() {
    let none: Vec<DomainGlob> = vec![];
    match decide_tunnel(&pipeline("allowed.test"), &target("denied.test"), REMOTE, Asked::Connect, &none) {
        TunnelStep::Refuse { record, reply } => {
            assert!(reply.starts_with(b"HTTP/1.1 403"));
            assert_eq!(record.action, Action::Reject);
            assert_eq!(record.rejected_by.as_deref(), Some("allowlist"));
            assert_eq!((record.method.as_str(), record.mode), ("CONNECT", Mode::Tunnel));
            assert_eq!(record.host, "denied.test");
        }
        _ => panic!("expected a refusal"),
    }
    match decide_tunnel(&pipeline("allowed.test"), &target("denied.test"), REMOTE, Asked::Socks5, &none) {
        TunnelStep::Refuse { reply, .. } => assert_eq!(reply[..2], [5, 2]),
        _ => panic!("expected a refusal"),
    }
    assert!(matches!(
        decide_tunnel(&pipeline("a.test"), &target("a.test"), REMOTE, Asked::Connect, &none),
        TunnelStep::Open { .. }
    ));
    let spliced = vec![DomainGlob::parse("a.test").unwrap()];
    assert!(matches!(
        decide_tunnel(&pipeline("a.test"), &target("a.test"), REMOTE, Asked::Connect, &spliced),
        TunnelStep::Splice { .. }
    ));
    let failed = PipelineOutcome {
        outcome: Outcome::Error { by: "x".into(), message: "m".into() },
        request_traces: vec![],
        body_capture: None,
        request_path: String::new(),
    };
    match settle_tunnel(failed, &target("a.test"), REMOTE, Asked::Connect, &spliced) {
        TunnelStep::Refuse { record, .. } => {
            assert_eq!(record.rejected_by.as_deref(), Some("listener"))
        }
        _ => panic!("expected a refusal"),
    }
    assert!(welcome_bytes(Asked::Connect).starts_with(b"HTTP/1.1 200"));
    assert_eq!(welcome_bytes(Asked::Socks5), vec![5, 0, 0, 1, 0, 0, 0, 0, 0, 0]);
    let s = synthetic_connect_summary(&target("a.test"), REMOTE);
    assert_eq!((s.method.as_str(), s.path.as_str(), s.port), ("CONNECT", "", 443));
}

#[test]
fn an_open_tunnel_is_looked_into() {
    let look = |b: Option<u8>| look_inside(b, REMOTE, &target("a.test"), &vec![]);
    match look(None) {
        InnerStep::Quiet(record) => {
            assert_eq!((record.action, record.status_code), (Action::Allow, Some(200)))
        }
        _ => panic!("expected the handshake's record"),
    }
    assert!(matches!(look(Some(0x16)), InnerStep::Terminate));
    assert!(matches!(look(Some(b'G')), InnerStep::Serve));
    assert!(matches!(look(Some(0)), InnerStep::Close));
}

fn client_hello(name: &str) -> Vec<u8> {
    let n = name.as_bytes();
    let mut sni = ((n.len() + 3) as u16).to_be_bytes().to_vec();
    sni.push(0);
    sni.extend_from_slice(&(n.len() as u16).to_be_bytes());
    sni.extend_from_slice(n);
    let mut ext = vec![0, 0];
    ext.extend_from_slice(&(sni.len() as u16).to_be_bytes());
    ext.extend_from_slice(&sni);
    let mut body = vec![3, 3];
    body.extend_from_slice(&[0; 32]);
    body.extend_from_slice(&[0, 0, 2, 0x13, 1, 1, 0]);
    body.extend_from_slice(&(ext.len() as u16).to_be_bytes());
    body.extend_from_slice(&ext);
    let mut hs = vec![1];
    hs.extend_from_slice(&(body.len() as u32).to_be_bytes()[1..]);
    hs.extend_from_slice(&body);
    let mut rec = vec![0x16, 3, 1];
    rec.extend_from_slice(&(hs.len() as u16).to_be_bytes());
    rec.extend_from_slice(&hs);
    rec
}

#[test]
fn a_spliced_tunnel_carries_the_name_of_its_target() {
    let check = |b: &[u8], ended: bool| check_splice(b, ended, REMOTE, &target("localhost"), &vec![]);
    match check(&client_hello("LocalHost"), false) {
        SpliceStep::Splice(record) => {
            assert_eq!(record.action, Action::Allow);
            assert_eq!(record.method, "CONNECT");
            assert_eq!(record.sni.as_deref(), Some("localhost"));
            assert!(record.tunnel.as_ref().unwrap().passthrough);
        }
        _ => panic!("expected to splice"),
    }
    match check(&client_hello("evil.test"), false) {
        SpliceStep::Refuse(record) => {
            assert_eq!(record.action, Action::Reject);
            assert_eq!(record.rejected_by.as_deref(), Some("listener"));
            assert_eq!(record.sni.as_deref(), Some("evil.test"));
        }
        _ => panic!("expected a refusal"),
    }
    assert!(matches!(check(&[0x16, 3], false), SpliceStep::ReadMore));
    assert!(matches!(check(&[0x16, 3], true), SpliceStep::Splice(_)), "no name to check");
    assert!(matches!(check(b"SSH-2.0-x\r\n", false), SpliceStep::Splice(_)));
}

#[test]
fn a_spliced_tunnel_faces_the_guard() {
    let denial = GuardDenial { denied_addr: "127.0.0.1".into(), prefix: "127.0.0.0/8".into() };
    let (record, reply) = splice_failed(
        REMOTE,
        &target("localhost"),
        &vec![],
        DialError::Denied(denial),
        Asked::Connect,
    );
    assert!(reply.starts_with(b"HTTP/1.1 502"));
    assert_eq!(record.action, Action::Reject);
    assert_eq!(record.rejected_by.as_deref(), Some("guard"));
    assert!(record.guard.is_some());
    assert!(record.tunnel.as_ref().unwrap().passthrough);
    let (record, reply) = splice_failed(
        REMOTE,
        &target("localhost"),
        &vec![],
        DialError::Failed("refused".into()),
        Asked::Socks5,
    );
    assert_eq!((record.action, record.error.as_deref()), (Action::Error, Some("refused")));
    assert_eq!(reply[..2], [5, 1]);
}
