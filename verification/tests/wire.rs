//! DNS messages and what is answered to them.
use hematite::matcher::DomainGlob;
use hematite::resolve::{
    normalize, parse_record, relay, resolve, respond, Decision, DnsConfig, DnsDecisionKind, DnsStep,
    StaticRecord,
};
use hematite::strmap::StrMap;
use hematite::wire::{
    build_empty_noerror, build_response, build_servfail, encode_name, frame, parse_query, Answer,
    Query, CLASS_IN, RCODE_NOERROR, RCODE_SERVFAIL, TYPE_A, TYPE_AAAA,
};

fn query_packet(id: u16, name: &str, qtype: u16) -> Vec<u8> {
    let mut msg = vec![(id >> 8) as u8, id as u8, 0x01, 0x00, 0, 1, 0, 0, 0, 0, 0, 0];
    msg.extend_from_slice(&encode_name(name));
    msg.extend_from_slice(&qtype.to_be_bytes());
    msg.extend_from_slice(&CLASS_IN.to_be_bytes());
    msg
}

#[test]
fn roundtrip_question() {
    let packet = query_packet(0x1234, "API.Example.com", TYPE_A);
    let q = parse_query(&packet).unwrap();
    assert_eq!(q.id, 0x1234);
    assert_eq!(q.name, "api.example.com");
    assert_eq!(q.qtype, TYPE_A);
    assert!(q.rd);
}

#[test]
fn a_response_shape() {
    let q = parse_query(&query_packet(1, "x.test", TYPE_A)).unwrap();
    let resp = build_response(&q, &vec![Answer::A { ip: 0x0a00_0005, ttl: 60 }], true);
    assert_eq!(resp[2] & 0x80, 0x80, "QR");
    assert_eq!(resp[2] & 0x04, 0x04, "AA");
    assert_eq!(u16::from_be_bytes([resp[6], resp[7]]), 1, "ANCOUNT");
    assert!(resp.ends_with(&[10, 0, 0, 5]));
}

#[test]
fn servfail_and_empty() {
    let q = parse_query(&query_packet(1, "x.test", TYPE_AAAA)).unwrap();
    assert_eq!(build_servfail(&q)[3] & 0x0f, RCODE_SERVFAIL);
    let empty = build_empty_noerror(&q, true);
    assert_eq!(u16::from_be_bytes([empty[6], empty[7]]), 0, "no answers");
    assert_eq!(empty[3] & 0x0f, RCODE_NOERROR);
}

#[test]
fn rejects_response_and_short() {
    assert!(parse_query(&[0; 4]).is_none());
    let mut resp = query_packet(1, "x", TYPE_A);
    resp[2] |= 0x80; // QR set → not a query
    assert!(parse_query(&resp).is_none());
}

fn config() -> DnsConfig {
    let mut records = StrMap::new();
    records.insert("db.internal.corp".to_string(), StaticRecord::A(0x0a00_0009));
    DnsConfig {
        proxy_ip: 0xac14_0002,
        passthrough: vec![DomainGlob::parse("*.internal.corp").unwrap()],
        records,
        ttl: 60,
    }
}

fn q(name: &str, qtype: u16) -> Query {
    parse_query(&query_packet(1, name, qtype)).unwrap()
}

#[test]
fn static_beats_passthrough() {
    match resolve(&config(), &q("db.internal.corp", TYPE_A)) {
        Decision::Answer(a) => match &a[0] {
            Answer::A { ip, .. } => assert_eq!(*ip, 0x0a00_0009),
            _ => panic!("expected A"),
        },
        _ => panic!("static record must win"),
    }
}

#[test]
fn passthrough_zone_forwards() {
    assert!(matches!(
        resolve(&config(), &q("ns.internal.corp", TYPE_A)),
        Decision::Passthrough
    ));
}

#[test]
fn default_intercepts_to_proxy_ip() {
    match resolve(&config(), &q("anything.example", TYPE_A)) {
        Decision::Answer(a) => match &a[0] {
            Answer::A { ip, .. } => assert_eq!(*ip, 0xac14_0002),
            _ => panic!("expected A"),
        },
        _ => panic!("expected intercept"),
    }
}

#[test]
fn aaaa_for_intercepted_is_empty_noerror() {
    assert!(matches!(
        resolve(&config(), &q("anything.example", TYPE_AAAA)),
        Decision::EmptyNoError
    ));
}

#[test]
fn a_response_is_the_whole_message() {
    let query = parse_query(&query_packet(0x0102, "a.b", TYPE_A)).unwrap();
    let resp = build_response(&query, &vec![Answer::A { ip: 0x0102_0304, ttl: 60 }], true);
    assert_eq!(
        resp,
        vec![
            1, 2, 0x85, 0x80, 0, 1, 0, 1, 0, 0, 0, 0, // head
            1, b'a', 1, b'b', 0, 0, 1, 0, 1, // question
            0xc0, 0x0c, 0, 1, 0, 1, 0, 0, 0, 60, 0, 4, 1, 2, 3, 4, // answer
        ]
    );
    assert!(parse_query(&resp).is_none(), "an answer is no query");
}

#[test]
fn respond_answers_locally_or_asks() {
    match respond(&config(), &query_packet(7, "anything.example", TYPE_A)) {
        DnsStep::Reply { bytes, kind } => {
            assert!(bytes.ends_with(&[172, 20, 0, 2]));
            assert_eq!(kind, DnsDecisionKind::Intercept);
        }
        _ => panic!("expected a reply"),
    }
    match respond(&config(), &query_packet(7, "db.internal.corp", TYPE_A)) {
        DnsStep::Reply { kind, .. } => assert_eq!(kind, DnsDecisionKind::Static),
        _ => panic!("expected a reply"),
    }
    match respond(&config(), &query_packet(7, "ns.internal.corp", TYPE_A)) {
        DnsStep::Forward { servfail } => {
            assert_eq!(servfail[3] & 0x0f, RCODE_SERVFAIL);
            assert_eq!(
                relay(Some(vec![1, 2, 3]), servfail.clone()),
                (vec![1, 2, 3], DnsDecisionKind::Passthrough)
            );
            assert_eq!(relay(None, servfail.clone()), (servfail, DnsDecisionKind::Error));
        }
        _ => panic!("expected to ask upstream"),
    }
    assert!(matches!(respond(&config(), &[1, 2, 3]), DnsStep::Drop));
}

#[test]
fn records_are_read() {
    assert!(matches!(parse_record("A", "10.0.0.9"), Ok(StaticRecord::A(0x0a00_0009))));
    match parse_record("CNAME", "Other.Example..") {
        Ok(StaticRecord::Cname(n)) => assert_eq!(n, "other.example"),
        _ => panic!("expected a name"),
    }
    assert_eq!(parse_record("A", "x").unwrap_err(), "bad A value \"x\"");
    assert_eq!(parse_record("TXT", "x").unwrap_err(), "unsupported record type \"TXT\"");
    assert_eq!(normalize("a.example."), "a.example");
}

#[test]
fn tcp_messages_carry_their_length() {
    assert_eq!(frame(&vec![9, 8, 7]), vec![0, 3, 9, 8, 7]);
}

#[test]
fn a_name_has_no_final_dot() {
    let mut msg = vec![0, 1, 1, 0, 0, 1, 0, 0, 0, 0, 0, 0];
    msg.extend_from_slice(&[2, b'A', b'.', 0, 0, 1, 0, 1]);
    let q = parse_query(&msg).unwrap();
    assert_eq!(q.name, "a");
    assert_eq!(q.question_raw, msg[12..].to_vec(), "the question is echoed as it came");
}
