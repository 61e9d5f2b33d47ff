//! How the DNS server answers: static records before passthrough zones before
//! interception.
use vstd::prelude::*;
use vstd::string::*;

use crate::ip::IpAddr;
use crate::matcher::DomainGlob;
use crate::strmap::{found, StrMap};
use crate::text::{chars_of, join2, piece, quoted, same};
use crate::transforms::any_domain_matches;
use crate::wire::{
    build_empty_noerror, build_response, build_servfail, lookup_name, parse_query, query_of,
    record_name, response_bytes, servfail_bytes, Answer, AnswerView, Query, QueryView, TYPE_A,
    TYPE_CNAME,
};

verus! {

/// A configured record.
#[derive(Debug)]
pub enum StaticRecord {
    /// An IPv4 address, as its 32 bits in network order.
    A(u32),
    Cname(String),
}

/// What a record says.
#[verifier::ext_equal]
pub enum StaticView {
    A(u32),
    Cname(Seq<char>),
}

impl View for StaticRecord {
    type V = StaticView;

    open spec fn view(&self) -> StaticView {
        match self {
            StaticRecord::A(ip) => StaticView::A(*ip),
            StaticRecord::Cname(name) => StaticView::Cname(name@),
        }
    }
}

/// The configuration of the DNS server.
pub struct DnsConfig {
    pub proxy_ip: u32,
    pub passthrough: Vec<DomainGlob>,
    /// By lowercase name without a final dot.
    pub records: StrMap<StaticRecord>,
    pub ttl: u32,
}

/// What to do with a query.
#[derive(Debug)]
pub enum Decision {
    /// Answer with these records.
    Answer(Vec<Answer>),
    /// Answer that there is nothing.
    EmptyNoError,
    /// Ask the upstream resolver and relay.
    Passthrough,
}

/// What a decision says.
#[verifier::ext_equal]
pub enum DecisionView {
    Answer(Seq<AnswerView>),
    EmptyNoError,
    Passthrough,
}

impl View for Decision {
    type V = DecisionView;

    open spec fn view(&self) -> DecisionView {
        match self {
            Decision::Answer(v) => DecisionView::Answer(crate::wire::answer_views(v@)),
            Decision::EmptyNoError => DecisionView::EmptyNoError,
            Decision::Passthrough => DecisionView::Passthrough,
        }
    }
}

/// A name without one final dot.
pub open spec fn without_dot(name: Seq<char>) -> Seq<char> {
    if name.len() > 0 && name.last() == '.' {
        name.drop_last()
    } else {
        name
    }
}

/// What a static record answers to a query of a type. A name that is there but
/// not for the type has no answer.
pub open spec fn static_answer(r: StaticView, qtype: u16, ttl: u32) -> DecisionView {
    match r {
        StaticView::A(ip) => if qtype == TYPE_A {
            DecisionView::Answer(seq![AnswerView::A { ip, ttl }])
        } else {
            DecisionView::EmptyNoError
        },
        StaticView::Cname(name) => if qtype == TYPE_CNAME || qtype == TYPE_A {
            DecisionView::Answer(seq![AnswerView::Cname { name, ttl }])
        } else {
            DecisionView::EmptyNoError
        },
    }
}

/// The name is in a passthrough zone.
pub open spec fn passes_through(config: DnsConfig, name: Seq<char>) -> bool {
    crate::transforms::some_domain_accepts(
        crate::transforms::glob_views(config.passthrough@),
        name,
    )
}

/// The decision on a query: a static record of the name, else passthrough in its
/// zones, else the proxy's own address for A and nothing for other types.
pub open spec fn decision(config: DnsConfig, q: QueryView) -> DecisionView {
    let name = without_dot(q.name);
    match found(config.records@, name) {
        Some(r) => static_answer(r@, q.qtype, config.ttl),
        None => if passes_through(config, name) {
            DecisionView::Passthrough
        } else if q.qtype == TYPE_A {
            DecisionView::Answer(seq![AnswerView::A { ip: config.proxy_ip, ttl: config.ttl }])
        } else {
            DecisionView::EmptyNoError
        },
    }
}

pub fn normalize(name: &str) -> (r: String)
    ensures
        r@ == without_dot(name@),
{
    let c = chars_of(name);
    let n: usize = if c.len() > 0 && c[c.len() - 1] == '.' {
        c.len() - 1
    } else {
        c.len()
    };
    let r = piece(&c, 0, n);
    proof {
        if n < c@.len() {
            assert(c@.subrange(0, n as int) == c@.drop_last());
        } else {
            assert(c@.subrange(0, n as int) == c@);
        }
    }
    r
}

fn one_answer(a: Answer) -> (r: Decision)
    ensures
        r@ == DecisionView::Answer(seq![a@]),
{
    let ghost av = a@;
    let mut v: Vec<Answer> = Vec::new();
    v.push(a);
    assert(crate::wire::answer_views(v@) == seq![av]);
    Decision::Answer(v)
}

/// Decides on a query.
pub fn resolve(config: &DnsConfig, query: &Query) -> (r: Decision)
    ensures
        r@ == decision(*config, query@),
{
    let name = normalize(query.name.as_str());
    if let Some(record) = config.records.get(name.as_str()) {
        return match record {
            StaticRecord::A(ip) => if query.qtype == TYPE_A {
                one_answer(Answer::A { ip: *ip, ttl: config.ttl })
            } else {
                Decision::EmptyNoError
            },
            StaticRecord::Cname(target) => if query.qtype == TYPE_CNAME || query.qtype == TYPE_A {
                one_answer(Answer::Cname { name: target.clone(), ttl: config.ttl })
            } else {
                Decision::EmptyNoError
            },
        };
    }
    if any_domain_matches(&config.passthrough, name.as_str()) {
        return Decision::Passthrough;
    }
    if query.qtype == TYPE_A {
        one_answer(Answer::A { ip: config.proxy_ip, ttl: config.ttl })
    } else {
        Decision::EmptyNoError
    }
}

// ---- Serving ----------------------------------------------------------------------------

/// How a query was decided, for the metrics.
#[derive(Debug, Clone, Copy, PartialEq, Eq, Structural)]
pub enum DnsDecisionKind {
    Static,
    Intercept,
    Passthrough,
    Error,
}

/// What the server does with a message.
#[derive(Debug)]
pub enum DnsStep {
    /// Nothing: the message is no query.
    Drop,
    /// Send these bytes.
    Reply { bytes: Vec<u8>, kind: DnsDecisionKind },
    /// Ask the upstream resolver; where that fails, send these bytes.
    Forward { servfail: Vec<u8> },
}

/// What a step says.
#[verifier::ext_equal]
pub enum DnsStepView {
    Drop,
    Reply { bytes: Seq<u8>, kind: DnsDecisionKind },
    Forward { servfail: Seq<u8> },
}

impl View for DnsStep {
    type V = DnsStepView;

    open spec fn view(&self) -> DnsStepView {
        match self {
            DnsStep::Drop => DnsStepView::Drop,
            DnsStep::Reply { bytes, kind } => DnsStepView::Reply { bytes: bytes@, kind: *kind },
            DnsStep::Forward { servfail } => DnsStepView::Forward { servfail: servfail@ },
        }
    }
}

/// A name with a static record is answered from it, any other by interception.
pub open spec fn local_kind(config: DnsConfig, q: QueryView) -> DnsDecisionKind {
    if found(config.records@, without_dot(q.name)) is Some {
        DnsDecisionKind::Static
    } else {
        DnsDecisionKind::Intercept
    }
}

/// What the server does with a message.
pub open spec fn dns_step(config: DnsConfig, request: Seq<u8>) -> DnsStepView {
    match query_of(request) {
        None => DnsStepView::Drop,
        Some(q) => match decision(config, q) {
            DecisionView::Answer(answers) => DnsStepView::Reply {
                bytes: response_bytes(q, answers, true),
                kind: local_kind(config, q),
            },
            DecisionView::EmptyNoError => DnsStepView::Reply {
                bytes: response_bytes(q, Seq::empty(), true),
                kind: local_kind(config, q),
            },
            DecisionView::Passthrough => DnsStepView::Forward { servfail: servfail_bytes(q) },
        },
    }
}

/// Decides what to do with a message.
pub fn respond(config: &DnsConfig, request: &[u8]) -> (r: DnsStep)
    ensures
        r@ == dns_step(*config, request@),
{
    let query = match parse_query(request) {
        Some(q) => q,
        None => {
            return DnsStep::Drop;
        },
    };
    let name = normalize(query.name.as_str());
    let kind = match config.records.get(name.as_str()) {
        Some(_) => DnsDecisionKind::Static,
        None => DnsDecisionKind::Intercept,
    };
    match resolve(config, &query) {
        Decision::Answer(answers) => DnsStep::Reply {
            bytes: build_response(&query, &answers, true),
            kind,
        },
        Decision::EmptyNoError => DnsStep::Reply {
            bytes: build_empty_noerror(&query, true),
            kind,
        },
        Decision::Passthrough => DnsStep::Forward { servfail: build_servfail(&query) },
    }
}

/// What is sent once the upstream resolver was asked: its answer, or SERVFAIL.
pub fn relay(upstream: Option<Vec<u8>>, servfail: Vec<u8>) -> (r: (Vec<u8>, DnsDecisionKind))
    ensures
        match upstream {
            Some(b) => r == (b, DnsDecisionKind::Passthrough),
            None => r == (servfail, DnsDecisionKind::Error),
        },
{
    match upstream {
        Some(b) => (b, DnsDecisionKind::Passthrough),
        None => (servfail, DnsDecisionKind::Error),
    }
}

// ---- Building the configuration -----------------------------------------------------------

/// The record that a type and a value stand for.
pub open spec fn record_of(rtype: Seq<char>, value: Seq<char>) -> Result<StaticView, Seq<char>> {
    if rtype == "A"@ {
        match crate::ip::v4_value(value) {
            Some(v) => Ok(StaticView::A(v as u32)),
            None => Err("bad A value "@ + crate::text::quoted_text(value)),
        }
    } else if rtype == "CNAME"@ {
        Ok(StaticView::Cname(record_name(value)))
    } else {
        Err("unsupported record type "@ + crate::text::quoted_text(rtype))
    }
}

/// Reads the record of a type and a value.
pub fn parse_record(rtype: &str, value: &str) -> (r: Result<StaticRecord, String>)
    ensures
        match r {
            Ok(x) => record_of(rtype@, value@) == Ok::<StaticView, Seq<char>>(x@),
            Err(e) => record_of(rtype@, value@) == Err::<StaticView, Seq<char>>(e@),
        },
{
    if same(rtype, "A") {
        match IpAddr::parse(value) {
            Some(IpAddr::V4(v)) => Ok(StaticRecord::A(v)),
            _ => Err(join2("bad A value ", quoted(value).as_str())),
        }
    } else if same(rtype, "CNAME") {
        Ok(StaticRecord::Cname(lookup_name(value)))
    } else {
        Err(join2("unsupported record type ", quoted(rtype).as_str()))
    }
}

// ---- Laws -------------------------------------------------------------------------------

/// A static record wins over a passthrough zone and over interception.
pub proof fn static_record_wins(config: DnsConfig, q: QueryView)
    requires
        found(config.records@, without_dot(q.name)) is Some,
    ensures
        decision(config, q) == static_answer(
            found(config.records@, without_dot(q.name))->0@,
            q.qtype,
            config.ttl,
        ),
        decision(config, q) != DecisionView::Passthrough,
{
}

/// Only names in a passthrough zone leave the server; every other name is
/// answered by it alone.
pub proof fn only_zones_pass_through(config: DnsConfig, q: QueryView)
    ensures
        decision(config, q) == DecisionView::Passthrough <==> (found(
            config.records@,
            without_dot(q.name),
        ) is None && passes_through(config, without_dot(q.name))),
{
}

/// What is intercepted has no address but the proxy's: an A query is answered
/// with it, any other with nothing.
pub proof fn interception_answers_with_the_proxy(config: DnsConfig, q: QueryView)
    requires
        found(config.records@, without_dot(q.name)) is None,
        !passes_through(config, without_dot(q.name)),
    ensures
        q.qtype == TYPE_A ==> decision(config, q) == DecisionView::Answer(
            seq![AnswerView::A { ip: config.proxy_ip, ttl: config.ttl }],
        ),
        q.qtype != TYPE_A ==> decision(config, q) == DecisionView::EmptyNoError,
{
}

} // verus!
