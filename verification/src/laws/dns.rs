//! Names and their answers.
use vstd::prelude::*;
use vstd::string::*;
use vstd::utf8::*;

use crate::resolve::{DecisionView, DnsConfig, DnsDecisionKind, DnsStepView, StaticView};
use crate::wire::{AnswerView, QueryView};

verus! {

/// A name without one final dot.
pub open spec fn undotted(name: Seq<char>) -> Seq<char> {
    if name.len() > 0 && name[name.len() - 1] == '.' {
        name.take(name.len() - 1)
    } else {
        name
    }
}

/// Some passthrough zone names a host.
pub open spec fn in_a_zone(config: DnsConfig, name: Seq<char>) -> bool {
    exists|i: int|
        0 <= i < config.passthrough@.len() && crate::matcher::glob_accepts(
            (#[trigger] config.passthrough@[i])@,
            name,
        )
}

proof fn zones_agree(config: DnsConfig, name: Seq<char>)
    ensures
        crate::resolve::passes_through(config, name) == in_a_zone(config, name),
{
    let v = crate::transforms::glob_views(config.passthrough@);
    assert(v.len() == config.passthrough@.len());
    assert forall|i: int| 0 <= i < v.len() implies #[trigger] v[i] == config.passthrough@[i]@ by {}
    if crate::resolve::passes_through(config, name) {
        let i = choose|i: int|
            0 <= i < v.len() && crate::matcher::glob_accepts(#[trigger] v[i], name);
        assert(crate::matcher::glob_accepts(config.passthrough@[i]@, name));
    }
    if in_a_zone(config, name) {
        let i = choose|i: int|
            0 <= i < config.passthrough@.len() && crate::matcher::glob_accepts(
                (#[trigger] config.passthrough@[i])@,
                name,
            );
        assert(crate::matcher::glob_accepts(v[i], name));
    }
}

/// A name with a static alias is answered with it to a query for an address (type 1) or
/// for an alias (type 5), and with nothing to any other.
pub proof fn an_alias_is_answered(
    config: DnsConfig,
    q: QueryView,
    record: crate::resolve::StaticRecord,
    target: Seq<char>,
)
    requires
        crate::strmap::found(config.records@, undotted(q.name)) == Some(record),
        record@ == StaticView::Cname(target),
    ensures
        crate::resolve::decision(config, q) == (if q.qtype == 1 || q.qtype == 5 {
            DecisionView::Answer(seq![AnswerView::Cname { name: target, ttl: config.ttl }])
        } else {
            DecisionView::EmptyNoError
        }),
{
    undotting(q.name);
}

/// A name with a static address is answered with it to a query for an address (type 1),
/// and with nothing to any other.
pub proof fn a_static_address_is_answered(
    config: DnsConfig,
    q: QueryView,
    record: crate::resolve::StaticRecord,
    ip: u32,
)
    requires
        crate::strmap::found(config.records@, undotted(q.name)) == Some(record),
        record@ == StaticView::A(ip),
    ensures
        crate::resolve::decision(config, q) == (if q.qtype == 1 {
            DecisionView::Answer(seq![AnswerView::A { ip, ttl: config.ttl }])
        } else {
            DecisionView::EmptyNoError
        }),
{
    undotting(q.name);
}

proof fn undotting(name: Seq<char>)
    ensures
        crate::resolve::without_dot(name) == undotted(name),
{
    if name.len() > 0 {
        assert(name.drop_last() =~= name.take(name.len() - 1));
    }
}

/// A name without a static record goes to the upstream resolver where a zone names it.
/// Else it is the proxy's: its address is answered to a query for an address (type 1),
/// and nothing to any other.
pub proof fn other_names_are_the_proxys(config: DnsConfig, q: QueryView)
    requires
        crate::strmap::found(config.records@, undotted(q.name)) is None,
    ensures
        crate::resolve::decision(config, q) == (if in_a_zone(config, undotted(q.name)) {
            DecisionView::Passthrough
        } else if q.qtype == 1 {
            DecisionView::Answer(seq![AnswerView::A { ip: config.proxy_ip, ttl: config.ttl }])
        } else {
            DecisionView::EmptyNoError
        }),
{
    undotting(q.name);
    zones_agree(config, undotted(q.name));
}

// ---- On the wire ------------------------------------------------------------------------------

/// Labels on the wire: each behind its length.
pub open spec fn wired(labels: Seq<Seq<char>>) -> Seq<u8>
    decreases labels.len(),
{
    if labels.len() == 0 {
        Seq::empty()
    } else {
        let last = encode_utf8(labels[labels.len() - 1]);
        wired(labels.take(labels.len() - 1)) + seq![last.len() as u8] + last
    }
}

/// Labels that can go on the wire.
pub open spec fn are_labels(labels: Seq<Seq<char>>) -> bool {
    &&& labels.len() > 0
    &&& forall|i: int|
        0 <= i < labels.len() ==> {
            &&& (#[trigger] labels[i]).len() > 0
            &&& encode_utf8(labels[i]).len() <= 63
            &&& super::words::free_of(labels[i], '.')
        }
}

proof fn some_bytes(label: Seq<char>)
    requires
        label.len() > 0,
    ensures
        encode_utf8(label).len() > 0,
{
    encode_utf8_first_scalar(label);
    assert(encode_scalar(label[0] as u32).len() > 0);
}

proof fn labels_are_wired(labels: Seq<Seq<char>>, n: int)
    requires
        are_labels(labels),
        0 <= n <= labels.len(),
    ensures
        crate::wire::labels_bytes(labels, n) == wired(labels.take(n)),
    decreases n,
{
    let t = labels.take(n);
    if n > 0 {
        labels_are_wired(labels, n - 1);
        assert(t.take(n - 1) =~= labels.take(n - 1));
        assert(t[n - 1] == labels[n - 1]);
        let e = encode_utf8(labels[n - 1]);
        assert(labels[n - 1].len() > 0 && e.len() <= 63);
        let w = wired(labels.take(n - 1));
        assert(w + (seq![(e.len() % 256) as u8] + e) =~= w + seq![e.len() as u8] + e);
    } else {
        assert(t =~= Seq::<Seq<char>>::empty());
    }
}

/// A name is written as its labels, each behind its length, and a zero.
pub proof fn a_name_is_its_labels(labels: Seq<Seq<char>>)
    requires
        are_labels(labels),
    ensures
        crate::wire::name_bytes(crate::text::joined(labels, '.')) == wired(labels) + seq![0u8],
{
    super::text::joined_pieces_are_split(labels, '.');
    labels_are_wired(labels, labels.len() as int);
    assert(labels.take(labels.len() as int) =~= labels);
    assert(wired(labels).push(0u8) =~= wired(labels) + seq![0u8]);
}

/// A query of one question, as it comes from the network.
pub open spec fn question(id: u16, rd: bool, labels: Seq<Seq<char>>, qtype: u16) -> Seq<u8> {
    seq![
        (id / 256) as u8,
        (id % 256) as u8,
        if rd {
            1u8
        } else {
            0u8
        },
        0u8,
        0u8,
        1u8,
        0u8,
        0u8,
        0u8,
        0u8,
        0u8,
        0u8,
    ] + wired(labels) + seq![0u8, (qtype / 256) as u8, (qtype % 256) as u8, 0u8, 1u8]
}

proof fn joined_ends(labels: Seq<Seq<char>>)
    requires
        are_labels(labels),
    ensures
        ({
            let s = crate::text::joined(labels, '.');
            s.len() > 0 && s[s.len() - 1] != '.'
        }),
{
    let n = labels.len() as int;
    let x = labels[n - 1];
    assert(x.len() > 0 && super::words::free_of(x, '.'));
    assert(x[x.len() - 1] != '.');
    if n > 1 {
        let p = labels.drop_last();
        super::text::joining_puts_separators_between(p, '.', x);
        assert(p + seq![x] =~= labels);
        let s = crate::text::joined(labels, '.');
        assert(s[s.len() - 1] == x[x.len() - 1]);
    }
}

/// A query is read: its id, whether it wants recursion, its name in lowercase, and its
/// type.
pub proof fn a_query_is_read(id: u16, rd: bool, labels: Seq<Seq<char>>, qtype: u16)
    requires
        are_labels(labels),
    ensures
        crate::wire::query_of(question(id, rd, labels, qtype)) == Some(
            QueryView {
                id,
                rd,
                name: super::words::small(crate::text::joined(labels, '.')),
                qtype,
                qclass: 1,
                question: question(id, rd, labels, qtype).skip(12),
            },
        ),
{
    let name = crate::text::joined(labels, '.');
    let msg = question(id, rd, labels, qtype);
    let pre = msg.take(12);
    let post = seq![(qtype / 256) as u8, (qtype % 256) as u8, 0u8, 1u8];
    a_name_is_its_labels(labels);
    super::text::joined_pieces_are_split(labels, '.');
    joined_ends(labels);
    assert forall|i: int| 0 <= i < labels.len() implies 1 <= encode_utf8(#[trigger] labels[i]).len()
        <= 63 && labels[i].len() >= 1 by {
        some_bytes(labels[i]);
    }
    assert(msg =~= pre + crate::wire::name_bytes(name) + post);
    assert(pre.len() == 12);
    crate::wire::written_name_is_read_back(pre, name, post);
    let i: int = 12 + crate::wire::name_bytes(name).len() as int;
    assert(msg.len() == i + 4);
    assert(msg[i as int] == post[0] && msg[i + 1] == post[1] && msg[i + 2] == post[2] && msg[i + 3]
        == post[3]);
    assert(msg.subrange(12, i + 4) =~= msg.skip(12));
    super::text::case_is_that_of_ascii_letters(name);
    assert(name.last() == name[name.len() - 1]);
    assert(crate::wire::without_dots(name) == name);
    assert(msg[0] == pre[0] && msg[1] == pre[1] && msg[2] == pre[2] && msg[4] == pre[4] && msg[5]
        == pre[5]);
}

/// A message that is too short, is an answer, or has no question is no query.
pub proof fn other_messages_are_no_queries(msg: Seq<u8>)
    requires
        msg.len() < 12 || msg[2] >= 128 || (msg[4] == 0 && msg[5] == 0),
    ensures
        crate::wire::query_of(msg) is None,
{
}

/// The first bytes of a reply: the id, that it is one, whether it is of authority and
/// whether recursion was wanted, its code, and one question.
pub open spec fn reply_head(q: QueryView, authority: bool, code: u8, answers: u8) -> Seq<u8> {
    let flags = if authority && q.rd {
        133u8
    } else if authority {
        132u8
    } else if q.rd {
        129u8
    } else {
        128u8
    };
    seq![
        (q.id / 256) as u8,
        (q.id % 256) as u8,
        flags,
        (128 + code) as u8,
        0u8,
        1u8,
        0u8,
        answers,
        0u8,
        0u8,
        0u8,
        0u8,
    ]
}

proof fn heads_agree(q: QueryView, authority: bool, code: u8, answers: u8)
    requires
        code < 16,
    ensures
        crate::wire::header_bytes(q.id, q.rd, authority, code, answers as u16) == reply_head(
            q,
            authority,
            code,
            answers,
        ),
{
    reveal(crate::wire::two);
    let h = crate::wire::header_bytes(q.id, q.rd, authority, code, answers as u16);
    let r = reply_head(q, authority, code, answers);
    assert(h.len() == 12);
    assert(h[0] == r[0] && h[1] == r[1]);
    assert(h[2] == r[2]);
    assert(h[3] == r[3]);
    assert(h[4] == r[4] && h[5] == r[5] && h[6] == r[6] && h[7] == r[7]);
    assert(h =~= r);
}

/// A number in four bytes, the first the highest.
pub open spec fn word(n: u32) -> Seq<u8> {
    seq![
        (n / 16777216) as u8,
        (n / 65536 % 256) as u8,
        (n / 256 % 256) as u8,
        (n % 256) as u8,
    ]
}

/// What is sent: the head, the question as it came, and the answer, which points to the
/// name in the question and says its type, its class, its lifetime, its length and
/// itself.
pub proof fn replies_are_laid_out(q: QueryView, ip: u32, ttl: u32, labels: Seq<Seq<char>>)
    ensures
        crate::wire::response_bytes(q, Seq::empty(), true) == reply_head(q, true, 0, 0)
            + q.question,
        crate::wire::servfail_bytes(q) == reply_head(q, false, 2, 0) + q.question,
        crate::wire::response_bytes(q, seq![AnswerView::A { ip, ttl }], true) == reply_head(
            q,
            true,
            0,
            1,
        ) + q.question + (seq![0xc0u8, 12u8, 0u8, 1u8, 0u8, 1u8] + word(ttl) + seq![0u8, 4u8]
            + word(ip)),
        are_labels(labels) ==> ({
            let n = wired(labels) + seq![0u8];
            let name = crate::text::joined(labels, '.');
            n.len() < 65536 ==> crate::wire::response_bytes(
                q,
                seq![AnswerView::Cname { name, ttl }],
                true,
            ) == reply_head(q, true, 0, 1) + q.question + (seq![
                0xc0u8,
                12u8,
                0u8,
                5u8,
                0u8,
                1u8,
            ] + word(ttl) + seq![(n.len() / 256) as u8, (n.len() % 256) as u8] + n)
        }),
{
    reveal_with_fuel(crate::wire::answers_bytes, 2);
    reveal(crate::wire::two);
    reveal(crate::wire::four);
    let e = Seq::<u8>::empty();
    heads_agree(q, true, 0, 0);
    heads_agree(q, true, 0, 1);
    heads_agree(q, false, 2, 0);
    assert(crate::wire::response_bytes(q, Seq::empty(), true) =~= reply_head(q, true, 0, 0)
        + q.question);
    assert(crate::wire::servfail_bytes(q) =~= reply_head(q, false, 2, 0) + q.question);
    let a = AnswerView::A { ip, ttl };
    assert(e + crate::wire::answer_bytes(a) =~= seq![0xc0u8, 12u8, 0u8, 1u8, 0u8, 1u8] + word(ttl)
        + seq![0u8, 4u8] + word(ip));
    if are_labels(labels) {
        let n = wired(labels) + seq![0u8];
        let name = crate::text::joined(labels, '.');
        a_name_is_its_labels(labels);
        let c = AnswerView::Cname { name, ttl };
        if n.len() < 65536 {
            assert(e + crate::wire::answer_bytes(c) =~= seq![0xc0u8, 12u8, 0u8, 5u8, 0u8, 1u8]
                + word(ttl) + seq![(n.len() / 256) as u8, (n.len() % 256) as u8] + n);
        }
    }
}

/// A query is replied to with its decision, of authority; where it goes upstream the reply
/// for a failure is at hand; what is no query is dropped.
pub proof fn decisions_are_sent(config: DnsConfig, msg: Seq<u8>)
    ensures
        match crate::wire::query_of(msg) {
            None => crate::resolve::dns_step(config, msg) == DnsStepView::Drop,
            Some(q) => {
                let known = crate::strmap::found(config.records@, undotted(q.name)) is Some;
                let kind = if known {
                    DnsDecisionKind::Static
                } else {
                    DnsDecisionKind::Intercept
                };
                match crate::resolve::decision(config, q) {
                    DecisionView::Answer(a) => crate::resolve::dns_step(config, msg)
                        == (DnsStepView::Reply {
                        bytes: crate::wire::response_bytes(q, a, true),
                        kind,
                    }),
                    DecisionView::EmptyNoError => crate::resolve::dns_step(config, msg)
                        == (DnsStepView::Reply {
                        bytes: reply_head(q, true, 0, 0) + q.question,
                        kind,
                    }),
                    DecisionView::Passthrough => crate::resolve::dns_step(config, msg)
                        == (DnsStepView::Forward {
                        servfail: reply_head(q, false, 2, 0) + q.question,
                    }),
                }
            },
        },
{
    if let Some(q) = crate::wire::query_of(msg) {
        undotting(q.name);
        replies_are_laid_out(q, 0, 0, Seq::empty());
    }
}

/// A configured record is an address or an alias; an alias is kept in lowercase and without
/// its final dot.
pub proof fn records_are_read(a: u8, b: u8, c: u8, d: u8, target: Seq<char>, other: Seq<char>)
    requires
        target.len() > 0,
        target[target.len() - 1] != '.',
        other != "A"@,
        other != "CNAME"@,
    ensures
        crate::resolve::record_of("A"@, super::words::dotted(a, b, c, d)) == Ok::<
            StaticView,
            Seq<char>,
        >(StaticView::A((a * 16777216 + b * 65536 + c * 256 + d) as u32)),
        crate::resolve::record_of("CNAME"@, target) == Ok::<StaticView, Seq<char>>(
            StaticView::Cname(super::words::small(target)),
        ),
        crate::resolve::record_of("CNAME"@, target + seq!['.']) == Ok::<StaticView, Seq<char>>(
            StaticView::Cname(super::words::small(target)),
        ),
        crate::resolve::record_of(other, target) is Err,
{
    super::ip::a_dotted_quad_is_read(a, b, c, d);
    reveal_strlit("A");
    reveal_strlit("CNAME");
    assert("A"@.len() == 1 && "CNAME"@.len() == 5);
    super::text::case_is_that_of_ascii_letters(target);
    let t = target + seq!['.'];
    assert(t.last() == '.' && t.drop_last() =~= target);
    assert(target.last() == target[target.len() - 1]);
    reveal_with_fuel(crate::wire::without_dots, 3);
}

/// A query is read by its first question, whatever else it holds: further flags, other counts,
/// another class, and what follows.
pub proof fn queries_may_hold_more(
    head: Seq<u8>,
    labels: Seq<Seq<char>>,
    qtype: u16,
    qclass: u16,
    more: Seq<u8>,
)
    requires
        are_labels(labels),
        head.len() == 12,
        head[2] < 128,
        head[4] > 0 || head[5] > 0,
    ensures
        ({
            let asked = wired(labels) + seq![
                0u8,
                (qtype / 256) as u8,
                (qtype % 256) as u8,
                (qclass / 256) as u8,
                (qclass % 256) as u8,
            ];
            crate::wire::query_of(head + asked + more) == Some(
                QueryView {
                    id: (head[0] * 256 + head[1]) as u16,
                    rd: head[2] % 2 == 1,
                    name: super::words::small(crate::text::joined(labels, '.')),
                    qtype,
                    qclass,
                    question: asked,
                },
            )
        }),
{
    let name = crate::text::joined(labels, '.');
    let end = seq![
        (qtype / 256) as u8,
        (qtype % 256) as u8,
        (qclass / 256) as u8,
        (qclass % 256) as u8,
    ];
    let asked = wired(labels) + seq![
        0u8,
        (qtype / 256) as u8,
        (qtype % 256) as u8,
        (qclass / 256) as u8,
        (qclass % 256) as u8,
    ];
    let msg = head + asked + more;
    let post = end + more;
    a_name_is_its_labels(labels);
    super::text::joined_pieces_are_split(labels, '.');
    joined_ends(labels);
    assert forall|i: int| 0 <= i < labels.len() implies 1 <= encode_utf8(#[trigger] labels[i]).len()
        <= 63 && labels[i].len() >= 1 by {
        some_bytes(labels[i]);
    }
    assert(asked =~= crate::wire::name_bytes(name) + end);
    assert(msg =~= head + crate::wire::name_bytes(name) + post);
    crate::wire::written_name_is_read_back(head, name, post);
    let i: int = 12 + crate::wire::name_bytes(name).len() as int;
    assert(msg[i as int] == end[0] && msg[i + 1] == end[1] && msg[i + 2] == end[2] && msg[i + 3]
        == end[3]);
    assert(msg.subrange(12, i + 4) =~= asked);
    super::text::case_is_that_of_ascii_letters(name);
    assert(name.last() == name[name.len() - 1]);
    assert(crate::wire::without_dots(name) == name);
    assert(msg[0] == head[0] && msg[1] == head[1] && msg[2] == head[2] && msg[4] == head[4]
        && msg[5] == head[5]);
}

/// A message whose name is missing, cut short or compressed is no query, and neither is one that
/// ends behind its name.
pub proof fn names_must_be_whole(head: Seq<u8>, labels: Seq<Seq<char>>, length: u8, rest: Seq<u8>)
    requires
        head.len() == 12,
        are_labels(labels),
    ensures
        crate::wire::query_of(head) is None,
        length >= 64 ==> crate::wire::query_of(head + seq![length] + rest) is None,
        0 < length && rest.len() < length ==> crate::wire::query_of(head + seq![length] + rest)
            is None,
        rest.len() < 4 ==> crate::wire::query_of(head + wired(labels) + seq![0u8] + rest) is None,
{
    let s = head + seq![length] + rest;
    assert(s[12] == length);
    assert(s[2] == head[2] && s[4] == head[4] && s[5] == head[5]);
    if rest.len() < 4 {
        let name = crate::text::joined(labels, '.');
        let msg = head + wired(labels) + seq![0u8] + rest;
        a_name_is_its_labels(labels);
        super::text::joined_pieces_are_split(labels, '.');
        joined_ends(labels);
        assert forall|i: int| 0 <= i < labels.len() implies 1 <= encode_utf8(
            #[trigger] labels[i],
        ).len() <= 63 && labels[i].len() >= 1 by {
            some_bytes(labels[i]);
        }
        assert(msg =~= head + crate::wire::name_bytes(name) + rest);
        crate::wire::written_name_is_read_back(head, name, rest);
    }
}

} // verus!
