//! DNS messages, as far as the interception server needs them: reading the
//! question of a query, writing A, CNAME, empty and SERVFAIL responses.
use vstd::prelude::*;
use vstd::slice::slice_subrange;
use vstd::string::*;
use vstd::utf8::*;

use crate::text::{bytes_text, chars_of, lossy, piece, split, to_lower};

verus! {

pub const TYPE_A: u16 = 1;

pub const TYPE_CNAME: u16 = 5;

pub const TYPE_AAAA: u16 = 28;

pub const CLASS_IN: u16 = 1;

pub const RCODE_NOERROR: u8 = 0;

pub const RCODE_SERVFAIL: u8 = 2;

// ---- Names ------------------------------------------------------------------------------

/// `s` without final dots.
pub open spec fn without_dots(s: Seq<char>) -> Seq<char>
    decreases s.len(),
{
    if s.len() > 0 && s.last() == '.' {
        without_dots(s.drop_last())
    } else {
        s
    }
}

/// A name as it is looked up.
pub open spec fn record_name(s: Seq<char>) -> Seq<char> {
    crate::text::lower(without_dots(s))
}

pub(crate) fn lookup_name(s: &str) -> (r: String)
    ensures
        r@ == record_name(s@),
{
    let c = chars_of(s);
    let mut n: usize = c.len();
    assert(c@.take(c@.len() as int) == c@);
    while n > 0 && c[n - 1] == '.'
        invariant
            c@ == s@,
            n <= c@.len(),
            without_dots(s@) == without_dots(c@.take(n as int)),
        decreases n,
    {
        assert(c@.take(n as int).drop_last() == c@.take(n - 1));
        n -= 1;
    }
    let p = piece(&c, 0, n);
    proof {
        assert(p@ == c@.take(n as int));
        if n > 0 {
            assert(c@.take(n as int).last() == c@[n - 1]);
        }
    }
    to_lower(p.as_str())
}

// ---- Queries ----------------------------------------------------------------------------

/// The question of a query, with the bytes that echo it.
#[derive(Debug)]
pub struct Query {
    pub id: u16,
    /// Recursion is desired.
    pub rd: bool,
    /// Lowercase, without a final dot.
    pub name: String,
    pub qtype: u16,
    pub qclass: u16,
    /// The question section as it came.
    pub question_raw: Vec<u8>,
}

/// What a query says.
#[verifier::ext_equal]
pub struct QueryView {
    pub id: u16,
    pub rd: bool,
    pub name: Seq<char>,
    pub qtype: u16,
    pub qclass: u16,
    pub question: Seq<u8>,
}

impl View for Query {
    type V = QueryView;

    open spec fn view(&self) -> QueryView {
        QueryView {
            id: self.id,
            rd: self.rd,
            name: self.name@,
            qtype: self.qtype,
            qclass: self.qclass,
            question: self.question_raw@,
        }
    }
}

/// The view of an optional query.
pub open spec fn opt_query(o: Option<Query>) -> Option<QueryView> {
    match o {
        Some(q) => Some(q@),
        None => None,
    }
}

/// The big-endian number in two bytes.
pub open spec fn u16_at(b: Seq<u8>, i: int) -> u16 {
    (b[i] * 256 + b[i + 1]) as u16
}

/// `name` and the next label behind it.
pub open spec fn dotted(name: Seq<char>, label: Seq<char>) -> Seq<char> {
    if name.len() > 0 {
        name.push('.') + label
    } else {
        label
    }
}

/// The labels from index `i` on, behind `name`, and where they end. Each label
/// is a length below 64 and that many bytes; a zero ends the name. There are no
/// pointers in a question.
pub open spec fn name_at(msg: Seq<u8>, i: int, name: Seq<char>) -> Option<(Seq<char>, int)>
    decreases msg.len() - i,
{
    if i < 0 || i >= msg.len() {
        None
    } else if msg[i] == 0 {
        Some((name, i + 1))
    } else if msg[i] >= 64 || i + 1 + msg[i] > msg.len() {
        None
    } else {
        name_at(
            msg,
            i + 1 + msg[i],
            dotted(name, bytes_text(msg.subrange(i + 1, i + 1 + msg[i]))),
        )
    }
}

/// The query in a message: a header of twelve bytes without the response bit
/// and with a question, then the question. Its name is in the form in which names
/// are looked up, whatever dots its labels hold.
pub open spec fn query_of(msg: Seq<u8>) -> Option<QueryView> {
    if msg.len() < 12 || msg[2] >= 128 || u16_at(msg, 4) < 1 {
        None
    } else {
        match name_at(msg, 12, Seq::empty()) {
            None => None,
            Some((name, i)) => if i + 4 > msg.len() {
                None
            } else {
                Some(
                    QueryView {
                        id: u16_at(msg, 0),
                        rd: msg[2] % 2 == 1,
                        name: record_name(name),
                        qtype: u16_at(msg, i),
                        qclass: u16_at(msg, i + 2),
                        question: msg.subrange(12, i + 4),
                    },
                )
            },
        }
    }
}

fn number_at(b: &[u8], i: usize) -> (r: u16)
    requires
        i + 2 <= b@.len(),
    ensures
        r == u16_at(b@, i as int),
{
    b[i] as u16 * 256 + b[i + 1] as u16
}

fn read_name(msg: &[u8], from: usize) -> (r: Option<(String, usize)>)
    requires
        from <= msg@.len(),
    ensures
        match r {
            Some((n, end)) => name_at(msg@, from as int, Seq::empty()) == Some((n@, end as int))
                && from < end <= msg@.len(),
            None => name_at(msg@, from as int, Seq::empty()) is None,
        },
{
    let mut i: usize = from;
    let mut name = String::new();
    loop
        invariant
            from <= i <= msg@.len(),
            name_at(msg@, from as int, Seq::empty()) == name_at(msg@, i as int, name@),
        decreases msg@.len() - i,
    {
        if i >= msg.len() {
            return None;
        }
        let len: usize = msg[i] as usize;
        if len == 0 {
            return Some((name, i + 1));
        }
        if len >= 64 || msg.len() - i - 1 < len {
            return None;
        }
        let label = lossy(slice_subrange(msg, i + 1, i + 1 + len));
        let ghost before = name@;
        if !name.as_str().is_empty() {
            name.push('.');
        }
        name.append(label.as_str());
        assert(name@ == dotted(before, label@)) by {
            if before.len() == 0 {
                assert(before + label@ == label@);
            }
        }
        i += 1 + len;
    }
}

/// Reads a query; `None` on anything malformed, on a response, and on a message
/// without a question.
pub fn parse_query(msg: &[u8]) -> (r: Option<Query>)
    ensures
        opt_query(r) == query_of(msg@),
{
    if msg.len() < 12 {
        return None;
    }
    if msg[2] >= 128 {
        return None;
    }
    if number_at(msg, 4) < 1 {
        return None;
    }
    match read_name(msg, 12) {
        None => None,
        Some((name, i)) => {
            if msg.len() - i < 4 {
                return None;
            }
            let mut question_raw: Vec<u8> = Vec::new();
            question_raw.extend_from_slice(slice_subrange(msg, 12, i + 4));
            assert(question_raw@ == msg@.subrange(12, i + 4));
            Some(
                Query {
                    id: number_at(msg, 0),
                    rd: msg[2] % 2 == 1,
                    name: lookup_name(name.as_str()),
                    qtype: number_at(msg, i),
                    qclass: number_at(msg, i + 2),
                    question_raw,
                },
            )
        },
    }
}

// ---- Responses --------------------------------------------------------------------------

/// One label on the wire: its length in one byte, then its bytes.
pub open spec fn label_bytes(label: Seq<char>) -> Seq<u8> {
    seq![(encode_utf8(label).len() % 256) as u8] + encode_utf8(label)
}

/// The first `n` labels on the wire; empty ones are left out.
pub open spec fn labels_bytes(labels: Seq<Seq<char>>, n: int) -> Seq<u8>
    decreases n,
{
    if n <= 0 {
        Seq::<u8>::empty()
    } else if labels[n - 1].len() == 0 {
        labels_bytes(labels, n - 1)
    } else {
        labels_bytes(labels, n - 1) + label_bytes(labels[n - 1])
    }
}

/// A name on the wire: its labels and a zero.
pub open spec fn name_bytes(name: Seq<char>) -> Seq<u8> {
    let labels = crate::text::split_on(name, '.');
    labels_bytes(labels, labels.len() as int).push(0u8)
}

/// Writes a name as labels.
pub fn encode_name(name: &str) -> (r: Vec<u8>)
    ensures
        r@ == name_bytes(name@),
{
    let parts = split(name, '.');
    let ghost labels = crate::text::split_on(name@, '.');
    let mut out: Vec<u8> = Vec::new();
    let mut i: usize = 0;
    while i < parts.len()
        invariant
            i <= parts@.len(),
            crate::text::texts(parts@) == labels,
            out@ == labels_bytes(labels, i as int),
        decreases parts@.len() - i,
    {
        assert(labels[i as int] == parts@[i as int]@);
        let label = parts[i].as_str();
        if !label.is_empty() {
            let ghost before = out@;
            let bytes = label.as_bytes();
            out.push((bytes.len() % 256) as u8);
            out.extend_from_slice(bytes);
            assert(out@ == before + label_bytes(label@));
        }
        i += 1;
    }
    out.push(0);
    out
}

/// An answer record.
#[derive(Debug)]
pub enum Answer {
    /// An IPv4 address, as its 32 bits in network order.
    A { ip: u32, ttl: u32 },
    Cname { name: String, ttl: u32 },
}

/// What an answer says.
#[verifier::ext_equal]
pub enum AnswerView {
    A { ip: u32, ttl: u32 },
    Cname { name: Seq<char>, ttl: u32 },
}

impl View for Answer {
    type V = AnswerView;

    open spec fn view(&self) -> AnswerView {
        match self {
            Answer::A { ip, ttl } => AnswerView::A { ip: *ip, ttl: *ttl },
            Answer::Cname { name, ttl } => AnswerView::Cname { name: name@, ttl: *ttl },
        }
    }
}

/// The views of a list of answers.
pub open spec fn answer_views(v: Seq<Answer>) -> Seq<AnswerView> {
    v.map_values(|a: Answer| a@)
}

/// A number in two bytes.
#[verifier::opaque]
pub open spec fn two(n: int) -> Seq<u8> {
    seq![(n / 256 % 256) as u8, (n % 256) as u8]
}

/// A number in four bytes.
#[verifier::opaque]
pub open spec fn four(n: int) -> Seq<u8> {
    seq![
        (n / 0x100_0000 % 256) as u8,
        (n / 0x1_0000 % 256) as u8,
        (n / 256 % 256) as u8,
        (n % 256) as u8,
    ]
}

/// The header of a response with one question: response, recursion available,
/// and as given authoritative, recursion desired, code and number of answers.
pub open spec fn header_bytes(id: u16, rd: bool, aa: bool, rcode: u8, ancount: u16) -> Seq<u8> {
    two(id as int) + seq![
        (128 + (if aa {
            4int
        } else {
            0
        }) + (if rd {
            1int
        } else {
            0
        })) as u8,
        (128 + rcode % 16) as u8,
        0,
        1,
    ] + two(ancount as int) + seq![0u8, 0, 0, 0]
}

/// An answer on the wire, its name a pointer to the question's.
pub open spec fn answer_bytes(a: AnswerView) -> Seq<u8> {
    match a {
        AnswerView::A { ip, ttl } => seq![0xc0u8, 0x0c] + two(1) + two(1) + four(ttl as int) + two(
            4,
        ) + four(ip as int),
        AnswerView::Cname { name, ttl } => seq![0xc0u8, 0x0c] + two(5) + two(1) + four(ttl as int)
            + two(name_bytes(name).len() as int) + name_bytes(name),
    }
}

/// The first `n` answers on the wire.
pub open spec fn answers_bytes(v: Seq<AnswerView>, n: int) -> Seq<u8>
    decreases n,
{
    if n <= 0 {
        Seq::<u8>::empty()
    } else {
        answers_bytes(v, n - 1) + answer_bytes(v[n - 1])
    }
}

/// A response: header, the question as it came, answers.
pub open spec fn response_bytes(q: QueryView, answers: Seq<AnswerView>, aa: bool) -> Seq<u8> {
    header_bytes(q.id, q.rd, aa, 0, (answers.len() % 65536) as u16) + q.question + answers_bytes(
        answers,
        answers.len() as int,
    )
}

/// A SERVFAIL response.
pub open spec fn servfail_bytes(q: QueryView) -> Seq<u8> {
    header_bytes(q.id, q.rd, false, 2, 0) + q.question
}

pub fn header(id: u16, rd: bool, aa: bool, rcode: u8, ancount: u16) -> (r: [u8; 12])
    ensures
        r@ == header_bytes(id, rd, aa, rcode, ancount),
{
    let f0: u8 = 128 + (if aa {
        4
    } else {
        0
    }) + (if rd {
        1
    } else {
        0
    });
    let f1: u8 = 128 + rcode % 16;
    let r: [u8; 12] = [
        (id / 256) as u8,
        (id % 256) as u8,
        f0,
        f1,
        0,
        1,
        (ancount / 256) as u8,
        (ancount % 256) as u8,
        0,
        0,
        0,
        0,
    ];
    proof {
        reveal(two);
        assert(r@ == header_bytes(id, rd, aa, rcode, ancount));
    }
    r
}

fn push_two(out: &mut Vec<u8>, n: u16)
    ensures
        final(out)@ == old(out)@ + two(n as int),
{
    let ghost before = out@;
    out.push((n / 256) as u8);
    out.push((n % 256) as u8);
    proof {
        reveal(two);
        assert(out@ == before + two(n as int));
    }
}

fn push_four(out: &mut Vec<u8>, n: u32)
    ensures
        final(out)@ == old(out)@ + four(n as int),
{
    let ghost before = out@;
    out.push((n / 0x100_0000) as u8);
    out.push((n / 0x1_0000 % 256) as u8);
    out.push((n / 256 % 256) as u8);
    out.push((n % 256) as u8);
    proof {
        reveal(four);
        assert(out@ == before + four(n as int));
    }
}

/// Two bytes hold a number up to its remainder by 65536.
proof fn two_wraps(n: int)
    requires
        0 <= n,
    ensures
        two(n % 65536) == two(n),
{
    let r = n % 65536;
    let high = r / 256;
    let low = r % 256;
    let upper = n / 65536 * 256 + high;
    assert(n == 256 * upper + low);
    assert(n / 256 == upper && n % 256 == low);
    assert(upper % 256 == high);
    assert(high % 256 == high);
    reveal(two);
}

/// Pointer, type, class, lifetime and length of an answer.
spec fn answer_head(kind: int, ttl: int, len: int) -> Seq<u8> {
    seq![0xc0u8, 0x0c] + two(kind) + two(1) + four(ttl) + two(len)
}

fn push_answer_head(out: &mut Vec<u8>, kind: u16, ttl: u32, len: u16)
    ensures
        final(out)@ == old(out)@ + answer_head(kind as int, ttl as int, len as int),
{
    let ghost before = out@;
    out.push(0xc0);
    out.push(0x0c);
    push_two(out, kind);
    push_two(out, CLASS_IN);
    push_four(out, ttl);
    push_two(out, len);
    assert(out@ == before + answer_head(kind as int, ttl as int, len as int));
}

fn push_answer(out: &mut Vec<u8>, a: &Answer)
    ensures
        final(out)@ == old(out)@ + answer_bytes(a@),
{
    let ghost before = out@;
    match a {
        Answer::A { ip, ttl } => {
            push_answer_head(out, TYPE_A, *ttl, 4);
            push_four(out, *ip);
        },
        Answer::Cname { name, ttl } => {
            let encoded = encode_name(name.as_str());
            let n: usize = encoded.len();
            push_answer_head(out, TYPE_CNAME, *ttl, (n % 65536) as u16);
            proof {
                two_wraps(n as int);
            }
            out.extend_from_slice(encoded.as_slice());
        },
    }
    assert(out@ == before + answer_bytes(a@));
}

/// Writes a response that echoes the question and holds the answers. `aa` marks
/// it as authoritative.
pub fn build_response(query: &Query, answers: &Vec<Answer>, aa: bool) -> (r: Vec<u8>)
    ensures
        r@ == response_bytes(query@, answer_views(answers@), aa),
{
    let ghost v = answer_views(answers@);
    let mut msg: Vec<u8> = Vec::new();
    let n: usize = answers.len();
    let head = header(query.id, query.rd, aa, RCODE_NOERROR, (n % 65536) as u16);
    msg.extend_from_slice(&head);
    msg.extend_from_slice(query.question_raw.as_slice());
    let ghost start = header_bytes(query.id, query.rd, aa, 0, (n % 65536) as u16)
        + query.question_raw@;
    assert(msg@ == start + answers_bytes(v, 0));
    let mut i: usize = 0;
    while i < n
        invariant
            i <= n,
            n == answers@.len(),
            v == answer_views(answers@),
            msg@ == start + answers_bytes(v, i as int),
        decreases n - i,
    {
        assert(v[i as int] == answers@[i as int]@);
        push_answer(&mut msg, &answers[i]);
        assert(msg@ == start + answers_bytes(v, i + 1));
        i += 1;
    }
    msg
}

/// Writes a response without answers.
pub fn build_empty_noerror(query: &Query, aa: bool) -> (r: Vec<u8>)
    ensures
        r@ == response_bytes(query@, Seq::empty(), aa),
{
    let none: Vec<Answer> = Vec::new();
    assert(answer_views(none@) == Seq::<AnswerView>::empty());
    build_response(query, &none, aa)
}

/// Writes a SERVFAIL response.
pub fn build_servfail(query: &Query) -> (r: Vec<u8>)
    ensures
        r@ == servfail_bytes(query@),
{
    let mut msg: Vec<u8> = Vec::new();
    let head = header(query.id, query.rd, false, RCODE_SERVFAIL, 0);
    msg.extend_from_slice(&head);
    msg.extend_from_slice(query.question_raw.as_slice());
    assert(msg@ == servfail_bytes(query@));
    msg
}

/// A message as it goes over TCP: its length in two bytes, then itself.
pub fn frame(message: &Vec<u8>) -> (r: Vec<u8>)
    ensures
        r@ == two(message@.len() as int) + message@,
{
    let mut out: Vec<u8> = Vec::new();
    let n: usize = message.len();
    push_two(&mut out, (n % 65536) as u16);
    out.extend_from_slice(message.as_slice());
    proof {
        two_wraps(n as int);
    }
    assert(out@ == two(message@.len() as int) + message@);
    out
}

// ---- Laws -------------------------------------------------------------------------------

proof fn without_dots_has_none(s: Seq<char>)
    ensures
        without_dots(s).len() > 0 ==> without_dots(s).last() != '.',
    decreases s.len(),
{
    if s.len() > 0 && s.last() == '.' {
        without_dots_has_none(s.drop_last());
    }
}

/// The name of every query is lowercase and has no final dot.
pub proof fn query_names_are_plain(msg: Seq<u8>)
    ensures
        query_of(msg) matches Some(q) ==> {
            &&& crate::text::lower(q.name) == q.name
            &&& q.name.len() > 0 ==> q.name.last() != '.'
        },
{
    if let Some(q) = query_of(msg) {
        let (name, _end) = name_at(msg, 12, Seq::empty())->0;
        without_dots_has_none(name);
        let d = without_dots(name);
        if d.len() > 0 {
            assert(q.name.last() == crate::text::lower_char(d.last()));
        }
        assert(crate::text::lower(q.name) == q.name);
    }
}

/// A response carries the id and the whole question of its query, and says how
/// many answers follow.
pub proof fn response_echoes_the_question(q: QueryView, answers: Seq<AnswerView>, aa: bool)
    requires
        answers.len() < 65536,
    ensures
        ({
            let r = response_bytes(q, answers, aa);
            &&& u16_at(r, 0) == q.id
            &&& r.subrange(12, 12 + q.question.len() as int) == q.question
            &&& u16_at(r, 6) == answers.len()
        }),
{
    reveal(two);
    let r = response_bytes(q, answers, aa);
    let h = header_bytes(q.id, q.rd, aa, 0, (answers.len() % 65536) as u16);
    assert(h.len() == 12);
    assert(r[0] == h[0] && r[1] == h[1] && r[6] == h[6] && r[7] == h[7]);
    assert(r.subrange(12, 12 + q.question.len() as int) == q.question);
}

/// No response is taken for a query.
pub proof fn responses_are_no_queries(q: QueryView, answers: Seq<AnswerView>, aa: bool)
    ensures
        query_of(response_bytes(q, answers, aa)) is None,
        query_of(servfail_bytes(q)) is None,
{
    reveal(two);
    let h = header_bytes(q.id, q.rd, aa, 0, (answers.len() % 65536) as u16);
    assert(h.len() == 12 && h[2] >= 128);
    assert(response_bytes(q, answers, aa)[2] == h[2]);
    let f = header_bytes(q.id, q.rd, false, 2, 0);
    assert(f.len() == 12 && f[2] >= 128);
    assert(servfail_bytes(q)[2] == f[2]);
}

/// Every label can stand on the wire: one to 63 bytes.
pub open spec fn labels_fit(labels: Seq<Seq<char>>) -> bool {
    forall|i: int|
        0 <= i < labels.len() ==> 1 <= encode_utf8(#[trigger] labels[i]).len() <= 63
            && labels[i].len() >= 1
}

/// What stands before the labels, the first `n` labels, and what stands behind.
spec fn spelled(pre: Seq<u8>, labels: Seq<Seq<char>>, n: int, post: Seq<u8>) -> Seq<u8> {
    pre + labels_bytes(labels, n) + post
}

/// Reading goes over one written label.
proof fn name_reads_label(
    pre: Seq<u8>,
    label: Seq<char>,
    post: Seq<u8>,
    name: Seq<char>,
)
    requires
        1 <= encode_utf8(label).len() <= 63,
    ensures
        name_at(pre + label_bytes(label) + post, pre.len() as int, name) == name_at(
            pre + label_bytes(label) + post,
            (pre.len() + label_bytes(label).len()) as int,
            dotted(name, label),
        ),
{
    let msg = pre + label_bytes(label) + post;
    let i = pre.len() as int;
    let n = encode_utf8(label).len() as int;
    assert(msg[i] == n);
    assert(msg.subrange(i + 1, i + 1 + n) == encode_utf8(label));
    encode_utf8_valid_utf8(label);
    encode_utf8_decode_utf8(label);
}

proof fn name_reads_labels(
    pre: Seq<u8>,
    labels: Seq<Seq<char>>,
    k: int,
    post: Seq<u8>,
)
    requires
        labels_fit(labels),
        0 <= k <= labels.len(),
    ensures
        name_at(
            spelled(pre, labels, labels.len() as int, post),
            pre.len() as int,
            Seq::empty(),
        ) == name_at(
            spelled(pre, labels, labels.len() as int, post),
            (pre.len() + labels_bytes(labels, k).len()) as int,
            crate::text::joined(labels.take(k), '.'),
        ),
    decreases k,
{
    let msg = spelled(pre, labels, labels.len() as int, post);
    if k == 0 {
        assert(labels.take(0) == Seq::<Seq<char>>::empty());
    } else {
        name_reads_labels(pre, labels, k - 1, post);
        let before = labels_bytes(labels, k - 1);
        let l = labels[k - 1];
        let tail = split_tail(labels, k);
        assert(labels_bytes(labels, labels.len() as int) == labels_bytes(labels, k) + tail) by {
            labels_split(labels, k, labels.len() as int);
        }
        assert(msg == (pre + before) + label_bytes(l) + (tail + post));
        let sofar = crate::text::joined(labels.take(k - 1), '.');
        name_reads_label(pre + before, l, tail + post, sofar);
        let t = labels.take(k);
        assert(t.drop_last() == labels.take(k - 1));
        assert(dotted(sofar, l) == crate::text::joined(t, '.')) by {
            if k == 1 {
                assert(t[0] == l);
                assert(labels.take(0) == Seq::<Seq<char>>::empty());
            } else {
                joined_not_empty(labels.take(k - 1));
            }
        }
    }
}

proof fn joined_not_empty(parts: Seq<Seq<char>>)
    requires
        parts.len() >= 1,
        parts[0].len() >= 1,
    ensures
        crate::text::joined(parts, '.').len() > 0,
{
}

/// The labels behind the first `k` on the wire.
spec fn split_tail(labels: Seq<Seq<char>>, k: int) -> Seq<u8> {
    tail_bytes(labels, k, labels.len() as int)
}

spec fn tail_bytes(labels: Seq<Seq<char>>, k: int, n: int) -> Seq<u8>
    decreases n - k,
{
    if n <= k {
        Seq::<u8>::empty()
    } else if labels[n - 1].len() == 0 {
        tail_bytes(labels, k, n - 1)
    } else {
        tail_bytes(labels, k, n - 1) + label_bytes(labels[n - 1])
    }
}

proof fn labels_split(labels: Seq<Seq<char>>, k: int, n: int)
    requires
        0 <= k <= n <= labels.len(),
    ensures
        labels_bytes(labels, n) == labels_bytes(labels, k) + tail_bytes(labels, k, n),
    decreases n,
{
    if n > k {
        labels_split(labels, k, n - 1);
        assert(labels_bytes(labels, n) == labels_bytes(labels, k) + tail_bytes(labels, k, n));
    } else {
        assert(labels_bytes(labels, k) + Seq::<u8>::empty() == labels_bytes(labels, k));
    }
}

/// A name that is written as labels is read back as it was, and reading ends
/// right behind it. Every label must fit on the wire.
pub proof fn written_name_is_read_back(pre: Seq<u8>, name: Seq<char>, post: Seq<u8>)
    requires
        labels_fit(crate::text::split_on(name, '.')),
    ensures
        name_at(pre + name_bytes(name) + post, pre.len() as int, Seq::empty()) == Some(
            (name, (pre.len() + name_bytes(name).len()) as int),
        ),
{
    let labels = crate::text::split_on(name, '.');
    let n = labels.len() as int;
    let rest = seq![0u8] + post;
    let body = labels_bytes(labels, n);
    assert(pre + name_bytes(name) + post == spelled(pre, labels, n, rest));
    name_reads_labels(pre, labels, n, rest);
    assert(labels.take(n) == labels);
    crate::text::split_then_join(name, '.');
    let msg = spelled(pre, labels, n, rest);
    assert(msg[(pre.len() + body.len()) as int] == 0);
}

} // verus!
