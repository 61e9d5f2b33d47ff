//! How tunnels are opened.
use vstd::prelude::*;
use vstd::string::*;
use vstd::utf8::*;

use crate::tunnel::{
    ClientProtocol, InnerProtocol, SniView, Socks5Method, Socks5Reject, TargetView,
};

verus! {

/// The first byte of a connection tells its protocol: 5 is SOCKS 5, and a capital letter begins
/// a method.
pub proof fn clients_speak_socks_or_http(b: u8)
    ensures
        crate::tunnel::client_protocol(b) is Socks5 <==> b == 5,
        crate::tunnel::client_protocol(b) is Http <==> 'A' <= b as char <= 'Z',
{
}

/// The first byte in a tunnel tells its protocol: 22 is a TLS handshake, and a capital letter
/// begins a method.
pub proof fn tunnels_carry_tls_or_http(b: u8)
    ensures
        crate::tunnel::inner_protocol(b) is Tls <==> b == 22,
        crate::tunnel::inner_protocol(b) is Http <==> 'A' <= b as char <= 'Z',
{
}

// ---- CONNECT ------------------------------------------------------------------------------------------

/// A word of a request line.
pub open spec fn is_word(s: Seq<char>) -> bool {
    &&& s.len() > 0
    &&& forall|i: int| 0 <= i < s.len() ==> super::words::is_graphic(#[trigger] s[i])
}

proof fn ends_at(s: Seq<char>, i: int, end: int)
    requires
        0 <= i <= end <= s.len(),
        forall|k: int| i <= k < end ==> super::words::is_graphic(#[trigger] s[k]),
        end < s.len() ==> s[end] == ' ',
    ensures
        crate::tunnel::word_end(s, i) == end,
    decreases end - i,
{
    if i < end {
        assert(super::words::is_graphic(s[i]));
        ends_at(s, i + 1, end);
    }
}

/// A request whose line is `verb authority version` opens a tunnel where the verb is `CONNECT`;
/// it goes to the authority, and to port 443 where that names none.
pub proof fn connect_opens_a_tunnel(
    verb: Seq<char>,
    authority: Seq<char>,
    version: Seq<char>,
    rest: Seq<char>,
)
    requires
        is_word(verb),
        is_word(authority),
        is_word(version),
    ensures
        crate::tunnel::connect_of(
            verb + seq![' '] + authority + seq![' '] + version + seq!['\r', '\n'] + rest,
        ) == (if verb == "CONNECT"@ {
            crate::tunnel::authority_of(authority, 443)
        } else {
            None
        }),
{
    let line = verb + seq![' '] + authority + seq![' '] + version;
    let raw = verb + seq![' '] + authority + seq![' '] + version + seq!['\r', '\n'] + rest;
    let head = line + seq!['\r'];
    assert(super::words::free_of(head, '\n')) by {
        assert forall|i: int| 0 <= i < head.len() implies #[trigger] head[i] != '\n' by {
            let v = verb.len() as int;
            let a = authority.len() as int;
            if i < v {
                assert(head[i] == verb[i]);
            } else if v < i <= v + a {
                assert(head[i] == authority[i - v - 1]);
            } else if v + a + 1 < i < line.len() {
                assert(head[i] == version[i - v - a - 2]);
            }
        }
    }
    assert(raw =~= head + seq!['\n'] + rest);
    super::text::cut_is_at_the_first(head, '\n', rest);
    let i = crate::text::first_from(raw, '\n', 0);
    super::target::first_is_in(raw, '\n', 0);
    assert(raw.take(i) == head);
    assert(raw.take(i).len() == i);
    assert(raw[i - 1] == '\r') by {
        assert(raw.take(i)[i - 1] == head[head.len() - 1]);
    }
    assert(raw.take(i - 1) =~= line);
    let v: int = verb.len() as int;
    let a: int = authority.len() as int;
    assert(line[0] == verb[0]);
    assert forall|k: int| 0 <= k < v implies super::words::is_graphic(#[trigger] line[k]) by {
        assert(line[k] == verb[k]);
    }
    ends_at(line, 0, v);
    assert(line.subrange(0, v) =~= verb);
    assert(line[v] == ' ');
    assert(line[v + 1] == authority[0]);
    assert(super::words::is_graphic(authority[0]));
    assert(crate::text::text_start(line, v + 1) == v + 1);
    assert(crate::text::text_start(line, v) == v + 1);
    assert forall|k: int| v + 1 <= k < v + 1 + a implies super::words::is_graphic(
        #[trigger] line[k],
    ) by {
        assert(line[k] == authority[k - v - 1]);
    }
    ends_at(line, v + 1, v + 1 + a);
    assert(line.subrange(v + 1, v + 1 + a) =~= authority);
}

// ---- SOCKS 5 ------------------------------------------------------------------------------------------

/// A greeting is its number of methods and the methods; the one without authentication is taken
/// where it is offered.
pub proof fn greetings_offer_methods(methods: Seq<u8>, more: Seq<u8>)
    requires
        methods.len() <= 255,
    ensures
        crate::tunnel::socks5_methods(seq![methods.len() as u8] + methods + more) == Some(
            if exists|i: int| 0 <= i < methods.len() && methods[i] == 0 {
                Socks5Method::NoAuth
            } else {
                Socks5Method::Unacceptable
            },
        ),
        forall|n: u8|
            n > methods.len() ==> #[trigger] crate::tunnel::socks5_methods(seq![n] + methods)
                is None,
        crate::tunnel::socks5_methods(Seq::empty()) is None,
{
    let s = seq![methods.len() as u8] + methods + more;
    assert(s.subrange(1, 1 + s[0]) =~= methods);
}

proof fn bytes_of(a: u8, b: u8, c: u8, d: u8, v: u32)
    requires
        v == a * 16777216 + b * 65536 + c * 256 + d,
    ensures
        v / 16777216 == a,
        v / 65536 % 256 == b,
        v / 256 % 256 == c,
        v % 256 == d,
{
}

proof fn four_bytes(a: u8, b: u8, c: u8, d: u8)
    ensures
        crate::tunnel::be_number(seq![a, b, c, d]) == a * 16777216 + b * 65536 + c * 256 + d,
{
    reveal_with_fuel(crate::tunnel::be_number, 5);
    let s = seq![a, b, c, d];
    assert(s.drop_last() =~= seq![a, b, c]);
    assert(s.drop_last().drop_last() =~= seq![a, b]);
    assert(s.drop_last().drop_last().drop_last() =~= seq![a]);
    assert(s.drop_last().drop_last().drop_last().drop_last() =~= Seq::<u8>::empty());
}

/// A request to connect to an IPv4 address goes to that address and to the port behind it.
pub proof fn socks_connects_to_ipv4(
    r: u8,
    a: u8,
    b: u8,
    c: u8,
    d: u8,
    high: u8,
    low: u8,
    more: Seq<u8>,
)
    ensures
        crate::tunnel::socks5_request(seq![5u8, 1, r, 1, a, b, c, d, high, low] + more) == Ok::<
            TargetView,
            Socks5Reject,
        >(
            TargetView { host: super::words::dotted(a, b, c, d), port: (high * 256 + low) as u16 },
        ),
{
    let s = seq![5u8, 1, r, 1, a, b, c, d, high, low] + more;
    assert(s.subrange(4, 8) =~= seq![a, b, c, d]);
    four_bytes(a, b, c, d);
    let v = (a * 16777216 + b * 65536 + c * 256 + d) as u32;
    super::ip::an_ipv4_address_is_shown_and_read(v);
    bytes_of(a, b, c, d, v);
    assert(s[8] == high && s[9] == low);
}

/// A request to connect to a name goes to that name, without case, and to the port behind it.
pub proof fn socks_connects_to_names(r: u8, name: Seq<char>, high: u8, low: u8, more: Seq<u8>)
    requires
        encode_utf8(name).len() <= 255,
    ensures
        crate::tunnel::socks5_request(
            seq![5u8, 1, r, 3, encode_utf8(name).len() as u8] + encode_utf8(name) + seq![high, low]
                + more,
        ) == Ok::<TargetView, Socks5Reject>(
            TargetView { host: super::words::small(name), port: (high * 256 + low) as u16 },
        ),
{
    let b = encode_utf8(name);
    let n: int = b.len() as int;
    let s = seq![5u8, 1, r, 3, b.len() as u8] + b + seq![high, low] + more;
    assert(s.subrange(5, 5 + n) =~= b);
    encode_utf8_valid_utf8(name);
    encode_utf8_decode_utf8(name);
    super::text::case_is_that_of_ascii_letters(name);
    assert(s[5 + n] == high && s[5 + n + 1] == low);
}

/// Eight groups of two bytes.
pub open spec fn paired(b: Seq<u8>) -> Seq<u16> {
    Seq::new(b.len() / 2, |i: int| (b[2 * i] * 256 + b[2 * i + 1]) as u16)
}

proof fn pairs_make_the_number(b: Seq<u8>, n: int)
    requires
        0 <= n,
        2 * n <= b.len(),
    ensures
        crate::tunnel::be_number(b.take(2 * n)) == super::words::number(paired(b.take(2 * n))),
    decreases n,
{
    reveal_with_fuel(crate::tunnel::be_number, 3);
    let t = b.take(2 * n);
    if n > 0 {
        pairs_make_the_number(b, n - 1);
        let p = paired(t);
        let u = b.take(2 * (n - 1));
        assert(t.drop_last().drop_last() =~= u);
        assert(p.len() == n);
        assert(p.take(p.len() - 1) =~= paired(u));
        let x = crate::tunnel::be_number(u);
        let h = t[2 * n - 2];
        let l = t[2 * n - 1];
        assert(p[n - 1] == h * 256 + l);
        assert(crate::tunnel::be_number(t) == (x * 256 + h) * 256 + l);
        assert((x * 256 + h) * 256 + l == x * 65536 + (h * 256 + l)) by (nonlinear_arith);
    } else {
        assert(t =~= Seq::<u8>::empty());
    }
}

/// A request to connect to an IPv6 address goes to that address and to the port behind it.
pub proof fn socks_connects_to_ipv6(r: u8, b: Seq<u8>, high: u8, low: u8, more: Seq<u8>)
    requires
        b.len() == 16,
    ensures
        ({
            let t = crate::tunnel::socks5_request(
                seq![5u8, 1, r, 4] + b + seq![high, low] + more,
            );
            &&& t is Ok
            &&& crate::ip::address(t->Ok_0.host) == Some(
                crate::ip::IpAddr::V6(super::words::number(paired(b)) as u128),
            )
            &&& t->Ok_0.port == high * 256 + low
        }),
{
    let s = seq![5u8, 1, r, 4] + b + seq![high, low] + more;
    assert(s.subrange(4, 20) =~= b);
    pairs_make_the_number(b, 8);
    assert(b.take(16) =~= b);
    super::ip::an_ipv6_address_is_shown_and_read(super::words::number(paired(b)) as u128);
    assert(s[20] == high && s[21] == low);
}

/// Requests of other versions or cut short are malformed, other commands are not supported, and
/// neither are other addresses. Each is told by its own code.
pub proof fn other_socks_requests_are_refused(s: Seq<u8>)
    ensures
        s.len() < 4 || s[0] != 5 ==> crate::tunnel::socks5_request(s) == Err::<
            TargetView,
            Socks5Reject,
        >(Socks5Reject::Malformed),
        s.len() >= 4 && s[0] == 5 && s[1] != 1 ==> crate::tunnel::socks5_request(s) == Err::<
            TargetView,
            Socks5Reject,
        >(Socks5Reject::CommandNotSupported),
        s.len() >= 4 && s[0] == 5 && s[1] == 1 && s[3] != 1 && s[3] != 3 && s[3] != 4
            ==> crate::tunnel::socks5_request(s) == Err::<TargetView, Socks5Reject>(
            Socks5Reject::AddressNotSupported,
        ),
        4 <= s.len() && s[0] == 5 && s[1] == 1 && ((s[3] == 1 && s.len() < 10) || (s[3] == 3 && (
        s.len() < 5 || s.len() < s[4] + 7)) || (s[3] == 4 && s.len() < 22))
            ==> crate::tunnel::socks5_request(s) == Err::<TargetView, Socks5Reject>(
            Socks5Reject::Malformed,
        ),
        crate::tunnel::reject_code(Socks5Reject::Malformed) == 1,
        crate::tunnel::reject_code(Socks5Reject::CommandNotSupported) == 7,
        crate::tunnel::reject_code(Socks5Reject::AddressNotSupported) == 8,
        forall|code: u8| #[trigger]
            crate::tunnel::socks5_reply(code) == seq![5u8, code, 0, 1, 0, 0, 0, 0, 0, 0],
{
}

// ---- The name in a ClientHello ------------------------------------------------------------------------

/// A number as two bytes, the higher one first.
pub open spec fn pair(n: nat) -> Seq<u8> {
    seq![(n / 256) as u8, (n % 256) as u8]
}

/// An extension: its type, its length and what it holds.
pub open spec fn extension(kind: u16, content: Seq<u8>) -> Seq<u8> {
    pair(kind as nat) + pair(content.len()) + content
}

/// Extensions one behind the other.
pub open spec fn extensions(list: Seq<(u16, Seq<u8>)>) -> Seq<u8>
    decreases list.len(),
{
    if list.len() == 0 {
        Seq::empty()
    } else {
        extension(list[0].0, list[0].1) + extensions(list.skip(1))
    }
}

/// What a server name extension holds: a list of one host name.
pub open spec fn server_name(name: Seq<u8>) -> Seq<u8> {
    pair(name.len() + 3) + seq![0u8] + pair(name.len()) + name
}

/// The body of a ClientHello: version and random bytes, then session, suites, compressions and
/// extensions, each behind its length.
pub open spec fn hello_body(
    fixed: Seq<u8>,
    session: Seq<u8>,
    suites: Seq<u8>,
    compressions: Seq<u8>,
    exts: Seq<u8>,
) -> Seq<u8> {
    fixed + (seq![session.len() as u8] + session) + (pair(suites.len()) + suites) + (
    seq![compressions.len() as u8] + compressions) + (pair(exts.len()) + exts)
}

/// A ClientHello in a handshake record of its own.
pub open spec fn hello_record(minor: u8, body: Seq<u8>) -> Seq<u8> {
    seq![22u8, 3, minor] + pair(body.len() + 4) + (seq![1u8, 0] + pair(body.len()) + body)
}

proof fn pairs_are_read(s: Seq<u8>, i: int, n: nat)
    requires
        0 <= i,
        i + 2 <= s.len(),
        n < 65536,
        s[i] == (n / 256) as u8,
        s[i + 1] == (n % 256) as u8,
    ensures
        crate::tunnel::be16(s, i) == n,
{
}

proof fn in_two(s: Seq<u8>, i: int, x: Seq<u8>, y: Seq<u8>)
    requires
        0 <= i,
        i + (x + y).len() <= s.len(),
        s.subrange(i, i + (x + y).len()) == x + y,
    ensures
        s.subrange(i, i + x.len()) == x,
        s.subrange(i + x.len(), i + (x + y).len()) == y,
{
    let t = s.subrange(i, i + (x + y).len());
    assert(t.subrange(0, x.len() as int) =~= x);
    assert(t.subrange(x.len() as int, t.len() as int) =~= y);
    assert(s.subrange(i, i + x.len()) =~= t.subrange(0, x.len() as int));
    assert(s.subrange(i + x.len(), i + (x + y).len()) =~= t.subrange(
        x.len() as int,
        t.len() as int,
    ));
}

proof fn extension_read(s: Seq<u8>, i: int, kind: u16, c: Seq<u8>)
    requires
        0 <= i,
        c.len() < 65536,
        i + extension(kind, c).len() <= s.len(),
        s.subrange(i, i + extension(kind, c).len()) == extension(kind, c),
    ensures
        crate::tunnel::be16(s, i) == kind,
        crate::tunnel::be16(s, i + 2) == c.len(),
        s.subrange(i + 4, i + 4 + c.len()) == c,
{
    let e = extension(kind, c);
    let t = s.subrange(i, i + e.len());
    assert(t[0] == s[i] && t[1] == s[i + 1] && t[2] == s[i + 2] && t[3] == s[i + 3]);
    pairs_are_read(s, i, kind as nat);
    pairs_are_read(s, i + 2, c.len());
    in_two(s, i, pair(kind as nat) + pair(c.len()), c);
}

proof fn name_found(body: Seq<u8>, i: int, list: Seq<(u16, Seq<u8>)>, name: Seq<u8>, end: int)
    requires
        0 <= i,
        forall|k: int| 0 <= k < list.len() ==> (#[trigger] list[k]).0 != 0,
        forall|k: int| 0 <= k < list.len() ==> (#[trigger] list[k]).1.len() < 65536,
        name.len() + 5 < 65536,
        ({
            let tail = extensions(list) + extension(0, server_name(name));
            &&& i + tail.len() <= end <= body.len()
            &&& body.subrange(i, i + tail.len()) == tail
        }),
    ensures
        crate::tunnel::name_in_extensions(body, i, end) == crate::tunnel::name_in(
            server_name(name),
        ),
    decreases list.len(),
{
    let last = extension(0, server_name(name));
    let tail = extensions(list) + last;
    if list.len() == 0 {
        assert(tail =~= last);
        extension_read(body, i, 0, server_name(name));
    } else {
        let (kind, c) = list[0];
        assert(list[0].1.len() < 65536 && list[0].0 != 0);
        let e = extension(kind, c);
        let rest = list.skip(1);
        let next = extensions(rest) + last;
        assert(tail =~= e + next);
        in_two(body, i, e, next);
        extension_read(body, i, kind, c);
        assert forall|k: int| 0 <= k < rest.len() implies (#[trigger] rest[k]).0 != 0 && rest[k].1.len()
            < 65536 by {
            assert(rest[k] == list[k + 1]);
        }
        name_found(body, i + 4 + c.len(), rest, name, end);
    }
}

proof fn name_is_in(name: Seq<char>)
    requires
        encode_utf8(name).len() + 5 < 65536,
    ensures
        crate::tunnel::name_in(server_name(encode_utf8(name))) == SniView::Sni(
            super::words::small(name),
        ),
{
    let b = encode_utf8(name);
    let s = server_name(b);
    pairs_are_read(s, 3, b.len());
    assert(s.subrange(5, 5int + b.len()) =~= b);
    encode_utf8_valid_utf8(name);
    encode_utf8_decode_utf8(name);
    super::text::case_is_that_of_ascii_letters(name);
}

proof fn extensions_are_reached(
    fixed: Seq<u8>,
    session: Seq<u8>,
    suites: Seq<u8>,
    compressions: Seq<u8>,
    exts: Seq<u8>,
)
    requires
        fixed.len() == 34,
        session.len() < 256,
        suites.len() < 65536,
        compressions.len() < 256,
        exts.len() < 65536,
    ensures
        ({
            let body = hello_body(fixed, session, suites, compressions, exts);
            let at = body.len() - exts.len();
            &&& crate::tunnel::name_in_hello(body) == crate::tunnel::name_in_extensions(
                body,
                at,
                body.len() as int,
            )
            &&& 0 <= at
            &&& body.subrange(at, body.len() as int) == exts
        }),
{
    let body = hello_body(fixed, session, suites, compressions, exts);
    let n: int = body.len() as int;
    let at_suites: int = 35int + session.len();
    let at_methods: int = at_suites + 2 + suites.len();
    let at_exts: int = at_methods + 1 + compressions.len();
    assert(n == at_exts + 2 + exts.len());
    assert(body[34] == session.len() as u8);
    assert(body[at_suites] == pair(suites.len())[0] && body[at_suites + 1] == pair(suites.len())[1]);
    pairs_are_read(body, at_suites, suites.len());
    assert(body[at_methods] == compressions.len() as u8);
    assert(body[at_exts] == pair(exts.len())[0] && body[at_exts + 1] == pair(exts.len())[1]);
    pairs_are_read(body, at_exts, exts.len());
    assert(body.subrange(at_exts + 2, n) =~= exts);
}

/// The name of a ClientHello is the one that its first server name extension holds, without
/// case, whatever stands before and behind that extension.
pub proof fn a_hello_names_its_server(
    minor: u8,
    fixed: Seq<u8>,
    session: Seq<u8>,
    suites: Seq<u8>,
    compressions: Seq<u8>,
    before: Seq<(u16, Seq<u8>)>,
    name: Seq<char>,
    after: Seq<u8>,
    more: Seq<u8>,
)
    requires
        fixed.len() == 34,
        session.len() < 256,
        suites.len() < 65536,
        compressions.len() < 256,
        forall|k: int| 0 <= k < before.len() ==> (#[trigger] before[k]).0 != 0,
        forall|k: int| 0 <= k < before.len() ==> (#[trigger] before[k]).1.len() < 65536,
        hello_body(
            fixed,
            session,
            suites,
            compressions,
            extensions(before) + extension(0, server_name(encode_utf8(name))) + after,
        ).len() + 4 < 65536,
    ensures
        crate::tunnel::client_hello_name(
            hello_record(
                minor,
                hello_body(
                    fixed,
                    session,
                    suites,
                    compressions,
                    extensions(before) + extension(0, server_name(encode_utf8(name))) + after,
                ),
            ) + more,
        ) == SniView::Sni(super::words::small(name)),
{
    let b = encode_utf8(name);
    let tail = extensions(before) + extension(0, server_name(b));
    let exts = tail + after;
    let body = hello_body(fixed, session, suites, compressions, exts);
    extensions_are_reached(fixed, session, suites, compressions, exts);
    let at = body.len() - exts.len();
    assert(body.subrange(at, at + tail.len()) =~= tail) by {
        let e = body.subrange(at, body.len() as int);
        assert forall|k: int| 0 <= k < tail.len() implies #[trigger] body[at + k] == tail[k] by {
            assert(e[k] == body[at + k]);
            assert(exts[k] == tail[k]);
        }
    }
    name_found(body, at, before, b, body.len() as int);
    name_is_in(name);
    hello_in_record(minor, body, more);
}

proof fn hello_in_record(minor: u8, body: Seq<u8>, more: Seq<u8>)
    requires
        body.len() + 4 < 65536,
    ensures
        crate::tunnel::client_hello_name(hello_record(minor, body) + more)
            == crate::tunnel::name_in_hello(body),
{
    let inner = seq![1u8, 0] + pair(body.len()) + body;
    let buf = hello_record(minor, body) + more;
    pairs_are_read(buf, 3, body.len() + 4);
    assert(buf.subrange(5, 5int + inner.len()) =~= inner);
    assert(inner.subrange(4, 4int + body.len()) =~= body);
    assert(inner[2] * 256 + inner[3] == body.len());
}

proof fn nothing_found(body: Seq<u8>, i: int, list: Seq<(u16, Seq<u8>)>, end: int)
    requires
        0 <= i,
        forall|k: int| 0 <= k < list.len() ==> (#[trigger] list[k]).0 != 0,
        forall|k: int| 0 <= k < list.len() ==> (#[trigger] list[k]).1.len() < 65536,
        i + extensions(list).len() == end <= body.len(),
        body.subrange(i, end) == extensions(list),
    ensures
        crate::tunnel::name_in_extensions(body, i, end) is NoSni,
    decreases list.len(),
{
    if list.len() > 0 {
        let (kind, c) = list[0];
        assert(list[0].1.len() < 65536 && list[0].0 != 0);
        let e = extension(kind, c);
        let rest = list.skip(1);
        in_two(body, i, e, extensions(rest));
        extension_read(body, i, kind, c);
        assert forall|k: int| 0 <= k < rest.len() implies (#[trigger] rest[k]).0 != 0 && rest[k].1.len()
            < 65536 by {
            assert(rest[k] == list[k + 1]);
        }
        nothing_found(body, i + 4 + c.len(), rest, end);
    }
}

/// A ClientHello without a server name extension names nobody.
pub proof fn a_hello_may_name_nobody(
    minor: u8,
    fixed: Seq<u8>,
    session: Seq<u8>,
    suites: Seq<u8>,
    compressions: Seq<u8>,
    list: Seq<(u16, Seq<u8>)>,
    more: Seq<u8>,
)
    requires
        fixed.len() == 34,
        session.len() < 256,
        suites.len() < 65536,
        compressions.len() < 256,
        forall|k: int| 0 <= k < list.len() ==> (#[trigger] list[k]).0 != 0,
        forall|k: int| 0 <= k < list.len() ==> (#[trigger] list[k]).1.len() < 65536,
        hello_body(fixed, session, suites, compressions, extensions(list)).len() + 4 < 65536,
    ensures
        crate::tunnel::client_hello_name(
            hello_record(
                minor,
                hello_body(fixed, session, suites, compressions, extensions(list)),
            ) + more,
        ) is NoSni,
{
    let exts = extensions(list);
    let body = hello_body(fixed, session, suites, compressions, exts);
    extensions_are_reached(fixed, session, suites, compressions, exts);
    nothing_found(body, body.len() - exts.len(), list, body.len() as int);
    hello_in_record(minor, body, more);
}

/// A record is waited for until it is whole, and one of another kind is no handshake.
pub proof fn records_are_waited_for(buf: Seq<u8>)
    ensures
        buf.len() < 5 ==> crate::tunnel::client_hello_name(buf) is Incomplete,
        buf.len() >= 5 && buf[0] != 22 ==> crate::tunnel::client_hello_name(buf) is NotTls,
        buf.len() >= 5 && buf[0] == 22 ==> (crate::tunnel::client_hello_name(buf) is Incomplete
            <==> buf.len() < 5 + buf[3] * 256 + buf[4]),
{
    if buf.len() >= 5 && buf[0] == 22 && buf.len() >= 5 + buf[3] * 256 + buf[4] {
        let record = buf.subrange(5, 5 + crate::tunnel::be16(buf, 3));
        if record.len() >= 4 && record[0] == 1 {
            let len = record[1] * 65536 + record[2] * 256 + record[3];
            if record.len() >= 4 + len {
                whole_is_decided(record.subrange(4, 4 + len));
            }
        }
    }
}

proof fn whole_is_decided(body: Seq<u8>)
    ensures
        !(crate::tunnel::name_in_hello(body) is Incomplete),
{
    let n = body.len() as int;
    if n > 34 {
        let suites = 35 + body[34];
        if suites + 2 <= n {
            let methods = suites + 2 + crate::tunnel::be16(body, suites);
            if methods < n {
                let exts = methods + 1 + body[methods];
                if exts + 2 <= n {
                    let end = exts + 2 + crate::tunnel::be16(body, exts);
                    scan_is_decided(
                        body,
                        exts + 2,
                        if end <= n {
                            end
                        } else {
                            n
                        },
                    );
                }
            }
        }
    }
}

proof fn scan_is_decided(body: Seq<u8>, i: int, end: int)
    ensures
        !(crate::tunnel::name_in_extensions(body, i, end) is Incomplete),
    decreases
            if i < end {
                end - i
            } else {
                0
            },
{
    if i >= 0 && i + 4 <= end {
        let len = crate::tunnel::be16(body, i + 2);
        if i + 4 + len <= body.len() && crate::tunnel::be16(body, i) != 0 {
            scan_is_decided(body, i + 4 + len, end);
        }
    }
}

proof fn line_is(line: Seq<char>, rest: Seq<char>)
    requires
        line.len() > 0,
        super::words::free_of(line, '\n'),
        line[line.len() - 1] != '\r',
    ensures
        crate::tunnel::first_line(line) == Some(line),
        crate::tunnel::first_line(line + seq!['\n'] + rest) == Some(line),
        crate::tunnel::first_line(line + seq!['\r', '\n'] + rest) == Some(line),
{
    let head = line + seq!['\r'];
    assert(super::words::free_of(head, '\n'));
    let plain = line + seq!['\n'] + rest;
    let raw = line + seq!['\r', '\n'] + rest;
    assert(raw =~= head + seq!['\n'] + rest);
    super::text::cut_is_at_the_first(head, '\n', rest);
    super::text::cut_is_at_the_first(line, '\n', rest);
    super::target::first_is_in(raw, '\n', 0);
    super::target::first_is_in(plain, '\n', 0);
    super::target::first_is_in(line, '\n', 0);
    let i = crate::text::first_from(raw, '\n', 0);
    assert(raw.take(i) == head && raw.take(i).len() == i);
    assert(raw[i - 1] == '\r') by {
        assert(raw.take(i)[i - 1] == head[head.len() - 1]);
    }
    assert(raw.take(i - 1) =~= line);
    let j = crate::text::first_from(plain, '\n', 0);
    assert(plain.take(j) == line && plain.take(j).len() == j);
    assert(plain[j - 1] == line[line.len() - 1]) by {
        assert(plain.take(j)[j - 1] == line[line.len() - 1]);
    }
}

/// Of a request that opens a tunnel only its first line counts, however that line ends.
pub proof fn the_first_line_counts(line: Seq<char>, rest: Seq<char>)
    requires
        line.len() > 0,
        super::words::free_of(line, '\n'),
        line[line.len() - 1] != '\r',
    ensures
        crate::tunnel::connect_of(line + seq!['\n'] + rest) == crate::tunnel::connect_of(line),
        crate::tunnel::connect_of(line + seq!['\r', '\n'] + rest) == crate::tunnel::connect_of(
            line,
        ),
        crate::tunnel::connect_of(Seq::empty()) is None,
{
    line_is(line, rest);
}

/// A server name of another kind than a host name, one that is cut short, and one that is no
/// text are no names.
pub proof fn other_server_names_are_none(ext: Seq<u8>)
    requires
        ext.len() < 5 || ext[2] != 0 || ext.len() < 5 + ext[3] * 256 + ext[4] || !valid_utf8(
            ext.subrange(5, 5 + ext[3] * 256 + ext[4]),
        ),
    ensures
        crate::tunnel::name_in(ext) is NoSni,
{
}

} // verus!
