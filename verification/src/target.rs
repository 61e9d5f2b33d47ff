//! Where a request is for: the head of a request, the host it names, and what
//! is refused before anything else is asked.
use vstd::prelude::*;
use vstd::string::*;
use vstd::utf8::*;

use crate::summary::HeaderView;
use crate::text::{
    bytes_text, chars_of, eq_caseless, first_index, lossy, piece, rsplit_once, same, split,
    strip_prefix, to_lower, trim,
};
use crate::tunnel::{holds_char, parse_port, port_of, ConnectTarget, TargetView};

verus! {

// ---- Host and port ------------------------------------------------------------------------------

/// Lowercase host and, where there is one, port of a `host[:port]` text. An IPv6
/// literal stands in brackets, or is taken whole; what is no number is no port.
pub open spec fn host_port_of(text: Seq<char>) -> (Seq<char>, Option<u16>) {
    let s = crate::text::trimmed(text);
    let rest = s.skip(1);
    let end = crate::text::first_from(rest, ']', 0);
    if crate::text::begins(s, "["@) && end < rest.len() {
        let after = rest.skip(end + 1);
        (
            crate::text::lower(rest.take(end)),
            if crate::text::begins(after, ":"@) {
                port_of(after.skip(1))
            } else {
                None
            },
        )
    } else {
        match crate::text::cut_last(s, ':') {
            Some((h, p)) if !h.contains(':') => (crate::text::lower(h), port_of(p)),
            _ => (crate::text::lower(s), None),
        }
    }
}

/// Splits `host[:port]`.
pub fn split_host_port(text: &str) -> (r: (String, Option<u16>))
    ensures
        (r.0@, r.1) == host_port_of(text@),
{
    proof {
        reveal_strlit("[");
        reveal_strlit(":");
    }
    let s = trim(text);
    if let Some(rest) = strip_prefix(s.as_str(), "[") {
        let c = chars_of(rest.as_str());
        let end: usize = first_index(&c, ']', 0);
        assert(rest@ == s@.skip(1));
        if end < c.len() {
            let inside = piece(&c, 0, end);
            let after = piece(&c, end + 1, c.len());
            assert(inside@ == rest@.take(end as int));
            assert(after@ == rest@.skip(end + 1));
            let port: Option<u16> = match strip_prefix(after.as_str(), ":") {
                Some(p) => {
                    assert(p@ == after@.skip(1));
                    parse_port(p.as_str())
                },
                None => None,
            };
            return (to_lower(inside.as_str()), port);
        }
    }
    match rsplit_once(s.as_str(), ':') {
        Some((h, p)) => {
            if holds_char(h.as_str(), ':') {
                (to_lower(s.as_str()), None)
            } else {
                (to_lower(h.as_str()), parse_port(p.as_str()))
            }
        },
        None => (to_lower(s.as_str()), None),
    }
}

// ---- Dot segments ---------------------------------------------------------------------------------

/// The value of a hexadecimal digit.
pub open spec fn hex_byte(b: u8) -> Option<u8> {
    if 48 <= b <= 57 {
        Some((b - 48) as u8)
    } else if 65 <= b <= 70 {
        Some((b - 55) as u8)
    } else if 97 <= b <= 102 {
        Some((b - 87) as u8)
    } else {
        None
    }
}

/// The byte that two hexadecimal digits behind a percent sign stand for.
pub open spec fn escaped(a: u8, b: u8) -> Option<u8> {
    match (hex_byte(a), hex_byte(b)) {
        (Some(x), Some(y)) => Some((x * 16 + y) as u8),
        _ => None,
    }
}

/// The escape at an index, if there is one.
pub open spec fn escape_at(s: Seq<u8>, i: int) -> Option<u8> {
    if s[i] == 37 && i + 2 < s.len() {
        escaped(s[i + 1], s[i + 2])
    } else {
        None
    }
}

/// The bytes from index `i` on with their escapes resolved; what is no escape
/// stays as it is.
pub open spec fn percent_decoded(s: Seq<u8>, i: int) -> Seq<u8>
    decreases s.len() - i,
{
    if i < 0 || i >= s.len() {
        Seq::<u8>::empty()
    } else {
        match escape_at(s, i) {
            Some(b) => seq![b] + percent_decoded(s, i + 3),
            None => seq![s[i]] + percent_decoded(s, i + 1),
        }
    }
}

fn hex_of_byte(b: u8) -> (r: Option<u8>)
    ensures
        r == hex_byte(b),
        r matches Some(v) ==> v < 16,
{
    if 48 <= b && b <= 57 {
        Some(b - 48)
    } else if 65 <= b && b <= 70 {
        Some(b - 55)
    } else if 97 <= b && b <= 102 {
        Some(b - 87)
    } else {
        None
    }
}

fn unescape(a: u8, b: u8) -> (r: Option<u8>)
    ensures
        r == escaped(a, b),
{
    match (hex_of_byte(a), hex_of_byte(b)) {
        (Some(x), Some(y)) => Some(x * 16 + y),
        _ => None,
    }
}

/// Resolves the escapes of a path segment.
pub fn percent_decode(segment: &str) -> (r: Vec<u8>)
    ensures
        r@ == percent_decoded(encode_utf8(segment@), 0),
{
    let bytes = segment.as_bytes();
    let n: usize = bytes.len();
    let ghost s = encode_utf8(segment@);
    let mut out: Vec<u8> = Vec::new();
    let mut i: usize = 0;
    assert(out@ + percent_decoded(s, 0) == percent_decoded(s, 0));
    while i < n
        invariant
            n == bytes@.len(),
            bytes@ == s,
            i <= n,
            out@ + percent_decoded(s, i as int) == percent_decoded(s, 0),
        decreases n - i,
    {
        let ghost before = out@;
        let found: Option<u8> = if bytes[i] == 37 && n - i > 2 {
            unescape(bytes[i + 1], bytes[i + 2])
        } else {
            None
        };
        assert(found == escape_at(s, i as int));
        match found {
            Some(b) => {
                out.push(b);
                assert(before + (seq![b] + percent_decoded(s, i + 3)) == out@ + percent_decoded(
                    s,
                    i + 3,
                ));
                i += 3;
            },
            None => {
                let b: u8 = bytes[i];
                out.push(b);
                assert(before + (seq![b] + percent_decoded(s, i + 1)) == out@ + percent_decoded(
                    s,
                    i + 1,
                ));
                i += 1;
            },
        }
    }
    assert(out@ + percent_decoded(s, i as int) == out@);
    out
}

/// One or two dots.
pub open spec fn is_dots(b: Seq<u8>) -> bool {
    b == seq![46u8] || b == seq![46u8, 46u8]
}

/// Some segment of a path is one or two dots once its escapes are resolved.
pub open spec fn dotted(path: Seq<char>) -> bool {
    exists|j: int|
        0 <= j < crate::text::split_on(path, '/').len() && is_dots(
            percent_decoded(encode_utf8(#[trigger] crate::text::split_on(path, '/')[j]), 0),
        )
}

/// Whether a path has a segment of one or two dots, however it is written.
pub fn has_dot_segment(path: &str) -> (r: bool)
    ensures
        r == dotted(path@),
{
    let parts = split(path, '/');
    let ghost s = crate::text::split_on(path@, '/');
    let mut i: usize = 0;
    while i < parts.len()
        invariant
            i <= parts@.len(),
            s == crate::text::split_on(path@, '/'),
            crate::text::texts(parts@) == s,
            forall|j: int|
                0 <= j < i ==> !is_dots(percent_decoded(encode_utf8(#[trigger] s[j]), 0)),
        decreases parts@.len() - i,
    {
        assert(s[i as int] == parts@[i as int]@);
        let d = percent_decode(parts[i].as_str());
        if d.len() == 1 && d[0] == 46 {
            assert(d@ == seq![46u8]);
            assert(is_dots(percent_decoded(encode_utf8(s[i as int]), 0)));
            return true;
        }
        if d.len() == 2 && d[0] == 46 && d[1] == 46 {
            assert(d@ == seq![46u8, 46u8]);
            assert(is_dots(percent_decoded(encode_utf8(s[i as int]), 0)));
            return true;
        }
        proof {
            assert(!is_dots(d@)) by {
                if d@ == seq![46u8] {
                    assert(d@.len() == 1 && d@[0] == 46);
                }
                if d@ == seq![46u8, 46u8] {
                    assert(d@.len() == 2 && d@[0] == 46 && d@[1] == 46);
                }
            }
        }
        i += 1;
    }
    proof {
        assert(s.len() == parts@.len());
    }
    false
}

// ---- Heads --------------------------------------------------------------------------------------

/// The head of a request as it arrived: the authority of the request target
/// where it has one, its path and query, and the headers with their raw values.
#[derive(Debug)]
pub struct Head {
    pub method: String,
    pub authority: Option<(String, Option<u16>)>,
    pub path: String,
    pub query: String,
    pub headers: Vec<(String, Vec<u8>)>,
}

/// A header with its raw value.
pub type RawHeader = (Seq<char>, Seq<u8>);

/// What a head says.
#[verifier::ext_equal]
pub struct HeadView {
    pub method: Seq<char>,
    pub authority: Option<(Seq<char>, Option<u16>)>,
    pub path: Seq<char>,
    pub query: Seq<char>,
    pub headers: Seq<RawHeader>,
}

/// The views of a list of headers.
pub open spec fn raw_headers(v: Seq<(String, Vec<u8>)>) -> Seq<RawHeader> {
    v.map_values(|p: (String, Vec<u8>)| (p.0@, p.1@))
}

impl View for Head {
    type V = HeadView;

    open spec fn view(&self) -> HeadView {
        HeadView {
            method: self.method@,
            authority: match self.authority {
                Some((h, p)) => Some((h@, p)),
                None => None,
            },
            path: self.path@,
            query: self.query@,
            headers: raw_headers(self.headers@),
        }
    }
}

/// The index of the first header of a name at or after `i`, or the length.
pub open spec fn header_at(h: Seq<RawHeader>, name: Seq<char>, i: int) -> int
    decreases h.len() - i,
{
    if i >= h.len() {
        h.len() as int
    } else if crate::text::same_caseless(h[i].0, name) {
        i
    } else {
        header_at(h, name, i + 1)
    }
}

/// Bytes that can be shown as they are: printable ASCII and tabs.
pub open spec fn is_visible(b: Seq<u8>) -> bool {
    forall|i: int| 0 <= i < b.len() ==> (32 <= #[trigger] b[i] < 127 || b[i] == 9)
}

/// The first value of a name, where it can be shown.
pub open spec fn header_text(h: Seq<RawHeader>, name: Seq<char>) -> Option<Seq<char>> {
    let i = header_at(h, name, 0);
    if i < h.len() && is_visible(h[i].1) {
        Some(bytes_text(h[i].1))
    } else {
        None
    }
}

fn visible(b: &Vec<u8>) -> (r: bool)
    ensures
        r == is_visible(b@),
{
    let mut i: usize = 0;
    while i < b.len()
        invariant
            i <= b@.len(),
            forall|j: int| 0 <= j < i ==> (32 <= #[trigger] b@[j] < 127 || b@[j] == 9),
        decreases b@.len() - i,
    {
        if !((32 <= b[i] && b[i] < 127) || b[i] == 9) {
            return false;
        }
        i += 1;
    }
    true
}

impl Head {
    /// The first value of a header, where it is printable.
    pub fn header(&self, name: &str) -> (r: Option<String>)
        ensures
            crate::text::opt_text(r) == header_text(self@.headers, name@),
    {
        let ghost h = self@.headers;
        let mut i: usize = 0;
        while i < self.headers.len()
            invariant
                i <= self.headers@.len(),
                h == raw_headers(self.headers@),
                header_at(h, name@, 0) == header_at(h, name@, i as int),
            decreases self.headers@.len() - i,
        {
            assert(h[i as int] == (self.headers@[i as int].0@, self.headers@[i as int].1@));
            if eq_caseless(self.headers[i].0.as_str(), name) {
                if visible(&self.headers[i].1) {
                    return Some(lossy(self.headers[i].1.as_slice()));
                }
                return None;
            }
            i += 1;
        }
        None
    }
}

/// The headers with their values as texts.
pub open spec fn shown_headers(h: Seq<RawHeader>) -> Seq<HeaderView> {
    h.map_values(|x: RawHeader| (x.0, bytes_text(x.1)))
}

/// Makes texts of the values.
pub fn header_pairs(v: &Vec<(String, Vec<u8>)>) -> (r: Vec<(String, String)>)
    ensures
        crate::summary::pair_texts(r@) == shown_headers(raw_headers(v@)),
{
    let ghost h = raw_headers(v@);
    let mut out: Vec<(String, String)> = Vec::new();
    let mut i: usize = 0;
    while i < v.len()
        invariant
            i <= v@.len(),
            h == raw_headers(v@),
            out@.len() == i,
            forall|j: int|
                0 <= j < i ==> (#[trigger] out@[j]).0@ == h[j].0 && out@[j].1@ == bytes_text(
                    h[j].1,
                ),
        decreases v@.len() - i,
    {
        assert(h[i as int] == (v@[i as int].0@, v@[i as int].1@));
        out.push((v[i].0.clone(), lossy(v[i].1.as_slice())));
        i += 1;
    }
    assert(crate::summary::pair_texts(out@) == shown_headers(h));
    out
}

/// A WebSocket handshake: a GET that asks for the upgrade.
pub open spec fn asks_websocket(head: HeadView) -> bool {
    &&& head.method == "GET"@
    &&& header_text(head.headers, "upgrade"@) matches Some(u) && crate::text::same_caseless(
        u,
        "websocket"@,
    )
    &&& header_text(head.headers, "connection"@) matches Some(c) && crate::hop::has_token(
        c,
        "upgrade"@,
    )
}

pub fn is_websocket(head: &Head) -> (r: bool)
    ensures
        r == asks_websocket(head@),
{
    if !same(head.method.as_str(), "GET") {
        return false;
    }
    let upgrade: bool = match head.header("upgrade") {
        Some(u) => eq_caseless(u.as_str(), "websocket"),
        None => false,
    };
    let connection: bool = match head.header("connection") {
        Some(c) => crate::hop::lists_token(c.as_str(), "upgrade"),
        None => false,
    };
    upgrade && connection
}

// ---- Targets ------------------------------------------------------------------------------------

/// What a request is for.
#[derive(Debug)]
pub struct Target {
    pub host: String,
    pub port: u16,
    pub path: String,
    pub query: String,
}

/// What a target says.
#[verifier::ext_equal]
pub struct RequestTarget {
    pub host: Seq<char>,
    pub port: u16,
    pub path: Seq<char>,
    pub query: Seq<char>,
}

impl View for Target {
    type V = RequestTarget;

    open spec fn view(&self) -> RequestTarget {
        RequestTarget { host: self.host@, port: self.port, path: self.path@, query: self.query@ }
    }
}

/// Why a request has no target; the host where one was seen.
#[derive(Debug)]
pub enum TargetError {
    Bad { reason: &'static str, host: String },
}

/// What a target error says: the reason and the host.
pub type BadTarget = (Seq<char>, Seq<char>);

impl View for TargetError {
    type V = BadTarget;

    open spec fn view(&self) -> BadTarget {
        match self {
            TargetError::Bad { reason, host } => (reason@, host@),
        }
    }
}

/// A port, or the default.
pub open spec fn or_port(p: Option<u16>, default_port: u16) -> u16 {
    match p {
        Some(n) => n,
        None => default_port,
    }
}

/// Host and port that a head names. Where the request target and the `Host`
/// header both name a host they must agree, ports aside. An empty host is none.
pub open spec fn named_host(head: HeadView, default_port: u16) -> Result<
    (Seq<char>, u16),
    BadTarget,
> {
    let header = header_text(head.headers, "host"@);
    match head.authority {
        Some((ah, ap)) => {
            let host = crate::text::lower(ah);
            if header is Some && host_port_of(header.unwrap()).0 != host {
                Err(("request-target authority disagrees with Host header"@, host))
            } else if host.len() == 0 {
                Err(("missing or empty Host / authority"@, Seq::empty()))
            } else {
                Ok((host, or_port(ap, default_port)))
            }
        },
        None => match header {
            Some(t) if host_port_of(t).0.len() > 0 => Ok(
                (host_port_of(t).0, or_port(host_port_of(t).1, default_port)),
            ),
            _ => Err(("missing or empty Host / authority"@, Seq::empty())),
        },
    }
}

/// The target that a head names.
pub open spec fn extracted(head: HeadView, default_port: u16) -> Result<RequestTarget, BadTarget> {
    match named_host(head, default_port) {
        Err(e) => Err(e),
        Ok((host, port)) => Ok(
            RequestTarget { host, port, path: head.path, query: head.query },
        ),
    }
}

/// Takes the target out of a head.
pub fn extract_target(head: &Head, default_port: u16) -> (r: Result<Target, TargetError>)
    ensures
        match r {
            Ok(t) => extracted(head@, default_port) == Ok::<RequestTarget, BadTarget>(t@),
            Err(e) => extracted(head@, default_port) == Err::<RequestTarget, BadTarget>(e@),
        },
{
    let header = head.header("host");
    let (host, port): (String, u16) = match &head.authority {
        Some((ah, ap)) => {
            let host = to_lower(ah.as_str());
            if let Some(t) = &header {
                let (named, _p): (String, Option<u16>) = split_host_port(t.as_str());
                if !same(named.as_str(), host.as_str()) {
                    return Err(
                        TargetError::Bad {
                            reason: "request-target authority disagrees with Host header",
                            host,
                        },
                    );
                }
            }
            let c = chars_of(host.as_str());
            if c.len() == 0 {
                assert(host@ == Seq::<char>::empty());
                return Err(
                    TargetError::Bad { reason: "missing or empty Host / authority", host },
                );
            }
            let port: u16 = match ap {
                Some(n) => *n,
                None => default_port,
            };
            (host, port)
        },
        None => {
            let mut found: Option<(String, u16)> = None;
            if let Some(t) = &header {
                let (named, p): (String, Option<u16>) = split_host_port(t.as_str());
                let c = chars_of(named.as_str());
                if c.len() > 0 {
                    let port: u16 = match p {
                        Some(n) => n,
                        None => default_port,
                    };
                    found = Some((named, port));
                }
            }
            match found {
                Some(x) => x,
                None => {
                    let host = String::new();
                    assert(host@ == Seq::<char>::empty());
                    return Err(
                        TargetError::Bad { reason: "missing or empty Host / authority", host },
                    );
                },
            }
        },
    };
    Ok(Target { host, port, path: head.path.clone(), query: head.query.clone() })
}

/// A target that a head names has a host.
pub proof fn a_target_has_a_host(head: HeadView, default_port: u16)
    ensures
        match extracted(head, default_port) {
            Ok(t) => t.host.len() > 0,
            Err(_) => true,
        },
{
}

/// The target of a request on a connection. In a tunnel it is what the tunnel
/// was opened to; where TLS was terminated, the server name must be the host.
pub open spec fn resolved(
    head: HeadView,
    forced: Option<TargetView>,
    sni: Option<Seq<char>>,
    https: bool,
) -> Result<RequestTarget, BadTarget> {
    match forced {
        Some(t) => Ok(
            RequestTarget { host: t.host, port: t.port, path: head.path, query: head.query },
        ),
        None => match extracted(
            head,
            if https {
                443
            } else {
                80
            },
        ) {
            Err(e) => Err(e),
            Ok(t) => if sni is Some && host_port_of(sni.unwrap()).0 != t.host {
                Err(("SNI does not match Host"@, t.host))
            } else {
                Ok(t)
            },
        },
    }
}

/// Finds the target of a request on a connection.
pub fn resolve_target(
    head: &Head,
    forced: &Option<ConnectTarget>,
    sni: &Option<String>,
    https: bool,
) -> (r: Result<Target, TargetError>)
    ensures
        ({
            let x = resolved(
                head@,
                crate::tunnel::opt_target(*forced),
                crate::text::opt_text(*sni),
                https,
            );
            match r {
                Ok(t) => x == Ok::<RequestTarget, BadTarget>(t@),
                Err(e) => x == Err::<RequestTarget, BadTarget>(e@),
            }
        }),
{
    if let Some(t) = forced {
        return Ok(
            Target {
                host: t.host.clone(),
                port: t.port,
                path: head.path.clone(),
                query: head.query.clone(),
            },
        );
    }
    let default_port: u16 = if https {
        443
    } else {
        80
    };
    let target = match extract_target(head, default_port) {
        Ok(t) => t,
        Err(e) => {
            return Err(e);
        },
    };
    if let Some(name) = sni {
        let (sni_host, _p): (String, Option<u16>) = split_host_port(name.as_str());
        if !same(sni_host.as_str(), target.host.as_str()) {
            return Err(
                TargetError::Bad { reason: "SNI does not match Host", host: target.host },
            );
        }
    }
    Ok(target)
}

// ---- Laws ---------------------------------------------------------------------------------------

/// What stands before does not matter to what is decoded behind it.
proof fn decoding_is_local(x: Seq<u8>, y: Seq<u8>, j: int)
    requires
        0 <= j,
    ensures
        percent_decoded(x + y, x.len() + j) == percent_decoded(y, j),
    decreases y.len() - j,
{
    if j < y.len() {
        let t = x + y;
        let i = x.len() + j;
        assert(t[i] == y[j]);
        if j + 2 < y.len() {
            assert(t[i + 1] == y[j + 1]);
            assert(t[i + 2] == y[j + 2]);
        }
        assert(escape_at(t, i) == escape_at(y, j));
        decoding_is_local(x, y, j + 1);
        if j + 2 < y.len() {
            decoding_is_local(x, y, j + 3);
        }
    }
}

spec fn ascii(t: Seq<char>) -> Seq<u8> {
    t.map_values(|c: char| c as u8)
}

proof fn one_byte_round_trip(b: u8, y: Seq<u8>)
    ensures
        is_ascii_chars(crate::codec::percent_byte(b)),
        percent_decoded(ascii(crate::codec::percent_byte(b)) + y, 0) == seq![b] + percent_decoded(
            y,
            0,
        ),
{
    let e = ascii(crate::codec::percent_byte(b));
    let t = e + y;
    if crate::codec::unreserved(b) {
        assert(e == seq![b]);
        assert(t[0] == b);
        decoding_is_local(e, y, 0);
    } else {
        let hi = crate::codec::upper_hex((b / 16) as nat) as u8;
        let lo = crate::codec::upper_hex((b % 16) as nat) as u8;
        assert(e == seq![37u8, hi, lo]);
        assert(hex_byte(hi) == Some((b / 16) as u8));
        assert(hex_byte(lo) == Some((b % 16) as u8));
        assert(t[0] == 37 && t[1] == hi && t[2] == lo);
        assert((b / 16) * 16 + b % 16 == b);
        assert(escape_at(t, 0) == Some(b));
        decoding_is_local(e, y, 0);
    }
}

proof fn text_round_trip(s: Seq<u8>, y: Seq<u8>)
    ensures
        is_ascii_chars(crate::codec::percent_text(s)),
        percent_decoded(ascii(crate::codec::percent_text(s)) + y, 0) == s + percent_decoded(y, 0),
    decreases s.len(),
{
    let t = crate::codec::percent_text(s);
    if s.len() == 0 {
        assert(ascii(t) + y == y);
        assert(s + percent_decoded(y, 0) == percent_decoded(y, 0));
    } else {
        let front = crate::codec::percent_text(s.drop_last());
        let back = crate::codec::percent_byte(s.last());
        one_byte_round_trip(s.last(), y);
        text_round_trip(s.drop_last(), ascii(back) + y);
        assert(ascii(t) + y == ascii(front) + (ascii(back) + y));
        assert(s + percent_decoded(y, 0) == s.drop_last() + (seq![s.last()] + percent_decoded(
            y,
            0,
        )));
    }
}

/// Resolving the escapes gives back what was escaped.
pub proof fn percent_round_trip(s: Seq<u8>)
    ensures
        percent_decoded(encode_utf8(crate::codec::percent_text(s)), 0) == s,
{
    let t = crate::codec::percent_text(s);
    text_round_trip(s, Seq::empty());
    is_ascii_chars_encode_utf8(t);
    assert(ascii(t) + Seq::<u8>::empty() == encode_utf8(t));
    assert(s + percent_decoded(Seq::<u8>::empty(), 0) == s);
}

/// Outside a tunnel, no request is taken for a host that its `Host` header, its
/// request target or the server name of its TLS session contradicts.
pub proof fn names_of_a_request_agree(
    head: HeadView,
    sni: Option<Seq<char>>,
    https: bool,
)
    requires
        resolved(head, None, sni, https) is Ok,
    ensures
        ({
            let host = resolved(head, None, sni, https)->Ok_0.host;
            &&& head.authority matches Some((a, _)) ==> crate::text::lower(a) == host
            &&& header_text(head.headers, "host"@) matches Some(t) ==> host_port_of(t).0 == host
            &&& sni matches Some(n) ==> host_port_of(n).0 == host
        }),
{
}

/// What a tunnel was opened to decides, whatever the requests in it name.
pub proof fn tunnel_fixes_the_target(
    head: HeadView,
    t: TargetView,
    sni: Option<Seq<char>>,
    https: bool,
)
    ensures
        resolved(head, Some(t), sni, https) matches Ok(x) && x.host == t.host && x.port == t.port,
{
}

} // verus!
