//! The handshakes of the tunnel listener, as bytes: protocol dispatch,
//! `CONNECT`, SOCKS5, and what flows inside a tunnel.
use vstd::prelude::*;
use vstd::slice::slice_subrange;
use vstd::string::*;
use vstd::utf8::*;

use crate::ip::{v4_string, IpAddr};
use crate::text::{
    chars_of, decode, first_index, parse_decimal, piece, rsplit_once, same, space, strip_prefix,
    to_lower,
};

verus! {

// ---- Dispatch ---------------------------------------------------------------------------

/// What a client speaks, by its first byte.
#[derive(Debug, Clone, Copy, PartialEq, Eq, Structural)]
pub enum ClientProtocol {
    Socks5,
    /// An uppercase letter: an HTTP method.
    Http,
    /// The connection is closed.
    Unknown,
}

/// SOCKS5 begins with its version, HTTP with an uppercase letter.
pub open spec fn client_protocol(b: u8) -> ClientProtocol {
    if b == 5 {
        ClientProtocol::Socks5
    } else if 65 <= b <= 90 {
        ClientProtocol::Http
    } else {
        ClientProtocol::Unknown
    }
}

pub fn dispatch(first_byte: u8) -> (r: ClientProtocol)
    ensures
        r == client_protocol(first_byte),
{
    if first_byte == 5 {
        ClientProtocol::Socks5
    } else if 65 <= first_byte && first_byte <= 90 {
        ClientProtocol::Http
    } else {
        ClientProtocol::Unknown
    }
}

// ---- CONNECT ----------------------------------------------------------------------------

/// Where a tunnel leads.
#[derive(Debug, PartialEq, Eq)]
pub struct ConnectTarget {
    pub host: String,
    pub port: u16,
}

/// What a target says.
#[verifier::ext_equal]
pub struct TargetView {
    pub host: Seq<char>,
    pub port: u16,
}

impl View for ConnectTarget {
    type V = TargetView;

    open spec fn view(&self) -> TargetView {
        TargetView { host: self.host@, port: self.port }
    }
}

/// The view of an optional target.
pub open spec fn opt_target(o: Option<ConnectTarget>) -> Option<TargetView> {
    match o {
        Some(t) => Some(t@),
        None => None,
    }
}

impl ConnectTarget {
    pub fn copy(&self) -> (r: ConnectTarget)
        ensures
            r@ == self@,
    {
        ConnectTarget { host: self.host.clone(), port: self.port }
    }

    /// `host:port`.
    pub fn to_text(&self) -> (r: String)
        ensures
            r@ == target_text(self@),
    {
        let mut out = self.host.clone();
        out.push(':');
        out.append(crate::text::number_text(self.port as u64).as_str());
        out
    }
}

/// `host:port`.
pub open spec fn target_text(t: TargetView) -> Seq<char> {
    t.host.push(':') + crate::text::decimal_text(t.port as nat)
}

/// A port number.
pub open spec fn port_of(s: Seq<char>) -> Option<u16> {
    match crate::text::decimal(s, 65535) {
        Some(n) => Some(n as u16),
        None => None,
    }
}

/// Host and port of an authority. An IPv6 literal stands in brackets, or is
/// taken whole where it has none.
pub open spec fn authority_of(a: Seq<char>, default_port: u16) -> Option<TargetView> {
    if crate::text::begins(a, "["@) {
        let rest = a.skip(1);
        let end = crate::text::first_from(rest, ']', 0);
        if end == rest.len() {
            None
        } else {
            let host = crate::text::lower(rest.take(end));
            let after = rest.skip(end + 1);
            if crate::text::begins(after, ":"@) {
                match port_of(after.skip(1)) {
                    Some(port) => Some(TargetView { host, port }),
                    None => None,
                }
            } else {
                Some(TargetView { host, port: default_port })
            }
        }
    } else {
        match crate::text::cut_last(a, ':') {
            Some((h, p)) if !h.contains(':') => match port_of(p) {
                Some(port) => Some(TargetView { host: crate::text::lower(h), port }),
                None => None,
            },
            _ => Some(TargetView { host: crate::text::lower(a), port: default_port }),
        }
    }
}

pub fn parse_port(s: &str) -> (r: Option<u16>)
    ensures
        r == port_of(s@),
{
    match parse_decimal(s, 65535) {
        Some(n) => Some(n as u16),
        None => None,
    }
}

pub fn holds_char(s: &str, c: char) -> (r: bool)
    ensures
        r == s@.contains(c),
{
    let v = chars_of(s);
    let mut i: usize = 0;
    while i < v.len()
        invariant
            v@ == s@,
            i <= v@.len(),
            forall|j: int| 0 <= j < i ==> v@[j] != c,
        decreases v@.len() - i,
    {
        if v[i] == c {
            return true;
        }
        i += 1;
    }
    false
}

/// Splits `host[:port]`.
pub fn split_authority(authority: &str, default_port: u16) -> (r: Option<(String, u16)>)
    ensures
        match r {
            Some((host, port)) => authority_of(authority@, default_port) == Some(
                TargetView { host: host@, port },
            ),
            None => authority_of(authority@, default_port) is None,
        },
{
    proof {
        reveal_strlit("[");
        reveal_strlit(":");
    }
    if let Some(rest) = strip_prefix(authority, "[") {
        let c = chars_of(rest.as_str());
        let end: usize = first_index(&c, ']', 0);
        if end == c.len() {
            return None;
        }
        let inside = piece(&c, 0, end);
        let after = piece(&c, end + 1, c.len());
        assert(inside@ == rest@.take(end as int));
        assert(after@ == rest@.skip(end + 1));
        let host = to_lower(inside.as_str());
        return match strip_prefix(after.as_str(), ":") {
            Some(p) => match parse_port(p.as_str()) {
                Some(port) => Some((host, port)),
                None => None,
            },
            None => Some((host, default_port)),
        };
    }
    match rsplit_once(authority, ':') {
        Some((h, p)) => {
            if holds_char(h.as_str(), ':') {
                Some((to_lower(authority), default_port))
            } else {
                match parse_port(p.as_str()) {
                    Some(port) => Some((to_lower(h.as_str()), port)),
                    None => None,
                }
            }
        },
        None => Some((to_lower(authority), default_port)),
    }
}

/// The first line of a text, without its line ending; none of the empty text.
pub open spec fn first_line(s: Seq<char>) -> Option<Seq<char>> {
    let i = crate::text::first_from(s, '\n', 0);
    if s.len() == 0 {
        None
    } else if i == s.len() {
        Some(s)
    } else if i > 0 && s[i - 1] == '\r' {
        Some(s.take(i - 1))
    } else {
        Some(s.take(i))
    }
}

/// The first index at or after `i` that holds white space, or the length.
pub open spec fn word_end(s: Seq<char>, i: int) -> int
    decreases s.len() - i,
{
    if i >= s.len() {
        s.len() as int
    } else if crate::text::is_space(s[i]) {
        i
    } else {
        word_end(s, i + 1)
    }
}

/// The first word at or after `i`, and where it ends.
pub open spec fn word_from(s: Seq<char>, i: int) -> Option<(Seq<char>, int)> {
    let a = crate::text::text_start(s, i);
    let b = word_end(s, a);
    if a < s.len() {
        Some((s.subrange(a, b), b))
    } else {
        None
    }
}

/// The target of a `CONNECT` request head; port 443 where none is given.
pub open spec fn connect_of(raw: Seq<char>) -> Option<TargetView> {
    match first_line(raw) {
        None => None,
        Some(line) => match word_from(line, 0) {
            None => None,
            Some((verb, end)) => if verb != "CONNECT"@ {
                None
            } else {
                match word_from(line, end) {
                    None => None,
                    Some((authority, _)) => authority_of(authority, 443),
                }
            },
        },
    }
}

fn next_word(c: &Vec<char>, from: usize) -> (r: Option<(String, usize)>)
    requires
        from <= c@.len(),
    ensures
        match r {
            Some((w, end)) => word_from(c@, from as int) == Some((w@, end as int)) && end
                <= c@.len(),
            None => word_from(c@, from as int) is None,
        },
{
    let mut a: usize = from;
    while a < c.len() && space(c[a])
        invariant
            from <= a <= c@.len(),
            crate::text::text_start(c@, from as int) == crate::text::text_start(c@, a as int),
        decreases c@.len() - a,
    {
        a += 1;
    }
    if a == c.len() {
        return None;
    }
    let mut b: usize = a;
    while b < c.len() && !space(c[b])
        invariant
            a <= b <= c@.len(),
            word_end(c@, a as int) == word_end(c@, b as int),
        decreases c@.len() - b,
    {
        b += 1;
    }
    Some((piece(c, a, b), b))
}

/// Reads the target of a `CONNECT` request head.
pub fn parse_connect(raw: &str) -> (r: Option<ConnectTarget>)
    ensures
        opt_target(r) == connect_of(raw@),
{
    let c = chars_of(raw);
    if c.len() == 0 {
        return None;
    }
    let i: usize = first_index(&c, '\n', 0);
    let n: usize = if i < c.len() && i > 0 && c[i - 1] == '\r' {
        i - 1
    } else {
        i
    };
    let line = piece(&c, 0, n);
    proof {
        assert(c@.subrange(0, n as int) == c@.take(n as int));
        assert(c@.take(c@.len() as int) == c@);
    }
    let l = chars_of(line.as_str());
    match next_word(&l, 0) {
        None => None,
        Some((verb, end)) => {
            if !same(verb.as_str(), "CONNECT") {
                return None;
            }
            match next_word(&l, end) {
                None => None,
                Some((authority, _)) => match split_authority(authority.as_str(), 443) {
                    Some((host, port)) => Some(ConnectTarget { host, port }),
                    None => None,
                },
            }
        },
    }
}

// ---- SOCKS5 -----------------------------------------------------------------------------

/// The answer to a SOCKS5 greeting. Only no authentication is offered.
#[derive(Debug, Clone, Copy, PartialEq, Eq, Structural)]
pub enum Socks5Method {
    /// `05 00`.
    NoAuth,
    /// `05 FF`, and the connection is closed.
    Unacceptable,
}

/// The answer to the greeting behind its version byte: a count and that many
/// methods.
pub open spec fn socks5_methods(rest: Seq<u8>) -> Option<Socks5Method> {
    if rest.len() == 0 || rest.len() < 1 + rest[0] {
        None
    } else if rest.subrange(1, 1 + rest[0]).contains(0u8) {
        Some(Socks5Method::NoAuth)
    } else {
        Some(Socks5Method::Unacceptable)
    }
}

pub fn parse_socks5_methods(rest: &[u8]) -> (r: Option<Socks5Method>)
    ensures
        r == socks5_methods(rest@),
{
    if rest.len() == 0 {
        return None;
    }
    let n: usize = rest[0] as usize;
    if rest.len() - 1 < n {
        return None;
    }
    let ghost methods = rest@.subrange(1, 1 + n);
    let mut i: usize = 0;
    while i < n
        invariant
            i <= n,
            1 + n <= rest@.len(),
            n == rest@[0],
            methods == rest@.subrange(1, 1 + n),
            forall|j: int| 0 <= j < i ==> methods[j] != 0,
        decreases n - i,
    {
        assert(methods[i as int] == rest@[1 + i]);
        if rest[1 + i] == 0 {
            assert(methods.contains(0u8));
            return Some(Socks5Method::NoAuth);
        }
        i += 1;
    }
    Some(Socks5Method::Unacceptable)
}

/// Why a SOCKS5 request is refused.
#[derive(Debug, Clone, Copy, PartialEq, Eq, Structural)]
pub enum Socks5Reject {
    /// The command is not CONNECT.
    CommandNotSupported,
    /// The address is no IPv4 address, name or IPv6 address.
    AddressNotSupported,
    Malformed,
}

/// The code of a refusal in the reply.
pub open spec fn reject_code(r: Socks5Reject) -> u8 {
    match r {
        Socks5Reject::CommandNotSupported => 7,
        Socks5Reject::AddressNotSupported => 8,
        Socks5Reject::Malformed => 1,
    }
}

impl Socks5Reject {
    pub fn reply_code(&self) -> (r: u8)
        ensures
            r == reject_code(*self),
    {
        match self {
            Socks5Reject::CommandNotSupported => 7,
            Socks5Reject::AddressNotSupported => 8,
            Socks5Reject::Malformed => 1,
        }
    }
}

/// The big-endian number in two bytes.
pub open spec fn be16(b: Seq<u8>, i: int) -> int {
    b[i] * 256 + b[i + 1]
}

/// The big-endian number in a run of bytes.
pub open spec fn be_number(b: Seq<u8>) -> nat
    decreases b.len(),
{
    if b.len() == 0 {
        0
    } else {
        be_number(b.drop_last()) * 256 + b.last() as nat
    }
}

/// The host that a request names, and where its port stands.
pub open spec fn socks5_host(req: Seq<u8>) -> Result<(Seq<char>, int), Socks5Reject> {
    if req[3] == 1 {
        if req.len() < 8 {
            Err(Socks5Reject::Malformed)
        } else {
            Ok((crate::ip::v4_text(be_number(req.subrange(4, 8)) as u32), 8))
        }
    } else if req[3] == 3 {
        if req.len() < 5 || req.len() < 5 + req[4] || !valid_utf8(req.subrange(5, 5 + req[4])) {
            Err(Socks5Reject::Malformed)
        } else {
            Ok((crate::text::lower(decode_utf8(req.subrange(5, 5 + req[4]))), 5 + req[4]))
        }
    } else if req[3] == 4 {
        if req.len() < 20 {
            Err(Socks5Reject::Malformed)
        } else {
            Ok((crate::ip::v6_text(be_number(req.subrange(4, 20)) as u128), 20))
        }
    } else {
        Err(Socks5Reject::AddressNotSupported)
    }
}

/// The target of a request: version, command, a reserved byte, address type,
/// address, port.
pub open spec fn socks5_request(req: Seq<u8>) -> Result<TargetView, Socks5Reject> {
    if req.len() < 4 || req[0] != 5 {
        Err(Socks5Reject::Malformed)
    } else if req[1] != 1 {
        Err(Socks5Reject::CommandNotSupported)
    } else {
        match socks5_host(req) {
            Err(e) => Err(e),
            Ok((host, at)) => if req.len() < at + 2 {
                Err(Socks5Reject::Malformed)
            } else {
                Ok(TargetView { host, port: be16(req, at) as u16 })
            },
        }
    }
}

/// The bound on a big-endian number of `n` bytes.
spec fn byte_cap(n: int) -> int
    decreases n,
{
    if n <= 0 {
        1
    } else {
        256 * byte_cap(n - 1)
    }
}

proof fn byte_cap_rises(n: int, m: int)
    requires
        0 <= n <= m,
    ensures
        1 <= byte_cap(n) <= byte_cap(m),
    decreases m,
{
    if n < m {
        byte_cap_rises(n, m - 1);
    } else if n > 0 {
        byte_cap_rises(n - 1, m - 1);
    }
}

fn big_endian(b: &[u8]) -> (r: u128)
    requires
        b@.len() <= 16,
    ensures
        r == be_number(b@),
        b@.len() == 4 ==> r <= u32::MAX,
{
    let mut v: u128 = 0;
    let mut i: usize = 0;
    proof {
        assert(b@.take(0) == Seq::<u8>::empty());
        reveal_with_fuel(byte_cap, 17);
        assert(byte_cap(16) == 0x1_0000_0000_0000_0000_0000_0000_0000_0000int);
        assert(byte_cap(4) == 0x1_0000_0000int);
    }
    while i < b.len()
        invariant
            i <= b@.len() <= 16,
            v == be_number(b@.take(i as int)),
            v < byte_cap(i as int),
            byte_cap(16) == 0x1_0000_0000_0000_0000_0000_0000_0000_0000int,
        decreases b@.len() - i,
    {
        proof {
            byte_cap_rises(i + 1, 16);
            assert(b@.take(i + 1).drop_last() == b@.take(i as int));
        }
        v = v * 256 + b[i] as u128;
        i += 1;
    }
    assert(b@.take(b@.len() as int) == b@);
    v
}

fn parse_socks5_host(req: &[u8]) -> (r: Result<(String, usize), Socks5Reject>)
    requires
        req@.len() >= 4,
    ensures
        match r {
            Ok((h, at)) => socks5_host(req@) == Ok::<(Seq<char>, int), Socks5Reject>(
                (h@, at as int),
            ) && at <= req@.len(),
            Err(e) => socks5_host(req@) == Err::<(Seq<char>, int), Socks5Reject>(e),
        },
{
    let atyp: u8 = req[3];
    if atyp == 1 {
        if req.len() < 8 {
            return Err(Socks5Reject::Malformed);
        }
        let v: u128 = big_endian(slice_subrange(req, 4, 8));
        Ok((v4_string(v as u32), 8))
    } else if atyp == 3 {
        if req.len() < 5 {
            return Err(Socks5Reject::Malformed);
        }
        let len: usize = req[4] as usize;
        if req.len() - 5 < len {
            return Err(Socks5Reject::Malformed);
        }
        match decode(slice_subrange(req, 5, 5 + len)) {
            Some(name) => Ok((to_lower(name.as_str()), 5 + len)),
            None => Err(Socks5Reject::Malformed),
        }
    } else if atyp == 4 {
        if req.len() < 20 {
            return Err(Socks5Reject::Malformed);
        }
        let v: u128 = big_endian(slice_subrange(req, 4, 20));
        Ok((IpAddr::V6(v).to_text(), 20))
    } else {
        Err(Socks5Reject::AddressNotSupported)
    }
}

/// Reads the target of a SOCKS5 request.
pub fn parse_socks5_request(req: &[u8]) -> (r: Result<ConnectTarget, Socks5Reject>)
    ensures
        match r {
            Ok(t) => socks5_request(req@) == Ok::<TargetView, Socks5Reject>(t@),
            Err(e) => socks5_request(req@) == Err::<TargetView, Socks5Reject>(e),
        },
{
    if req.len() < 4 || req[0] != 5 {
        return Err(Socks5Reject::Malformed);
    }
    if req[1] != 1 {
        return Err(Socks5Reject::CommandNotSupported);
    }
    let (host, at): (String, usize) = match parse_socks5_host(req) {
        Ok(h) => h,
        Err(e) => {
            return Err(e);
        },
    };
    if req.len() - at < 2 {
        return Err(Socks5Reject::Malformed);
    }
    let port: u16 = req[at] as u16 * 256 + req[at + 1] as u16;
    Ok(ConnectTarget { host, port })
}

/// A reply with a zero address.
pub open spec fn socks5_reply(code: u8) -> Seq<u8> {
    seq![5u8, code, 0, 1, 0, 0, 0, 0, 0, 0]
}

/// The reply of success.
pub const SOCKS5_SUCCESS: [u8; 10] = [5, 0, 0, 1, 0, 0, 0, 0, 0, 0];

/// The reply of a failure.
pub fn socks5_failure(code: u8) -> (r: [u8; 10])
    ensures
        r@ == socks5_reply(code),
{
    let r: [u8; 10] = [5, code, 0, 1, 0, 0, 0, 0, 0, 0];
    assert(r@ == socks5_reply(code));
    r
}

// ---- Inside a tunnel --------------------------------------------------------------------

/// What flows inside a tunnel, by its first byte.
#[derive(Debug, Clone, Copy, PartialEq, Eq, Structural)]
pub enum InnerProtocol {
    /// A TLS handshake record.
    Tls,
    /// An uppercase letter: plain HTTP.
    Http,
    /// The connection is closed.
    Unknown,
}

/// A TLS record of a handshake begins with 22, HTTP with an uppercase letter.
pub open spec fn inner_protocol(b: u8) -> InnerProtocol {
    if b == 22 {
        InnerProtocol::Tls
    } else if 65 <= b <= 90 {
        InnerProtocol::Http
    } else {
        InnerProtocol::Unknown
    }
}

pub fn sniff_inner(first_byte: u8) -> (r: InnerProtocol)
    ensures
        r == inner_protocol(first_byte),
{
    if first_byte == 22 {
        InnerProtocol::Tls
    } else if 65 <= first_byte && first_byte <= 90 {
        InnerProtocol::Http
    } else {
        InnerProtocol::Unknown
    }
}

/// What a scan for the server name of a TLS ClientHello found.
#[derive(Debug, PartialEq, Eq)]
pub enum SniScan {
    /// More bytes are needed to decide.
    Incomplete,
    /// A ClientHello without a server name, or without one that can be seen in
    /// its first record. There is no name to check.
    NoSni,
    /// The server name, in lowercase.
    Sni(String),
    /// No TLS handshake record.
    NotTls,
}

/// What a scan result says.
#[verifier::ext_equal]
pub enum SniView {
    Incomplete,
    NoSni,
    Sni(Seq<char>),
    NotTls,
}

impl View for SniScan {
    type V = SniView;

    open spec fn view(&self) -> SniView {
        match self {
            SniScan::Incomplete => SniView::Incomplete,
            SniScan::NoSni => SniView::NoSni,
            SniScan::Sni(s) => SniView::Sni(s@),
            SniScan::NotTls => SniView::NotTls,
        }
    }
}

/// The name in a server-name extension: list length, type 0, name length, name.
pub open spec fn name_in(ext: Seq<u8>) -> SniView {
    if ext.len() < 5 || ext[2] != 0 || ext.len() < 5 + be16(ext, 3) || !valid_utf8(
        ext.subrange(5, 5 + be16(ext, 3)),
    ) {
        SniView::NoSni
    } else {
        SniView::Sni(crate::text::lower(decode_utf8(ext.subrange(5, 5 + be16(ext, 3)))))
    }
}

/// The name in the extensions between `i` and `end`: each is a type, a length
/// and that many bytes; type 0 holds the server name.
pub open spec fn name_in_extensions(body: Seq<u8>, i: int, end: int) -> SniView
    decreases
            if i < end {
                end - i
            } else {
                0
            },
{
    if i < 0 || i + 4 > end {
        SniView::NoSni
    } else {
        let j = i + 4;
        let len = be16(body, i + 2);
        if j + len > body.len() {
            SniView::NoSni
        } else if be16(body, i) == 0 {
            name_in(body.subrange(j, j + len))
        } else {
            name_in_extensions(body, j + len, end)
        }
    }
}

/// The name in the body of a ClientHello: version, random, session id, cipher
/// suites, compression methods, extensions.
pub open spec fn name_in_hello(body: Seq<u8>) -> SniView {
    let n = body.len() as int;
    if n <= 34 {
        SniView::NotTls
    } else {
        let suites = 35 + body[34];
        if suites + 2 > n {
            SniView::NotTls
        } else {
            let methods = suites + 2 + be16(body, suites);
            if methods >= n {
                SniView::NotTls
            } else {
                let exts = methods + 1 + body[methods];
                if exts + 2 > n {
                    SniView::NoSni
                } else {
                    let end = exts + 2 + be16(body, exts);
                    name_in_extensions(
                        body,
                        exts + 2,
                        if end <= n {
                            end
                        } else {
                            n
                        },
                    )
                }
            }
        }
    }
}

/// The name in a handshake record. A ClientHello that goes on in a later record
/// is not put together.
pub open spec fn name_in_record(record: Seq<u8>) -> SniView {
    if record.len() < 4 || record[0] != 1 {
        SniView::NotTls
    } else {
        let len = record[1] * 65536 + record[2] * 256 + record[3];
        if record.len() < 4 + len {
            SniView::NoSni
        } else {
            name_in_hello(record.subrange(4, 4 + len))
        }
    }
}

/// The name in the first TLS record of a buffer: type 22, version, length.
pub open spec fn client_hello_name(buf: Seq<u8>) -> SniView {
    if buf.len() < 5 {
        SniView::Incomplete
    } else if buf[0] != 22 {
        SniView::NotTls
    } else if buf.len() < 5 + be16(buf, 3) {
        SniView::Incomplete
    } else {
        name_in_record(buf.subrange(5, 5 + be16(buf, 3)))
    }
}

fn two_bytes(b: &[u8], i: usize) -> (r: usize)
    requires
        i + 2 <= b@.len(),
    ensures
        r == be16(b@, i as int),
        r <= 65535,
{
    b[i] as usize * 256 + b[i + 1] as usize
}

fn scan_name(ext: &[u8]) -> (r: SniScan)
    ensures
        r@ == name_in(ext@),
{
    if ext.len() < 5 || ext[2] != 0 {
        return SniScan::NoSni;
    }
    let len: usize = two_bytes(ext, 3);
    if ext.len() - 5 < len {
        return SniScan::NoSni;
    }
    match decode(slice_subrange(ext, 5, 5 + len)) {
        Some(name) => SniScan::Sni(to_lower(name.as_str())),
        None => SniScan::NoSni,
    }
}

fn scan_extensions(body: &[u8], from: usize, end: usize) -> (r: SniScan)
    requires
        from <= end <= body@.len(),
    ensures
        r@ == name_in_extensions(body@, from as int, end as int),
{
    let mut i: usize = from;
    while end >= 4 && i <= end - 4
        invariant
            end <= body@.len(),
            i <= body@.len(),
            name_in_extensions(body@, from as int, end as int) == name_in_extensions(
                body@,
                i as int,
                end as int,
            ),
        decreases body@.len() - i,
    {
        let kind: usize = two_bytes(body, i);
        let len: usize = two_bytes(body, i + 2);
        let j: usize = i + 4;
        if body.len() - j < len {
            return SniScan::NoSni;
        }
        if kind == 0 {
            return scan_name(slice_subrange(body, j, j + len));
        }
        i = j + len;
    }
    SniScan::NoSni
}

fn scan_hello(body: &[u8]) -> (r: SniScan)
    ensures
        r@ == name_in_hello(body@),
{
    let n: usize = body.len();
    if n <= 34 {
        return SniScan::NotTls;
    }
    let suites: usize = 35 + body[34] as usize;
    if n < 2 || suites > n - 2 {
        return SniScan::NotTls;
    }
    let suites_len: usize = two_bytes(body, suites);
    if n - suites - 2 <= suites_len {
        return SniScan::NotTls;
    }
    let methods: usize = suites + 2 + suites_len;
    let methods_len: usize = body[methods] as usize;
    if n - methods < methods_len + 3 {
        return SniScan::NoSni;
    }
    let exts: usize = methods + 1 + methods_len;
    let exts_len: usize = two_bytes(body, exts);
    let end: usize = if n - exts - 2 < exts_len {
        n
    } else {
        exts + 2 + exts_len
    };
    scan_extensions(body, exts + 2, end)
}

/// The server name in the first TLS record of a buffer. Total on any bytes.
pub fn scan_client_hello_sni(buf: &[u8]) -> (r: SniScan)
    ensures
        r@ == client_hello_name(buf@),
{
    if buf.len() < 5 {
        return SniScan::Incomplete;
    }
    if buf[0] != 22 {
        return SniScan::NotTls;
    }
    let len: usize = two_bytes(buf, 3);
    if buf.len() - 5 < len {
        return SniScan::Incomplete;
    }
    let record = slice_subrange(buf, 5, 5 + len);
    if record.len() < 4 || record[0] != 1 {
        return SniScan::NotTls;
    }
    let hello: usize = record[1] as usize * 65536 + record[2] as usize * 256 + record[3] as usize;
    if record.len() - 4 < hello {
        return SniScan::NoSni;
    }
    scan_hello(slice_subrange(record, 4, 4 + hello))
}

/// Once the scan has decided, further bytes change nothing.
pub proof fn scan_is_stable(buf: Seq<u8>, more: Seq<u8>)
    requires
        client_hello_name(buf) != SniView::Incomplete,
    ensures
        client_hello_name(buf + more) == client_hello_name(buf),
{
    let all = buf + more;
    if buf[0] == 22 {
        assert(be16(all, 3) == be16(buf, 3));
        assert(all.subrange(5, 5 + be16(all, 3)) == buf.subrange(5, 5 + be16(buf, 3)));
    }
}

/// With a whole record in the buffer the scan always decides.
pub proof fn scan_decides_on_a_record(buf: Seq<u8>)
    requires
        buf.len() >= 5,
        buf.len() >= 5 + be16(buf, 3),
    ensures
        client_hello_name(buf) != SniView::Incomplete,
{
    let record = buf.subrange(5, 5 + be16(buf, 3));
    if buf[0] == 22 && record.len() >= 4 && record[0] == 1 {
        let len = record[1] * 65536 + record[2] * 256 + record[3];
        if record.len() >= 4 + len {
            let body = record.subrange(4, 4 + len);
            let n = body.len() as int;
            if n > 34 {
                let suites = 35 + body[34];
                let methods = suites + 2 + be16(body, suites);
                let exts = methods + 1 + body[methods];
                let end = exts + 2 + be16(body, exts);
                extensions_decide(
                    body,
                    exts + 2,
                    if end <= n {
                        end
                    } else {
                        n
                    },
                );
            }
        }
    }
}

proof fn extensions_decide(body: Seq<u8>, i: int, end: int)
    ensures
        name_in_extensions(body, i, end) != SniView::Incomplete,
    decreases
            if i < end {
                end - i
            } else {
                0
            },
{
    if i >= 0 && i + 4 <= end {
        extensions_decide(body, i + 4 + be16(body, i + 2), end);
    }
}

} // verus!
