//! Where a request goes.
use vstd::prelude::*;
use vstd::string::*;
use vstd::utf8::*;

use crate::target::{HeadView, RawHeader, RequestTarget};
use crate::tunnel::TargetView;

verus! {

/// A host name: printable, without `:` and not in brackets.
pub open spec fn is_name(h: Seq<char>) -> bool {
    &&& h.len() > 0
    &&& h[0] != '['
    &&& super::words::free_of(h, ':')
    &&& forall|i: int| 0 <= i < h.len() ==> super::words::is_graphic(#[trigger] h[i])
}

/// An IPv6 address as it stands in brackets: printable and without brackets.
pub open spec fn is_inner(h: Seq<char>) -> bool {
    &&& super::words::free_of(h, ']')
    &&& forall|i: int| 0 <= i < h.len() ==> super::words::is_graphic(#[trigger] h[i])
}

proof fn one_char(c: char, s: Seq<char>)
    ensures
        crate::text::occurs_at(s, seq![c], 0) == (s.len() > 0 && s[0] == c),
{
    super::text::occurring_is_standing(s, seq![c], 0);
    let one = seq![c];
    if s.len() > 0 && s[0] == c {
        assert forall|k: int| 0 <= k < one.len() implies s[0 + k] == #[trigger] one[k] by {}
    }
    if super::words::stands(s, one, 0) {
        assert(s[0int + 0int] == one[0]);
    }
}

proof fn brackets()
    ensures
        "["@ == seq!['['],
        ":"@ == seq![':'],
{
    reveal_strlit("[");
    reveal_strlit(":");
    assert("["@ =~= seq!['[']);
    assert(":"@ =~= seq![':']);
}

proof fn kept_whole(s: Seq<char>)
    requires
        s.len() > 0 ==> super::words::is_graphic(s[0]) && super::words::is_graphic(s[s.len() - 1]),
    ensures
        crate::text::trimmed(s) == s,
{
    let e = Seq::<char>::empty();
    super::text::blanks_are_trimmed(e, s, e);
    assert(e + s + e =~= s);
}

/// A port is a decimal number below 65536.
pub proof fn ports_are_numbers(n: nat)
    ensures
        crate::tunnel::port_of(super::words::written(n)) == (if n < 65536 {
            Some(n as u16)
        } else {
            None
        }),
{
    super::text::numbers_are_decimal(n, 65535);
}

proof fn in_brackets(h: Seq<char>, after: Seq<char>)
    requires
        is_inner(h),
    ensures
        ({
            let s = seq!['['] + h + seq![']'] + after;
            &&& s.skip(1) == h + seq![']'] + after
            &&& crate::text::first_from(s.skip(1), ']', 0) == h.len()
            &&& s.skip(1).take(h.len() as int) == h
            &&& s.skip(1).skip(h.len() + 1int) == after
        }),
{
    let s = seq!['['] + h + seq![']'] + after;
    assert(s.skip(1) =~= h + seq![']'] + after);
    super::text::cut_is_at_the_first(h, ']', after);
    let r = s.skip(1);
    let i = crate::text::first_from(r, ']', 0);
    assert(i < r.len());
    assert(r.take(i) == h);
    assert(r.take(i).len() == i) by {
        first_is_in(r, ']', 0);
    }
    assert(r.skip(h.len() + 1int) =~= after);
}

pub(crate) proof fn first_is_in(s: Seq<char>, c: char, i: int)
    requires
        0 <= i <= s.len(),
    ensures
        i <= crate::text::first_from(s, c, i) <= s.len(),
    decreases s.len() - i,
{
    if i < s.len() && s[i] != c {
        first_is_in(s, c, i + 1);
    }
}

/// The host of a `Host` header is what stands before the port, without case, and an IPv6
/// address stands in brackets; the port is the number behind the last colon.
pub proof fn hosts_and_ports_are_told_apart(h: Seq<char>, six: Seq<char>, port: u16)
    requires
        is_name(h),
        is_inner(six),
    ensures
        crate::target::host_port_of(h) == (super::words::small(h), None::<u16>),
        crate::target::host_port_of(h + seq![':'] + super::words::written(port as nat)) == (
            super::words::small(h),
            Some(port),
        ),
        crate::target::host_port_of(seq!['['] + six + seq![']']) == (
            super::words::small(six),
            None::<u16>,
        ),
        crate::target::host_port_of(
            seq!['['] + six + seq![']'] + (seq![':'] + super::words::written(port as nat)),
        ) == (super::words::small(six), Some(port)),
{
    let w = super::words::written(port as nat);
    let e = Seq::<char>::empty();
    brackets();
    super::text::written_in_digits(port as nat);
    ports_are_numbers(port as nat);
    super::text::case_is_that_of_ascii_letters(h);
    super::text::case_is_that_of_ascii_letters(six);
    // Names.
    assert(super::words::is_graphic(h[0]) && super::words::is_graphic(h[h.len() - 1]));
    kept_whole(h);
    one_char('[', h);
    super::text::last_cut_is_at_the_last(e, ':', h);
    let hp = h + seq![':'] + w;
    assert(hp[0] == h[0]);
    assert('0' <= super::words::written(port as nat)[w.len() - 1] <= '9');
    assert(hp[hp.len() - 1] == w[w.len() - 1]);
    kept_whole(hp);
    one_char('[', hp);
    assert(super::words::free_of(w, ':')) by {
        assert forall|i: int| 0 <= i < w.len() implies #[trigger] w[i] != ':' by {
            assert('0' <= super::words::written(port as nat)[i] <= '9');
        }
    }
    super::text::last_cut_is_at_the_last(h, ':', w);
    assert(!h.contains(':')) by {
        if h.contains(':') {
            let i = choose|i: int| 0 <= i < h.len() && h[i] == ':';
            assert(h[i] != ':');
        }
    }
    // Brackets.
    let b = seq!['['] + six + seq![']'] + e;
    assert(b =~= seq!['['] + six + seq![']']);
    assert(b[0] == '[' && b[b.len() - 1] == ']');
    kept_whole(b);
    one_char('[', b);
    in_brackets(six, e);
    one_char(':', e);
    let after = seq![':'] + w;
    let bp = seq!['['] + six + seq![']'] + after;
    assert(bp[0] == '[');
    assert(bp[bp.len() - 1] == w[w.len() - 1]);
    kept_whole(bp);
    one_char('[', bp);
    in_brackets(six, after);
    one_char(':', after);
    assert(after.skip(1) =~= w);
}

/// An authority is read in the same way; without a port it has the default one, and with
/// one that is no port it is refused.
pub proof fn authorities_are_read(h: Seq<char>, six: Seq<char>, port: nat, default_port: u16)
    requires
        is_name(h),
        is_inner(six),
    ensures
        ({
            let w = seq![':'] + super::words::written(port);
            let with_port = |x: Seq<char>|
                if port < 65536 {
                    Some(TargetView { host: super::words::small(x), port: port as u16 })
                } else {
                    None
                };
            &&& crate::tunnel::authority_of(h, default_port) == Some(
                TargetView { host: super::words::small(h), port: default_port },
            )
            &&& crate::tunnel::authority_of(h + w, default_port) == with_port(h)
            &&& crate::tunnel::authority_of(seq!['['] + six + seq![']'], default_port) == Some(
                TargetView { host: super::words::small(six), port: default_port },
            )
            &&& crate::tunnel::authority_of(seq!['['] + six + seq![']'] + w, default_port)
                == with_port(six)
        }),
{
    let n = super::words::written(port);
    let w = seq![':'] + n;
    let e = Seq::<char>::empty();
    brackets();
    super::text::written_in_digits(port);
    ports_are_numbers(port);
    super::text::case_is_that_of_ascii_letters(h);
    super::text::case_is_that_of_ascii_letters(six);
    one_char('[', h);
    super::text::last_cut_is_at_the_last(e, ':', h);
    let hp = h + w;
    assert(hp =~= h + seq![':'] + n);
    assert(hp[0] == h[0]);
    one_char('[', hp);
    assert(super::words::free_of(n, ':')) by {
        assert forall|i: int| 0 <= i < n.len() implies #[trigger] n[i] != ':' by {
            assert('0' <= super::words::written(port)[i] <= '9');
        }
    }
    super::text::last_cut_is_at_the_last(h, ':', n);
    assert(!h.contains(':')) by {
        if h.contains(':') {
            let i = choose|i: int| 0 <= i < h.len() && h[i] == ':';
            assert(h[i] != ':');
        }
    }
    let b = seq!['['] + six + seq![']'] + e;
    assert(b =~= seq!['['] + six + seq![']']);
    one_char('[', b);
    in_brackets(six, e);
    one_char(':', e);
    let bp = seq!['['] + six + seq![']'] + w;
    one_char('[', bp);
    in_brackets(six, w);
    one_char(':', w);
    assert(w.skip(1) =~= n);
}

// ---- Escapes and climbing paths ---------------------------------------------------------------------

proof fn decoding_goes_on(s: Seq<u8>, i: int, j: int)
    requires
        0 <= i,
        0 <= j,
        i + j <= s.len(),
    ensures
        crate::target::percent_decoded(s, i + j) == crate::target::percent_decoded(s.skip(i), j),
    decreases s.len() - i - j,
{
    let t = s.skip(i);
    if i + j < s.len() {
        assert(t[j] == s[i + j]);
        if i + j + 2 < s.len() {
            assert(t[j + 1] == s[i + j + 1] && t[j + 2] == s[i + j + 2]);
        }
        match crate::target::escape_at(s, i + j) {
            Some(_) => decoding_goes_on(s, i, j + 3),
            None => decoding_goes_on(s, i, j + 1),
        }
    }
}

/// The value of a hexadecimal digit of either case.
pub open spec fn digit_value(b: u8) -> Option<int> {
    let c = b as char;
    if '0' <= c <= '9' {
        Some(b as int - 48)
    } else if 'A' <= c <= 'F' {
        Some(b as int - 55)
    } else if 'a' <= c <= 'f' {
        Some(b as int - 87)
    } else {
        None
    }
}

/// `%` and two hexadecimal digits stand for one byte, and every other byte for itself.
pub proof fn escapes_are_resolved(b: u8, x: u8, y: u8, rest: Seq<u8>)
    ensures
        crate::target::percent_decoded(Seq::empty(), 0) == Seq::<u8>::empty(),
        b != 37 ==> crate::target::percent_decoded(seq![b] + rest, 0) == seq![b]
            + crate::target::percent_decoded(rest, 0),
        digit_value(x) is Some && digit_value(y) is Some ==> crate::target::percent_decoded(
            seq![37u8, x, y] + rest,
            0,
        ) == seq![(digit_value(x)->0 * 16 + digit_value(y)->0) as u8]
            + crate::target::percent_decoded(rest, 0),
        digit_value(x) is None || digit_value(y) is None ==> crate::target::percent_decoded(
            seq![37u8, x, y] + rest,
            0,
        ) == seq![37u8] + crate::target::percent_decoded(seq![x, y] + rest, 0),
{
    let s = seq![b] + rest;
    decoding_goes_on(s, 1, 0);
    assert(s.skip(1) =~= rest);
    let t = seq![37u8, x, y] + rest;
    decoding_goes_on(t, 3, 0);
    assert(t.skip(3) =~= rest);
    decoding_goes_on(t, 1, 0);
    assert(t.skip(1) =~= seq![x, y] + rest);
}

/// A path climbs where a segment of it is `.` or `..` once its escapes are resolved, and
/// only there.
pub proof fn climbing_is_told_by_segments(segments: Seq<Seq<char>>)
    requires
        segments.len() > 0,
        forall|i: int|
            0 <= i < segments.len() ==> super::words::free_of(#[trigger] segments[i], '/'),
    ensures
        crate::target::dotted(crate::text::joined(segments, '/')) == (exists|i: int|
            0 <= i < segments.len() && {
                let d = crate::target::percent_decoded(encode_utf8(#[trigger] segments[i]), 0);
                (d.len() == 1 && d[0] == 46) || (d.len() == 2 && d[0] == 46 && d[1] == 46)
            }),
{
    super::text::joined_pieces_are_split(segments, '/');
    let p = crate::text::joined(segments, '/');
    assert forall|i: int| 0 <= i < segments.len() implies crate::target::is_dots(
        crate::target::percent_decoded(encode_utf8(#[trigger] segments[i]), 0),
    ) == ({
        let d = crate::target::percent_decoded(encode_utf8(segments[i]), 0);
        (d.len() == 1 && d[0] == 46) || (d.len() == 2 && d[0] == 46 && d[1] == 46)
    }) by {
        let d = crate::target::percent_decoded(encode_utf8(segments[i]), 0);
        if d.len() == 1 && d[0] == 46 {
            assert(d =~= seq![46u8]);
        }
        if d.len() == 2 && d[0] == 46 && d[1] == 46 {
            assert(d =~= seq![46u8, 46u8]);
        }
    }
}

// ---- The target of a request --------------------------------------------------------------------------

/// The first header of a name, case aside, has this value.
pub open spec fn has_raw(h: Seq<RawHeader>, name: Seq<char>, v: Seq<u8>) -> bool {
    exists|i: int|
        {
            &&& 0 <= i < h.len()
            &&& super::words::small((#[trigger] h[i]).0) == super::words::small(name)
            &&& h[i].1 == v
            &&& forall|k: int|
                0 <= k < i ==> super::words::small((#[trigger] h[k]).0) != super::words::small(name)
        }
}

/// No header has a name.
pub open spec fn has_none(h: Seq<RawHeader>, name: Seq<char>) -> bool {
    forall|k: int|
        0 <= k < h.len() ==> super::words::small((#[trigger] h[k]).0) != super::words::small(name)
}

proof fn at_the_first(h: Seq<RawHeader>, name: Seq<char>, i: int, at: int)
    requires
        0 <= i <= at <= h.len(),
        forall|k: int|
            i <= k < at ==> super::words::small((#[trigger] h[k]).0) != super::words::small(name),
        at < h.len() ==> super::words::small(h[at].0) == super::words::small(name),
    ensures
        crate::target::header_at(h, name, i) == at,
    decreases at - i,
{
    if i < h.len() {
        super::text::caseless_is_equal_in_lowercase(h[i].0, name);
    }
    if i < at {
        at_the_first(h, name, i + 1, at);
    }
}

/// A header is read by its first occurrence, where all of its value can be shown.
pub proof fn headers_are_read(h: Seq<RawHeader>, name: Seq<char>, v: Seq<u8>)
    ensures
        has_none(h, name) ==> crate::target::header_text(h, name) is None,
        has_raw(h, name, v) ==> crate::target::header_text(h, name) == (if forall|i: int|
            0 <= i < v.len() ==> (32 <= #[trigger] v[i] < 127 || v[i] == 9) {
            Some(crate::text::bytes_text(v))
        } else {
            None
        }),
{
    if has_none(h, name) {
        at_the_first(h, name, 0, h.len() as int);
    }
    if has_raw(h, name, v) {
        let i = choose|i: int|
            {
                &&& 0 <= i < h.len()
                &&& super::words::small((#[trigger] h[i]).0) == super::words::small(name)
                &&& h[i].1 == v
                &&& forall|k: int|
                    0 <= k < i ==> super::words::small((#[trigger] h[k]).0)
                        != super::words::small(name)
            };
        at_the_first(h, name, 0, i);
    }
}

/// Outside a tunnel a request goes to the host that its target names, or else its `Host`
/// header; where both name one they agree, and where TLS names one it agrees too. Without a
/// port it goes to 443 behind TLS and to 80 else. Path and query are its own.
pub proof fn a_request_goes_where_it_says(head: HeadView, sni: Option<Seq<char>>, https: bool)
    ensures
        ({
            let r = crate::target::resolved(head, None, sni, https);
            let header = crate::target::header_text(head.headers, "host"@);
            let named = match header {
                Some(t) => Some(crate::target::host_port_of(t).0),
                None => None,
            };
            let usual = if https {
                443u16
            } else {
                80u16
            };
            let host = match head.authority {
                Some((a, _)) => super::words::small(a),
                None => match named {
                    Some(n) => n,
                    None => Seq::empty(),
                },
            };
            let port = match head.authority {
                Some((_, Some(p))) => p,
                Some((_, None)) => usual,
                None => match header {
                    Some(t) => match crate::target::host_port_of(t).1 {
                        Some(p) => p,
                        None => usual,
                    },
                    None => usual,
                },
            };
            let good = {
                &&& host.len() > 0
                &&& named is Some ==> named->0 == host
                &&& sni is Some ==> crate::target::host_port_of(sni->0).0 == host
            };
            match r {
                Ok(t) => good && t == (RequestTarget {
                    host,
                    port,
                    path: head.path,
                    query: head.query,
                }),
                Err(_) => !good,
            }
        }),
{
    if let Some((a, _)) = head.authority {
        super::text::case_is_that_of_ascii_letters(a);
    }
}

/// In a tunnel a request goes where the tunnel was opened to.
pub proof fn a_tunnelled_request_goes_to_the_tunnels_end(
    head: HeadView,
    t: TargetView,
    sni: Option<Seq<char>>,
    https: bool,
)
    ensures
        crate::target::resolved(head, Some(t), sni, https) == Ok::<
            RequestTarget,
            crate::target::BadTarget,
        >(RequestTarget { host: t.host, port: t.port, path: head.path, query: head.query }),
{
}

/// A WebSocket handshake is a `GET` whose `Upgrade` is `websocket`, case aside, and whose
/// `Connection` lists `upgrade`.
pub proof fn a_handshake_asks_for_an_upgrade(head: HeadView)
    ensures
        crate::target::asks_websocket(head) == ({
            &&& head.method == "GET"@
            &&& match crate::target::header_text(head.headers, "upgrade"@) {
                Some(u) => super::words::small(u) == "websocket"@,
                None => false,
            }
            &&& match crate::target::header_text(head.headers, "connection"@) {
                Some(c) => super::hop::lists(c, "upgrade"@),
                None => false,
            }
        }),
{
    reveal_strlit("websocket");
    reveal_strlit("upgrade");
    assert(super::words::small("websocket"@) =~= "websocket"@);
    assert(super::words::small("upgrade"@) =~= "upgrade"@);
    if let Some(u) = crate::target::header_text(head.headers, "upgrade"@) {
        super::text::caseless_is_equal_in_lowercase(u, "websocket"@);
    }
    if let Some(c) = crate::target::header_text(head.headers, "connection"@) {
        super::hop::lists_agree(c, "upgrade"@);
    }
}

/// The headers of a request are taken as they came, their values as text.
pub proof fn headers_are_taken_in_order(h: Seq<RawHeader>, i: int)
    requires
        0 <= i < h.len(),
    ensures
        crate::target::shown_headers(h).len() == h.len(),
        crate::target::shown_headers(h)[i] == (h[i].0, crate::text::bytes_text(h[i].1)),
{
}

/// Blanks around the value of a `Host` header are of no account.
pub proof fn hosts_may_stand_between_blanks(x: Seq<char>, t: Seq<char>, y: Seq<char>)
    requires
        super::words::all_blank(x),
        super::words::all_blank(y),
        t.len() > 0 ==> super::words::is_graphic(t[0]) && super::words::is_graphic(
            t[t.len() - 1],
        ),
    ensures
        crate::target::host_port_of(x + t + y) == crate::target::host_port_of(t),
{
    super::text::blanks_are_trimmed(x, t, y);
    kept_whole(t);
}

/// A text with more than one colon and no brackets is all host, as an IPv6 address is; it has no
/// port of its own.
pub proof fn more_colons_make_a_host(x: Seq<char>, y: Seq<char>, z: Seq<char>, usual: u16)
    requires
        ({
            let t = x + seq![':'] + y + seq![':'] + z;
            &&& t[0] != '['
            &&& forall|i: int| 0 <= i < t.len() ==> super::words::is_graphic(#[trigger] t[i])
        }),
        super::words::free_of(z, ':'),
    ensures
        ({
            let t = x + seq![':'] + y + seq![':'] + z;
            &&& crate::target::host_port_of(t) == (super::words::small(t), None::<u16>)
            &&& crate::tunnel::authority_of(t, usual) == Some(
                TargetView { host: super::words::small(t), port: usual },
            )
        }),
{
    let h = x + seq![':'] + y;
    let t = x + seq![':'] + y + seq![':'] + z;
    brackets();
    one_char('[', t);
    assert(super::words::is_graphic(t[0]) && super::words::is_graphic(t[t.len() - 1]));
    kept_whole(t);
    super::text::last_cut_is_at_the_last(h, ':', z);
    assert(h[x.len() as int] == ':');
    assert(h.contains(':'));
    super::text::case_is_that_of_ascii_letters(t);
}

/// What is no port behind a host leaves a `Host` header without one, and makes an authority
/// wrong.
pub proof fn other_ports_are_none(h: Seq<char>, p: Seq<char>, usual: u16)
    requires
        is_name(h),
        super::words::free_of(p, ':'),
        forall|i: int| 0 <= i < p.len() ==> super::words::is_graphic(#[trigger] p[i]),
        crate::text::decimal(p, 65535) is None,
    ensures
        crate::target::host_port_of(h + seq![':'] + p) == (super::words::small(h), None::<u16>),
        crate::tunnel::authority_of(h + seq![':'] + p, usual) is None,
{
    let t = h + seq![':'] + p;
    brackets();
    assert(t[0] == h[0]);
    one_char('[', t);
    if p.len() > 0 {
        assert(t[t.len() - 1] == p[p.len() - 1]);
    } else {
        assert(t[t.len() - 1] == ':');
    }
    assert(super::words::is_graphic(t[0]) && super::words::is_graphic(t[t.len() - 1]));
    kept_whole(t);
    super::text::last_cut_is_at_the_last(h, ':', p);
    assert(!h.contains(':')) by {
        if h.contains(':') {
            let i = choose|i: int| 0 <= i < h.len() && h[i] == ':';
            assert(h[i] != ':');
        }
    }
    super::text::case_is_that_of_ascii_letters(h);
}

} // verus!
