//! Header hygiene: what concerns one connection only is not passed on.
use vstd::prelude::*;

use crate::summary::{pair_texts, HeaderView};
use crate::text::{eq_caseless, same, split, to_lower, trim};

verus! {

/// A header of a single hop, by its lowercase name.
pub open spec fn is_hop_name(l: Seq<char>) -> bool {
    ||| l == "connection"@
    ||| l == "proxy-connection"@
    ||| l == "keep-alive"@
    ||| l == "proxy-authenticate"@
    ||| l == "proxy-authorization"@
    ||| l == "te"@
    ||| l == "trailer"@
    ||| l == "transfer-encoding"@
    ||| l == "upgrade"@
}

/// The pieces of a comma-separated value without the white space around them.
pub open spec fn value_tokens(value: Seq<char>) -> Seq<Seq<char>> {
    crate::text::split_on(value, ',').map_values(|t: Seq<char>| crate::text::trimmed(t))
}

/// Some token of the value is the given one, up to case.
pub open spec fn has_token(value: Seq<char>, token: Seq<char>) -> bool {
    exists|j: int|
        0 <= j < value_tokens(value).len() && crate::text::same_caseless(
            #[trigger] value_tokens(value)[j],
            token,
        )
}

/// A `Connection` header names the lowercase header name `l`.
pub open spec fn connection_names(h: Seq<HeaderView>, l: Seq<char>) -> bool {
    l.len() > 0 && exists|i: int|
        0 <= i < h.len() && crate::text::same_caseless((#[trigger] h[i]).0, "connection"@)
            && has_lower_token(h[i].1, l)
}

/// Some token of the value is `l` in lowercase.
pub open spec fn has_lower_token(value: Seq<char>, l: Seq<char>) -> bool {
    exists|j: int|
        0 <= j < value_tokens(value).len() && crate::text::lower(
            #[trigger] value_tokens(value)[j],
        ) == l
}

/// What is passed on of one header of the list `all`: nothing of a hop header
/// and of one that `Connection` names, but `trailers` of a `TE` that lists it,
/// and of a WebSocket handshake its `Upgrade` and `Connection`.
pub open spec fn passed_on(all: Seq<HeaderView>, x: HeaderView, websocket: bool) -> Option<
    HeaderView,
> {
    let l = crate::text::lower(x.0);
    if l == "te"@ {
        if has_token(x.1, "trailers"@) {
            Some((x.0, "trailers"@))
        } else {
            None
        }
    } else if websocket && (l == "upgrade"@ || l == "connection"@) {
        Some(x)
    } else if is_hop_name(l) || connection_names(all, l) {
        None
    } else {
        Some(x)
    }
}

/// What is passed on of the first `n` headers.
pub open spec fn stripped_upto(all: Seq<HeaderView>, websocket: bool, n: int) -> Seq<HeaderView>
    decreases n,
{
    if n <= 0 {
        Seq::<HeaderView>::empty()
    } else {
        let before = stripped_upto(all, websocket, n - 1);
        match passed_on(all, all[n - 1], websocket) {
            Some(x) => before.push(x),
            None => before,
        }
    }
}

/// What is passed on, in the same order.
pub open spec fn stripped(all: Seq<HeaderView>, websocket: bool) -> Seq<HeaderView> {
    stripped_upto(all, websocket, all.len() as int)
}

fn is_hop(l: &str) -> (r: bool)
    ensures
        r == is_hop_name(l@),
{
    same(l, "connection") || same(l, "proxy-connection") || same(l, "keep-alive") || same(
        l,
        "proxy-authenticate",
    ) || same(l, "proxy-authorization") || same(l, "te") || same(l, "trailer") || same(
        l,
        "transfer-encoding",
    ) || same(l, "upgrade")
}

/// Whether some token of a comma-separated value is the given one, up to case.
pub fn lists_token(value: &str, token: &str) -> (r: bool)
    ensures
        r == has_token(value@, token@),
{
    let parts = split(value, ',');
    let ghost t = value_tokens(value@);
    let mut j: usize = 0;
    while j < parts.len()
        invariant
            j <= parts@.len(),
            t == value_tokens(value@),
            crate::text::texts(parts@) == crate::text::split_on(value@, ','),
            t.len() == parts@.len(),
            forall|k: int|
                0 <= k < j ==> !crate::text::same_caseless(#[trigger] t[k], token@),
        decreases parts@.len() - j,
    {
        assert(crate::text::texts(parts@)[j as int] == parts@[j as int]@);
        let piece = trim(parts[j].as_str());
        assert(t[j as int] == piece@);
        if eq_caseless(piece.as_str(), token) {
            assert(crate::text::same_caseless(value_tokens(value@)[j as int], token@));
            return true;
        }
        j += 1;
    }
    false
}

fn lists_lower(value: &str, l: &str) -> (r: bool)
    ensures
        r == has_lower_token(value@, l@),
{
    let parts = split(value, ',');
    let ghost t = value_tokens(value@);
    let mut j: usize = 0;
    while j < parts.len()
        invariant
            j <= parts@.len(),
            t == value_tokens(value@),
            crate::text::texts(parts@) == crate::text::split_on(value@, ','),
            t.len() == parts@.len(),
            forall|k: int| 0 <= k < j ==> crate::text::lower(#[trigger] t[k]) != l@,
        decreases parts@.len() - j,
    {
        assert(crate::text::texts(parts@)[j as int] == parts@[j as int]@);
        let piece = trim(parts[j].as_str());
        assert(t[j as int] == piece@);
        let low = to_lower(piece.as_str());
        if same(low.as_str(), l) {
            assert(crate::text::lower(value_tokens(value@)[j as int]) == l@);
            return true;
        }
        j += 1;
    }
    false
}

fn named_by_connection(headers: &Vec<(String, String)>, l: &str) -> (r: bool)
    ensures
        r == connection_names(pair_texts(headers@), l@),
{
    if l.is_empty() {
        return false;
    }
    let ghost h = pair_texts(headers@);
    let mut i: usize = 0;
    while i < headers.len()
        invariant
            i <= headers@.len(),
            h == pair_texts(headers@),
            l@.len() > 0,
            forall|k: int|
                0 <= k < i ==> !(crate::text::same_caseless((#[trigger] h[k]).0, "connection"@)
                    && has_lower_token(h[k].1, l@)),
        decreases headers@.len() - i,
    {
        assert(h[i as int] == (headers@[i as int].0@, headers@[i as int].1@));
        if eq_caseless(headers[i].0.as_str(), "connection") && lists_lower(
            headers[i].1.as_str(),
            l,
        ) {
            return true;
        }
        i += 1;
    }
    false
}

/// Takes out, in place, the headers that concern one hop only.
pub fn strip_hop_by_hop(headers: &mut Vec<(String, String)>, valid_websocket_handshake: bool)
    ensures
        pair_texts(final(headers)@) == stripped(
            pair_texts(old(headers)@),
            valid_websocket_handshake,
        ),
{
    let ghost all = pair_texts(headers@);
    let mut kept: Vec<(String, String)> = Vec::new();
    let n: usize = headers.len();
    let mut i: usize = 0;
    assert(pair_texts(kept@) == Seq::<HeaderView>::empty());
    while i < n
        invariant
            i <= n,
            n == headers@.len(),
            all == pair_texts(headers@),
            pair_texts(kept@) == stripped_upto(all, valid_websocket_handshake, i as int),
        decreases n - i,
    {
        let ghost x = all[i as int];
        let ghost before = kept@;
        assert(x == (headers@[i as int].0@, headers@[i as int].1@));
        let lower = to_lower(headers[i].0.as_str());
        let l = lower.as_str();
        if same(l, "te") {
            if lists_token(headers[i].1.as_str(), "trailers") {
                kept.push((headers[i].0.clone(), "trailers".to_owned()));
                assert(pair_texts(kept@) == pair_texts(before).push((x.0, "trailers"@)));
            }
        } else {
            let survives: bool = if valid_websocket_handshake && (same(l, "upgrade") || same(
                l,
                "connection",
            )) {
                true
            } else {
                !(is_hop(l) || named_by_connection(headers, l))
            };
            if survives {
                kept.push((headers[i].0.clone(), headers[i].1.clone()));
                assert(pair_texts(kept@) == pair_texts(before).push(x));
            }
        }
        i += 1;
    }
    *headers = kept;
}

// ---- Laws -----------------------------------------------------------------------------------

proof fn stripped_members(all: Seq<HeaderView>, websocket: bool, n: int)
    requires
        0 <= n <= all.len(),
    ensures
        forall|i: int|
            0 <= i < stripped_upto(all, websocket, n).len() ==> came_through(
                all,
                websocket,
                #[trigger] stripped_upto(all, websocket, n)[i],
            ),
    decreases n,
{
    if n > 0 {
        stripped_members(all, websocket, n - 1);
        let s = stripped_upto(all, websocket, n);
        let before = stripped_upto(all, websocket, n - 1);
        assert forall|i: int| 0 <= i < s.len() implies came_through(
            all,
            websocket,
            #[trigger] s[i],
        ) by {
            if i < before.len() {
                assert(s[i] == before[i]);
            } else {
                assert(passed_on(all, all[n - 1], websocket) == Some(s[i]));
            }
        }
    }
}

/// What is left of some header of the list.
pub open spec fn came_through(all: Seq<HeaderView>, websocket: bool, x: HeaderView) -> bool {
    exists|k: int| 0 <= k < all.len() && passed_on(all, #[trigger] all[k], websocket) == Some(x)
}

/// What may be left of a header: `TE: trailers`, the `Upgrade` and `Connection` of a
/// WebSocket handshake, and else what is no header of a single hop.
pub open spec fn may_be_left(all: Seq<HeaderView>, x: HeaderView, websocket: bool) -> bool {
    let l = crate::text::lower(x.0);
    ||| l == "te"@ && x.1 == "trailers"@
    ||| websocket && (l == "upgrade"@ || l == "connection"@)
    ||| !is_hop_name(l) && !connection_names(all, l)
}

/// Nothing of a single hop is left but `TE: trailers` and what makes a WebSocket
/// handshake: no other header of the fixed set and none that a `Connection` header
/// named.
pub proof fn no_hop_header_is_left(all: Seq<HeaderView>, websocket: bool)
    ensures
        forall|i: int|
            0 <= i < stripped(all, websocket).len() ==> may_be_left(
                all,
                #[trigger] stripped(all, websocket)[i],
                websocket,
            ),
{
    stripped_members(all, websocket, all.len() as int);
    assert forall|i: int| 0 <= i < stripped(all, websocket).len() implies may_be_left(
        all,
        #[trigger] stripped(all, websocket)[i],
        websocket,
    ) by {
        assert(came_through(all, websocket, stripped_upto(all, websocket, all.len() as int)[i]));
    }
}

proof fn trailers_is_a_token()
    ensures
        has_token("trailers"@, "trailers"@),
{
    reveal_strlit("trailers");
    let v = "trailers"@;
    reveal_with_fuel(crate::text::split_upto, 9);
    reveal_with_fuel(crate::text::text_start, 2);
    reveal_with_fuel(crate::text::text_end, 2);
    let p = crate::text::split_on(v, ',');
    assert(p.len() == 1);
    assert(p[0] == v);
    assert(crate::text::trimmed(v) == v);
    assert(value_tokens(v)[0] == v);
    assert(crate::text::same_caseless(value_tokens(v)[0], v));
}

/// Stripping what was stripped already changes nothing.
pub proof fn stripping_twice_is_stripping_once(all: Seq<HeaderView>, websocket: bool)
    ensures
        stripped(stripped(all, websocket), websocket) == stripped(all, websocket),
{
    let s = stripped(all, websocket);
    no_hop_header_is_left(all, websocket);
    stripped_members(all, websocket, all.len() as int);
    trailers_is_a_token();
    let conn = "connection"@;
    reveal_strlit("connection");
    reveal_strlit("te");
    assert(crate::text::lower(conn) == conn);
    assert(conn.len() != "te"@.len());
    assert forall|i: int| 0 <= i < s.len() implies passed_on(s, #[trigger] s[i], websocket)
        == Some(s[i]) by {
        let x = stripped(all, websocket)[i];
        let l = crate::text::lower(x.0);
        assert(may_be_left(all, x, websocket));
        if l != "te"@ && connection_names(s, l) {
            let k = choose|k: int|
                0 <= k < s.len() && crate::text::same_caseless((#[trigger] s[k]).0, conn)
                    && has_lower_token(s[k].1, l);
            let y = stripped(all, websocket)[k];
            assert(crate::text::lower(y.0) == conn);
            assert(came_through(all, websocket, stripped_upto(all, websocket, all.len() as int)[k]));
            let m = choose|m: int|
                0 <= m < all.len() && passed_on(all, #[trigger] all[m], websocket) == Some(y);
            assert(all[m] == y);
            assert(connection_names(all, l));
        }
    }
    all_pass(s, websocket, s.len() as int);
    assert(s.take(s.len() as int) == s);
}

proof fn all_pass(s: Seq<HeaderView>, websocket: bool, n: int)
    requires
        0 <= n <= s.len(),
        forall|i: int|
            0 <= i < s.len() ==> passed_on(s, #[trigger] s[i], websocket) == Some(s[i]),
    ensures
        stripped_upto(s, websocket, n) == s.take(n),
    decreases n,
{
    if n > 0 {
        all_pass(s, websocket, n - 1);
        assert(passed_on(s, s[n - 1], websocket) == Some(s[n - 1]));
        assert(s.take(n) == s.take(n - 1).push(s[n - 1]));
    }
}

} // verus!
