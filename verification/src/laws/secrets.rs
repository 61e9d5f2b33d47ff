//! Where a proxy token stands and what becomes of it.
use vstd::prelude::*;
use vstd::string::*;
use vstd::utf8::*;

use crate::secrets::{SecretView, SwapState};
use crate::summary::{BodyView, HeaderView, RequestView};
use crate::verdict::{NoteView, SwapView, VerdictView};

verus! {

/// A secret looks into a header: it lists none, or one entry that names the header.
pub open spec fn is_scanned(s: SecretView, name: Seq<char>) -> bool {
    match s.match_headers {
        None => true,
        Some(e) => exists|i: int|
            0 <= i < e.len() && crate::matcher::entry_accepts(#[trigger] e[i], name),
    }
}

/// A value of basic credentials that can be decoded.
pub open spec fn is_basic(value: Seq<char>) -> bool {
    super::words::stands(value, "Basic "@, 0) && crate::codec::b64_decoded(value.skip(6)) is Some
}

proof fn basic_agrees(value: Seq<char>)
    ensures
        "Basic "@.len() == 6,
        crate::text::begins(value, "Basic "@) == super::words::stands(value, "Basic "@, 0),
{
    reveal_strlit("Basic ");
    super::text::occurring_is_standing(value, "Basic "@, 0);
}

/// A token that stands in a header into which its secret looks is swapped, wherever it
/// stands in the value.
pub proof fn a_token_in_a_header_is_swapped(h: HeaderView, s: SecretView, secret: Seq<u8>, at: int)
    requires
        s.proxy.len() > 0,
        is_scanned(s, h.0),
        !is_basic(h.1),
        super::words::stands(encode_utf8(h.1), s.proxy, at),
    ensures
        crate::secrets::header_swap(h, s, secret) is Some,
{
    basic_agrees(h.1);
    super::codec::what_stands_is_replaced(encode_utf8(h.1), s.proxy, at);
}

/// A token that stands once in a header value makes room for the secret, and what stands
/// around it stays.
pub proof fn the_secret_takes_the_tokens_place(
    name: Seq<char>,
    x: Seq<char>,
    token: Seq<char>,
    y: Seq<char>,
    value: Seq<char>,
    s: SecretView,
)
    requires
        token.len() > 0,
        s.proxy == encode_utf8(token),
        is_scanned(s, name),
        !is_basic(x + token + y),
        super::words::stands_once(
            encode_utf8(x + token + y),
            s.proxy,
            encode_utf8(x).len() as int,
        ),
    ensures
        crate::secrets::header_after((name, x + token + y), s, encode_utf8(value)) == (
            name,
            x + value + y,
        ),
        crate::secrets::header_swap((name, x + token + y), s, encode_utf8(value)) is Some,
{
    basic_agrees(x + token + y);
    replaced_text(x, token, y, value);
}

proof fn replaced_text(x: Seq<char>, token: Seq<char>, y: Seq<char>, value: Seq<char>)
    requires
        token.len() > 0,
        super::words::stands_once(
            encode_utf8(x + token + y),
            encode_utf8(token),
            encode_utf8(x).len() as int,
        ),
    ensures
        crate::codec::replacements(encode_utf8(x + token + y), encode_utf8(token), 0) > 0,
        crate::text::bytes_text(
            crate::codec::replaced(
                encode_utf8(x + token + y),
                encode_utf8(token),
                encode_utf8(value),
                0,
            ),
        ) == x + value + y,
{
    let v = x + token + y;
    let at = encode_utf8(x).len() as int;
    let t = encode_utf8(token);
    assert(t.len() > 0) by {
        encode_utf8_first_scalar(token);
        assert(encode_scalar(token[0] as u32).len() > 0);
    }
    super::codec::the_only_place_is_replaced(encode_utf8(v), t, encode_utf8(value), at);
    super::codec::utf8_goes_piece_by_piece(x + token, y);
    super::codec::utf8_goes_piece_by_piece(x, token);
    super::codec::utf8_goes_piece_by_piece(x + value, y);
    super::codec::utf8_goes_piece_by_piece(x, value);
    let b = encode_utf8(v);
    assert(b.take(at) =~= encode_utf8(x));
    assert(b.skip(at + t.len()) =~= encode_utf8(y));
    assert(b.take(at) + encode_utf8(value) + b.skip(at + t.len()) == encode_utf8(x + value + y));
    super::codec::text_of_utf8(x + value + y);
}

/// A header without the token, or into which the secret does not look, stays.
pub proof fn other_headers_stay(h: HeaderView, s: SecretView, secret: Seq<u8>)
    requires
        !is_scanned(s, h.0) || s.proxy.len() == 0 || (!is_basic(h.1) && !super::words::is_within(
            encode_utf8(h.1),
            s.proxy,
        )),
    ensures
        crate::secrets::header_after(h, s, secret) == h,
        crate::secrets::header_swap(h, s, secret) is None,
{
    basic_agrees(h.1);
    if is_scanned(s, h.0) {
        if s.proxy.len() == 0 {
            super::codec::nothing_else_is_replaced(encode_utf8(h.1), s.proxy, secret);
            if crate::codec::b64_decoded(h.1.skip(6)) is Some {
                super::codec::nothing_else_is_replaced(
                    crate::codec::b64_decoded(h.1.skip(6))->0,
                    s.proxy,
                    secret,
                );
            }
        } else {
            super::codec::nothing_else_is_replaced(encode_utf8(h.1), s.proxy, secret);
        }
    } else if let Some(e) = s.match_headers {
        assert(!crate::matcher::some_entry_accepts(e, h.0));
    }
}

/// In basic credentials the token is looked for in what was encoded, and the secret is
/// encoded in its place.
pub proof fn basic_credentials_are_swapped_inside(
    name: Seq<char>,
    d: Seq<u8>,
    at: int,
    s: SecretView,
    secret: Seq<u8>,
)
    requires
        s.proxy.len() > 0,
        is_scanned(s, name),
    ensures
        super::words::stands(d, s.proxy, at) ==> crate::secrets::header_swap(
            (name, "Basic "@ + crate::codec::b64_text(d)),
            s,
            secret,
        ) is Some,
        super::words::stands_once(d, s.proxy, at) ==> crate::secrets::header_after(
            (name, "Basic "@ + crate::codec::b64_text(d)),
            s,
            secret,
        ) == (
            name,
            "Basic "@ + crate::codec::b64_text(
                d.take(at) + secret + d.skip(at + s.proxy.len()),
            ),
        ),
        !super::words::is_within(d, s.proxy) ==> crate::secrets::header_swap(
            (name, "Basic "@ + crate::codec::b64_text(d)),
            s,
            secret,
        ) is None,
{
    let v = "Basic "@ + crate::codec::b64_text(d);
    basic_agrees(v);
    assert(super::words::stands(v, "Basic "@, 0));
    assert(v.skip(6) =~= crate::codec::b64_text(d));
    crate::codec::base64_round_trip(d);
    if super::words::stands(d, s.proxy, at) {
        super::codec::what_stands_is_replaced(d, s.proxy, at);
    }
    if super::words::stands_once(d, s.proxy, at) {
        super::codec::the_only_place_is_replaced(d, s.proxy, secret, at);
    }
    if !super::words::is_within(d, s.proxy) {
        super::codec::nothing_else_is_replaced(d, s.proxy, secret);
    }
}

// ---- Query, path and body ------------------------------------------------------------------------

/// In a pair of a query the percent-encoded secret takes the place of a token that stands
/// once in the value; the key stays.
pub proof fn a_query_value_is_swapped(
    key: Seq<char>,
    x: Seq<char>,
    token: Seq<char>,
    y: Seq<char>,
    secret: Seq<u8>,
)
    requires
        token.len() > 0,
        super::words::free_of(key, '='),
        super::words::stands_once(
            encode_utf8(x + token + y),
            encode_utf8(token),
            encode_utf8(x).len() as int,
        ),
    ensures
        crate::secrets::swapped_pair(
            key + seq!['='] + (x + token + y),
            encode_utf8(token),
            secret,
        ) == key + seq!['='] + (x + crate::codec::percent_text(secret) + y),
        crate::secrets::pair_holds(key + seq!['='] + (x + token + y), encode_utf8(token)),
{
    reveal_strlit("=");
    assert("="@ =~= seq!['=']);
    super::text::cut_is_at_the_first(key, '=', x + token + y);
    replaced_text(x, token, y, crate::codec::percent_text(secret));
}

/// A pair without a value, or whose value does not hold the token, stays.
pub proof fn other_pairs_stay(
    key: Seq<char>,
    value: Seq<char>,
    proxy: Seq<u8>,
    secret: Seq<u8>,
    at: int,
)
    requires
        super::words::free_of(key, '='),
    ensures
        crate::secrets::swapped_pair(key, proxy, secret) == key,
        !crate::secrets::pair_holds(key, proxy),
        !super::words::is_within(encode_utf8(value), proxy) ==> crate::secrets::swapped_pair(
            key + seq!['='] + value,
            proxy,
            secret,
        ) == key + seq!['='] + value && !crate::secrets::pair_holds(
            key + seq!['='] + value,
            proxy,
        ),
        proxy.len() > 0 && super::words::stands(encode_utf8(value), proxy, at)
            ==> crate::secrets::pair_holds(key + seq!['='] + value, proxy),
{
    reveal_strlit("=");
    assert("="@ =~= seq!['=']);
    super::text::cut_is_at_the_first(key, '=', value);
    let r = encode_utf8(crate::codec::percent_text(secret));
    if !super::words::is_within(encode_utf8(value), proxy) {
        super::codec::nothing_else_is_replaced(encode_utf8(value), proxy, r);
        super::codec::text_of_utf8(value);
    }
    if proxy.len() > 0 && super::words::stands(encode_utf8(value), proxy, at) {
        super::codec::what_stands_is_replaced(encode_utf8(value), proxy, at);
    }
}

/// A query is swapped pair by pair, where one of them holds the token; else it stays.
pub proof fn a_query_is_swapped_pair_by_pair(
    pairs: Seq<Seq<char>>,
    s: SecretView,
    secret: Seq<u8>,
)
    requires
        pairs.len() > 0,
        forall|i: int| 0 <= i < pairs.len() ==> super::words::free_of(#[trigger] pairs[i], '&'),
        crate::text::joined(pairs, '&').len() > 0,
    ensures
        crate::secrets::query_swap(crate::text::joined(pairs, '&'), s, secret) == (
        if s.match_query && exists|i: int|
            0 <= i < pairs.len() && crate::secrets::pair_holds(#[trigger] pairs[i], s.proxy) {
            Some(
                crate::text::joined(
                    Seq::new(
                        pairs.len(),
                        |i: int| crate::secrets::swapped_pair(pairs[i], s.proxy, secret),
                    ),
                    '&',
                ),
            )
        } else {
            None
        }),
{
    super::text::joined_pieces_are_split(pairs, '&');
    assert(pairs.map_values(|p: Seq<char>| crate::secrets::swapped_pair(p, s.proxy, secret))
        =~= Seq::new(
        pairs.len(),
        |i: int| crate::secrets::swapped_pair(pairs[i], s.proxy, secret),
    ));
}

/// In a path the percent-encoded secret takes the place of a token that stands once, where
/// the secret looks there; else the path stays.
pub proof fn a_path_is_swapped(
    r: RequestView,
    x: Seq<char>,
    token: Seq<char>,
    y: Seq<char>,
    s: SecretView,
    secret: Seq<u8>,
)
    requires
        token.len() > 0,
        s.proxy == encode_utf8(token),
        r.path == x + token + y,
        super::words::stands_once(
            encode_utf8(r.path),
            s.proxy,
            encode_utf8(x).len() as int,
        ),
    ensures
        crate::secrets::request_after(r, s, secret).path == (if s.match_path {
            x + crate::codec::percent_text(secret) + y
        } else {
            r.path
        }),
        crate::secrets::path_swaps(r.path, s) == s.match_path,
{
    replaced_text(x, token, y, crate::codec::percent_text(secret));
}

/// A path without the token stays.
pub proof fn other_paths_stay(r: RequestView, s: SecretView, secret: Seq<u8>)
    requires
        !s.match_path || s.proxy.len() == 0 || !super::words::is_within(
            encode_utf8(r.path),
            s.proxy,
        ),
    ensures
        crate::secrets::request_after(r, s, secret).path == r.path,
        !crate::secrets::path_swaps(r.path, s),
{
    if s.match_path {
        super::codec::nothing_else_is_replaced(encode_utf8(r.path), s.proxy, secret);
    }
}

/// In a body that is there as a whole the secret takes the place of a token that stands
/// once, where the secret looks there; else the body stays.
pub proof fn a_body_is_swapped(r: RequestView, at: int, s: SecretView, secret: Seq<u8>)
    requires
        s.proxy.len() > 0,
    ensures
        super::words::stands_once(r.body.bytes, s.proxy, at) && s.match_body && !r.body.over_cap
            ==> crate::secrets::request_after(r, s, secret).body.bytes == r.body.bytes.take(at)
            + secret + r.body.bytes.skip(at + s.proxy.len()),
        super::words::stands(r.body.bytes, s.proxy, at) && s.match_body
            ==> crate::secrets::body_swaps(r.body, s),
        !s.match_body || r.body.over_cap || !super::words::is_within(r.body.bytes, s.proxy)
            ==> crate::secrets::request_after(r, s, secret).body == r.body,
        crate::secrets::request_after(r, s, secret).body.over_cap == r.body.over_cap,
{
    if super::words::stands_once(r.body.bytes, s.proxy, at) {
        super::codec::the_only_place_is_replaced(r.body.bytes, s.proxy, secret, at);
    }
    if super::words::stands(r.body.bytes, s.proxy, at) {
        super::codec::what_stands_is_replaced(r.body.bytes, s.proxy, at);
    }
    if !super::words::is_within(r.body.bytes, s.proxy) {
        super::codec::nothing_else_is_replaced(r.body.bytes, s.proxy, secret);
    }
}

/// One secret changes the headers one by one, the query, the path and the body, and nothing
/// else.
pub proof fn a_secret_changes_its_locations_only(r: RequestView, s: SecretView, secret: Seq<u8>)
    ensures
        ({
            let a = crate::secrets::request_after(r, s, secret);
            &&& a.mode == r.mode && a.method == r.method && a.host == r.host && a.port == r.port
            &&& a.sni == r.sni && a.remote_addr == r.remote_addr
            &&& a.headers.len() == r.headers.len()
            &&& forall|i: int|
                0 <= i < r.headers.len() ==> #[trigger] a.headers[i]
                    == crate::secrets::header_after(r.headers[i], s, secret)
            &&& a.query == match crate::secrets::query_swap(r.query, s, secret) {
                Some(q) => q,
                None => r.query,
            }
        }),
{
}

proof fn header_place(h: Seq<HeaderView>, s: SecretView, secret: Seq<u8>, n: int, i: int)
    requires
        0 <= i < n <= h.len(),
        crate::secrets::header_swap(h[i], s, secret) is Some,
    ensures
        crate::secrets::header_locations(h, s, secret, n).contains(
            "header:"@ + crate::matcher::canonical_header(h[i].0),
        ),
    decreases n,
{
    let l = crate::secrets::header_locations(h, s, secret, n);
    let x = "header:"@ + crate::matcher::canonical_header(h[i].0);
    let before = crate::secrets::header_locations(h, s, secret, n - 1);
    if i == n - 1 {
        assert(l[l.len() - 1] == x);
    } else {
        header_place(h, s, secret, n - 1, i);
        let k = choose|k: int| 0 <= k < before.len() && before[k] == x;
        assert(l[k] == x);
    }
}

proof fn headers_noted(h: Seq<HeaderView>, s: SecretView, secret: Seq<u8>, n: int)
    requires
        0 <= n <= h.len(),
    ensures
        crate::secrets::header_locations(h, s, secret, n).len() == super::words::those(
            h.take(n),
            |x: HeaderView| crate::secrets::header_swap(x, s, secret) is Some,
        ).len(),
    decreases n,
{
    if n > 0 {
        headers_noted(h, s, secret, n - 1);
        let t = h.take(n);
        assert(t.take(t.len() - 1) =~= h.take(n - 1));
        assert(t[t.len() - 1] == h[n - 1]);
    }
}

/// Every place where something was swapped is noted: each header by its display name, the
/// query, the path and the body, and nothing else is.
pub proof fn swapped_places_are_noted(r: RequestView, s: SecretView, secret: Seq<u8>, i: int)
    ensures
        ({
            let l = crate::secrets::locations(r, s, secret);
            let one = |b: bool|
                if b {
                    1int
                } else {
                    0int
                };
            &&& 0 <= i < r.headers.len() && crate::secrets::header_swap(
                r.headers[i],
                s,
                secret,
            ) is Some ==> l.contains(
                "header:"@ + crate::matcher::canonical_header(r.headers[i].0),
            )
            &&& crate::secrets::query_swap(r.query, s, secret) is Some ==> l.contains("query"@)
            &&& crate::secrets::path_swaps(r.path, s) ==> l.contains("path"@)
            &&& crate::secrets::body_swaps(r.body, s) ==> l.contains("body"@)
            &&& l.len() == super::words::those(
                r.headers,
                |x: HeaderView| crate::secrets::header_swap(x, s, secret) is Some,
            ).len() + one(crate::secrets::query_swap(r.query, s, secret) is Some) + one(
                crate::secrets::path_swaps(r.path, s),
            ) + one(crate::secrets::body_swaps(r.body, s))
        }),
{
    let n = r.headers.len() as int;
    let h = crate::secrets::header_locations(r.headers, s, secret, n);
    let q = crate::secrets::with(
        h,
        crate::secrets::query_swap(r.query, s, secret) is Some,
        "query"@,
    );
    let p = crate::secrets::with(q, crate::secrets::path_swaps(r.path, s), "path"@);
    let l = crate::secrets::locations(r, s, secret);
    headers_noted(r.headers, s, secret, n);
    assert(r.headers.take(n) =~= r.headers);
    if crate::secrets::query_swap(r.query, s, secret) is Some {
        assert(q[h.len() as int] == "query"@);
        assert(l[h.len() as int] == "query"@);
    }
    if crate::secrets::path_swaps(r.path, s) {
        assert(p[q.len() as int] == "path"@);
        assert(l[q.len() as int] == "path"@);
    }
    if crate::secrets::body_swaps(r.body, s) {
        assert(l[p.len() as int] == "body"@);
    }
    if 0 <= i < n && crate::secrets::header_swap(r.headers[i], s, secret) is Some {
        header_place(r.headers, s, secret, n, i);
        let x = "header:"@ + crate::matcher::canonical_header(r.headers[i].0);
        let k = choose|k: int| 0 <= k < h.len() && h[k] == x;
        assert(q[k] == x);
        assert(p[k] == x);
        assert(l[k] == x);
    }
}

// ---- All secrets ---------------------------------------------------------------------------------

/// What becomes of a request under one more secret. Where none of its rules names the
/// request, nothing. Without an answer of the resolver a required secret rejects it, and any
/// other is noted as unavailable. A secret for a body of which not all is there is an error.
/// Else it is swapped in and noted with its places; a required one without a place rejects.
pub proof fn one_more_secret(
    v: Seq<SecretView>,
    answers: Seq<Option<Seq<u8>>>,
    req: RequestView,
    n: int,
)
    requires
        0 < n <= v.len(),
        n <= answers.len(),
    ensures
        ({
            let st = crate::secrets::swap_upto(v, answers, req, n - 1);
            let next = crate::secrets::swap_upto(v, answers, req, n);
            let s = v[n - 1];
            let name = match s.source.kind {
                crate::secret::SourceKindView::Env { var } => var,
                crate::secret::SourceKindView::File { path } => path,
            };
            let named = exists|i: int|
                0 <= i < s.rules.len() && crate::matcher::rule_accepts(
                    #[trigger] s.rules[i],
                    st.req.host,
                    st.req.method,
                    st.req.path,
                );
            if st.end is Some || !named {
                next == st
            } else {
                match answers[n - 1] {
                    None => if s.require {
                        next.end == Some(Ok::<(), Seq<char>>(())) && next.req == st.req
                    } else {
                        next.end is None && next.req == st.req && next.swapped == st.swapped
                            && next.unavailable == st.unavailable.push(name)
                    },
                    Some(secret) => if s.match_body && st.req.body.over_cap {
                        next.end matches Some(Err(_))
                    } else {
                        let l = crate::secrets::locations(st.req, s, secret);
                        &&& next.req == crate::secrets::request_after(st.req, s, secret)
                        &&& next.unavailable == st.unavailable
                        &&& if l.len() > 0 {
                            next.end is None && next.swapped == st.swapped.push(
                                SwapView { secret: name, locations: l },
                            )
                        } else {
                            next.swapped == st.swapped && (if s.require {
                                next.end == Some(Ok::<(), Seq<char>>(()))
                            } else {
                                next.end is None
                            })
                        }
                    },
                }
            }
        }),
        crate::secrets::swap_upto(v, answers, req, 0) == (SwapState {
            req,
            swapped: Seq::empty(),
            unavailable: Seq::empty(),
            end: None,
        }),
{
}

/// A request goes on where no secret ended it, is rejected where a required one did, and
/// fails where one cannot be swapped in. What was swapped and what was not available is
/// noted.
pub proof fn secrets_end_as_they_went(st: SwapState, notes: crate::verdict::Notes)
    requires
        crate::strmap::sorted(notes),
    ensures
        st.end is None ==> crate::secrets::swap_result(st) == Ok::<VerdictView, Seq<char>>(
            VerdictView::Continue,
        ),
        st.end matches Some(Ok(_)) ==> crate::secrets::swap_result(st) == Ok::<
            VerdictView,
            Seq<char>,
        >(VerdictView::Reject(None)),
        st.end matches Some(Err(_)) ==> crate::secrets::swap_result(st) is Err,
        st.swapped.len() > 0 ==> crate::strmap::found(
            crate::secrets::swap_notes(notes, st),
            "swapped"@,
        ) == Some(NoteView::Swaps(st.swapped)),
        st.unavailable.len() > 0 ==> crate::strmap::found(
            crate::secrets::swap_notes(notes, st),
            "secret_unavailable"@,
        ) == Some(NoteView::Texts(st.unavailable)),
        st.swapped.len() == 0 && st.unavailable.len() == 0 ==> crate::secrets::swap_notes(notes, st)
            == notes,
{
    let a = if st.swapped.len() > 0 {
        crate::strmap::put(notes, "swapped"@, NoteView::Swaps(st.swapped))
    } else {
        notes
    };
    crate::strmap::put_laws(notes, "swapped"@, NoteView::Swaps(st.swapped));
    crate::strmap::put_laws(a, "secret_unavailable"@, NoteView::Texts(st.unavailable));
    reveal_strlit("swapped");
    reveal_strlit("secret_unavailable");
    assert("swapped"@.len() == 7 && "secret_unavailable"@.len() == 18);
}

/// The places that were noted of the headers.
pub open spec fn header_places(h: Seq<HeaderView>, s: SecretView, secret: Seq<u8>) -> Seq<Seq<char>> {
    super::words::those(
        h,
        |x: HeaderView| crate::secrets::header_swap(x, s, secret) is Some,
    ).map_values(|x: HeaderView| "header:"@ + crate::matcher::canonical_header(x.0))
}

proof fn headers_are_noted_in_order(h: Seq<HeaderView>, s: SecretView, secret: Seq<u8>, n: int)
    requires
        0 <= n <= h.len(),
    ensures
        crate::secrets::header_locations(h, s, secret, n) == header_places(h.take(n), s, secret),
    decreases n,
{
    let keep = |x: HeaderView| crate::secrets::header_swap(x, s, secret) is Some;
    if n > 0 {
        headers_are_noted_in_order(h, s, secret, n - 1);
        let t = h.take(n);
        assert(t.take(n - 1) =~= h.take(n - 1));
        assert(t[n - 1] == h[n - 1]);
        assert(crate::secrets::header_locations(h, s, secret, n) =~= header_places(t, s, secret));
    } else {
        assert(h.take(0) =~= Seq::<HeaderView>::empty());
        assert(crate::secrets::header_locations(h, s, secret, 0) =~= header_places(
            h.take(0),
            s,
            secret,
        ));
    }
}

/// The places stand in one order: the headers as they came, the query, the path and the body.
pub proof fn places_stand_in_order(r: RequestView, s: SecretView, secret: Seq<u8>)
    ensures
        ({
            let one = |b: bool, x: Seq<char>|
                if b {
                    seq![x]
                } else {
                    Seq::<Seq<char>>::empty()
                };
            crate::secrets::locations(r, s, secret) == header_places(r.headers, s, secret) + one(
                crate::secrets::query_swap(r.query, s, secret) is Some,
                "query"@,
            ) + one(crate::secrets::path_swaps(r.path, s), "path"@) + one(
                crate::secrets::body_swaps(r.body, s),
                "body"@,
            )
        }),
{
    let h = r.headers;
    headers_are_noted_in_order(h, s, secret, h.len() as int);
    assert(h.take(h.len() as int) =~= h);
    let one = |b: bool, x: Seq<char>|
        if b {
            seq![x]
        } else {
            Seq::<Seq<char>>::empty()
        };
    assert(crate::secrets::locations(r, s, secret) =~= header_places(r.headers, s, secret) + one(
        crate::secrets::query_swap(r.query, s, secret) is Some,
        "query"@,
    ) + one(crate::secrets::path_swaps(r.path, s), "path"@) + one(
        crate::secrets::body_swaps(r.body, s),
        "body"@,
    ));
}

/// The secrets transform passes on the request as its last secret left it, and notes what they
/// did unless one of them ended it.
pub proof fn secrets_pass_on_what_they_swapped(
    v: Seq<SecretView>,
    notes: crate::verdict::Notes,
    req: RequestView,
    answers: Seq<Option<Seq<u8>>>,
)
    ensures
        ({
            let st = crate::secrets::swap_upto(v, answers, req, v.len() as int);
            let t = crate::transforms::step(
                crate::transforms::TransformView::Secrets(v),
                notes,
                req,
                answers,
            );
            &&& t.req == st.req
            &&& t.result == crate::secrets::swap_result(st)
            &&& t.capture is None
            &&& st.end is None ==> t.notes == crate::secrets::swap_notes(notes, st)
            &&& st.end is Some ==> t.notes == notes
        }),
{
}

} // verus!
