//! Headers of a single hop.
use vstd::prelude::*;
use vstd::string::*;

use crate::summary::HeaderView;

verus! {

/// The names, in lowercase, of the headers that concern one hop only.
pub open spec fn one_hop(l: Seq<char>) -> bool {
    l == "connection"@ || l == "proxy-connection"@ || l == "keep-alive"@ || l
        == "proxy-authenticate"@ || l == "proxy-authorization"@ || l == "te"@ || l == "trailer"@
        || l == "transfer-encoding"@ || l == "upgrade"@
}

/// Some part between the commas of a value is a name, blanks and case aside.
pub open spec fn lists(value: Seq<char>, l: Seq<char>) -> bool {
    exists|j: int|
        0 <= j < crate::text::split_on(value, ',').len() && super::words::small(
            crate::text::trimmed(#[trigger] crate::text::split_on(value, ',')[j]),
        ) == l
}

/// Some `Connection` header names a header.
pub open spec fn named(all: Seq<HeaderView>, l: Seq<char>) -> bool {
    l.len() > 0 && exists|i: int|
        0 <= i < all.len() && super::words::small((#[trigger] all[i]).0) == "connection"@ && lists(
            all[i].1,
            l,
        )
}

/// A header that concerns both ends: it is none of a single hop and is not named.
pub open spec fn end_to_end(all: Seq<HeaderView>, x: HeaderView) -> bool {
    !one_hop(super::words::small(x.0)) && !named(all, super::words::small(x.0))
}

/// A header of a protocol switch.
pub open spec fn switches(x: HeaderView) -> bool {
    super::words::small(x.0) == "upgrade"@ || super::words::small(x.0) == "connection"@
}

/// A header that says which transfer codings are accepted.
pub open spec fn is_te(x: HeaderView) -> bool {
    super::words::small(x.0) == "te"@
}

pub(crate) proof fn lists_agree(value: Seq<char>, l: Seq<char>)
    ensures
        crate::hop::has_lower_token(value, l) == lists(value, l),
        super::words::small(l) == l ==> crate::hop::has_token(value, l) == lists(value, l),
{
    let p = crate::text::split_on(value, ',');
    let t = crate::hop::value_tokens(value);
    assert(t.len() == p.len());
    assert forall|j: int| 0 <= j < p.len() implies crate::text::lower(#[trigger] t[j])
        == super::words::small(crate::text::trimmed(p[j])) by {
        super::text::case_is_that_of_ascii_letters(crate::text::trimmed(p[j]));
    }
    super::text::case_is_that_of_ascii_letters(l);
    if lists(value, l) {
        let j = choose|j: int|
            0 <= j < p.len() && super::words::small(crate::text::trimmed(#[trigger] p[j])) == l;
        assert(crate::text::lower(t[j]) == l);
        if super::words::small(l) == l {
            assert(crate::text::same_caseless(t[j], l));
        }
    }
    if crate::hop::has_lower_token(value, l) {
        let j = choose|j: int| 0 <= j < t.len() && crate::text::lower(#[trigger] t[j]) == l;
        assert(super::words::small(crate::text::trimmed(p[j])) == l);
    }
    if crate::hop::has_token(value, l) && super::words::small(l) == l {
        let j = choose|j: int|
            0 <= j < t.len() && crate::text::same_caseless(#[trigger] t[j], l);
        assert(super::words::small(crate::text::trimmed(p[j])) == l);
    }
}

proof fn names_agree(all: Seq<HeaderView>, l: Seq<char>)
    ensures
        crate::hop::connection_names(all, l) == named(all, l),
{
    let conn = "connection"@;
    reveal_strlit("connection");
    super::text::case_is_that_of_ascii_letters(conn);
    assert(super::words::small(conn) =~= conn);
    assert forall|i: int| 0 <= i < all.len() implies (crate::text::same_caseless(
        (#[trigger] all[i]).0,
        conn,
    ) && crate::hop::has_lower_token(all[i].1, l)) == (super::words::small(all[i].0) == conn
        && lists(all[i].1, l)) by {
        super::text::case_is_that_of_ascii_letters(all[i].0);
        lists_agree(all[i].1, l);
    }
    if crate::hop::connection_names(all, l) {
        let i = choose|i: int|
            0 <= i < all.len() && crate::text::same_caseless((#[trigger] all[i]).0, conn)
                && crate::hop::has_lower_token(all[i].1, l);
        assert(super::words::small(all[i].0) == conn && lists(all[i].1, l));
    }
    if named(all, l) {
        let i = choose|i: int|
            0 <= i < all.len() && super::words::small((#[trigger] all[i]).0) == conn && lists(
                all[i].1,
                l,
            );
        assert(crate::text::same_caseless(all[i].0, conn));
    }
}

proof fn becomes(all: Seq<HeaderView>, x: HeaderView, websocket: bool)
    ensures
        ({
            let y = crate::hop::passed_on(all, x, websocket);
            let l = super::words::small(x.0);
            &&& end_to_end(all, x) ==> y == Some(x)
            &&& is_te(x) ==> y == (if lists(x.1, "trailers"@) {
                Some((x.0, "trailers"@))
            } else {
                None
            })
            &&& switches(x) ==> y == (if websocket {
                Some(x)
            } else {
                None
            })
            &&& !end_to_end(all, x) && !is_te(x) && !switches(x) ==> y is None
            &&& !(is_te(x) && switches(x))
            &&& !(end_to_end(all, x) && (is_te(x) || switches(x)))
        }),
{
    let l = super::words::small(x.0);
    super::text::case_is_that_of_ascii_letters(x.0);
    names_agree(all, l);
    reveal_strlit("trailers");
    assert(super::words::small("trailers"@) =~= "trailers"@);
    lists_agree(x.1, "trailers"@);
    reveal_strlit("te");
    reveal_strlit("upgrade");
    reveal_strlit("connection");
    assert("te"@.len() == 2 && "upgrade"@.len() == 7 && "connection"@.len() == 10);
}

proof fn filtered_upto(
    all: Seq<HeaderView>,
    websocket: bool,
    keep: spec_fn(HeaderView) -> bool,
    n: int,
)
    requires
        0 <= n <= all.len(),
        forall|x: HeaderView| #[trigger]
            keep(x) ==> crate::hop::passed_on(all, x, websocket) == Some(x),
        forall|x: HeaderView|
            !#[trigger] keep(x) ==> (crate::hop::passed_on(all, x, websocket) matches Some(y)
                ==> !keep(y)),
    ensures
        super::words::those(crate::hop::stripped_upto(all, websocket, n), keep)
            == super::words::those(all.take(n), keep),
    decreases n,
{
    if n > 0 {
        filtered_upto(all, websocket, keep, n - 1);
        let before = crate::hop::stripped_upto(all, websocket, n - 1);
        let x = all[n - 1];
        let t = all.take(n);
        assert(t.take(t.len() - 1) =~= all.take(n - 1));
        assert(t[t.len() - 1] == x);
        if let Some(y) = crate::hop::passed_on(all, x, websocket) {
            let s = before.push(y);
            assert(s.take(s.len() - 1) =~= before);
            assert(s[s.len() - 1] == y);
        }
    }
}

proof fn none_of(
    all: Seq<HeaderView>,
    websocket: bool,
    gone: spec_fn(HeaderView) -> bool,
    n: int,
    i: int,
)
    requires
        0 <= n <= all.len(),
        0 <= i < crate::hop::stripped_upto(all, websocket, n).len(),
        forall|x: HeaderView|
            (#[trigger] crate::hop::passed_on(all, x, websocket)) matches Some(y) ==> !gone(y),
    ensures
        !gone(crate::hop::stripped_upto(all, websocket, n)[i]),
    decreases n,
{
    if n > 0 {
        let before = crate::hop::stripped_upto(all, websocket, n - 1);
        if i < before.len() {
            none_of(all, websocket, gone, n - 1, i);
        }
        assert(crate::hop::passed_on(all, all[n - 1], websocket) matches Some(y) ==> !gone(y));
    }
}

/// Every header that concerns both ends is passed on as it came, in the order in which
/// they came, and as often.
pub proof fn end_to_end_headers_are_passed_on(all: Seq<HeaderView>, websocket: bool)
    ensures
        super::words::those(
            crate::hop::stripped(all, websocket),
            |x: HeaderView| end_to_end(all, x),
        ) == super::words::those(all, |x: HeaderView| end_to_end(all, x)),
{
    let keep = |x: HeaderView| end_to_end(all, x);
    assert forall|x: HeaderView| #[trigger] keep(x) implies crate::hop::passed_on(all, x, websocket)
        == Some(x) by {
        becomes(all, x, websocket);
    }
    assert forall|x: HeaderView| !#[trigger] keep(x) implies (crate::hop::passed_on(
        all,
        x,
        websocket,
    ) matches Some(y) ==> !keep(y)) by {
        becomes(all, x, websocket);
        if let Some(y) = crate::hop::passed_on(all, x, websocket) {
            becomes(all, y, websocket);
        }
    }
    filtered_upto(all, websocket, keep, all.len() as int);
    assert(all.take(all.len() as int) =~= all);
}

/// The headers of a protocol switch are passed on in a WebSocket handshake, all of them
/// as they came, and in no other request.
pub proof fn protocol_switches_are_passed_on_for_websockets(all: Seq<HeaderView>)
    ensures
        super::words::those(crate::hop::stripped(all, true), |x: HeaderView| switches(x))
            == super::words::those(all, |x: HeaderView| switches(x)),
        forall|i: int|
            0 <= i < crate::hop::stripped(all, false).len() ==> !switches(
                #[trigger] crate::hop::stripped(all, false)[i],
            ),
{
    let keep = |x: HeaderView| switches(x);
    assert forall|x: HeaderView| #[trigger] keep(x) implies crate::hop::passed_on(all, x, true)
        == Some(x) by {
        becomes(all, x, true);
    }
    assert forall|x: HeaderView| !#[trigger] keep(x) implies (crate::hop::passed_on(all, x, true)
        matches Some(y) ==> !keep(y)) by {
        becomes(all, x, true);
        if let Some(y) = crate::hop::passed_on(all, x, true) {
            becomes(all, y, true);
        }
    }
    filtered_upto(all, true, keep, all.len() as int);
    assert(all.take(all.len() as int) =~= all);
    assert forall|i: int| 0 <= i < crate::hop::stripped(all, false).len() implies !switches(
        #[trigger] crate::hop::stripped(all, false)[i],
    ) by {
        assert forall|x: HeaderView|
            (#[trigger] crate::hop::passed_on(all, x, false)) matches Some(y) ==> !keep(y) by {
            becomes(all, x, false);
            if let Some(y) = crate::hop::passed_on(all, x, false) {
                becomes(all, y, false);
            }
        }
        none_of(all, false, keep, all.len() as int, i);
    }
}

/// What is passed on is a header that concerns both ends, a header of the protocol switch
/// that a WebSocket handshake is, or `TE: trailers`.
pub proof fn nothing_else_is_passed_on(all: Seq<HeaderView>, websocket: bool, i: int)
    requires
        0 <= i < crate::hop::stripped(all, websocket).len(),
    ensures
        ({
            let x = crate::hop::stripped(all, websocket)[i];
            ||| end_to_end(all, x)
            ||| websocket && switches(x)
            ||| is_te(x) && x.1 == "trailers"@
        }),
{
    let gone = |x: HeaderView|
        !({
            ||| end_to_end(all, x)
            ||| websocket && switches(x)
            ||| is_te(x) && x.1 == "trailers"@
        });
    assert forall|x: HeaderView|
        (#[trigger] crate::hop::passed_on(all, x, websocket)) matches Some(y) ==> !gone(y) by {
        becomes(all, x, websocket);
        if let Some(y) = crate::hop::passed_on(all, x, websocket) {
            becomes(all, y, websocket);
        }
    }
    none_of(all, websocket, gone, all.len() as int, i);
}

proof fn te_count(all: Seq<HeaderView>, websocket: bool, n: int)
    requires
        0 <= n <= all.len(),
    ensures
        super::words::those(
            crate::hop::stripped_upto(all, websocket, n),
            |x: HeaderView| is_te(x),
        ).len() == super::words::those(
            all.take(n),
            |x: HeaderView| is_te(x) && lists(x.1, "trailers"@),
        ).len(),
    decreases n,
{
    if n > 0 {
        te_count(all, websocket, n - 1);
        let before = crate::hop::stripped_upto(all, websocket, n - 1);
        let x = all[n - 1];
        let t = all.take(n);
        assert(t.take(t.len() - 1) =~= all.take(n - 1));
        assert(t[t.len() - 1] == x);
        becomes(all, x, websocket);
        if let Some(y) = crate::hop::passed_on(all, x, websocket) {
            let s = before.push(y);
            assert(s.take(s.len() - 1) =~= before);
            assert(s[s.len() - 1] == y);
        }
    }
}

/// A `TE` header that lists `trailers` is passed on, and no other.
pub proof fn trailers_are_passed_on(all: Seq<HeaderView>, websocket: bool)
    ensures
        super::words::those(
            crate::hop::stripped(all, websocket),
            |x: HeaderView| is_te(x),
        ).len() == super::words::those(
            all,
            |x: HeaderView| is_te(x) && lists(x.1, "trailers"@),
        ).len(),
{
    te_count(all, websocket, all.len() as int);
    assert(all.take(all.len() as int) =~= all);
}

} // verus!
