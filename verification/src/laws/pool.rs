//! Idle connections and when they are used.
use vstd::prelude::*;
use vstd::string::*;

use crate::ip::IpAddr;
use crate::pool::{IdleView, KeyView};
use crate::state::DenyView;

verus! {

/// A connection may be used: it goes to the upstream, is not too old, and its peer is not denied.
pub open spec fn fits(e: IdleView, k: KeyView, now: u64, deny: Seq<DenyView>) -> bool {
    e.key == k && e.expires > now && crate::state::denial(deny, e.peer) is None
}

proof fn last_from(s: Seq<IdleView>, k: KeyView, now: u64, deny: Seq<DenyView>, n: int)
    requires
        0 <= n <= s.len(),
    ensures
        ({
            let i = crate::pool::last_usable(s, k, now, deny, n);
            &&& i == -1 || 0 <= i < n
            &&& i >= 0 ==> fits(s[i], k, now, deny)
            &&& forall|j: int| i < j < n ==> !fits(#[trigger] s[j], k, now, deny)
        }),
    decreases n,
{
    if n > 0 {
        last_from(s, k, now, deny, n - 1);
    }
}

/// Of the connections that may be used the one that was put back last is taken, and none only
/// where there is none.
pub proof fn the_last_usable_is_taken(
    s: Seq<IdleView>,
    k: KeyView,
    now: u64,
    deny: Seq<DenyView>,
    at: int,
)
    requires
        -1 <= at < s.len(),
        at >= 0 ==> fits(s[at], k, now, deny),
        forall|j: int| at < j < s.len() ==> !fits(#[trigger] s[j], k, now, deny),
    ensures
        crate::pool::last_usable(s, k, now, deny, s.len() as int) == at,
{
    last_from(s, k, now, deny, s.len() as int);
    let i = crate::pool::last_usable(s, k, now, deny, s.len() as int);
    if i < at {
        assert(!fits(s[at], k, now, deny));
    }
    if at < i {
        assert(!fits(s[i], k, now, deny));
    }
}

proof fn left_from(s: Seq<IdleView>, k: KeyView, from: int, n: int)
    requires
        0 <= n <= s.len(),
    ensures
        ({
            let left = crate::pool::without_from(s, k, from, n);
            let upto = if from < 0 {
                0
            } else if from < n {
                from
            } else {
                n
            };
            &&& super::words::those(left, |e: IdleView| e.key != k) == super::words::those(
                s.take(n),
                |e: IdleView| e.key != k,
            )
            &&& super::words::those(left, |e: IdleView| e.key == k) == super::words::those(
                s.take(upto),
                |e: IdleView| e.key == k,
            )
        }),
    decreases n,
{
    let others = |e: IdleView| e.key != k;
    let ours = |e: IdleView| e.key == k;
    if n > 0 {
        left_from(s, k, from, n - 1);
        let before = crate::pool::without_from(s, k, from, n - 1);
        let left = crate::pool::without_from(s, k, from, n);
        assert(s.take(n).take(n - 1) =~= s.take(n - 1));
        assert(s.take(n)[n - 1] == s[n - 1]);
        if left.len() == before.len() + 1 {
            assert(left.take(left.len() - 1) =~= before);
        }
        if from >= n {
            assert(left == before.push(s[n - 1]));
        }
    } else {
        assert(s.take(0) =~= Seq::<IdleView>::empty());
        let left = crate::pool::without_from(s, k, from, n);
        assert(super::words::those(left, ours) =~= super::words::those(s.take(0), ours));
    }
}

/// Where a connection is taken, it and the later ones to its upstream leave the pool; where none
/// is, all to that upstream do. The others stay, in their order.
pub proof fn taking_leaves_the_others(
    s: Seq<IdleView>,
    k: KeyView,
    now: u64,
    deny: Seq<DenyView>,
    at: int,
)
    requires
        -1 <= at < s.len(),
        at >= 0 ==> fits(s[at], k, now, deny),
        forall|j: int| at < j < s.len() ==> !fits(#[trigger] s[j], k, now, deny),
    ensures
        ({
            let left = crate::pool::after_checkout(s, k, now, deny);
            &&& super::words::those(left, |e: IdleView| e.key != k) == super::words::those(
                s,
                |e: IdleView| e.key != k,
            )
            &&& super::words::those(left, |e: IdleView| e.key == k) == super::words::those(
                s.take(
                    if at < 0 {
                        0
                    } else {
                        at
                    },
                ),
                |e: IdleView| e.key == k,
            )
        }),
{
    the_last_usable_is_taken(s, k, now, deny, at);
    left_from(s, k, at, s.len() as int);
    assert(s.take(s.len() as int) =~= s);
}

proof fn swept_are_those(s: Seq<IdleView>, now: u64, closed: Seq<u64>, n: int)
    requires
        0 <= n <= s.len(),
    ensures
        crate::pool::swept(s, now, closed, n) == super::words::those(
            s.take(n),
            |e: IdleView| e.expires > now && !closed.contains(e.handle),
        ),
    decreases n,
{
    let keep = |e: IdleView| e.expires > now && !closed.contains(e.handle);
    if n > 0 {
        swept_are_those(s, now, closed, n - 1);
        assert(s.take(n).take(n - 1) =~= s.take(n - 1));
        assert(s.take(n)[n - 1] == s[n - 1]);
        assert(crate::pool::swept(s, now, closed, n) =~= super::words::those(s.take(n), keep));
    } else {
        assert(s.take(0) =~= Seq::<IdleView>::empty());
        assert(crate::pool::swept(s, now, closed, n) =~= super::words::those(s.take(n), keep));
    }
}

proof fn counted(s: Seq<IdleView>, k: KeyView, n: int)
    requires
        0 <= n <= s.len(),
    ensures
        crate::pool::count_key(s, k, n) == super::words::those(
            s.take(n),
            |e: IdleView| e.key == k,
        ).len(),
    decreases n,
{
    if n > 0 {
        counted(s, k, n - 1);
        assert(s.take(n).take(n - 1) =~= s.take(n - 1));
        assert(s.take(n)[n - 1] == s[n - 1]);
    } else {
        assert(s.take(0) =~= Seq::<IdleView>::empty());
    }
}

proof fn first_one(s: Seq<IdleView>, k: KeyView, i: int, at: int)
    requires
        0 <= i <= at <= s.len(),
        forall|j: int| i <= j < at ==> (#[trigger] s[j]).key != k,
        at < s.len() ==> s[at].key == k,
    ensures
        crate::pool::first_of(s, k, i) == at,
    decreases at - i,
{
    if i < at {
        assert(s[i].key != k);
        first_one(s, k, i + 1, at);
    }
}

/// Where a connection is put back, the ones that are too old or closed leave first. It goes
/// behind the others for half a minute; the first to its upstream makes room for it where eight
/// are held, and it is not held where a hundred are.
pub proof fn putting_back_adds_one(
    s: Seq<IdleView>,
    k: KeyView,
    handle: u64,
    peer: IpAddr,
    now: u64,
    closed: Seq<u64>,
    at: int,
)
    ensures
        ({
            let t = super::words::those(
                s,
                |e: IdleView| e.expires > now && !closed.contains(e.handle),
            );
            let held = super::words::those(t, |e: IdleView| e.key == k).len();
            let e = IdleView {
                key: k,
                handle,
                peer,
                expires: if now + 30000 > u64::MAX {
                    u64::MAX
                } else {
                    (now + 30000) as u64
                },
            };
            let after = crate::pool::after_checkin(s, k, handle, peer, now, closed);
            &&& held < 8 && t.len() < 100 ==> after == t + seq![e]
            &&& held < 8 && t.len() >= 100 ==> after == t
            &&& held >= 8 && 0 <= at < t.len() && t[at].key == k && (forall|j: int|
                0 <= j < at ==> (#[trigger] t[j]).key != k) ==> after == t.take(at) + t.skip(at + 1)
                + seq![e]
        }),
{
    let t = super::words::those(s, |e: IdleView| e.expires > now && !closed.contains(e.handle));
    swept_are_those(s, now, closed, s.len() as int);
    assert(s.take(s.len() as int) =~= s);
    counted(t, k, t.len() as int);
    assert(t.take(t.len() as int) =~= t);
    let e = IdleView { key: k, handle, peer, expires: crate::pool::expiry(now) };
    let after = crate::pool::after_checkin(s, k, handle, peer, now, closed);
    assert(t.push(e) =~= t + seq![e]);
    if 0 <= at < t.len() && t[at].key == k && (forall|j: int|
        0 <= j < at ==> (#[trigger] t[j]).key != k) {
        first_one(t, k, 0, at);
        assert(t.remove(at).push(e) =~= t.take(at) + t.skip(at + 1) + seq![e]);
    }
}

/// A connection that was put back where there was room is the one that is taken next, within its
/// time and where its peer is not denied.
pub proof fn what_was_put_back_is_taken(
    s: Seq<IdleView>,
    k: KeyView,
    handle: u64,
    peer: IpAddr,
    now: u64,
    closed: Seq<u64>,
    later: u64,
    deny: Seq<DenyView>,
)
    requires
        s.len() < 100,
        later < now + 30000,
        later < u64::MAX,
        crate::state::denial(deny, peer) is None,
    ensures
        ({
            let t = crate::pool::after_checkin(s, k, handle, peer, now, closed);
            let i = crate::pool::last_usable(t, k, later, deny, t.len() as int);
            &&& i == t.len() - 1
            &&& 0 <= i
            &&& t[i].handle == handle
            &&& t[i].peer == peer
        }),
{
    swept_fits(s, now, closed, s.len() as int);
    let t = crate::pool::swept(s, now, closed, s.len() as int);
    if crate::pool::count_key(t, k, t.len() as int) >= 8 {
        first_within(t, k, 0);
        some_of_key(t, k, t.len() as int);
        first_found(t, k);
    }
}

proof fn swept_fits(s: Seq<IdleView>, now: u64, closed: Seq<u64>, n: int)
    requires
        0 <= n <= s.len(),
    ensures
        crate::pool::swept(s, now, closed, n).len() <= n,
    decreases n,
{
    if n > 0 {
        swept_fits(s, now, closed, n - 1);
    }
}

proof fn first_within(s: Seq<IdleView>, k: KeyView, i: int)
    requires
        0 <= i <= s.len(),
    ensures
        i <= crate::pool::first_of(s, k, i) <= s.len(),
        forall|j: int| i <= j < crate::pool::first_of(s, k, i) ==> (#[trigger] s[j]).key != k,
    decreases s.len() - i,
{
    if i < s.len() && s[i].key != k {
        first_within(s, k, i + 1);
    }
}

proof fn some_of_key(s: Seq<IdleView>, k: KeyView, n: int)
    requires
        0 <= n <= s.len(),
        crate::pool::count_key(s, k, n) > 0,
    ensures
        exists|j: int| 0 <= j < n && (#[trigger] s[j]).key == k,
    decreases n,
{
    if n > 0 && s[n - 1].key != k {
        some_of_key(s, k, n - 1);
    }
}

proof fn first_found(s: Seq<IdleView>, k: KeyView)
    requires
        exists|j: int| 0 <= j < s.len() && (#[trigger] s[j]).key == k,
    ensures
        crate::pool::first_of(s, k, 0) < s.len(),
{
    first_within(s, k, 0);
}

/// The methods whose requests may be sent twice.
pub proof fn safe_methods_may_be_sent_twice(method: Seq<char>)
    ensures
        crate::pool::is_idempotent(method) <==> {
            ||| method == "GET"@
            ||| method == "HEAD"@
            ||| method == "OPTIONS"@
            ||| method == "TRACE"@
            ||| method == "PUT"@
            ||| method == "DELETE"@
        },
{
}

} // verus!
