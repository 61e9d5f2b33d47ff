//! Idle upstream connections: which one may be used again, and how many are
//! kept. A connection is a number here; its socket is held elsewhere.
use vstd::prelude::*;

use crate::ip::IpAddr;
use crate::metrics::DialResult;
use crate::pipeline::AllowProof;
use crate::state::{denial, DenyView, Guard};
use crate::text::{same, to_lower};

verus! {

/// How long an idle connection is kept, in milliseconds.
pub const IDLE_TIMEOUT: u64 = 30000;

/// Idle connections kept for one upstream.
pub const MAX_IDLE_PER_KEY: usize = 8;

/// Idle connections kept in all.
pub const MAX_IDLE_TOTAL: usize = 100;

/// An upstream: host, port, and whether it is reached over TLS.
#[derive(Debug)]
pub struct PoolKey {
    pub host: String,
    pub port: u16,
    pub https: bool,
}

/// What a key says.
#[verifier::ext_equal]
pub struct KeyView {
    pub host: Seq<char>,
    pub port: u16,
    pub https: bool,
}

impl View for PoolKey {
    type V = KeyView;

    open spec fn view(&self) -> KeyView {
        KeyView { host: self.host@, port: self.port, https: self.https }
    }
}

impl PoolKey {
    /// The key of an upstream; hosts differ not by case.
    pub fn new(host: &str, port: u16, https: bool) -> (r: PoolKey)
        ensures
            r@ == (KeyView { host: crate::text::lower(host@), port, https }),
    {
        PoolKey { host: to_lower(host), port, https }
    }

    fn is(&self, other: &PoolKey) -> (r: bool)
        ensures
            r == (self@ == other@),
    {
        same(self.host.as_str(), other.host.as_str()) && self.port == other.port && self.https
            == other.https
    }
}

/// An idle connection.
#[derive(Debug)]
struct IdleEntry {
    key: PoolKey,
    handle: u64,
    peer: IpAddr,
    /// When it is too old, in milliseconds.
    expires: u64,
}

/// What an idle connection says.
#[verifier::ext_equal]
pub struct IdleView {
    pub key: KeyView,
    pub handle: u64,
    pub peer: IpAddr,
    pub expires: u64,
}

impl View for IdleEntry {
    type V = IdleView;

    closed spec fn view(&self) -> IdleView {
        IdleView {
            key: self.key@,
            handle: self.handle,
            peer: self.peer,
            expires: self.expires,
        }
    }
}

/// The idle connections, the longest idle first.
#[derive(Debug)]
pub struct Pool {
    idle: Vec<IdleEntry>,
}

spec fn idle_views(v: Seq<IdleEntry>) -> Seq<IdleView> {
    v.map_values(|e: IdleEntry| e@)
}

impl View for Pool {
    type V = Seq<IdleView>;

    closed spec fn view(&self) -> Seq<IdleView> {
        idle_views(self.idle@)
    }
}

/// How many of the first `n` connections lead to an upstream.
pub open spec fn count_key(s: Seq<IdleView>, k: KeyView, n: int) -> int
    decreases n,
{
    if n <= 0 {
        0
    } else {
        count_key(s, k, n - 1) + (if s[n - 1].key == k {
            1int
        } else {
            0
        })
    }
}

/// There are no more connections than may be kept.
pub open spec fn within_caps(s: Seq<IdleView>) -> bool {
    &&& s.len() <= 100
    &&& forall|k: KeyView| #[trigger] count_key(s, k, s.len() as int) <= 8
}

// ---- Taking one out ---------------------------------------------------------------------

/// Young enough, and its peer not denied.
pub open spec fn usable(e: IdleView, now: u64, deny: Seq<DenyView>) -> bool {
    e.expires > now && denial(deny, e.peer) is None
}

/// The last of the first `n` connections that leads to the upstream and is
/// usable, or `-1`.
pub open spec fn last_usable(
    s: Seq<IdleView>,
    k: KeyView,
    now: u64,
    deny: Seq<DenyView>,
    n: int,
) -> int
    decreases n,
{
    if n <= 0 {
        -1
    } else if s[n - 1].key == k && usable(s[n - 1], now, deny) {
        n - 1
    } else {
        last_usable(s, k, now, deny, n - 1)
    }
}

/// The first `n` connections without those of the upstream from index `from` on.
pub open spec fn without_from(s: Seq<IdleView>, k: KeyView, from: int, n: int) -> Seq<IdleView>
    decreases n,
{
    if n <= 0 {
        Seq::<IdleView>::empty()
    } else if s[n - 1].key == k && n - 1 >= from {
        without_from(s, k, from, n - 1)
    } else {
        without_from(s, k, from, n - 1).push(s[n - 1])
    }
}

/// What is left once a connection was asked for: the last usable one is taken,
/// and those behind it that were not usable are dropped.
pub open spec fn after_checkout(
    s: Seq<IdleView>,
    k: KeyView,
    now: u64,
    deny: Seq<DenyView>,
) -> Seq<IdleView> {
    without_from(s, k, last_usable(s, k, now, deny, s.len() as int), s.len() as int)
}

proof fn without_from_end(s: Seq<IdleView>, k: KeyView, n: int)
    requires
        0 <= n <= s.len(),
    ensures
        without_from(s, k, n, n) == s.take(n),
    decreases n,
{
    if n > 0 {
        without_from_lower(s, k, n, n - 1);
        without_from_end(s, k, n - 1);
        assert(s.take(n) == s.take(n - 1).push(s[n - 1]));
    }
}

/// Below `from` nothing is left out.
proof fn without_from_lower(s: Seq<IdleView>, k: KeyView, from: int, n: int)
    requires
        0 <= n <= from,
        n <= s.len(),
    ensures
        without_from(s, k, from, n) == without_from(s, k, n, n),
        without_from(s, k, from, n) == s.take(n),
    decreases n,
{
    if n > 0 {
        without_from_lower(s, k, from, n - 1);
        without_from_lower(s, k, n, n - 1);
        assert(s.take(n) == s.take(n - 1).push(s[n - 1]));
    } else {
        assert(s.take(0) == Seq::<IdleView>::empty());
    }
}

/// Leaving out one more index.
proof fn without_one_more(s: Seq<IdleView>, k: KeyView, i: int, n: int)
    requires
        0 <= i < n <= s.len(),
    ensures
        without_from(s, k, i + 1, n).len() > i,
        without_from(s, k, i + 1, n)[i] == s[i],
        s[i].key == k ==> without_from(s, k, i, n) == without_from(s, k, i + 1, n).remove(i),
        s[i].key != k ==> without_from(s, k, i, n) == without_from(s, k, i + 1, n),
    decreases n,
{
    if n == i + 1 {
        without_from_lower(s, k, i + 1, i);
        without_from_lower(s, k, i, i);
        let a = without_from(s, k, i + 1, n);
        assert(a == s.take(i).push(s[i]));
        assert(a.remove(i) == s.take(i));
    } else {
        without_one_more(s, k, i, n - 1);
        let a = without_from(s, k, i + 1, n - 1);
        if s[n - 1].key != k {
            assert(a.push(s[n - 1]).remove(i) == a.remove(i).push(s[n - 1]));
        }
    }
}

// ---- Putting one back -------------------------------------------------------------------

/// Those of the first `n` connections that are young enough and not closed.
pub open spec fn swept(s: Seq<IdleView>, now: u64, closed: Seq<u64>, n: int) -> Seq<IdleView>
    decreases n,
{
    if n <= 0 {
        Seq::<IdleView>::empty()
    } else if s[n - 1].expires > now && !closed.contains(s[n - 1].handle) {
        swept(s, now, closed, n - 1).push(s[n - 1])
    } else {
        swept(s, now, closed, n - 1)
    }
}

/// The first index at or after `i` that leads to the upstream, or the length.
pub open spec fn first_of(s: Seq<IdleView>, k: KeyView, i: int) -> int
    decreases s.len() - i,
{
    if i >= s.len() {
        s.len() as int
    } else if s[i].key == k {
        i
    } else {
        first_of(s, k, i + 1)
    }
}

/// The expiry of a connection that goes idle now.
pub open spec fn expiry(now: u64) -> u64 {
    if now + 30000 > u64::MAX {
        u64::MAX
    } else {
        (now + 30000) as u64
    }
}

/// What there is once a connection was put back: the old and closed ones are
/// dropped; where the upstream has as many as it may, its oldest goes; where
/// there are as many as there may be in all, the new one is not kept.
pub open spec fn after_checkin(
    s: Seq<IdleView>,
    k: KeyView,
    handle: u64,
    peer: IpAddr,
    now: u64,
    closed: Seq<u64>,
) -> Seq<IdleView> {
    let t = swept(s, now, closed, s.len() as int);
    let e = IdleView { key: k, handle, peer, expires: expiry(now) };
    if count_key(t, k, t.len() as int) >= 8 {
        t.remove(first_of(t, k, 0)).push(e)
    } else if t.len() >= 100 {
        t
    } else {
        t.push(e)
    }
}

proof fn sweeping_shrinks(s: Seq<IdleView>, now: u64, closed: Seq<u64>, n: int, k: KeyView)
    requires
        0 <= n <= s.len(),
    ensures
        swept(s, now, closed, n).len() <= n,
        count_key(
            swept(s, now, closed, n),
            k,
            swept(s, now, closed, n).len() as int,
        ) <= count_key(s, k, n),
    decreases n,
{
    if n > 0 {
        sweeping_shrinks(s, now, closed, n - 1, k);
        let a = swept(s, now, closed, n - 1);
        if s[n - 1].expires > now && !closed.contains(s[n - 1].handle) {
            let b = a.push(s[n - 1]);
            count_prefix(b, a, k, a.len() as int);
        }
    }
}

proof fn count_prefix(a: Seq<IdleView>, b: Seq<IdleView>, k: KeyView, n: int)
    requires
        0 <= n <= a.len(),
        n <= b.len(),
        forall|i: int| 0 <= i < n ==> a[i] == b[i],
    ensures
        count_key(a, k, n) == count_key(b, k, n),
        0 <= count_key(a, k, n) <= n,
    decreases n,
{
    if n > 0 {
        count_prefix(a, b, k, n - 1);
    }
}

proof fn first_of_found(s: Seq<IdleView>, k: KeyView, i: int)
    requires
        0 <= i <= s.len(),
        count_key(s, k, i) == 0,
    ensures
        i <= first_of(s, k, i) <= s.len(),
        first_of(s, k, i) < s.len() ==> s[first_of(s, k, i)].key == k,
        first_of(s, k, i) == s.len() ==> count_key(s, k, s.len() as int) == 0,
    decreases s.len() - i,
{
    if i < s.len() && s[i].key != k {
        first_of_found(s, k, i + 1);
    }
}

/// Taking out one connection lowers the count of its upstream by one and leaves
/// the others.
proof fn removal_counts(s: Seq<IdleView>, i: int, k: KeyView, n: int)
    requires
        0 <= i < n <= s.len(),
    ensures
        count_key(s.remove(i), k, n - 1) == count_key(s, k, n) - (if s[i].key == k {
            1int
        } else {
            0
        }),
    decreases n,
{
    if n == i + 1 {
        count_prefix(s.remove(i), s, k, i);
    } else {
        removal_counts(s, i, k, n - 1);
        assert(s.remove(i)[n - 2] == s[n - 1]);
    }
}

/// Putting a connection back never leaves more than may be kept.
pub proof fn checkin_keeps_the_caps(
    s: Seq<IdleView>,
    k: KeyView,
    handle: u64,
    peer: IpAddr,
    now: u64,
    closed: Seq<u64>,
)
    requires
        within_caps(s),
    ensures
        within_caps(after_checkin(s, k, handle, peer, now, closed)),
{
    let t = swept(s, now, closed, s.len() as int);
    let e = IdleView { key: k, handle, peer, expires: expiry(now) };
    let r = after_checkin(s, k, handle, peer, now, closed);
    sweeping_shrinks(s, now, closed, s.len() as int, k);
    count_prefix(t, t, k, t.len() as int);
    first_of_found(t, k, 0);
    assert forall|x: KeyView| #[trigger] count_key(r, x, r.len() as int) <= 8 by {
        sweeping_shrinks(s, now, closed, s.len() as int, x);
        assert(count_key(s, x, s.len() as int) <= 8);
        if count_key(t, k, t.len() as int) >= 8 {
            let i = first_of(t, k, 0);
            removal_counts(t, i, x, t.len() as int);
            let u = t.remove(i);
            count_prefix(u.push(e), u, x, u.len() as int);
            sweeping_shrinks(s, now, closed, s.len() as int, k);
            assert(count_key(s, k, s.len() as int) <= 8);
        } else if t.len() < 100 {
            count_prefix(t.push(e), t, x, t.len() as int);
        }
    }
}

/// Taking one out leaves no more than there was.
proof fn without_from_shrinks(s: Seq<IdleView>, k: KeyView, from: int, n: int, x: KeyView)
    requires
        0 <= n <= s.len(),
    ensures
        without_from(s, k, from, n).len() <= n,
        count_key(
            without_from(s, k, from, n),
            x,
            without_from(s, k, from, n).len() as int,
        ) <= count_key(s, x, n),
    decreases n,
{
    if n > 0 {
        without_from_shrinks(s, k, from, n - 1, x);
        let a = without_from(s, k, from, n - 1);
        count_prefix(a.push(s[n - 1]), a, x, a.len() as int);
    }
}

impl Pool {
    #[verifier::type_invariant]
    spec fn bounded(self) -> bool {
        within_caps(idle_views(self.idle@))
    }

    pub fn new() -> (r: Self)
        ensures
            r@ == Seq::<IdleView>::empty(),
    {
        let idle: Vec<IdleEntry> = Vec::new();
        assert(idle_views(idle@) == Seq::<IdleView>::empty());
        Pool { idle }
    }

    /// The connections that are held.
    pub fn handles(&self) -> (r: Vec<u64>)
        ensures
            r@ == self@.map_values(|e: IdleView| e.handle),
    {
        let ghost s = self@;
        let mut out: Vec<u64> = Vec::new();
        let mut i: usize = 0;
        while i < self.idle.len()
            invariant
                i <= self.idle@.len(),
                s == idle_views(self.idle@),
                out@.len() == i,
                forall|j: int| 0 <= j < i ==> #[trigger] out@[j] == s[j].handle,
            decreases self.idle@.len() - i,
        {
            assert(s[i as int] == self.idle@[i as int]@);
            out.push(self.idle[i].handle);
            i += 1;
        }
        assert(out@ == s.map_values(|e: IdleView| e.handle));
        out
    }

    /// Takes out the most recently used connection to an upstream that is young
    /// enough and whose peer the guard does not deny; drops those that are not.
    /// Whether it is still open is seen elsewhere.
    pub fn checkout(&mut self, key: &PoolKey, now: u64, guard: &Guard) -> (r: Option<
        (u64, IpAddr),
    >)
        ensures
            final(self)@ == after_checkout(old(self)@, key@, now, guard@),
            ({
                let i = last_usable(old(self)@, key@, now, guard@, old(self)@.len() as int);
                match r {
                    Some((handle, peer)) => 0 <= i < old(self)@.len() && handle
                        == old(self)@[i].handle && peer == old(self)@[i].peer,
                    None => i < 0,
                }
            }),
    {
        proof {
            use_type_invariant(&*self);
        }
        let ghost s = self@;
        let ghost k = key@;
        let ghost deny = guard@;
        let ghost n = s.len() as int;
        let mut list: Vec<IdleEntry> = Vec::new();
        std::mem::swap(&mut list, &mut self.idle);
        let mut i: usize = list.len();
        proof {
            without_from_lower(s, k, n, n);
            assert(s.take(n) == s);
        }
        while i > 0
            invariant
                i <= n,
                n == s.len(),
                k == key@,
                deny == guard@,
                s == old(self)@,
                within_caps(s),
                idle_views(list@) == without_from(s, k, i as int, n),
                list@.len() >= i,
                last_usable(s, k, now, deny, n) == last_usable(s, k, now, deny, i as int),
            decreases i,
        {
            proof {
                without_one_more(s, k, i - 1, n);
                assert(idle_views(list@)[i - 1] == list@[i - 1]@);
            }
            i -= 1;
            if list[i].key.is(key) {
                let ghost before = list@;
                let e = list.remove(i);
                assert(idle_views(list@) == idle_views(before).remove(i as int));
                if e.expires > now {
                    if guard.check(e.peer).is_ok() {
                        proof {
                            assert forall|x: KeyView| #[trigger]
                                count_key(
                                    idle_views(list@),
                                    x,
                                    idle_views(list@).len() as int,
                                ) <= 8 by {
                                without_from_shrinks(s, k, i as int, n, x);
                                assert(count_key(s, x, n) <= 8);
                            }
                            without_from_shrinks(s, k, i as int, n, k);
                        }
                        self.idle = list;
                        return Some((e.handle, e.peer));
                    }
                }
            }
        }
        proof {
            without_from_negative(s, k, n);
            assert forall|x: KeyView| #[trigger]
                count_key(idle_views(list@), x, idle_views(list@).len() as int) <= 8 by {
                without_from_shrinks(s, k, 0, n, x);
                assert(count_key(s, x, n) <= 8);
            }
            without_from_shrinks(s, k, 0, n, k);
        }
        self.idle = list;
        None
    }

    /// Puts a connection back; `closed` are the connections that are known to
    /// be closed.
    pub fn checkin(
        &mut self,
        key: PoolKey,
        handle: u64,
        peer: IpAddr,
        now: u64,
        closed: &Vec<u64>,
    )
        ensures
            final(self)@ == after_checkin(old(self)@, key@, handle, peer, now, closed@),
    {
        proof {
            use_type_invariant(&*self);
            checkin_keeps_the_caps(self@, key@, handle, peer, now, closed@);
        }
        let ghost s = self@;
        let ghost k = key@;
        let mut list: Vec<IdleEntry> = Vec::new();
        std::mem::swap(&mut list, &mut self.idle);
        let mut kept = sweep(list, now, closed);
        let ghost t = idle_views(kept@);
        let count: usize = count_of(&kept, &key);
        let entry = IdleEntry { key, handle, peer, expires: now.saturating_add(IDLE_TIMEOUT) };
        let ghost ev = entry@;
        if count >= MAX_IDLE_PER_KEY {
            let at: usize = first_index(&kept, &entry.key);
            proof {
                first_of_found(t, k, 0);
                count_prefix(t, t, k, t.len() as int);
            }
            kept.remove(at);
            assert(idle_views(kept@) == t.remove(at as int));
            let ghost u = kept@;
            kept.push(entry);
            assert(idle_views(kept@) == idle_views(u).push(ev));
        } else if kept.len() < MAX_IDLE_TOTAL {
            let ghost u = kept@;
            kept.push(entry);
            assert(idle_views(kept@) == idle_views(u).push(ev));
        }
        self.idle = kept;
    }
}

proof fn without_from_negative(s: Seq<IdleView>, k: KeyView, n: int)
    requires
        0 <= n <= s.len(),
    ensures
        without_from(s, k, -1, n) == without_from(s, k, 0, n),
    decreases n,
{
    if n > 0 {
        without_from_negative(s, k, n - 1);
    }
}

fn is_closed(closed: &Vec<u64>, handle: u64) -> (r: bool)
    ensures
        r == closed@.contains(handle),
{
    let mut i: usize = 0;
    while i < closed.len()
        invariant
            i <= closed@.len(),
            forall|j: int| 0 <= j < i ==> closed@[j] != handle,
        decreases closed@.len() - i,
    {
        if closed[i] == handle {
            return true;
        }
        i += 1;
    }
    false
}

fn sweep(list: Vec<IdleEntry>, now: u64, closed: &Vec<u64>) -> (r: Vec<IdleEntry>)
    ensures
        idle_views(r@) == swept(idle_views(list@), now, closed@, list@.len() as int),
{
    let ghost s = idle_views(list@);
    let mut rest: Vec<IdleEntry> = list;
    let mut out: Vec<IdleEntry> = Vec::new();
    let n: usize = rest.len();
    let mut i: usize = 0;
    assert(idle_views(out@) == Seq::<IdleView>::empty());
    while i < n
        invariant
            i <= n,
            n == s.len(),
            rest@.len() == n - i,
            forall|j: int| 0 <= j < n - i ==> (#[trigger] rest@[j])@ == s[i + j],
            idle_views(out@) == swept(s, now, closed@, i as int),
        decreases n - i,
    {
        assert(rest@[0]@ == s[i as int]);
        let e = rest.remove(0);
        if e.expires > now && !is_closed(closed, e.handle) {
            let ghost before = out@;
            let ghost ev = e@;
            out.push(e);
            assert(idle_views(out@) == idle_views(before).push(ev));
        }
        i += 1;
    }
    out
}

fn count_of(list: &Vec<IdleEntry>, key: &PoolKey) -> (r: usize)
    ensures
        r == count_key(idle_views(list@), key@, list@.len() as int),
{
    let ghost s = idle_views(list@);
    let mut count: usize = 0;
    let mut i: usize = 0;
    while i < list.len()
        invariant
            i <= list@.len(),
            s == idle_views(list@),
            count == count_key(s, key@, i as int),
            count <= i,
        decreases list@.len() - i,
    {
        assert(s[i as int] == list@[i as int]@);
        if list[i].key.is(key) {
            count += 1;
        }
        i += 1;
    }
    count
}

fn first_index(list: &Vec<IdleEntry>, key: &PoolKey) -> (r: usize)
    ensures
        r == first_of(idle_views(list@), key@, 0),
        r <= list@.len(),
{
    let ghost s = idle_views(list@);
    let mut i: usize = 0;
    while i < list.len()
        invariant
            i <= list@.len(),
            s == idle_views(list@),
            first_of(s, key@, 0) == first_of(s, key@, i as int),
        decreases list@.len() - i,
    {
        assert(s[i as int] == list@[i as int]@);
        if list[i].key.is(key) {
            return i;
        }
        i += 1;
    }
    i
}

// ---- Acquiring ----------------------------------------------------------------------------

/// How to come by a connection. Either way the proof is still there: an idle
/// connection that turns out to be closed is passed over under the same proof.
pub enum Acquired {
    /// Use this idle connection.
    Idle { handle: u64, peer: IpAddr, proof: AllowProof },
    /// Dial.
    Dial { proof: AllowProof },
}

/// Looks for a connection for a request that the pipeline let pass: an idle one
/// where there is one, else one is dialled. Says what is counted.
pub fn acquire(
    pool: &mut Pool,
    proof: AllowProof,
    host: &str,
    port: u16,
    https: bool,
    now: u64,
    guard: &Guard,
) -> (r: (Acquired, Option<DialResult>))
    ensures
        ({
            let k = KeyView { host: crate::text::lower(host@), port, https };
            let s = old(pool)@;
            let i = last_usable(s, k, now, guard@, s.len() as int);
            &&& final(pool)@ == after_checkout(s, k, now, guard@)
            &&& match r.0 {
                Acquired::Idle { handle, peer, proof: _ } => 0 <= i < s.len() && handle
                    == s[i].handle && peer == s[i].peer && r.1 == Some(DialResult::Reused),
                Acquired::Dial { proof: _ } => i < 0 && r.1 is None,
            }
        }),
{
    let key = PoolKey::new(host, port, https);
    match pool.checkout(&key, now, guard) {
        Some((handle, peer)) => (
            Acquired::Idle { handle, peer, proof },
            Some(DialResult::Reused),
        ),
        None => (Acquired::Dial { proof }, None),
    }
}

// ---- Retrying -----------------------------------------------------------------------------

/// A method whose request may be sent twice.
pub open spec fn is_idempotent(method: Seq<char>) -> bool {
    ||| method == "GET"@
    ||| method == "HEAD"@
    ||| method == "OPTIONS"@
    ||| method == "TRACE"@
    ||| method == "PUT"@
    ||| method == "DELETE"@
}

/// Whether a request that failed on a connection is sent once more on a fresh
/// one: only where the connection had been idle, so that the upstream may have
/// closed it meanwhile, where the method allows it and the whole body is there
/// to be sent again.
pub fn retries(reused: bool, method: &str, body_kept: bool) -> (r: bool)
    ensures
        r == (reused && is_idempotent(method@) && body_kept),
{
    reused && body_kept && (same(method, "GET") || same(method, "HEAD") || same(method, "OPTIONS")
        || same(method, "TRACE") || same(method, "PUT") || same(method, "DELETE"))
}

// ---- Laws -------------------------------------------------------------------------------

/// What is taken out of the pool passes the guard as it is now, is young enough
/// and leads to the upstream asked for: an idle connection is no way around a
/// denial.
pub proof fn checkout_respects_the_guard(
    s: Seq<IdleView>,
    k: KeyView,
    now: u64,
    deny: Seq<DenyView>,
    n: int,
)
    requires
        0 <= n <= s.len(),
        last_usable(s, k, now, deny, n) >= 0,
    ensures
        ({
            let e = s[last_usable(s, k, now, deny, n)];
            last_usable(s, k, now, deny, n) < n && e.key == k && e.expires > now && denial(
                deny,
                e.peer,
            ) is None
        }),
    decreases n,
{
    if n > 0 && !(s[n - 1].key == k && usable(s[n - 1], now, deny)) {
        checkout_respects_the_guard(s, k, now, deny, n - 1);
    }
}

} // verus!
