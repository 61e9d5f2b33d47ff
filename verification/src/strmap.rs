//! A map with text keys, kept in the order of its keys.
use vstd::prelude::*;

use crate::text::chars_of;

verus! {

// ---- The order of texts -----------------------------------------------------

/// `a` stands before `b` in the order of their characters.
pub open spec fn less(a: Seq<char>, b: Seq<char>) -> bool
    decreases a.len(),
{
    if b.len() == 0 {
        false
    } else if a.len() == 0 {
        true
    } else if a[0] != b[0] {
        a[0] < b[0]
    } else {
        less(a.skip(1), b.skip(1))
    }
}

/// No text stands before itself.
pub proof fn less_irreflexive(a: Seq<char>)
    ensures
        !less(a, a),
    decreases a.len(),
{
    if a.len() > 0 {
        less_irreflexive(a.skip(1));
    }
}

/// The order is transitive.
pub proof fn less_transitive(a: Seq<char>, b: Seq<char>, c: Seq<char>)
    requires
        less(a, b),
        less(b, c),
    ensures
        less(a, c),
    decreases a.len(),
{
    if a.len() > 0 && a[0] == b[0] && b[0] == c[0] {
        less_transitive(a.skip(1), b.skip(1), c.skip(1));
    }
}

/// Of two different texts one stands before the other.
pub proof fn less_total(a: Seq<char>, b: Seq<char>)
    ensures
        a == b || less(a, b) || less(b, a),
    decreases a.len(),
{
    if a.len() > 0 && b.len() > 0 && a[0] == b[0] {
        less_total(a.skip(1), b.skip(1));
        if a.skip(1) == b.skip(1) {
            assert(a == seq![a[0]] + a.skip(1));
            assert(b == seq![b[0]] + b.skip(1));
        }
    } else if a.len() == 0 && b.len() == 0 {
        assert(a == b);
    }
}

pub fn before(a: &str, b: &str) -> (r: bool)
    ensures
        r == less(a@, b@),
{
    let x = chars_of(a);
    let y = chars_of(b);
    let mut i: usize = 0;
    assert(x@.skip(0) == x@ && y@.skip(0) == y@);
    while i < x.len() && i < y.len() && x[i] == y[i]
        invariant
            i <= x@.len(),
            i <= y@.len(),
            less(x@, y@) == less(x@.skip(i as int), y@.skip(i as int)),
        decreases x@.len() - i,
    {
        assert(x@.skip(i as int).skip(1) == x@.skip(i + 1));
        assert(y@.skip(i as int).skip(1) == y@.skip(i + 1));
        i += 1;
    }
    if i == y.len() {
        false
    } else if i == x.len() {
        true
    } else {
        x[i] < y[i]
    }
}

// ---- Sorted associations ------------------------------------------------------

/// The keys rise strictly.
pub open spec fn sorted<V>(s: Seq<(Seq<char>, V)>) -> bool {
    forall|i: int, j: int| 0 <= i < j < s.len() ==> less(#[trigger] s[i].0, #[trigger] s[j].0)
}

/// The first index at or after `i` whose key does not stand before `k`.
pub open spec fn rank<V>(s: Seq<(Seq<char>, V)>, k: Seq<char>, i: int) -> int
    decreases s.len() - i,
{
    if i >= s.len() {
        s.len() as int
    } else if less(s[i].0, k) {
        rank(s, k, i + 1)
    } else {
        i
    }
}

/// The value under `k`.
pub open spec fn found<V>(s: Seq<(Seq<char>, V)>, k: Seq<char>) -> Option<V> {
    let p = rank(s, k, 0);
    if p < s.len() && s[p].0 == k {
        Some(s[p].1)
    } else {
        None
    }
}

/// The association with `v` under `k` and everything else as before.
pub open spec fn put<V>(s: Seq<(Seq<char>, V)>, k: Seq<char>, v: V) -> Seq<(Seq<char>, V)> {
    let p = rank(s, k, 0);
    if p < s.len() && s[p].0 == k {
        s.update(p, (k, v))
    } else {
        s.insert(p, (k, v))
    }
}

/// The association without `k`.
pub open spec fn without<V>(s: Seq<(Seq<char>, V)>, k: Seq<char>) -> Seq<(Seq<char>, V)> {
    let p = rank(s, k, 0);
    if p < s.len() && s[p].0 == k {
        s.remove(p)
    } else {
        s
    }
}

/// The place of a key parts the keys before it from those behind it.
pub proof fn rank_splits<V>(s: Seq<(Seq<char>, V)>, k: Seq<char>, i: int)
    requires
        sorted(s),
        0 <= i <= s.len(),
        forall|j: int| 0 <= j < i ==> less(#[trigger] s[j].0, k),
    ensures
        i <= rank(s, k, i) <= s.len(),
        forall|j: int| 0 <= j < rank(s, k, i) ==> less(#[trigger] s[j].0, k),
        rank(s, k, i) < s.len() ==> !less(s[rank(s, k, i)].0, k),
        forall|j: int| rank(s, k, i) < j < s.len() ==> less(k, #[trigger] s[j].0),
        rank(s, k, i) < s.len() && s[rank(s, k, i)].0 != k ==> less(k, s[rank(s, k, i)].0),
    decreases s.len() - i,
{
    if i < s.len() {
        if less(s[i].0, k) {
            rank_splits(s, k, i + 1);
        } else {
            less_total(s[i].0, k);
            assert forall|j: int| i < j < s.len() implies less(k, #[trigger] s[j].0) by {
                assert(less(s[i].0, s[j].0));
                if s[i].0 != k {
                    less_transitive(k, s[i].0, s[j].0);
                }
            }
        }
    }
}

/// The rank of a key is where the keys before it end.
proof fn rank_is<V>(s: Seq<(Seq<char>, V)>, k: Seq<char>, i: int, p: int)
    requires
        0 <= i <= p <= s.len(),
        forall|j: int| 0 <= j < p ==> less(#[trigger] s[j].0, k),
        p < s.len() ==> !less(s[p].0, k),
    ensures
        rank(s, k, i) == p,
    decreases p - i,
{
    if i < p {
        rank_is(s, k, i + 1, p);
    }
}

/// A sorted association holds `v` under `k` exactly when the pair is in it.
pub proof fn found_is_member<V>(s: Seq<(Seq<char>, V)>, k: Seq<char>, v: V)
    requires
        sorted(s),
    ensures
        (found(s, k) == Some(v)) == s.contains((k, v)),
{
    rank_splits(s, k, 0);
    if s.contains((k, v)) {
        let j = choose|j: int| 0 <= j < s.len() && s[j] == (k, v);
        less_irreflexive(k);
        let p = rank(s, k, 0);
        if j < p {
            assert(less(s[j].0, k));
        } else if j > p {
            assert(less(k, s[j].0));
        }
    }
    if found(s, k) == Some(v) {
        let p = rank(s, k, 0);
        assert(s[p] == (k, v));
    }
}

/// Putting a value keeps the order, is found again, and leaves every other key
/// as it was.
pub proof fn put_laws<V>(s: Seq<(Seq<char>, V)>, k: Seq<char>, v: V)
    requires
        sorted(s),
    ensures
        sorted(put(s, k, v)),
        found(put(s, k, v), k) == Some(v),
        forall|j: Seq<char>| j != k ==> #[trigger] found(put(s, k, v), j) == found(s, j),
{
    rank_splits(s, k, 0);
    let p = rank(s, k, 0);
    let t = put(s, k, v);
    less_irreflexive(k);
    assert(sorted(t)) by {
        assert forall|a: int, b: int| 0 <= a < b < t.len() implies less(
            #[trigger] t[a].0,
            #[trigger] t[b].0,
        ) by {
            if t.len() > s.len() {
                let a0 = if a > p { a - 1 } else { a };
                let b0 = if b > p { b - 1 } else { b };
                if a != p && b != p {
                    assert(less(s[a0].0, s[b0].0));
                } else if a == p {
                    assert(t[b] == s[b0]);
                    if b0 > p {
                        assert(less(k, s[b0].0));
                    }
                } else {
                    assert(t[a] == s[a0]);
                    assert(less(s[a0].0, k));
                }
            } else {
                assert(less(s[a].0, s[b].0));
            }
        }
    }
    assert(t[p] == (k, v));
    assert(t.contains((k, v)));
    found_is_member(t, k, v);
    assert forall|j: Seq<char>| j != k implies #[trigger] found(t, j) == found(s, j) by {
        put_keeps_other(s, k, v, j);
    }
}

proof fn put_keeps_other<V>(s: Seq<(Seq<char>, V)>, k: Seq<char>, v: V, j: Seq<char>)
    requires
        sorted(s),
        sorted(put(s, k, v)),
        j != k,
    ensures
        found(put(s, k, v), j) == found(s, j),
{
    let t = put(s, k, v);
    let p = rank(s, k, 0);
    rank_splits(s, k, 0);
    if found(s, j) is Some {
        let w = found(s, j)->0;
        found_is_member(s, j, w);
        let i = choose|i: int| 0 <= i < s.len() && s[i] == (j, w);
        let i1 = if t.len() > s.len() && i >= p { i + 1 } else { i };
        assert(t[i1] == (j, w));
        assert(t.contains((j, w)));
        found_is_member(t, j, w);
    } else if found(t, j) is Some {
        let w = found(t, j)->0;
        found_is_member(t, j, w);
        let i = choose|i: int| 0 <= i < t.len() && t[i] == (j, w);
        let i0 = if t.len() > s.len() && i > p { i - 1 } else { i };
        assert(s[i0] == (j, w));
        assert(s.contains((j, w)));
        found_is_member(s, j, w);
    }
}

/// Taking a key away keeps the order, makes the key absent, and leaves every
/// other key as it was.
pub proof fn without_laws<V>(s: Seq<(Seq<char>, V)>, k: Seq<char>)
    requires
        sorted(s),
    ensures
        sorted(without(s, k)),
        found(without(s, k), k) is None,
        forall|j: Seq<char>| j != k ==> #[trigger] found(without(s, k), j) == found(s, j),
{
    rank_splits(s, k, 0);
    let p = rank(s, k, 0);
    let t = without(s, k);
    less_irreflexive(k);
    assert(sorted(t)) by {
        assert forall|a: int, b: int| 0 <= a < b < t.len() implies less(
            #[trigger] t[a].0,
            #[trigger] t[b].0,
        ) by {
            if t.len() < s.len() {
                let a0 = if a >= p { a + 1 } else { a };
                let b0 = if b >= p { b + 1 } else { b };
                assert(less(s[a0].0, s[b0].0));
            } else {
                assert(less(s[a].0, s[b].0));
            }
        }
    }
    rank_splits(t, k, 0);
    if found(t, k) is Some {
        let w = found(t, k)->0;
        found_is_member(t, k, w);
        let i = choose|i: int| 0 <= i < t.len() && t[i] == (k, w);
        let i0 = if t.len() < s.len() && i >= p { i + 1 } else { i };
        assert(s[i0] == (k, w));
        if i0 < p {
            assert(less(s[i0].0, k));
        } else if i0 > p {
            assert(less(k, s[i0].0));
        }
    }
    assert forall|j: Seq<char>| j != k implies #[trigger] found(t, j) == found(s, j) by {
        without_keeps_other(s, k, j);
    }
}

proof fn without_keeps_other<V>(s: Seq<(Seq<char>, V)>, k: Seq<char>, j: Seq<char>)
    requires
        sorted(s),
        sorted(without(s, k)),
        j != k,
    ensures
        found(without(s, k), j) == found(s, j),
{
    let t = without(s, k);
    let p = rank(s, k, 0);
    rank_splits(s, k, 0);
    if found(s, j) is Some {
        let w = found(s, j)->0;
        found_is_member(s, j, w);
        let i = choose|i: int| 0 <= i < s.len() && s[i] == (j, w);
        let i1 = if t.len() < s.len() && i > p { i - 1 } else { i };
        assert(t[i1] == (j, w));
        assert(t.contains((j, w)));
        found_is_member(t, j, w);
    } else if found(t, j) is Some {
        let w = found(t, j)->0;
        found_is_member(t, j, w);
        let i = choose|i: int| 0 <= i < t.len() && t[i] == (j, w);
        let i0 = if t.len() < s.len() && i >= p { i + 1 } else { i };
        assert(s[i0] == (j, w));
        assert(s.contains((j, w)));
        found_is_member(s, j, w);
    }
}

/// The association with `f` of every value.
pub open spec fn mapped<V, W>(s: Seq<(Seq<char>, V)>, f: spec_fn(V) -> W) -> Seq<(Seq<char>, W)> {
    s.map_values(|p: (Seq<char>, V)| (p.0, f(p.1)))
}

proof fn rank_of_mapped<V, W>(
    s: Seq<(Seq<char>, V)>,
    f: spec_fn(V) -> W,
    k: Seq<char>,
    i: int,
)
    requires
        0 <= i <= s.len(),
    ensures
        rank(mapped(s, f), k, i) == rank(s, k, i),
        i <= rank(s, k, i) <= s.len(),
    decreases s.len() - i,
{
    if i < s.len() {
        assert(mapped(s, f)[i].0 == s[i].0);
        if less(s[i].0, k) {
            rank_of_mapped(s, f, k, i + 1);
        }
    }
}

/// Mapping the values goes through putting, taking away and finding.
pub proof fn mapping_commutes<V, W>(
    s: Seq<(Seq<char>, V)>,
    f: spec_fn(V) -> W,
    k: Seq<char>,
    v: V,
)
    ensures
        mapped(put(s, k, v), f) == put(mapped(s, f), k, f(v)),
        mapped(without(s, k), f) == without(mapped(s, f), k),
        found(mapped(s, f), k) == (match found(s, k) {
            Some(x) => Some(f(x)),
            None => None,
        }),
{
    rank_of_mapped(s, f, k, 0);
    let p = rank(s, k, 0);
    if p < s.len() {
        assert(mapped(s, f)[p] == (s[p].0, f(s[p].1)));
    }
    if p < s.len() && s[p].0 == k {
        assert(mapped(put(s, k, v), f) == mapped(s, f).update(p, (k, f(v))));
        assert(mapped(without(s, k), f) == mapped(s, f).remove(p));
    } else {
        assert(mapped(put(s, k, v), f) == mapped(s, f).insert(p, (k, f(v))));
    }
}

// ---- The map ---------------------------------------------------------------------

/// A map from texts to values; its entries stand in the order of their keys.
pub struct StrMap<V> {
    entries: Vec<(String, V)>,
}

/// The entries with their keys as texts.
pub open spec fn keyed<V>(e: Seq<(String, V)>) -> Seq<(Seq<char>, V)> {
    e.map_values(|p: (String, V)| (p.0@, p.1))
}

impl<V> View for StrMap<V> {
    type V = Seq<(Seq<char>, V)>;

    closed spec fn view(&self) -> Seq<(Seq<char>, V)> {
        keyed(self.entries@)
    }
}

impl<V> StrMap<V> {
    #[verifier::type_invariant]
    spec fn in_order(self) -> bool {
        sorted(keyed(self.entries@))
    }

    pub fn new() -> (r: Self)
        ensures
            r@ == Seq::<(Seq<char>, V)>::empty(),
    {
        StrMap { entries: Vec::new() }
    }

    /// A map of entries that already stand in order.
    pub(crate) fn of_sorted(entries: Vec<(String, V)>) -> (r: Self)
        requires
            sorted(keyed(entries@)),
        ensures
            r@ == keyed(entries@),
    {
        StrMap { entries }
    }

    pub fn len(&self) -> (r: usize)
        ensures
            r == self@.len(),
            sorted(self@),
    {
        proof {
            use_type_invariant(self);
        }
        self.entries.len()
    }

    fn rank_of(&self, key: &str) -> (p: usize)
        ensures
            p == rank(self@, key@, 0),
            p <= self.entries@.len(),
    {
        let mut p: usize = 0;
        while p < self.entries.len()
            invariant
                p <= self.entries@.len(),
                rank(self@, key@, 0) == rank(self@, key@, p as int),
                self@ == keyed(self.entries@),
            decreases self.entries@.len() - p,
        {
            if !before(self.entries[p].0.as_str(), key) {
                return p;
            }
            p += 1;
        }
        p
    }

    pub fn get(&self, key: &str) -> (r: Option<&V>)
        ensures
            match r {
                Some(v) => found(self@, key@) == Some(*v),
                None => found(self@, key@) is None,
            },
    {
        let p: usize = self.rank_of(key);
        if p < self.entries.len() {
            if crate::text::same(self.entries[p].0.as_str(), key) {
                return Some(&self.entries[p].1);
            }
        }
        None
    }

    pub fn insert(&mut self, key: String, value: V)
        ensures
            final(self)@ == put(old(self)@, key@, value),
    {
        proof {
            use_type_invariant(&*self);
            put_laws(self@, key@, value);
            rank_splits(self@, key@, 0);
        }
        let p: usize = self.rank_of(key.as_str());
        let ghost before = self.entries@;
        let mut e: Vec<(String, V)> = Vec::new();
        std::mem::swap(&mut e, &mut self.entries);
        if p < e.len() && crate::text::same(e[p].0.as_str(), key.as_str()) {
            let ghost pair = (key, value);
            e.set(p, (key, value));
            assert(keyed(e@) == keyed(before).update(p as int, (pair.0@, pair.1)));
        } else {
            let ghost pair = (key, value);
            e.insert(p, (key, value));
            assert(keyed(e@) == keyed(before).insert(p as int, (pair.0@, pair.1)));
        }
        self.entries = e;
    }

    pub fn remove(&mut self, key: &str)
        ensures
            final(self)@ == without(old(self)@, key@),
    {
        proof {
            use_type_invariant(&*self);
            without_laws(self@, key@);
            rank_splits(self@, key@, 0);
        }
        let p: usize = self.rank_of(key);
        let ghost before = self.entries@;
        let mut e: Vec<(String, V)> = Vec::new();
        std::mem::swap(&mut e, &mut self.entries);
        if p < e.len() && crate::text::same(e[p].0.as_str(), key) {
            e.remove(p);
            assert(keyed(e@) == keyed(before).remove(p as int));
        }
        self.entries = e;
    }

    pub fn key_at(&self, i: usize) -> (r: &str)
        requires
            i < self@.len(),
        ensures
            r@ == self@[i as int].0,
    {
        self.entries[i].0.as_str()
    }

    pub fn value_at(&self, i: usize) -> (r: &V)
        requires
            i < self@.len(),
        ensures
            *r == self@[i as int].1,
    {
        &self.entries[i].1
    }
}

} // verus!
