//! What a map from texts holds.
use vstd::prelude::*;

verus! {

/// What stands under a key is found under it, and nothing else is.
pub proof fn keys_are_looked_up<V>(s: Seq<(Seq<char>, V)>, k: Seq<char>)
    requires
        crate::strmap::sorted(s),
    ensures
        match crate::strmap::found(s, k) {
            Some(v) => exists|i: int| 0 <= i < s.len() && #[trigger] s[i] == (k, v),
            None => forall|i: int| 0 <= i < s.len() ==> (#[trigger] s[i]).0 != k,
        },
{
    let p = crate::strmap::rank(s, k, 0);
    crate::strmap::rank_splits(s, k, 0);
    match crate::strmap::found(s, k) {
        Some(v) => {
            assert(s[p] == (k, v));
        },
        None => {
            assert forall|i: int| 0 <= i < s.len() implies (#[trigger] s[i]).0 != k by {
                if s[i].0 == k {
                    crate::strmap::less_irreflexive(k);
                    if p < i {
                        assert(crate::strmap::less(s[p].0, s[i].0));
                        crate::strmap::less_total(s[p].0, k);
                    }
                }
            }
        },
    }
}

/// Of an entry that was put the map finds the value, and of every other key what it found before.
pub proof fn what_is_put_is_found<V>(s: Seq<(Seq<char>, V)>, k: Seq<char>, v: V, other: Seq<char>)
    requires
        crate::strmap::sorted(s),
        other != k,
    ensures
        crate::strmap::found(crate::strmap::put(s, k, v), k) == Some(v),
        crate::strmap::found(crate::strmap::put(s, k, v), other) == crate::strmap::found(s, other),
        crate::strmap::sorted(crate::strmap::put(s, k, v)),
{
    crate::strmap::put_laws(s, k, v);
}

/// Keys stand in the order of their first different characters, a text before what it begins.
pub proof fn keys_stand_in_order(p: Seq<char>, a: char, b: char, x: Seq<char>, y: Seq<char>)
    ensures
        crate::strmap::less(p, p + seq![b] + y),
        !crate::strmap::less(p + seq![b] + y, p),
        a != b ==> crate::strmap::less(p + seq![a] + x, p + seq![b] + y) == (a < b),
    decreases p.len(),
{
    if p.len() > 0 {
        let q = p.skip(1);
        keys_stand_in_order(q, a, b, x, y);
        assert((p + seq![a] + x).skip(1) =~= q + seq![a] + x);
        assert((p + seq![b] + y).skip(1) =~= q + seq![b] + y);
    }
}

} // verus!
