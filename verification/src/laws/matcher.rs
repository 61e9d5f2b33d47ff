//! Domain globs, path globs, header names and rules.
use vstd::prelude::*;

verus! {

/// Host names are compared without case and without one final dot.
pub proof fn hosts_are_compared_bare(h: Seq<char>)
    ensures
        crate::matcher::plain_host(h) == super::words::bare_host(h),
{
    super::text::case_is_that_of_ascii_letters(h);
    let l = crate::text::lower(h);
    if h.len() > 0 {
        assert(l[h.len() - 1] == super::words::small_char(h[h.len() - 1]));
        if h[h.len() - 1] == '.' {
            assert(l.drop_last() =~= super::words::small(h.take(h.len() - 1)));
        }
    }
}

proof fn small_keeps_stars(p: Seq<char>)
    requires
        super::words::free_of(p, '*'),
    ensures
        !super::words::small(p).contains('*'),
{
    let l = super::words::small(p);
    assert forall|i: int| 0 <= i < l.len() implies l[i] != '*' by {
        assert(p[i] != '*');
    }
}

/// A pattern without `*` names one host and no other.
pub proof fn a_plain_pattern_names_one_host(p: Seq<char>, h: Seq<char>)
    requires
        p.len() > 0,
        super::words::free_of(p, '*'),
    ensures
        match crate::matcher::domain_glob(p) {
            Ok(g) => crate::matcher::glob_accepts(g, h) == (super::words::bare_host(h)
                == super::words::small(p)),
            Err(_) => false,
        },
{
    super::text::case_is_that_of_ascii_letters(p);
    hosts_are_compared_bare(h);
    small_keeps_stars(p);
    let l = super::words::small(p);
    if crate::text::begins(l, seq!['*', '.']) {
        assert(l.subrange(0, 2)[0] == '*');
        assert(l.contains('*'));
    }
}

/// `*.` before a name stands for that name and for all names below it, and for no other.
pub proof fn a_starred_pattern_names_a_host_and_those_below(s: Seq<char>, h: Seq<char>)
    requires
        s.len() > 0,
        super::words::free_of(s, '*'),
    ensures
        match crate::matcher::domain_glob(seq!['*', '.'] + s) {
            Ok(g) => crate::matcher::glob_accepts(g, h) == ({
                ||| super::words::bare_host(h) == super::words::small(s)
                ||| exists|x: Seq<char>|
                    super::words::bare_host(h) == #[trigger] (x + seq!['.'])
                        + super::words::small(s)
            }),
            Err(_) => false,
        },
{
    let p = seq!['*', '.'] + s;
    super::text::case_is_that_of_ascii_letters(p);
    super::text::case_is_that_of_ascii_letters(s);
    hosts_are_compared_bare(h);
    small_keeps_stars(s);
    let l = crate::text::lower(p);
    let w = super::words::small(s);
    assert(l.subrange(0, 2) =~= seq!['*', '.']);
    assert(l.skip(2) =~= w);
    let b = super::words::bare_host(h);
    let d = seq!['.'] + w;
    let g = crate::matcher::domain_glob(p)->Ok_0;
    assert(g.suffix == w && g.wildcard);
    if crate::text::ends(b, d) {
        let x = b.take(b.len() - d.len());
        assert(b.subrange(b.len() - d.len(), b.len() as int) == d);
        assert(b =~= (x + seq!['.']) + w) by {
            assert forall|i: int| x.len() <= i < b.len() implies b[i] == d[i - x.len()] by {
                assert(b.subrange(b.len() - d.len(), b.len() as int)[i - x.len()] == b[i]);
            }
        }
    }
    if exists|x: Seq<char>| b == #[trigger] (x + seq!['.']) + w {
        let x = choose|x: Seq<char>| b == #[trigger] (x + seq!['.']) + w;
        assert(b.subrange(b.len() - d.len(), b.len() as int) =~= d);
    }
}

/// A pattern that is empty, or has a `*` that is not its first label, stands for nothing.
pub proof fn other_patterns_are_refused(p: Seq<char>, i: int)
    requires
        p.len() == 0 || p == seq!['*', '.'] || (0 <= i < p.len() && p[i] == '*' && (i > 0 || p.len()
            == 1 || p[1] != '.')),
    ensures
        crate::matcher::domain_glob(p) is Err,
{
    super::text::case_is_that_of_ascii_letters(p);
    let l = crate::text::lower(p);
    if crate::text::begins(l, seq!['*', '.']) {
        assert(l.subrange(0, 2)[0] == '*' && l.subrange(0, 2)[1] == '.');
        assert(l[0] == '*' && l[1] == '.');
        assert(p[1] == '.');
        if p != seq!['*', '.'] {
            assert(l[i] == '*');
            assert(i >= 2);
            assert(l.skip(2)[i - 2] == '*');
            assert(l.skip(2).contains('*'));
        }
    } else if p.len() > 0 {
        if p == seq!['*', '.'] {
            assert(l[0] == '*');
        } else {
            assert(l[i] == '*');
        }
        assert(l.contains('*'));
    }
}

/// In a path glob a `*` behind plain characters stands for any run: what is matched
/// begins with the characters, and some rest of it is matched by what follows the `*`.
pub proof fn a_star_stands_for_any_run(x: Seq<char>, y: Seq<char>, s: Seq<char>)
    requires
        super::words::free_of(x, '*'),
    ensures
        crate::matcher::glob(x + seq!['*'] + y, s) == ({
            &&& super::words::stands(s, x, 0)
            &&& exists|k: int| x.len() <= k <= s.len() && crate::matcher::glob(
                y,
                #[trigger] s.skip(k),
            )
        }),
        crate::matcher::glob(x, s) == (x == s),
    decreases x.len(), s.len(),
{
    let p = x + seq!['*'] + y;
    if x.len() == 0 {
        assert(p.skip(1) =~= y);
        assert(x + seq!['*'] + y =~= seq!['*'] + y);
        assert(s.skip(0) =~= s);
        assert(x =~= Seq::<char>::empty());
        if s.len() > 0 {
            let t = s.skip(1);
            a_star_stands_for_any_run(x, y, t);
            if exists|k: int| 0 <= k <= s.len() && crate::matcher::glob(y, #[trigger] s.skip(k)) {
                let k = choose|k: int|
                    0 <= k <= s.len() && crate::matcher::glob(y, #[trigger] s.skip(k));
                if k > 0 {
                    assert(t.skip(k - 1) =~= s.skip(k));
                }
            }
            if exists|k: int| 0 <= k <= t.len() && crate::matcher::glob(y, #[trigger] t.skip(k)) {
                let k = choose|k: int|
                    0 <= k <= t.len() && crate::matcher::glob(y, #[trigger] t.skip(k));
                assert(t.skip(k) =~= s.skip(k + 1));
            }
        } else {
            if exists|k: int| 0 <= k <= s.len() && crate::matcher::glob(y, #[trigger] s.skip(k)) {
                let k = choose|k: int|
                    0 <= k <= s.len() && crate::matcher::glob(y, #[trigger] s.skip(k));
                assert(k == 0);
            }
            assert(x =~= s);
        }
    } else {
        let z = x.skip(1);
        assert(x[0] != '*');
        assert(p[0] == x[0]);
        assert(p.skip(1) =~= z + seq!['*'] + y);
        assert forall|i: int| 0 <= i < z.len() implies #[trigger] z[i] != '*' by {
            assert(x[i + 1] != '*');
        }
        if s.len() > 0 {
            let t = s.skip(1);
            a_star_stands_for_any_run(z, y, t);
            if s[0] == x[0] {
                assert((x == s) == (z == t)) by {
                    if z == t {
                        assert(x =~= seq![x[0]] + z);
                        assert(s =~= seq![s[0]] + t);
                    }
                }
                assert(super::words::stands(s, x, 0) == super::words::stands(t, z, 0)) by {
                    if super::words::stands(t, z, 0) {
                        assert forall|k: int| 0 <= k < x.len() implies s[0 + k]
                            == #[trigger] x[k] by {
                            if k > 0 {
                                assert(t[0 + (k - 1)] == z[k - 1]);
                            }
                        }
                    }
                    if super::words::stands(s, x, 0) {
                        assert forall|k: int| 0 <= k < z.len() implies t[0 + k]
                            == #[trigger] z[k] by {
                            assert(s[0 + (k + 1)] == x[k + 1]);
                        }
                    }
                }
                if exists|k: int|
                    x.len() <= k <= s.len() && crate::matcher::glob(y, #[trigger] s.skip(k)) {
                    let k = choose|k: int|
                        x.len() <= k <= s.len() && crate::matcher::glob(y, #[trigger] s.skip(k));
                    assert(t.skip(k - 1) =~= s.skip(k));
                }
                if exists|k: int|
                    z.len() <= k <= t.len() && crate::matcher::glob(y, #[trigger] t.skip(k)) {
                    let k = choose|k: int|
                        z.len() <= k <= t.len() && crate::matcher::glob(y, #[trigger] t.skip(k));
                    assert(t.skip(k) =~= s.skip(k + 1));
                }
            } else {
                if super::words::stands(s, x, 0) {
                    assert(s[0int + 0int] == x[0]);
                }
            }
        }
    }
}

/// A header is named by a literal entry where they are the same but for case, and by
/// `/../` where the expression between accepts the name in lowercase.
pub proof fn header_entries_name_headers(e: Seq<char>, regexes: bool, name: Seq<char>)
    requires
        e.len() > 0,
    ensures
        e[0] != '/' || e[e.len() - 1] != '/' || e.len() == 1 ==> match crate::matcher::header_entry(
            e,
            regexes,
        ) {
            Ok(h) => crate::matcher::entry_accepts(h, name) == (super::words::small(e)
                == super::words::small(name)),
            Err(_) => false,
        },
        e[0] == '/' && e[e.len() - 1] == '/' && e.len() > 1 ==> match crate::matcher::header_entry(
            e,
            regexes,
        ) {
            Ok(h) => regexes && match crate::matcher::caseless_regex(
                e.subrange(1, e.len() - 1),
            ) {
                Ok(re) => crate::matcher::entry_accepts(h, name) == crate::matcher::regex_accepts(
                    re,
                    super::words::small(name),
                ),
                Err(_) => false,
            },
            Err(_) => !regexes || crate::matcher::caseless_regex(
                e.subrange(1, e.len() - 1),
            ) is Err,
        },
        crate::matcher::header_entry(Seq::empty(), regexes) is Err,
{
    super::text::case_is_that_of_ascii_letters(e);
    super::text::case_is_that_of_ascii_letters(name);
}

/// One of a list of entries is enough.
pub proof fn one_entry_is_enough(
    v: Seq<crate::matcher::HeaderNameView>,
    w: Seq<crate::matcher::HeaderNameView>,
    e: crate::matcher::HeaderNameView,
    name: Seq<char>,
)
    ensures
        !crate::matcher::some_entry_accepts(Seq::empty(), name),
        crate::matcher::some_entry_accepts(v + seq![e] + w, name) == (
        crate::matcher::entry_accepts(e, name) || crate::matcher::some_entry_accepts(v, name)
            || crate::matcher::some_entry_accepts(w, name)),
{
    let all = v + seq![e] + w;
    assert(all[v.len() as int] == e);
    assert forall|i: int| 0 <= i < v.len() implies all[i] == #[trigger] v[i] by {}
    assert forall|i: int| 0 <= i < w.len() implies all[v.len() + 1 + i] == #[trigger] w[i] by {}
    if crate::matcher::some_entry_accepts(all, name) {
        let i = choose|i: int|
            0 <= i < all.len() && crate::matcher::entry_accepts(#[trigger] all[i], name);
        if i < v.len() {
            assert(crate::matcher::entry_accepts(v[i], name));
        } else if i > v.len() {
            assert(crate::matcher::entry_accepts(w[i - v.len() - 1], name));
        }
    }
    if crate::matcher::some_entry_accepts(v, name) {
        let i = choose|i: int|
            0 <= i < v.len() && crate::matcher::entry_accepts(#[trigger] v[i], name);
        assert(crate::matcher::entry_accepts(all[i], name));
    }
    if crate::matcher::some_entry_accepts(w, name) {
        let i = choose|i: int|
            0 <= i < w.len() && crate::matcher::entry_accepts(#[trigger] w[i], name);
        assert(crate::matcher::entry_accepts(all[v.len() + 1 + i], name));
    }
}

/// A host clause with a `/` is a prefix, any other a domain glob.
pub proof fn a_slash_makes_a_prefix(s: Seq<char>, host: Seq<char>)
    ensures
        super::words::free_of(s, '/') ==> match (
            crate::matcher::host_clause(s),
            crate::matcher::domain_glob(s),
        ) {
            (Ok(h), Ok(g)) => crate::matcher::host_accepts(h, host)
                == crate::matcher::glob_accepts(g, host),
            (Err(_), Err(_)) => true,
            _ => false,
        },
        !super::words::free_of(s, '/') ==> match (
            crate::matcher::host_clause(s),
            crate::matcher::cidr(s),
        ) {
            (Ok(h), Ok(c)) => crate::matcher::host_accepts(h, host)
                == crate::matcher::cidr_accepts(c, host),
            (Err(_), Err(_)) => true,
            _ => false,
        },
{
    if s.contains('/') {
        let i = choose|i: int| 0 <= i < s.len() && s[i] == '/';
        assert(s[i] == '/');
        assert(!super::words::free_of(s, '/'));
    } else {
        assert forall|i: int| 0 <= i < s.len() implies #[trigger] s[i] != '/' by {
            assert(!s.contains('/'));
        }
    }
}

/// A rule asks for its host, for one of its methods where it lists some, and for one of
/// its paths where it lists some; a request needs one rule.
pub proof fn a_rule_asks_for_all_it_lists(
    r: crate::matcher::RuleView,
    host: Seq<char>,
    method: Seq<char>,
    path: Seq<char>,
)
    ensures
        crate::matcher::rule_accepts(r, host, method, path) == ({
            &&& crate::matcher::host_accepts(r.host, host)
            &&& match r.methods {
                Some(m) => exists|i: int| 0 <= i < m.len() && #[trigger] m[i] == method,
                None => true,
            }
            &&& match r.paths {
                Some(p) => exists|i: int|
                    0 <= i < p.len() && crate::matcher::glob(#[trigger] p[i], path),
                None => true,
            }
        }),
        crate::matcher::some_rule_accepts(seq![r], host, method, path)
            == crate::matcher::rule_accepts(r, host, method, path),
        !crate::matcher::some_rule_accepts(Seq::empty(), host, method, path),
{
    assert(seq![r][0] == r);
    if let Some(m) = r.methods {
        if m.contains(method) {
            let i = choose|i: int| 0 <= i < m.len() && m[i] == method;
            assert(m[i] == method);
        }
        if exists|i: int| 0 <= i < m.len() && #[trigger] m[i] == method {
            let i = choose|i: int| 0 <= i < m.len() && #[trigger] m[i] == method;
            assert(m.contains(method));
        }
    }
}

/// Of two lists of rules one that matches is enough.
pub proof fn one_rule_is_enough(
    v: Seq<crate::matcher::RuleView>,
    w: Seq<crate::matcher::RuleView>,
    host: Seq<char>,
    method: Seq<char>,
    path: Seq<char>,
)
    ensures
        crate::matcher::some_rule_accepts(v + w, host, method, path) == (
        crate::matcher::some_rule_accepts(v, host, method, path)
            || crate::matcher::some_rule_accepts(w, host, method, path)),
{
    let all = v + w;
    if crate::matcher::some_rule_accepts(all, host, method, path) {
        let i = choose|i: int|
            0 <= i < all.len() && crate::matcher::rule_accepts(
                #[trigger] all[i],
                host,
                method,
                path,
            );
        if i < v.len() {
            assert(v[i] == all[i]);
        } else {
            assert(w[i - v.len()] == all[i]);
        }
    }
    if crate::matcher::some_rule_accepts(v, host, method, path) {
        let i = choose|i: int|
            0 <= i < v.len() && crate::matcher::rule_accepts(#[trigger] v[i], host, method, path);
        assert(all[i] == v[i]);
    }
    if crate::matcher::some_rule_accepts(w, host, method, path) {
        let i = choose|i: int|
            0 <= i < w.len() && crate::matcher::rule_accepts(#[trigger] w[i], host, method, path);
        assert(all[v.len() + i] == w[i]);
    }
}

/// The display form of a header name has an uppercase letter first and behind each `-`,
/// and lowercase letters else.
pub proof fn display_names_are_capitalised(s: Seq<char>, i: int)
    requires
        0 <= i < s.len(),
    ensures
        crate::matcher::canonical_header(s).len() == s.len(),
        super::words::small(crate::matcher::canonical_header(s)) == super::words::small(s),
        ({
            let c = crate::matcher::canonical_header(s)[i];
            if i == 0 || s[i - 1] == '-' {
                !('a' <= c <= 'z')
            } else {
                !('A' <= c <= 'Z')
            }
        }),
{
    assert(super::words::small(crate::matcher::canonical_header(s)) =~= super::words::small(s));
}

} // verus!
