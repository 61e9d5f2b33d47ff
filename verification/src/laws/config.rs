//! What a configuration stands for.
use vstd::prelude::*;
use vstd::string::*;
use vstd::utf8::*;

use crate::config::{
    GroupSpecView, RuleSpecView, SecretEntryView, SourceSpecView, TransformConfigView,
    TransformSpecView,
};
use crate::secret::{SourceKindView, SourceView};
use crate::transforms::{AllowlistView, GroupView, TransformView};

verus! {

proof fn collected_one_by_one<A, B>(s: Seq<A>, f: spec_fn(A) -> Result<B, Seq<char>>, n: int)
    requires
        0 <= n <= s.len(),
    ensures
        match crate::config::collected(s, f, n) {
            Ok(v) => v.len() == n && forall|i: int|
                0 <= i < n ==> f(#[trigger] s[i]) == Ok::<B, Seq<char>>(v[i]),
            Err(_) => exists|i: int| 0 <= i < n && f(#[trigger] s[i]) is Err,
        },
    decreases n,
{
    if n > 0 {
        collected_one_by_one(s, f, n - 1);
        if crate::config::collected(s, f, n - 1) is Ok && f(s[n - 1]) is Err {
            assert(f(s[n - 1]) is Err);
        }
        if crate::config::collected(s, f, n) is Ok {
            let v = crate::config::collected(s, f, n)->Ok_0;
            let before = crate::config::collected(s, f, n - 1)->Ok_0;
            assert forall|i: int| 0 <= i < n implies f(#[trigger] s[i]) == Ok::<B, Seq<char>>(
                v[i],
            ) by {
                if i < n - 1 {
                    assert(v[i] == before[i]);
                }
            }
        }
    }
}

/// A list is read one by one, and fails where one of it does.
pub proof fn lists_are_read_one_by_one<A, B>(s: Seq<A>, f: spec_fn(A) -> Result<B, Seq<char>>)
    ensures
        match crate::config::all_of(s, f) {
            Ok(v) => v.len() == s.len() && forall|i: int|
                0 <= i < s.len() ==> f(#[trigger] s[i]) == Ok::<B, Seq<char>>(v[i]),
            Err(_) => exists|i: int| 0 <= i < s.len() && f(#[trigger] s[i]) is Err,
        },
{
    collected_one_by_one(s, f, s.len() as int);
}

/// A configured rule names the requests to its host with one of its methods, in uppercase,
/// and one of its paths, where it lists some; it is refused where its host is.
pub proof fn a_rule_names_what_it_lists(
    s: RuleSpecView,
    host: Seq<char>,
    method: Seq<char>,
    path: Seq<char>,
)
    ensures
        match (crate::config::rule_of(s), crate::matcher::host_clause(s.host)) {
            (Ok(r), Ok(h)) => crate::matcher::rule_accepts(r, host, method, path) == ({
                &&& crate::matcher::host_accepts(h, host)
                &&& match s.methods {
                    Some(m) => exists|i: int|
                        0 <= i < m.len() && crate::text::upper(#[trigger] m[i]) == method,
                    None => true,
                }
                &&& match s.paths {
                    Some(p) => exists|i: int|
                        0 <= i < p.len() && crate::matcher::glob(#[trigger] p[i], path),
                    None => true,
                }
            }),
            (Err(_), Err(_)) => true,
            _ => false,
        },
{
    if let Some(m) = s.methods {
        let u = crate::config::uppers(m);
        assert(u.len() == m.len());
        assert forall|i: int| 0 <= i < m.len() implies #[trigger] u[i] == crate::text::upper(
            m[i],
        ) by {}
        if u.contains(method) {
            let i = choose|i: int| 0 <= i < u.len() && u[i] == method;
            assert(crate::text::upper(m[i]) == method);
        }
        if exists|i: int| 0 <= i < m.len() && crate::text::upper(#[trigger] m[i]) == method {
            let i = choose|i: int|
                0 <= i < m.len() && crate::text::upper(#[trigger] m[i]) == method;
            assert(u[i] == method);
        }
    }
}

/// A list of rules is read rule by rule; an empty one is refused.
pub proof fn rules_are_read_one_by_one(s: Seq<RuleSpecView>)
    ensures
        match crate::config::rules_of(s) {
            Ok(v) => s.len() > 0 && v.len() == s.len() && forall|i: int|
                0 <= i < s.len() ==> crate::config::rule_of(#[trigger] s[i]) == Ok::<
                    crate::matcher::RuleView,
                    Seq<char>,
                >(v[i]),
            Err(_) => s.len() == 0 || exists|i: int|
                0 <= i < s.len() && crate::config::rule_of(#[trigger] s[i]) is Err,
        },
{
    let f = |x: RuleSpecView| crate::config::rule_of(x);
    lists_are_read_one_by_one(s, f);
    if s.len() > 0 {
        match crate::config::rules_of(s) {
            Ok(v) => {
                assert forall|i: int| 0 <= i < s.len() implies crate::config::rule_of(
                    #[trigger] s[i],
                ) == Ok::<crate::matcher::RuleView, Seq<char>>(v[i]) by {
                    assert(f(s[i]) == Ok::<crate::matcher::RuleView, Seq<char>>(v[i]));
                }
            },
            Err(_) => {
                let i = choose|i: int| 0 <= i < s.len() && f(#[trigger] s[i]) is Err;
                assert(crate::config::rule_of(s[i]) is Err);
            },
        }
    }
}

// ---- Transforms -----------------------------------------------------------------------------------

/// A configured allowlist names the hosts that one of its patterns names and those that lie
/// in one of its prefixes. It is refused where one of them is no pattern or no prefix, and
/// where it lists none.
pub proof fn an_allowlist_names_what_it_lists(
    domains: Seq<Seq<char>>,
    cidrs: Seq<Seq<char>>,
    warn: bool,
    resolver: bool,
    host: Seq<char>,
)
    ensures
        match crate::config::transform_of(
            TransformSpecView {
                name: "allowlist"@,
                config: TransformConfigView::Allowlist { domains, cidrs, warn },
            },
            resolver,
        ) {
            Ok(TransformView::Allowlist(a)) => {
                &&& a.warn == warn
                &&& domains.len() + cidrs.len() > 0
                &&& super::transforms::named_by(a, host) == ({
                    ||| exists|i: int|
                        0 <= i < domains.len() && (crate::matcher::domain_glob(
                            #[trigger] domains[i],
                        ) matches Ok(g) && crate::matcher::glob_accepts(g, host))
                    ||| exists|i: int|
                        0 <= i < cidrs.len() && (crate::matcher::cidr(
                            #[trigger] cidrs[i],
                        ) matches Ok(c) && crate::matcher::cidr_accepts(c, host))
                })
            },
            Ok(_) => false,
            Err(_) => {
                ||| domains.len() + cidrs.len() == 0
                ||| exists|i: int|
                    0 <= i < domains.len() && crate::matcher::domain_glob(
                        #[trigger] domains[i],
                    ) is Err
                ||| exists|i: int|
                    0 <= i < cidrs.len() && crate::matcher::cidr(#[trigger] cidrs[i]) is Err
            },
        },
{
    let f = |s: Seq<char>| crate::config::domain_of(s);
    let g = |s: Seq<char>| crate::config::prefix_of(s);
    lists_are_read_one_by_one(domains, f);
    lists_are_read_one_by_one(cidrs, g);
    if domains.len() + cidrs.len() > 0 {
        match crate::config::all_of(domains, f) {
            Err(_) => {
                let i = choose|i: int| 0 <= i < domains.len() && f(#[trigger] domains[i]) is Err;
                assert(crate::matcher::domain_glob(domains[i]) is Err);
            },
            Ok(d) => match crate::config::all_of(cidrs, g) {
                Err(_) => {
                    let i = choose|i: int| 0 <= i < cidrs.len() && g(#[trigger] cidrs[i]) is Err;
                    assert(crate::matcher::cidr(cidrs[i]) is Err);
                },
                Ok(c) => {
                    let a = AllowlistView { domains: d, cidrs: c, warn };
                    assert forall|i: int| 0 <= i < domains.len() implies
                        crate::matcher::domain_glob(#[trigger] domains[i]) == Ok::<
                        crate::matcher::DomainGlobView,
                        Seq<char>,
                    >(d[i]) by {
                        assert(f(domains[i]) == Ok::<crate::matcher::DomainGlobView, Seq<char>>(
                            d[i],
                        ));
                    }
                    assert forall|i: int| 0 <= i < cidrs.len() implies crate::matcher::cidr(
                        #[trigger] cidrs[i],
                    ) == Ok::<crate::matcher::CidrView, Seq<char>>(c[i]) by {
                        assert(g(cidrs[i]) == Ok::<crate::matcher::CidrView, Seq<char>>(c[i]));
                    }
                    if super::transforms::named_by(a, host) {
                        if exists|i: int|
                            0 <= i < d.len() && crate::matcher::glob_accepts(
                                #[trigger] d[i],
                                host,
                            ) {
                            let i = choose|i: int|
                                0 <= i < d.len() && crate::matcher::glob_accepts(
                                    #[trigger] d[i],
                                    host,
                                );
                            assert(crate::matcher::domain_glob(domains[i]) is Ok);
                        } else {
                            let i = choose|i: int|
                                0 <= i < c.len() && crate::matcher::cidr_accepts(
                                    #[trigger] c[i],
                                    host,
                                );
                            assert(crate::matcher::cidr(cidrs[i]) is Ok);
                        }
                    }
                    if exists|i: int|
                        0 <= i < domains.len() && (crate::matcher::domain_glob(
                            #[trigger] domains[i],
                        ) matches Ok(g) && crate::matcher::glob_accepts(g, host)) {
                        let i = choose|i: int|
                            0 <= i < domains.len() && (crate::matcher::domain_glob(
                                #[trigger] domains[i],
                            ) matches Ok(g) && crate::matcher::glob_accepts(g, host));
                        assert(crate::matcher::glob_accepts(d[i], host));
                    }
                    if exists|i: int|
                        0 <= i < cidrs.len() && (crate::matcher::cidr(
                            #[trigger] cidrs[i],
                        ) matches Ok(x) && crate::matcher::cidr_accepts(x, host)) {
                        let i = choose|i: int|
                            0 <= i < cidrs.len() && (crate::matcher::cidr(
                                #[trigger] cidrs[i],
                            ) matches Ok(x) && crate::matcher::cidr_accepts(x, host));
                        assert(crate::matcher::cidr_accepts(c[i], host));
                    }
                },
            },
        }
    }
}

/// A configured group has the rules and the header names that it lists, the names in
/// lowercase; a name that is empty or an expression is refused.
pub proof fn a_group_lists_names(g: GroupSpecView, i: int)
    ensures
        match crate::config::group_of(g) {
            Ok(v) => {
                &&& crate::config::rules_of(g.rules) == Ok::<
                    Seq<crate::matcher::RuleView>,
                    Seq<char>,
                >(v.rules)
                &&& v.headers.len() == g.headers.len()
                &&& 0 <= i < g.headers.len() ==> v.headers[i] == super::words::small(g.headers[i])
                    && g.headers[i].len() > 0
            },
            Err(_) => {
                ||| crate::config::rules_of(g.rules) is Err
                ||| exists|k: int|
                    0 <= k < g.headers.len() && ((#[trigger] g.headers[k]).len() == 0 || (
                    g.headers[k].len() > 1 && g.headers[k][0] == '/'
                        && g.headers[k][g.headers[k].len() - 1] == '/'))
            },
        },
{
    let f = |s: Seq<char>| crate::config::literal_of(s);
    lists_are_read_one_by_one(g.headers, f);
    match crate::config::all_of(g.headers, f) {
        Ok(v) => {
            if 0 <= i < g.headers.len() {
                assert(f(g.headers[i]) == Ok::<Seq<char>, Seq<char>>(v[i]));
                super::text::case_is_that_of_ascii_letters(g.headers[i]);
            }
        },
        Err(_) => {
            let k = choose|k: int| 0 <= k < g.headers.len() && f(#[trigger] g.headers[k]) is Err;
            assert(crate::config::literal_of(g.headers[k]) is Err);
            assert(g.headers[k].len() == 0 || (g.headers[k].len() > 1 && g.headers[k][0] == '/'
                && g.headers[k][g.headers[k].len() - 1] == '/'));
        },
    }
}

/// Each transform is made of its own block: the annotations group by group, the header
/// filter entry by entry with its rules, the recording of bodies with its bound and its
/// rules. A name that none has is refused.
pub proof fn blocks_make_transforms(
    annotations: Seq<GroupSpecView>,
    headers: Seq<Seq<char>>,
    rules: Option<Seq<RuleSpecView>>,
    max: usize,
    body_rules: Seq<RuleSpecView>,
    resolver: bool,
    i: int,
)
    ensures
        crate::config::transform_of(
            TransformSpecView {
                name: "annotate"@,
                config: TransformConfigView::Annotate { annotations },
            },
            resolver,
        ) matches Ok(t) ==> (t matches TransformView::Annotate(v) && v.len() == annotations.len()
            && (0 <= i < v.len() ==> crate::config::group_of(annotations[i]) == Ok::<
            GroupView,
            Seq<char>,
        >(v[i]))),
        crate::config::transform_of(
            TransformSpecView {
                name: "header_allowlist"@,
                config: TransformConfigView::HeaderAllowlist { headers, rules },
            },
            resolver,
        ) matches Ok(t) ==> (t matches TransformView::HeaderAllowlist(v) && headers.len() > 0
            && v.entries.len() == headers.len() && (0 <= i < headers.len()
            ==> crate::matcher::header_entry(headers[i], true) == Ok::<
            crate::matcher::HeaderNameView,
            Seq<char>,
        >(v.entries[i])) && match (rules, v.rules) {
            (None, None) => true,
            (Some(r), Some(w)) => crate::config::rules_of(r) == Ok::<
                Seq<crate::matcher::RuleView>,
                Seq<char>,
            >(w),
            _ => false,
        }),
        crate::config::transform_of(
            TransformSpecView {
                name: "body_capture"@,
                config: TransformConfigView::BodyCapture {
                    max_request_body_bytes: max,
                    rules: body_rules,
                },
            },
            resolver,
        ) matches Ok(t) ==> (t matches TransformView::BodyCapture(v) && v.max == max
            && crate::config::rules_of(body_rules) == Ok::<
            Seq<crate::matcher::RuleView>,
            Seq<char>,
        >(v.rules)),
        crate::config::rules_of(body_rules) is Ok ==> crate::config::transform_of(
            TransformSpecView {
                name: "body_capture"@,
                config: TransformConfigView::BodyCapture {
                    max_request_body_bytes: max,
                    rules: body_rules,
                },
            },
            resolver,
        ) is Ok,
{
    names_differ();
    let f = |g: GroupSpecView| crate::config::group_of(g);
    lists_are_read_one_by_one(annotations, f);
    if let Ok(v) = crate::config::all_of(annotations, f) {
        if 0 <= i < v.len() {
            assert(f(annotations[i]) == Ok::<GroupView, Seq<char>>(v[i]));
        }
    }
    let h = |s: Seq<char>| crate::config::header_entry_of(s, true);
    lists_are_read_one_by_one(headers, h);
    if let Ok(v) = crate::config::all_of(headers, h) {
        if 0 <= i < headers.len() {
            assert(h(headers[i]) == Ok::<crate::matcher::HeaderNameView, Seq<char>>(v[i]));
        }
    }
}

proof fn names_differ()
    ensures
        "allowlist"@.len() == 9,
        "annotate"@.len() == 8,
        "header_allowlist"@.len() == 16,
        "body_capture"@.len() == 12,
        "secrets"@.len() == 7,
{
    reveal_strlit("allowlist");
    reveal_strlit("annotate");
    reveal_strlit("header_allowlist");
    reveal_strlit("body_capture");
    reveal_strlit("secrets");
}

/// A name that no transform has is refused, and so are secrets without a resolver, no
/// secrets at all, and a block that could not be read.
pub proof fn other_blocks_are_refused(s: TransformSpecView, why: Seq<char>, resolver: bool)
    ensures
        s.name != "allowlist"@ && s.name != "annotate"@ && s.name != "header_allowlist"@ && s.name
            != "body_capture"@ && s.name != "secrets"@ ==> crate::config::transform_of(
            s,
            resolver,
        ) is Err,
        s.name == "secrets"@ && (!resolver || s.config == (TransformConfigView::Secrets {
            secrets: Seq::empty(),
        })) ==> crate::config::transform_of(s, resolver) is Err,
        s.config == TransformConfigView::Unreadable(why) ==> crate::config::transform_of(
            s,
            resolver,
        ) is Err,
{
    names_differ();
}

// ---- Secrets --------------------------------------------------------------------------------------

/// A configured source is the variable or the file that it names, with its key; a file has
/// the lifetimes that are written with it.
pub proof fn sources_are_what_they_name(
    name: Seq<char>,
    key: Option<Seq<char>>,
    ttl: Seq<char>,
    failure_ttl: Seq<char>,
    a: u128,
    b: u128,
)
    requires
        crate::duration::duration(ttl) == Ok::<nat, Seq<char>>(a as nat),
        crate::duration::duration(failure_ttl) == Ok::<nat, Seq<char>>(b as nat),
    ensures
        crate::config::source_of(SourceSpecView::Env { var: name, json_key: key }) == Ok::<
            SourceView,
            Seq<char>,
        >(
            SourceView {
                kind: SourceKindView::Env { var: name },
                json_key: key,
                ttl: None,
                failure_ttl: None,
            },
        ),
        crate::config::source_of(
            SourceSpecView::File {
                path: name,
                ttl: Some(ttl),
                failure_ttl: Some(failure_ttl),
                json_key: key,
            },
        ) == Ok::<SourceView, Seq<char>>(
            SourceView {
                kind: SourceKindView::File { path: name },
                json_key: key,
                ttl: Some(a),
                failure_ttl: Some(b),
            },
        ),
        crate::config::source_of(
            SourceSpecView::File { path: name, ttl: None, failure_ttl: None, json_key: key },
        ) == Ok::<SourceView, Seq<char>>(
            SourceView {
                kind: SourceKindView::File { path: name },
                json_key: key,
                ttl: None,
                failure_ttl: None,
            },
        ),
{
}

/// An entry, as it is written, names a header.
pub open spec fn entry_names(entry: Seq<char>, name: Seq<char>) -> bool {
    match crate::matcher::header_entry(entry, true) {
        Ok(x) => crate::matcher::entry_accepts(x, name),
        Err(_) => false,
    }
}

proof fn entries_are_scanned(
    h: Seq<Seq<char>>,
    v: Seq<crate::matcher::HeaderNameView>,
    name: Seq<char>,
)
    requires
        crate::config::header_entries_of(h) == Ok::<
            Seq<crate::matcher::HeaderNameView>,
            Seq<char>,
        >(v),
    ensures
        (exists|i: int| 0 <= i < v.len() && crate::matcher::entry_accepts(#[trigger] v[i], name))
            == (exists|i: int| 0 <= i < h.len() && entry_names(#[trigger] h[i], name)),
{
    let f = |s: Seq<char>| crate::config::header_entry_of(s, true);
    lists_are_read_one_by_one(h, f);
    assert(crate::config::header_entries_of(h) == crate::config::all_of(h, f));
    assert(v.len() == h.len());
    assert forall|i: int| 0 <= i < h.len() implies entry_names(#[trigger] h[i], name)
        == crate::matcher::entry_accepts(v[i], name) by {
        assert(f(h[i]) == Ok::<crate::matcher::HeaderNameView, Seq<char>>(v[i]));
    }
    if exists|i: int| 0 <= i < v.len() && crate::matcher::entry_accepts(#[trigger] v[i], name) {
        let i = choose|i: int|
            0 <= i < v.len() && crate::matcher::entry_accepts(#[trigger] v[i], name);
        assert(entry_names(h[i], name));
    }
    if exists|i: int| 0 <= i < h.len() && entry_names(#[trigger] h[i], name) {
        let i = choose|i: int| 0 <= i < h.len() && entry_names(#[trigger] h[i], name);
        assert(crate::matcher::entry_accepts(v[i], name));
    }
}

/// A configured secret has its token as bytes, its places and its rules as they are listed;
/// it looks into every header where it lists none.
pub proof fn a_secret_is_what_it_lists(e: SecretEntryView, name: Seq<char>)
    ensures
        match crate::config::secret_of(e) {
            Ok(s) => {
                &&& s.proxy == encode_utf8(e.proxy_value)
                &&& s.match_query == e.match_query
                &&& s.match_path == e.match_path
                &&& s.match_body == e.match_body
                &&& s.require == e.require
                &&& crate::config::source_of(e.source) == Ok::<SourceView, Seq<char>>(s.source)
                &&& crate::config::rules_of(e.rules) == Ok::<
                    Seq<crate::matcher::RuleView>,
                    Seq<char>,
                >(s.rules)
                &&& super::secrets::is_scanned(s, name) == match e.match_headers {
                    None => true,
                    Some(h) => h.len() == 0 || exists|i: int|
                        0 <= i < h.len() && entry_names(#[trigger] h[i], name),
                }
            },
            Err(_) => true,
        },
{
    if let Ok(s) = crate::config::secret_of(e) {
        if let Some(h) = e.match_headers {
            if h.len() == 0 {
                assert(s.match_headers is None);
            } else {
                let v = crate::config::header_entries_of(h)->Ok_0;
                assert(s.match_headers == Some(v));
                entries_are_scanned(h, v, name);
                let w = s.match_headers->0;
                if super::secrets::is_scanned(s, name) {
                    let i = choose|i: int|
                        0 <= i < w.len() && crate::matcher::entry_accepts(#[trigger] w[i], name);
                    assert(crate::matcher::entry_accepts(v[i], name));
                }
                if exists|i: int| 0 <= i < h.len() && entry_names(#[trigger] h[i], name) {
                    let i = choose|i: int|
                        0 <= i < v.len() && crate::matcher::entry_accepts(#[trigger] v[i], name);
                    assert(crate::matcher::entry_accepts(w[i], name));
                    assert(super::secrets::is_scanned(s, name));
                }
            }
        }
    }
}

/// A secret that can be read in all its parts is accepted, but for a token that looks into
/// paths and has other characters than letters, digits, `-`, `.`, `_` and `~`.
pub proof fn readable_secrets_are_accepted(e: SecretEntryView, i: int)
    requires
        crate::config::source_of(e.source) is Ok,
        crate::config::rules_of(e.rules) is Ok,
        e.match_headers is None,
    ensures
        !e.match_path ==> crate::config::secret_of(e) is Ok,
        (forall|k: int|
            0 <= k < e.proxy_value.len() ==> is_unreserved(#[trigger] e.proxy_value[k]))
            ==> crate::config::secret_of(e) is Ok,
        e.match_path && 0 <= i < encode_utf8(e.proxy_value).len() && !is_unreserved_byte(
            encode_utf8(e.proxy_value)[i],
        ) ==> crate::config::secret_of(e) is Err,
{
    let b = encode_utf8(e.proxy_value);
    if forall|k: int| 0 <= k < e.proxy_value.len() ==> is_unreserved(#[trigger] e.proxy_value[k]) {
        assert(is_ascii_chars(e.proxy_value)) by {
            assert forall|k: int| 0 <= k < e.proxy_value.len() implies '\0'
                <= #[trigger] e.proxy_value[k] <= '\u{7f}' by {
                assert(is_unreserved(e.proxy_value[k]));
            }
        }
        is_ascii_chars_encode_utf8(e.proxy_value);
        assert forall|k: int| 0 <= k < b.len() implies crate::codec::unreserved(
            #[trigger] encode_utf8(e.proxy_value)[k],
        ) by {
            assert(is_unreserved(e.proxy_value[k]));
        }
    }
    if 0 <= i < b.len() && !is_unreserved_byte(b[i]) {
        assert(!crate::codec::unreserved(encode_utf8(e.proxy_value)[i]));
    }
}

/// A character that a path may hold as it is.
pub open spec fn is_unreserved(c: char) -> bool {
    'a' <= c <= 'z' || 'A' <= c <= 'Z' || '0' <= c <= '9' || c == '-' || c == '.' || c == '_' || c
        == '~'
}

/// A byte of such a character.
pub open spec fn is_unreserved_byte(b: u8) -> bool {
    b < 128 && is_unreserved(b as char)
}

/// Secrets are read one by one.
pub proof fn secrets_are_read_one_by_one(secrets: Seq<SecretEntryView>, i: int)
    requires
        secrets.len() > 0,
    ensures
        match crate::config::transform_of(
            TransformSpecView {
                name: "secrets"@,
                config: TransformConfigView::Secrets { secrets },
            },
            true,
        ) {
            Ok(TransformView::Secrets(v)) => v.len() == secrets.len() && (0 <= i < v.len()
                ==> crate::config::secret_of(secrets[i]) == Ok::<
                crate::secrets::SecretView,
                Seq<char>,
            >(v[i])),
            Ok(_) => false,
            Err(_) => exists|k: int|
                0 <= k < secrets.len() && crate::config::secret_of(#[trigger] secrets[k]) is Err,
        },
{
    names_differ();
    let f = |e: SecretEntryView| crate::config::secret_of(e);
    lists_are_read_one_by_one(secrets, f);
    match crate::config::all_of(secrets, f) {
        Ok(v) => {
            if 0 <= i < v.len() {
                assert(f(secrets[i]) == Ok::<crate::secrets::SecretView, Seq<char>>(v[i]));
            }
        },
        Err(_) => {
            let k = choose|k: int| 0 <= k < secrets.len() && f(#[trigger] secrets[k]) is Err;
            assert(crate::config::secret_of(secrets[k]) is Err);
        },
    }
}

// ---- Pipelines ------------------------------------------------------------------------------------

proof fn first_of_a_name(s: Seq<TransformSpecView>, name: Seq<char>, i: int)
    requires
        0 <= i <= s.len(),
    ensures
        i <= crate::config::first_named(s, name, i) <= s.len(),
        forall|k: int|
            i <= k < crate::config::first_named(s, name, i) ==> (#[trigger] s[k]).name != name,
        crate::config::first_named(s, name, i) < s.len() ==> s[crate::config::first_named(
            s,
            name,
            i,
        )].name == name,
    decreases s.len() - i,
{
    if i < s.len() && s[i].name != name {
        first_of_a_name(s, name, i + 1);
    }
}

/// A pipeline is made of its entries in their order. Without an allowlist there is none.
pub proof fn a_pipeline_is_its_entries(s: Seq<TransformSpecView>, resolver: bool, i: int)
    ensures
        match crate::config::pipeline_of(s, resolver) {
            Ok(v) => {
                &&& v.len() == s.len()
                &&& 0 <= i < s.len() ==> crate::config::transform_of(s[i], resolver) == Ok::<
                    TransformView,
                    Seq<char>,
                >(v[i])
                &&& exists|k: int| 0 <= k < s.len() && (#[trigger] s[k]).name == "allowlist"@
            },
            Err(_) => {
                ||| forall|k: int| 0 <= k < s.len() ==> (#[trigger] s[k]).name != "allowlist"@
                ||| exists|k: int|
                    0 <= k < s.len() && crate::config::transform_of(
                        #[trigger] s[k],
                        resolver,
                    ) is Err
            },
        },
{
    first_of_a_name(s, "allowlist"@, 0);
    let f = |t: TransformSpecView| crate::config::transform_of(t, resolver);
    lists_are_read_one_by_one(s, f);
    let at = crate::config::first_named(s, "allowlist"@, 0);
    if at < s.len() {
        assert(s[at].name == "allowlist"@);
        match crate::config::all_of(s, f) {
            Ok(v) => {
                if 0 <= i < s.len() {
                    assert(f(s[i]) == Ok::<TransformView, Seq<char>>(v[i]));
                }
            },
            Err(_) => {
                let k = choose|k: int| 0 <= k < s.len() && f(#[trigger] s[k]) is Err;
                assert(crate::config::transform_of(s[k], resolver) is Err);
            },
        }
    }
}

/// A body is recorded behind a secret that is swapped into bodies.
pub open spec fn records_secrets(s: Seq<TransformSpecView>) -> bool {
    exists|i: int, j: int, k: int|
        #![trigger s[i].config->Secrets_secrets[k], s[j]]
        {
            &&& 0 <= i < j < s.len()
            &&& s[i].name == "secrets"@
            &&& s[i].config is Secrets
            &&& 0 <= k < s[i].config->Secrets_secrets.len()
            &&& s[i].config->Secrets_secrets[k].match_body
            &&& s[j].name == "body_capture"@
        }
}

/// It is warned of an allowlist that does not come first, and of bodies that are recorded
/// behind a secret that is swapped into them, and of nothing else.
pub proof fn odd_orders_are_warned_of(s: Seq<TransformSpecView>)
    requires
        s.len() > 0,
    ensures
        ({
            let one = |b: bool|
                if b {
                    1int
                } else {
                    0int
                };
            crate::config::warnings_of(s).len() == one(s[0].name != "allowlist"@) + one(
                records_secrets(s),
            )
        }),
{
    first_of_a_name(s, "allowlist"@, 0);
    if s[0].name == "allowlist"@ {
        assert(crate::config::first_named(s, "allowlist"@, 0) == 0);
    }
    if records_secrets(s) {
        let (i, j, k) = choose|i: int, j: int, k: int|
            #![trigger s[i].config->Secrets_secrets[k], s[j]]
            {
                &&& 0 <= i < j < s.len()
                &&& s[i].name == "secrets"@
                &&& s[i].config is Secrets
                &&& 0 <= k < s[i].config->Secrets_secrets.len()
                &&& s[i].config->Secrets_secrets[k].match_body
                &&& s[j].name == "body_capture"@
            };
        assert(crate::config::swaps_bodies(s[i]));
        assert(crate::config::records_swapped_bodies(s));
    }
    if crate::config::records_swapped_bodies(s) {
        let (i, j) = choose|i: int, j: int|
            0 <= i < j < s.len() && crate::config::swaps_bodies(#[trigger] s[i])
                && (#[trigger] s[j]).name == "body_capture"@;
        let secrets = s[i].config->Secrets_secrets;
        let k = choose|k: int| 0 <= k < secrets.len() && (#[trigger] secrets[k]).match_body;
        assert(s[i].config->Secrets_secrets[k].match_body);
        assert(records_secrets(s));
    }
}

// ---- Durations ------------------------------------------------------------------------------------

proof fn end_of_digits(s: Seq<char>, i: int, n: int)
    requires
        0 <= i <= n <= s.len(),
        forall|k: int| i <= k < n ==> '0' <= #[trigger] s[k] <= '9',
        n < s.len() ==> !('0' <= s[n] <= '9'),
    ensures
        crate::duration::digits_end(s, i) == n,
    decreases n - i,
{
    if i < n {
        end_of_digits(s, i + 1, n);
    }
}

proof fn number_and_unit(n: u64, unit: Seq<char>)
    requires
        unit.len() > 0 ==> super::words::is_graphic(unit[0]) && !('0' <= unit[0] <= '9')
            && super::words::is_graphic(unit[unit.len() - 1]),
    ensures
        ({
            let t = super::words::written(n as nat) + unit;
            let i = crate::duration::digits_end(t, 0);
            &&& crate::text::trimmed(t) == t
            &&& i == super::words::written(n as nat).len()
            &&& t.take(i) == super::words::written(n as nat)
            &&& t.skip(i) == unit
            &&& t.len() == i + unit.len()
        }),
{
    let w = super::words::written(n as nat);
    let t = w + unit;
    super::text::written_in_digits(n as nat);
    assert forall|k: int| 0 <= k < w.len() implies '0' <= #[trigger] t[k] <= '9' by {
        assert(t[k] == super::words::written(n as nat)[k]);
    }
    assert(t[0] == w[0]);
    let e = Seq::<char>::empty();
    if unit.len() > 0 {
        assert(t[t.len() - 1] == unit[unit.len() - 1]);
        assert(t[w.len() as int] == unit[0]);
    }
    super::text::blanks_are_trimmed(e, t, e);
    assert(e + t + e =~= t);
    end_of_digits(t, 0, w.len() as int);
    assert(t.take(w.len() as int) =~= w);
    assert(t.skip(w.len() as int) =~= unit);
}

proof fn units_differ()
    ensures
        "s"@.len() == 1,
        "ms"@.len() == 2,
        "m"@.len() == 1,
        "s"@[0] == 's',
        "m"@[0] == 'm',
{
    reveal_strlit("s");
    reveal_strlit("ms");
    reveal_strlit("m");
}

/// A duration is a number of seconds, or a number with its unit: `ms`, `s` or `m`. Any
/// other unit is refused.
pub proof fn durations_have_units(n: u64, unit: Seq<char>)
    requires
        unit.len() > 0 ==> super::words::is_graphic(unit[0]) && !('0' <= unit[0] <= '9')
            && super::words::is_graphic(unit[unit.len() - 1]),
    ensures
        ({
            let d = crate::duration::duration(super::words::written(n as nat) + unit);
            if unit == Seq::<char>::empty() || unit == "s"@ {
                d == Ok::<nat, Seq<char>>((n * 1000) as nat)
            } else if unit == "ms"@ {
                d == Ok::<nat, Seq<char>>(n as nat)
            } else if unit == "m"@ {
                if n * 60 <= u64::MAX {
                    d == Ok::<nat, Seq<char>>((n * 60000) as nat)
                } else {
                    d is Err
                }
            } else {
                d is Err
            }
        }),
{
    number_and_unit(n, unit);
    super::text::numbers_are_decimal(n as nat, u64::MAX as nat);
    units_differ();
    if unit.len() == 0 {
        assert(unit =~= Seq::<char>::empty());
    }
}

/// Blanks around a duration are of no account.
pub proof fn durations_may_stand_between_blanks(x: Seq<char>, t: Seq<char>, y: Seq<char>)
    requires
        super::words::all_blank(x),
        super::words::all_blank(y),
        t.len() > 0 ==> super::words::is_graphic(t[0]) && super::words::is_graphic(
            t[t.len() - 1],
        ),
    ensures
        crate::duration::duration(x + t + y) == crate::duration::duration(t),
{
    let e = Seq::<char>::empty();
    super::text::blanks_are_trimmed(x, t, y);
    super::text::blanks_are_trimmed(e, t, e);
    assert(e + t + e =~= t);
}

} // verus!
