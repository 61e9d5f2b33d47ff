//! What a configuration file and the environment come to.
use vstd::prelude::*;
use vstd::string::*;

use crate::config::TransformSpecView;
use crate::resolve::StaticView;
use crate::settings::{
    ConfigView, DnsRecordView, DnsResolvedView, DnsSectionView, ManagementView, RawTransformView,
    RawView,
};
use crate::state::DenyView;

verus! {

/// A text where there is one, else the usual one.
pub open spec fn usually(o: Option<Seq<char>>, d: Seq<char>) -> Seq<char> {
    if o is Some {
        o->0
    } else {
        d
    }
}

/// The listeners are those that the file names; plain HTTP listens on port 80 and DNS on port 53
/// where it names no other, and DNS only where it is on.
pub proof fn listeners_are_those_named(raw: RawView)
    ensures
        ({
            let l = crate::settings::listen_of(raw);
            &&& l.http == usually(raw.proxy.http_listen, ":80"@)
            &&& l.https == raw.proxy.https_listen
            &&& l.tunnel == raw.proxy.tunnel_listen
            &&& l.dns is Some <==> raw.dns is Some && raw.dns->0.enabled
            &&& l.dns is Some ==> l.dns->0 == usually(raw.dns->0.listen, ":53"@)
            &&& l.management is Some <==> raw.management is Some
            &&& l.management is Some ==> l.management->0 == raw.management->0.listen
        }),
{
}

/// A port alone is listened to on every address; every other key is an address already.
pub proof fn ports_are_listened_to_everywhere(rest: Seq<char>, key: Seq<char>)
    requires
        key.len() == 0 || key[0] != ':',
    ensures
        crate::settings::listen_address(seq![':'] + rest) == "0.0.0.0"@ + (seq![':'] + rest),
        crate::settings::listen_address(key) == key,
{
}

/// The transforms of a file are its entries, in their order; the file is refused where one of
/// them cannot be read.
pub proof fn transforms_are_the_entries(s: Seq<RawTransformView>)
    ensures
        match crate::settings::entries_of(s) {
            Ok(v) => v.len() == s.len() && forall|i: int|
                0 <= i < s.len() ==> (#[trigger] s[i]).config is Ok && v[i].name == s[i].name
                    && v[i].config == s[i].config->Ok_0,
            Err(_) => exists|i: int| 0 <= i < s.len() && (#[trigger] s[i]).config is Err,
        },
{
    let f = |t: RawTransformView| crate::settings::entry_of(t);
    super::config::lists_are_read_one_by_one(s, f);
    match crate::settings::entries_of(s) {
        Ok(v) => {
            assert forall|i: int| 0 <= i < s.len() implies (#[trigger] s[i]).config is Ok
                && v[i].name == s[i].name && v[i].config == s[i].config->Ok_0 by {
                assert(f(s[i]) == Ok::<TransformSpecView, Seq<char>>(v[i]));
            }
        },
        Err(_) => {
            let i = choose|i: int| 0 <= i < s.len() && f(#[trigger] s[i]) is Err;
            assert(s[i].config is Err);
        },
    }
}

proof fn foreign_from(s: Seq<DnsRecordView>, i: int)
    requires
        0 <= i <= s.len(),
    ensures
        i <= crate::settings::first_foreign(s, i) <= s.len(),
        crate::settings::first_foreign(s, i) == s.len() <==> forall|k: int|
            i <= k < s.len() ==> (#[trigger] s[k]).record_type == "A"@ || s[k].record_type
                == "CNAME"@,
    decreases s.len() - i,
{
    if i < s.len() && (s[i].record_type == "A"@ || s[i].record_type == "CNAME"@) {
        foreign_from(s, i + 1);
        if crate::settings::first_foreign(s, i + 1) == s.len() {
            assert forall|k: int| i <= k < s.len() implies (#[trigger] s[k]).record_type == "A"@
                || s[k].record_type == "CNAME"@ by {}
        }
    } else if i < s.len() {
        assert(!(s[i].record_type == "A"@ || s[i].record_type == "CNAME"@));
    }
}

/// DNS is off where the file does not turn it on. It needs an IPv4 address of the proxy and
/// records of the two types that are known.
pub proof fn dns_needs_an_address(o: Option<DnsSectionView>)
    ensures
        ({
            let d = o->0;
            let good = d.proxy_ip is Some && crate::ip::v4_value(d.proxy_ip->0) is Some && (forall|
                k: int,
            |
                0 <= k < d.records.len() ==> (#[trigger] d.records[k]).record_type == "A"@
                    || d.records[k].record_type == "CNAME"@);
            if o is None || !d.enabled {
                crate::settings::dns_of(o) == Ok::<Option<DnsResolvedView>, Seq<char>>(None)
            } else if good {
                crate::settings::dns_of(o) == Ok::<Option<DnsResolvedView>, Seq<char>>(
                    Some(
                        DnsResolvedView {
                            listen: usually(d.listen, ":53"@),
                            proxy_ip: crate::ip::v4_value(d.proxy_ip->0)->0 as u32,
                            upstream_resolver: usually(d.upstream_resolver, Seq::empty()),
                            passthrough: d.passthrough,
                            records: d.records,
                        },
                    ),
                )
            } else {
                crate::settings::dns_of(o) is Err
            }
        }),
{
    if o is Some {
        foreign_from(o->0.records, 0);
    }
    reveal_strlit("");
    assert(""@ =~= Seq::<char>::empty());
}

/// The management interface needs a key, which is what the environment holds under the name that
/// the file gives, or the usual one.
pub proof fn the_management_interface_needs_a_key(
    m: ManagementView,
    env: Seq<(Seq<char>, String)>,
)
    ensures
        crate::settings::management_key_of(None, env) == Ok::<Option<Seq<char>>, Seq<char>>(None),
        ({
            let v = crate::strmap::found(
                env,
                usually(m.api_key_env, "HEMATITE_MANAGEMENT_API_KEY"@),
            );
            let k = crate::settings::management_key_of(Some(m), env);
            if v is Some && v->0@.len() > 0 {
                k == Ok::<Option<Seq<char>>, Seq<char>>(Some(v->0@))
            } else {
                k is Err
            }
        }),
{
}

/// A file is accepted exactly where its timeout and its DNS section can be read, TLS has its
/// certificate where a listener needs one, the prefixes of the guard can be read, the management
/// interface has its key, and its transforms make a pipeline. It comes to what it says, and to
/// the usual where it says nothing.
pub proof fn a_file_comes_to_what_it_says(raw: RawView, env: Seq<(Seq<char>, String)>)
    ensures
        ({
            let p = raw.proxy;
            let timeout = p.upstream_response_header_timeout;
            let specs = crate::settings::entries_of(raw.transforms);
            let good = {
                &&& timeout is Some ==> crate::duration::duration(timeout->0) is Ok
                &&& crate::settings::dns_of(raw.dns) is Ok
                &&& p.https_listen is Some || p.tunnel_listen is Some ==> raw.tls is Some
                &&& p.upstream_deny_cidrs is Some ==> crate::state::guard_of(
                    p.upstream_deny_cidrs->0,
                ) is Ok
                &&& crate::settings::management_key_of(raw.management, env) is Ok
                &&& specs is Ok
                &&& crate::config::pipeline_of(specs->Ok_0, true) is Ok
            };
            match crate::settings::config_of(raw, env) {
                Ok(c) => {
                    &&& good
                    &&& c.listen == crate::settings::listen_of(raw)
                    &&& c.max_request_body_bytes == (if p.max_request_body_bytes is Some {
                        p.max_request_body_bytes->0
                    } else {
                        1048576
                    })
                    &&& c.max_response_body_bytes == (if p.max_response_body_bytes is Some {
                        p.max_response_body_bytes->0
                    } else {
                        0
                    })
                    &&& c.upstream_response_header_timeout == (if timeout is Some {
                        crate::duration::duration(timeout->0)->Ok_0
                    } else {
                        30000
                    })
                    &&& c.upstream_deny_cidrs == p.upstream_deny_cidrs
                    &&& Ok::<Option<Seq<char>>, Seq<char>>(c.management_api_key)
                        == crate::settings::management_key_of(raw.management, env)
                    &&& c.log_level == usually(raw.log_level, "info"@)
                    &&& c.transforms == specs->Ok_0
                    &&& Ok::<Option<DnsResolvedView>, Seq<char>>(c.dns)
                        == crate::settings::dns_of(raw.dns)
                    &&& c.tls == raw.tls
                    &&& c.warnings == crate::config::warnings_of(specs->Ok_0)
                },
                Err(_) => !good,
            }
        }),
{
}

/// Where a file says nothing of the guard, the usual prefixes are denied; a list, an empty one
/// too, takes their place.
pub proof fn a_list_takes_the_place_of_the_usual_guard(c: ConfigView)
    ensures
        c.upstream_deny_cidrs is None ==> crate::settings::deny_list_of(c) == Ok::<
            Seq<DenyView>,
            Seq<char>,
        >(crate::state::default_deny()),
        c.upstream_deny_cidrs is Some ==> crate::settings::deny_list_of(c)
            == crate::state::guard_of(c.upstream_deny_cidrs->0),
        c.upstream_deny_cidrs == Some(Seq::<Seq<char>>::empty()) ==> crate::settings::deny_list_of(
            c,
        ) == Ok::<Seq<DenyView>, Seq<char>>(Seq::empty()),
{
}

/// A record is looked up by its name without case and without final dots.
pub proof fn records_are_named_bare(t: Seq<char>, dots: Seq<char>)
    requires
        t.len() > 0 ==> t[t.len() - 1] != '.',
        forall|i: int| 0 <= i < dots.len() ==> #[trigger] dots[i] == '.',
    ensures
        crate::wire::record_name(t + dots) == super::words::small(t),
    decreases dots.len(),
{
    if dots.len() > 0 {
        records_are_named_bare(t, dots.drop_last());
        assert((t + dots).drop_last() =~= t + dots.drop_last());
        assert((t + dots).last() == dots[dots.len() - 1]);
    } else {
        assert(t + dots =~= t);
        super::text::case_is_that_of_ascii_letters(t);
    }
}

proof fn records_are_put(s: Seq<DnsRecordView>, n: int)
    requires
        0 <= n <= s.len(),
        forall|k: int|
            0 <= k < s.len() ==> crate::resolve::record_of(
                (#[trigger] s[k]).record_type,
                s[k].value,
            ) is Ok,
    ensures
        crate::settings::records_upto(s, n) is Ok,
        crate::strmap::sorted(crate::settings::records_upto(s, n)->Ok_0),
    decreases n,
{
    if n > 0 {
        records_are_put(s, n - 1);
        assert(crate::resolve::record_of(s[n - 1].record_type, s[n - 1].value) is Ok);
        crate::strmap::put_laws(
            crate::settings::records_upto(s, n - 1)->Ok_0,
            crate::wire::record_name(s[n - 1].name),
            crate::resolve::record_of(s[n - 1].record_type, s[n - 1].value)->Ok_0,
        );
    }
}

proof fn record_found(s: Seq<DnsRecordView>, name: Seq<char>, at: int, n: int)
    requires
        -1 <= at < n <= s.len(),
        0 < n,
        forall|k: int|
            0 <= k < s.len() ==> crate::resolve::record_of(
                (#[trigger] s[k]).record_type,
                s[k].value,
            ) is Ok,
        at >= 0 ==> crate::wire::record_name(s[at].name) == name,
        forall|k: int| at < k < n ==> crate::wire::record_name((#[trigger] s[k]).name) != name,
    ensures
        crate::strmap::found(crate::settings::records_upto(s, n)->Ok_0, name) == (if at < 0 {
            None::<StaticView>
        } else {
            Some(crate::resolve::record_of(s[at].record_type, s[at].value)->Ok_0)
        }),
    decreases n,
{
    records_are_put(s, n - 1);
    records_are_put(s, n);
    crate::strmap::put_laws(
        crate::settings::records_upto(s, n - 1)->Ok_0,
        crate::wire::record_name(s[n - 1].name),
        crate::resolve::record_of(s[n - 1].record_type, s[n - 1].value)->Ok_0,
    );
    assert(crate::resolve::record_of(s[n - 1].record_type, s[n - 1].value) is Ok);
    if at < n - 1 {
        assert(crate::wire::record_name(s[n - 1].name) != name);
        if n - 1 > 0 {
            record_found(s, name, at, n - 1);
        }
    }
}

/// Of the records under one name the last one counts, and a name without one has none.
pub proof fn the_last_record_of_a_name_counts(s: Seq<DnsRecordView>, name: Seq<char>, at: int)
    requires
        -1 <= at < s.len(),
        forall|k: int|
            0 <= k < s.len() ==> crate::resolve::record_of(
                (#[trigger] s[k]).record_type,
                s[k].value,
            ) is Ok,
        at >= 0 ==> crate::wire::record_name(s[at].name) == name,
        forall|k: int|
            at < k < s.len() ==> crate::wire::record_name((#[trigger] s[k]).name) != name,
    ensures
        match crate::settings::records_upto(s, s.len() as int) {
            Ok(m) => crate::strmap::found(m, name) == (if at < 0 {
                None::<StaticView>
            } else {
                Some(crate::resolve::record_of(s[at].record_type, s[at].value)->Ok_0)
            }),
            Err(_) => false,
        },
{
    records_are_put(s, s.len() as int);
    if s.len() > 0 {
        record_found(s, name, at, s.len() as int);
    }
}

// ---- The environment ----------------------------------------------------------------------------------

/// The variable of a key has the prefix `HEMATITE_`, its section and its name, in capitals.
pub proof fn variables_are_named_in_capitals(section: Seq<char>, key: Seq<char>, i: int)
    ensures
        ({
            let n = crate::yaml::env_name_of(section, key);
            &&& super::words::small(n) == "hematite_"@ + super::words::small(section) + seq!['_']
                + super::words::small(key)
            &&& 0 <= i < n.len() ==> !('a' <= n[i] <= 'z')
        }),
{
    reveal_strlit("HEMATITE_");
    reveal_strlit("hematite_");
    reveal_strlit("_");
    let n = crate::yaml::env_name_of(section, key);
    let w = "hematite_"@ + super::words::small(section) + seq!['_'] + super::words::small(key);
    let p = "HEMATITE_"@;
    let l: int = section.len() as int;
    assert(n.len() == w.len());
    assert forall|j: int| 0 <= j < n.len() implies super::words::small(n)[j] == #[trigger] w[j]
        && !('a' <= n[j] <= 'z') by {
        if j < 9 {
            assert(n[j] == p[j]);
        } else if j < 9 + l {
            assert(n[j] == crate::text::upper(section)[j - 9]);
        } else if j == 9 + l {
            assert(n[j] == '_');
        } else {
            assert(n[j] == crate::text::upper(key)[j - 10 - l]);
            assert(w[j] == super::words::small(key)[j - 10 - l]);
        }
    }
    assert(super::words::small(n) =~= w);
    if 0 <= i < n.len() {
        assert(super::words::small(n)[i] == w[i]);
    }
}

/// A variable is a truth value where it says so, a number where it is one, and else a text.
pub proof fn variables_are_scalars(n: u64, raw: Seq<char>, i: int)
    requires
        0 <= i < raw.len(),
        !('0' <= raw[i] <= '9'),
        i > 0 || raw[0] != '+',
        raw != "true"@,
        raw != "false"@,
    ensures
        crate::yaml::scalar_of("true"@) == crate::yaml::yaml_of_bool(true),
        crate::yaml::scalar_of("false"@) == crate::yaml::yaml_of_bool(false),
        crate::yaml::scalar_of(super::words::written(n as nat)) == crate::yaml::yaml_of_number(n),
        crate::yaml::scalar_of(raw) == crate::yaml::yaml_of_text(raw),
{
    reveal_strlit("true");
    reveal_strlit("false");
    assert("true"@.len() != "false"@.len());
    super::text::numbers_are_decimal(n as nat, u64::MAX as nat);
    super::text::written_in_digits(n as nat);
    let w = super::words::written(n as nat);
    assert('0' <= super::words::written(n as nat)[0] <= '9');
    assert("true"@[0] == 't' && "false"@[0] == 'f');
    super::text::numbers_are_digits(raw, u64::MAX as nat, i);
}

/// The scalar keys of the five sections that the environment may override.
pub proof fn scalar_keys_may_be_overridden()
    ensures
        crate::yaml::env_keys() == seq![
            ("dns"@, "enabled"@),
            ("dns"@, "listen"@),
            ("dns"@, "proxy_ip"@),
            ("dns"@, "upstream_resolver"@),
            ("proxy"@, "http_listen"@),
            ("proxy"@, "https_listen"@),
            ("proxy"@, "tunnel_listen"@),
            ("proxy"@, "max_request_body_bytes"@),
            ("proxy"@, "max_response_body_bytes"@),
            ("proxy"@, "upstream_response_header_timeout"@),
            ("proxy"@, "http_proxy"@),
            ("proxy"@, "https_proxy"@),
            ("proxy"@, "no_proxy"@),
            ("tls"@, "ca_cert"@),
            ("tls"@, "ca_key"@),
            ("tls"@, "cert_cache_size"@),
            ("tls"@, "leaf_cert_expiry_hours"@),
            ("management"@, "listen"@),
            ("management"@, "api_key_env"@),
            ("log"@, "level"@),
        ],
{
}

/// An override goes into its section; a section that is missing is made, and one that is no
/// mapping stays as it is.
pub proof fn overrides_go_into_their_section(
    v: serde_yaml::Value,
    m: serde_yaml::Mapping,
    section: Seq<char>,
    key: Seq<char>,
    x: serde_yaml::Value,
)
    requires
        crate::yaml::yaml_as_mapping(v) == Some(m),
    ensures
        ({
            let o = crate::yaml::overridden(v, section, key, x);
            let with = |f: serde_yaml::Mapping|
                crate::yaml::yaml_of_mapping(
                    crate::yaml::mapping_with(
                        m,
                        section,
                        crate::yaml::yaml_of_mapping(crate::yaml::mapping_with(f, key, x)),
                    ),
                );
            match crate::yaml::mapping_get(m, section) {
                None => o == with(crate::yaml::mapping_sized(0)),
                Some(s) => match crate::yaml::yaml_as_mapping(s) {
                    Some(f) => o == with(f),
                    None => o == v,
                },
            }
        }),
{
}

/// No variable but the one at `j` is set.
pub open spec fn only_set(env: Seq<(Seq<char>, String)>, j: int) -> bool {
    forall|k: int|
        0 <= k < crate::yaml::env_keys().len() && k != j ==> crate::yaml::env_text(
            env,
            crate::yaml::env_name_of(
                (#[trigger] crate::yaml::env_keys()[k]).0,
                crate::yaml::env_keys()[k].1,
            ),
        ) is None
}

proof fn one_override(v: serde_yaml::Value, env: Seq<(Seq<char>, String)>, j: int, n: int)
    requires
        0 <= n <= 20,
        only_set(env, j),
    ensures
        crate::yaml::overridden_upto(v, env, n) == (if 0 <= j < n {
            let (section, key) = crate::yaml::env_keys()[j];
            match crate::yaml::env_text(env, crate::yaml::env_name_of(section, key)) {
                Some(raw) => crate::yaml::overridden(
                    v,
                    section,
                    key,
                    crate::yaml::scalar_of(raw),
                ),
                None => v,
            }
        } else {
            v
        }),
    decreases n,
{
    assert(crate::yaml::env_keys().len() == 20);
    if n > 0 {
        one_override(v, env, j, n - 1);
        let e = crate::yaml::env_keys()[n - 1];
        assert(n - 1 != j ==> crate::yaml::env_text(env, crate::yaml::env_name_of(e.0, e.1))
            is None);
    }
}

/// A document without variables is what the text is, or an empty mapping where that is nothing;
/// one variable overrides its own key, and nothing else.
pub proof fn one_variable_overrides_one_key(
    text: Seq<char>,
    env: Seq<(Seq<char>, String)>,
    j: int,
    v: serde_yaml::Value,
)
    requires
        -1 <= j < 20,
        only_set(env, j),
        crate::yaml::yaml_document(text) == Ok::<serde_yaml::Value, Seq<char>>(v),
    ensures
        ({
            let start = if crate::yaml::yaml_null(v) {
                crate::yaml::yaml_of_mapping(crate::yaml::mapping_sized(0))
            } else {
                v
            };
            crate::yaml::document_of(text, env) == Ok::<serde_yaml::Value, Seq<char>>(
                if j < 0 {
                    start
                } else {
                    let (section, key) = crate::yaml::env_keys()[j];
                    match crate::yaml::env_text(env, crate::yaml::env_name_of(section, key)) {
                        Some(raw) => crate::yaml::overridden(
                            start,
                            section,
                            key,
                            crate::yaml::scalar_of(raw),
                        ),
                        None => start,
                    }
                },
            )
        }),
{
    let start = if crate::yaml::yaml_null(v) {
        crate::yaml::yaml_of_mapping(crate::yaml::mapping_sized(0))
    } else {
        v
    };
    one_override(start, env, j, 20);
}

/// A text that is no YAML is refused.
pub proof fn other_texts_are_no_document(text: Seq<char>, env: Seq<(Seq<char>, String)>)
    ensures
        crate::yaml::document_of(text, env) is Err <==> crate::yaml::yaml_document(text) is Err,
{
}

/// The DNS section is refused where a record of it or a zone of it cannot be read, and only
/// there.
pub proof fn dns_is_refused_for_records_and_zones(d: DnsResolvedView)
    ensures
        crate::settings::dns_error(d) is None <==> {
            &&& forall|k: int|
                0 <= k < d.records.len() ==> crate::resolve::record_of(
                    (#[trigger] d.records[k]).record_type,
                    d.records[k].value,
                ) is Ok
            &&& forall|k: int|
                0 <= k < d.passthrough.len() ==> crate::matcher::domain_glob(
                    #[trigger] d.passthrough[k],
                ) is Ok
        },
{
    records_or_not(d.records, d.records.len() as int);
    let f = |s: Seq<char>| crate::config::domain_of(s);
    super::config::lists_are_read_one_by_one(d.passthrough, f);
    match crate::config::all_of(d.passthrough, f) {
        Ok(v) => {
            assert forall|k: int| 0 <= k < d.passthrough.len() implies crate::matcher::domain_glob(
                #[trigger] d.passthrough[k],
            ) is Ok by {
                assert(f(d.passthrough[k]) is Ok);
            }
        },
        Err(_) => {
            let k = choose|k: int|
                0 <= k < d.passthrough.len() && f(#[trigger] d.passthrough[k]) is Err;
            assert(crate::matcher::domain_glob(d.passthrough[k]) is Err);
        },
    }
}

proof fn records_or_not(s: Seq<DnsRecordView>, n: int)
    requires
        0 <= n <= s.len(),
    ensures
        crate::settings::records_upto(s, n) is Ok <==> forall|k: int|
            0 <= k < n ==> crate::resolve::record_of(
                (#[trigger] s[k]).record_type,
                s[k].value,
            ) is Ok,
    decreases n,
{
    if n > 0 {
        records_or_not(s, n - 1);
        if crate::settings::records_upto(s, n) is Ok {
            assert forall|k: int| 0 <= k < n implies crate::resolve::record_of(
                (#[trigger] s[k]).record_type,
                s[k].value,
            ) is Ok by {}
        } else if crate::settings::records_upto(s, n - 1) is Ok {
            assert(crate::resolve::record_of(s[n - 1].record_type, s[n - 1].value) is Err);
        }
    }
}

} // verus!
