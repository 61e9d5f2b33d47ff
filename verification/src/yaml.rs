//! YAML documents, and values from the environment put over them.
use vstd::prelude::*;
use vstd::string::*;

use crate::strmap::{found, StrMap};
use crate::text::{join2, parse_decimal, same, to_upper};

verus! {

// ---- Values of the yaml crate ---------------------------------------------------------------

/// Declares the value type of `serde_yaml`.
#[verifier::external_type_specification]
#[verifier::external_body]
pub struct ExYaml(serde_yaml::Value);

/// Declares the mapping type of `serde_yaml`. Two mappings are the same here where
/// they have the same entries in the same order: nothing else of them can be seen.
#[verifier::external_type_specification]
#[verifier::external_body]
pub struct ExYamlMapping(serde_yaml::Mapping);

/// The document that a text stands for, or the error of reading it.
pub uninterp spec fn yaml_document(s: Seq<char>) -> Result<serde_yaml::Value, Seq<char>>;

/// A value is null.
pub uninterp spec fn yaml_null(v: serde_yaml::Value) -> bool;

/// The mapping that a value is, if it is one.
pub uninterp spec fn yaml_as_mapping(v: serde_yaml::Value) -> Option<serde_yaml::Mapping>;

/// A mapping as a value.
pub uninterp spec fn yaml_of_mapping(m: serde_yaml::Mapping) -> serde_yaml::Value;

/// The empty mapping with room for so many entries.
pub uninterp spec fn mapping_sized(capacity: usize) -> serde_yaml::Mapping;

/// The value of a mapping under a text, if it has one.
pub uninterp spec fn mapping_get(m: serde_yaml::Mapping, key: Seq<char>) -> Option<
    serde_yaml::Value,
>;

/// A mapping with a value put under a text.
pub uninterp spec fn mapping_with(
    m: serde_yaml::Mapping,
    key: Seq<char>,
    x: serde_yaml::Value,
) -> serde_yaml::Mapping;

/// A truth value.
pub uninterp spec fn yaml_of_bool(b: bool) -> serde_yaml::Value;

/// A number.
pub uninterp spec fn yaml_of_number(n: u64) -> serde_yaml::Value;

/// A text.
pub uninterp spec fn yaml_of_text(s: Seq<char>) -> serde_yaml::Value;

/// Trusts `serde_yaml::from_str`: which document a text is, or with which error
/// it is refused, depends on the text alone.
#[verifier::external_body]
fn parse_yaml(s: &str) -> (r: Result<serde_yaml::Value, String>)
    ensures
        match r {
            Ok(v) => yaml_document(s@) == Ok::<serde_yaml::Value, Seq<char>>(v),
            Err(e) => yaml_document(s@) == Err::<serde_yaml::Value, Seq<char>>(e@),
        },
{
    serde_yaml::from_str::<serde_yaml::Value>(s).map_err(|e| e.to_string())
}

/// Trusts `serde_yaml::Value::is_null`: it depends on the value alone.
#[verifier::external_body]
fn is_null(v: &serde_yaml::Value) -> (r: bool)
    ensures
        r == yaml_null(*v),
{
    v.is_null()
}

/// Trusts the variant `serde_yaml::Value::Mapping`: the mapping of a value that
/// is one, which put back is the value again; else the value itself.
#[verifier::external_body]
fn take_mapping(v: serde_yaml::Value) -> (r: Result<serde_yaml::Mapping, serde_yaml::Value>)
    ensures
        match r {
            Ok(m) => yaml_as_mapping(v) == Some(m) && v == yaml_of_mapping(m),
            Err(w) => yaml_as_mapping(v) is None && w == v,
        },
{
    match v {
        serde_yaml::Value::Mapping(m) => Ok(m),
        other => Err(other),
    }
}

/// Trusts the variant `serde_yaml::Value::Mapping`: a mapping as a value, out of
/// which the same mapping is taken.
#[verifier::external_body]
fn put_mapping(m: serde_yaml::Mapping) -> (r: serde_yaml::Value)
    ensures
        r == yaml_of_mapping(m),
        yaml_as_mapping(r) == Some(m),
{
    serde_yaml::Value::Mapping(m)
}

/// Trusts `serde_yaml::Mapping::with_capacity`, of no more than a thousand
/// entries: a mapping with nothing in it.
#[verifier::external_body]
fn empty_mapping(capacity: usize) -> (r: serde_yaml::Mapping)
    requires
        capacity <= 1000,
    ensures
        r == mapping_sized(capacity),
        forall|k: Seq<char>| #[trigger] mapping_get(r, k) is None,
{
    serde_yaml::Mapping::with_capacity(capacity)
}

/// Trusts `serde_yaml::Mapping::get` with a text key: a copy of the value, which
/// depends on the mapping and the key alone.
#[verifier::external_body]
fn get_field(m: &serde_yaml::Mapping, key: &str) -> (r: Option<serde_yaml::Value>)
    ensures
        r == mapping_get(*m, key@),
{
    m.get(key).cloned()
}

/// Trusts `serde_yaml::Mapping::insert` with a text key: what results depends on
/// the mapping, the key and the value alone; the value is read back under the
/// key, and under every other text the mapping holds what it held.
#[verifier::external_body]
fn set_field(m: serde_yaml::Mapping, key: &str, x: serde_yaml::Value) -> (r: serde_yaml::Mapping)
    ensures
        r == mapping_with(m, key@, x),
        mapping_get(r, key@) == Some(x),
        forall|k: Seq<char>| k != key@ ==> #[trigger] mapping_get(r, k) == mapping_get(m, k),
{
    let mut m = m;
    m.insert(serde_yaml::Value::String(key.to_string()), x);
    m
}

/// Trusts the variant `serde_yaml::Value::Bool`.
#[verifier::external_body]
fn of_bool(b: bool) -> (r: serde_yaml::Value)
    ensures
        r == yaml_of_bool(b),
{
    serde_yaml::Value::Bool(b)
}

/// Trusts the variant `serde_yaml::Value::Number` over an integer.
#[verifier::external_body]
fn of_number(n: u64) -> (r: serde_yaml::Value)
    ensures
        r == yaml_of_number(n),
{
    serde_yaml::Value::Number(n.into())
}

/// Trusts the variant `serde_yaml::Value::String`.
#[verifier::external_body]
fn of_text(s: String) -> (r: serde_yaml::Value)
    ensures
        r == yaml_of_text(s@),
{
    serde_yaml::Value::String(s)
}

// ---- Overrides --------------------------------------------------------------------------------

/// What the environment says under a name.
pub open spec fn env_text(env: Seq<(Seq<char>, String)>, name: Seq<char>) -> Option<Seq<char>> {
    crate::text::opt_text(found(env, name))
}

/// The scalar keys that the environment overrides: section and key.
pub open spec fn env_keys() -> Seq<(Seq<char>, Seq<char>)> {
    seq![
        ("dns"@, "enabled"@),
        ("dns"@, "listen"@),
        ("dns"@, "proxy_ip"@),
        ("dns"@, "upstream_resolver"@),
        ("proxy"@, "http_listen"@),
        ("proxy"@, "https_listen"@),
        ("proxy"@, "tunnel_listen"@),
        ("proxy"@, "max_request_body_bytes"@),
        ("proxy"@, "max_response_body_bytes"@),
        ("proxy"@, "upstream_response_header_timeout"@),
        ("proxy"@, "http_proxy"@),
        ("proxy"@, "https_proxy"@),
        ("proxy"@, "no_proxy"@),
        ("tls"@, "ca_cert"@),
        ("tls"@, "ca_key"@),
        ("tls"@, "cert_cache_size"@),
        ("tls"@, "leaf_cert_expiry_hours"@),
        ("management"@, "listen"@),
        ("management"@, "api_key_env"@),
        ("log"@, "level"@),
    ]
}

spec fn pair_views(v: Seq<(&'static str, &'static str)>) -> Seq<(Seq<char>, Seq<char>)> {
    v.map_values(|p: (&'static str, &'static str)| (p.0@, p.1@))
}

fn env_key_list() -> (r: Vec<(&'static str, &'static str)>)
    ensures
        pair_views(r@) == env_keys(),
{
    let v = vec![
        ("dns", "enabled"),
        ("dns", "listen"),
        ("dns", "proxy_ip"),
        ("dns", "upstream_resolver"),
        ("proxy", "http_listen"),
        ("proxy", "https_listen"),
        ("proxy", "tunnel_listen"),
        ("proxy", "max_request_body_bytes"),
        ("proxy", "max_response_body_bytes"),
        ("proxy", "upstream_response_header_timeout"),
        ("proxy", "http_proxy"),
        ("proxy", "https_proxy"),
        ("proxy", "no_proxy"),
        ("tls", "ca_cert"),
        ("tls", "ca_key"),
        ("tls", "cert_cache_size"),
        ("tls", "leaf_cert_expiry_hours"),
        ("management", "listen"),
        ("management", "api_key_env"),
        ("log", "level"),
    ];
    assert(pair_views(v@) == env_keys());
    v
}

/// The name in the environment of a key: both parts in upper case behind the
/// product's name.
pub open spec fn env_name_of(section: Seq<char>, key: Seq<char>) -> Seq<char> {
    "HEMATITE_"@ + crate::text::upper(section) + ("_"@ + crate::text::upper(key))
}

pub fn env_name(section: &str, key: &str) -> (r: String)
    ensures
        r@ == env_name_of(section@, key@),
{
    let a = join2("HEMATITE_", to_upper(section).as_str());
    let b = join2("_", to_upper(key).as_str());
    join2(a.as_str(), b.as_str())
}

/// A text as the scalar that it looks like: a truth value, a number, else a text.
pub open spec fn scalar_of(raw: Seq<char>) -> serde_yaml::Value {
    if raw == "true"@ {
        yaml_of_bool(true)
    } else if raw == "false"@ {
        yaml_of_bool(false)
    } else {
        match crate::text::decimal(raw, u64::MAX as nat) {
            Some(n) => yaml_of_number(n as u64),
            None => yaml_of_text(raw),
        }
    }
}

fn scalar(raw: &str) -> (r: serde_yaml::Value)
    ensures
        r == scalar_of(raw@),
{
    if same(raw, "true") {
        of_bool(true)
    } else if same(raw, "false") {
        of_bool(false)
    } else {
        match parse_decimal(raw, u64::MAX) {
            Some(n) => of_number(n),
            None => of_text(raw.to_owned()),
        }
    }
}

/// The mapping of a section to write into: its own, or an empty one where there
/// is no such section.
pub open spec fn section_of(m: serde_yaml::Mapping, section: Seq<char>) -> Option<
    serde_yaml::Mapping,
> {
    match mapping_get(m, section) {
        None => Some(mapping_sized(0)),
        Some(v) => yaml_as_mapping(v),
    }
}

/// A document with a value put under a key of a section. A document or a
/// section that is no mapping is left as it is.
pub open spec fn overridden(
    v: serde_yaml::Value,
    section: Seq<char>,
    key: Seq<char>,
    x: serde_yaml::Value,
) -> serde_yaml::Value {
    match yaml_as_mapping(v) {
        None => v,
        Some(m) => match section_of(m, section) {
            None => v,
            Some(f) => yaml_of_mapping(
                mapping_with(m, section, yaml_of_mapping(mapping_with(f, key, x))),
            ),
        },
    }
}

/// The document has no such section, or a mapping.
pub open spec fn section_is_open(v: serde_yaml::Value, section: Seq<char>) -> bool {
    match yaml_as_mapping(v) {
        None => false,
        Some(m) => section_of(m, section) is Some,
    }
}

/// What a document holds under a key of a section.
pub open spec fn field_in(v: serde_yaml::Value, section: Seq<char>, key: Seq<char>) -> Option<
    serde_yaml::Value,
> {
    match yaml_as_mapping(v) {
        None => None,
        Some(m) => match mapping_get(m, section) {
            None => None,
            Some(s) => match yaml_as_mapping(s) {
                None => None,
                Some(f) => mapping_get(f, key),
            },
        },
    }
}

fn put_override(v: serde_yaml::Value, section: &str, key: &str, x: serde_yaml::Value) -> (r:
    serde_yaml::Value)
    ensures
        r == overridden(v, section@, key@, x),
        section_is_open(v, section@) ==> field_in(r, section@, key@) == Some(x),
        forall|s: Seq<char>| #[trigger] section_is_open(r, s) == section_is_open(v, s),
        forall|s: Seq<char>, k: Seq<char>|
            s != section@ || k != key@ ==> #[trigger] field_in(r, s, k) == field_in(v, s, k),
{
    let m = match take_mapping(v) {
        Ok(m) => m,
        Err(w) => {
            return w;
        },
    };
    let held = get_field(&m, section);
    let f = match held {
        None => empty_mapping(0),
        Some(s) => match take_mapping(s) {
            Ok(f) => f,
            Err(_) => {
                return put_mapping(m);
            },
        },
    };
    let inner = put_mapping(set_field(f, key, x));
    put_mapping(set_field(m, section, inner))
}

/// A document with the first `n` keys taken from the environment.
pub open spec fn overridden_upto(
    v: serde_yaml::Value,
    env: Seq<(Seq<char>, String)>,
    n: int,
) -> serde_yaml::Value
    decreases n,
{
    if n <= 0 {
        v
    } else {
        let w = overridden_upto(v, env, n - 1);
        let (section, key) = env_keys()[n - 1];
        match env_text(env, env_name_of(section, key)) {
            None => w,
            Some(raw) => overridden(w, section, key, scalar_of(raw)),
        }
    }
}

/// What the environment says of the key of that index.
pub open spec fn env_answer(env: Seq<(Seq<char>, String)>, j: int) -> Option<Seq<char>> {
    env_text(env, env_name_of(env_keys()[j].0, env_keys()[j].1))
}

/// Puts what the environment says over a document. What it says of a key is
/// read back from the document, and a key of which it says nothing holds what
/// it held.
pub fn apply_env_overrides(value: serde_yaml::Value, env: &StrMap<String>) -> (r:
    serde_yaml::Value)
    ensures
        r == overridden_upto(value, env@, 20),
        forall|j: int|
            0 <= j < 20 && (#[trigger] env_answer(env@, j)) is Some && section_is_open(
                value,
                env_keys()[j].0,
            ) ==> field_in(r, env_keys()[j].0, env_keys()[j].1) == Some(
                scalar_of(env_answer(env@, j).unwrap()),
            ),
        forall|s: Seq<char>, k: Seq<char>|
            (forall|j: int|
                0 <= j < 20 && (#[trigger] env_answer(env@, j)) is Some ==> env_keys()[j] != (s, k))
                ==> #[trigger] field_in(r, s, k) == field_in(value, s, k),
{
    let keys = env_key_list();
    let ghost e = env@;
    let ghost start = value;
    let mut v = value;
    let mut i: usize = 0;
    assert(keys@.len() == pair_views(keys@).len());
    while i < keys.len()
        invariant
            i <= keys@.len(),
            keys@.len() == 20,
            pair_views(keys@) == env_keys(),
            e == env@,
            v == overridden_upto(start, e, i as int),
            forall|s: Seq<char>| #[trigger]
                section_is_open(v, s) == section_is_open(start, s),
            forall|j: int|
                0 <= j < i && (#[trigger] env_answer(e, j)) is Some && section_is_open(
                    start,
                    env_keys()[j].0,
                ) ==> field_in(v, env_keys()[j].0, env_keys()[j].1) == Some(
                    scalar_of(env_answer(e, j).unwrap()),
                ),
            forall|s: Seq<char>, k: Seq<char>|
                (forall|j: int|
                    0 <= j < i && (#[trigger] env_answer(e, j)) is Some ==> env_keys()[j] != (
                        s,
                        k,
                    )) ==> #[trigger] field_in(v, s, k) == field_in(start, s, k),
        decreases keys@.len() - i,
    {
        let (section, key) = keys[i];
        assert(pair_views(keys@)[i as int] == (section@, key@));
        let name = env_name(section, key);
        let ghost before = v;
        if let Some(raw) = env.get(name.as_str()) {
            v = put_override(v, section, key, scalar(raw.as_str()));
            proof {
                let a = env_answer(e, i as int);
                assert(a == Some(raw@));
                assert forall|j: int|
                    0 <= j < i + 1 && (#[trigger] env_answer(e, j)) is Some && section_is_open(
                        start,
                        env_keys()[j].0,
                    ) implies field_in(v, env_keys()[j].0, env_keys()[j].1) == Some(
                    scalar_of(env_answer(e, j).unwrap()),
                ) by {
                    if env_keys()[j] == env_keys()[i as int] {
                        assert(section_is_open(before, section@));
                    } else {
                        assert(j < i);
                    }
                }
                assert forall|s: Seq<char>, k: Seq<char>|
                    (forall|j: int|
                        0 <= j < i + 1 && (#[trigger] env_answer(e, j)) is Some ==> env_keys()[j]
                            != (s, k)) implies #[trigger] field_in(v, s, k) == field_in(
                    start,
                    s,
                    k,
                ) by {
                    assert(env_keys()[i as int] != (s, k));
                    assert(field_in(v, s, k) == field_in(before, s, k));
                }
            }
        }
        i += 1;
    }
    v
}

/// The document of a configuration text, the environment put over it: an empty
/// text is an empty mapping.
pub open spec fn document_of(text: Seq<char>, env: Seq<(Seq<char>, String)>) -> Result<
    serde_yaml::Value,
    Seq<char>,
> {
    match yaml_document(text) {
        Err(e) => Err("YAML parse error: "@ + e),
        Ok(v) => Ok(settled(v, env)),
    }
}

/// A document as it was read, with the environment put over it.
pub open spec fn settled(v: serde_yaml::Value, env: Seq<(Seq<char>, String)>) -> serde_yaml::Value {
    overridden_upto(
        if yaml_null(v) {
            yaml_of_mapping(mapping_sized(0))
        } else {
            v
        },
        env,
        20,
    )
}

/// What follows the reading of a document.
pub fn settle_document(v: serde_yaml::Value, env: &StrMap<String>) -> (r: serde_yaml::Value)
    ensures
        r == settled(v, env@),
{
    let v = if is_null(&v) {
        put_mapping(empty_mapping(0))
    } else {
        v
    };
    apply_env_overrides(v, env)
}

/// Reads a configuration text and puts the environment over it; the error is its
/// text.
pub fn read_document(text: &str, env: &StrMap<String>) -> (r: Result<serde_yaml::Value, String>)
    ensures
        match r {
            Ok(v) => document_of(text@, env@) == Ok::<serde_yaml::Value, Seq<char>>(v),
            Err(e) => document_of(text@, env@) == Err::<serde_yaml::Value, Seq<char>>(e@),
        },
{
    match parse_yaml(text) {
        Ok(v) => Ok(settle_document(v, env)),
        Err(e) => Err(join2("YAML parse error: ", e.as_str())),
    }
}

} // verus!
