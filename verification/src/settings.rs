//! The configuration of the proxy: its sections as they are read, the defaults,
//! what is refused at boot, and the runtime that is built of it.
use vstd::prelude::*;
use vstd::string::*;

use crate::config::{
    build_pipeline_with_resolver, collected, first_error_counts, opt_texts, pipeline_of,
    transform_spec_views, warnings_of, TransformConfig, TransformConfigView, TransformSpec,
    TransformSpecView,
};
use crate::duration::{duration, parse_millis};
use crate::ip::IpAddr;
use crate::matcher::DomainGlob;
use crate::pipeline::Pipeline;
use crate::resolve::{parse_record, DnsConfig, StaticRecord, StaticView};
use crate::secret::{NoResolver, SecretResolver};
use crate::state::{default_deny, guard_of, DenyView, Guard, Runtime};
use crate::strmap::{mapped, mapping_commutes, put, StrMap};
use crate::text::{chars_of, copy_opt, join2, join3, opt_text, quoted, same, texts};
use crate::transforms::TransformView;
use crate::wire::record_name;
use crate::yaml::env_text;

verus! {

/// A configuration that is refused, and why.
#[derive(Debug)]
pub struct LoadError(pub String);

impl LoadError {
    pub fn to_text(&self) -> (r: String)
        ensures
            r@ == self.0@,
    {
        self.0.clone()
    }
}

// ---- Sections -------------------------------------------------------------------------------

/// One static record of the DNS server.
#[derive(Debug)]
pub struct DnsRecord {
    pub name: String,
    pub record_type: String,
    pub value: String,
}

/// What a static record says.
#[verifier::ext_equal]
pub struct DnsRecordView {
    pub name: Seq<char>,
    pub record_type: Seq<char>,
    pub value: Seq<char>,
}

impl View for DnsRecord {
    type V = DnsRecordView;

    open spec fn view(&self) -> DnsRecordView {
        DnsRecordView { name: self.name@, record_type: self.record_type@, value: self.value@ }
    }
}

/// The views of a list of records.
pub open spec fn dns_record_views(v: Seq<DnsRecord>) -> Seq<DnsRecordView> {
    v.map_values(|r: DnsRecord| r@)
}

/// The section `dns`.
#[derive(Debug)]
pub struct DnsSection {
    pub enabled: bool,
    pub listen: Option<String>,
    pub proxy_ip: Option<String>,
    pub upstream_resolver: Option<String>,
    pub passthrough: Vec<String>,
    pub records: Vec<DnsRecord>,
}

/// What the section `dns` says.
#[verifier::ext_equal]
pub struct DnsSectionView {
    pub enabled: bool,
    pub listen: Option<Seq<char>>,
    pub proxy_ip: Option<Seq<char>>,
    pub upstream_resolver: Option<Seq<char>>,
    pub passthrough: Seq<Seq<char>>,
    pub records: Seq<DnsRecordView>,
}

impl View for DnsSection {
    type V = DnsSectionView;

    open spec fn view(&self) -> DnsSectionView {
        DnsSectionView {
            enabled: self.enabled,
            listen: opt_text(self.listen),
            proxy_ip: opt_text(self.proxy_ip),
            upstream_resolver: opt_text(self.upstream_resolver),
            passthrough: texts(self.passthrough@),
            records: dns_record_views(self.records@),
        }
    }
}

/// The section `proxy`.
#[derive(Debug)]
pub struct ProxySection {
    pub http_listen: Option<String>,
    pub https_listen: Option<String>,
    pub tunnel_listen: Option<String>,
    pub max_request_body_bytes: Option<usize>,
    pub max_response_body_bytes: Option<usize>,
    pub upstream_response_header_timeout: Option<String>,
    pub upstream_deny_cidrs: Option<Vec<String>>,
    pub http_proxy: Option<String>,
    pub https_proxy: Option<String>,
    pub no_proxy: Option<String>,
}

/// What the section `proxy` says, as far as it is heeded.
#[verifier::ext_equal]
pub struct ProxyView {
    pub http_listen: Option<Seq<char>>,
    pub https_listen: Option<Seq<char>>,
    pub tunnel_listen: Option<Seq<char>>,
    pub max_request_body_bytes: Option<usize>,
    pub max_response_body_bytes: Option<usize>,
    pub upstream_response_header_timeout: Option<Seq<char>>,
    pub upstream_deny_cidrs: Option<Seq<Seq<char>>>,
}

impl View for ProxySection {
    type V = ProxyView;

    open spec fn view(&self) -> ProxyView {
        ProxyView {
            http_listen: opt_text(self.http_listen),
            https_listen: opt_text(self.https_listen),
            tunnel_listen: opt_text(self.tunnel_listen),
            max_request_body_bytes: self.max_request_body_bytes,
            max_response_body_bytes: self.max_response_body_bytes,
            upstream_response_header_timeout: opt_text(self.upstream_response_header_timeout),
            upstream_deny_cidrs: opt_texts(self.upstream_deny_cidrs),
        }
    }
}

/// The section `tls`: where the signing certificate and its key are.
#[derive(Debug)]
pub struct TlsSection {
    pub ca_cert: String,
    pub ca_key: String,
    pub cert_cache_size: Option<usize>,
    pub leaf_cert_expiry_hours: Option<u64>,
}

/// What the section `tls` says.
#[verifier::ext_equal]
pub struct TlsView {
    pub ca_cert: Seq<char>,
    pub ca_key: Seq<char>,
    pub cert_cache_size: Option<usize>,
    pub leaf_cert_expiry_hours: Option<u64>,
}

impl View for TlsSection {
    type V = TlsView;

    open spec fn view(&self) -> TlsView {
        TlsView {
            ca_cert: self.ca_cert@,
            ca_key: self.ca_key@,
            cert_cache_size: self.cert_cache_size,
            leaf_cert_expiry_hours: self.leaf_cert_expiry_hours,
        }
    }
}

/// What an optional `tls` section says.
pub open spec fn opt_tls(o: Option<TlsSection>) -> Option<TlsView> {
    match o {
        Some(t) => Some(t@),
        None => None,
    }
}

impl TlsSection {
    /// How many leaves are cached: a thousand where nothing is said.
    pub fn cache_size(&self) -> (r: usize)
        ensures
            r == (match self@.cert_cache_size {
                Some(n) => n,
                None => 1000,
            }),
    {
        match self.cert_cache_size {
            Some(n) => n,
            None => 1000,
        }
    }

    /// How many hours a leaf is valid: three days where nothing is said.
    pub fn expiry_hours(&self) -> (r: u64)
        ensures
            r == (match self@.leaf_cert_expiry_hours {
                Some(n) => n,
                None => 72,
            }),
    {
        match self.leaf_cert_expiry_hours {
            Some(n) => n,
            None => 72,
        }
    }
}

/// The section `management`.
#[derive(Debug)]
pub struct ManagementSection {
    pub listen: String,
    pub api_key_env: Option<String>,
}

/// What the section `management` says.
#[verifier::ext_equal]
pub struct ManagementView {
    pub listen: Seq<char>,
    pub api_key_env: Option<Seq<char>>,
}

impl View for ManagementSection {
    type V = ManagementView;

    open spec fn view(&self) -> ManagementView {
        ManagementView { listen: self.listen@, api_key_env: opt_text(self.api_key_env) }
    }
}

/// What an optional `management` section says.
pub open spec fn opt_management(o: Option<ManagementSection>) -> Option<ManagementView> {
    match o {
        Some(m) => Some(m@),
        None => None,
    }
}

/// The section `log`.
#[derive(Debug)]
pub struct LogSection {
    pub level: Option<String>,
}

/// An entry of `transforms` as it was read: its block, or why the block is no
/// configuration at all.
#[derive(Debug)]
pub struct TransformSpecYaml {
    pub name: String,
    pub config: Result<TransformConfig, String>,
}

/// What an entry says.
#[verifier::ext_equal]
pub struct RawTransformView {
    pub name: Seq<char>,
    pub config: Result<TransformConfigView, Seq<char>>,
}

impl View for TransformSpecYaml {
    type V = RawTransformView;

    open spec fn view(&self) -> RawTransformView {
        RawTransformView {
            name: self.name@,
            config: match self.config {
                Ok(c) => Ok(c@),
                Err(e) => Err(e@),
            },
        }
    }
}

/// The views of a list of entries.
pub open spec fn raw_transform_views(v: Seq<TransformSpecYaml>) -> Seq<RawTransformView> {
    v.map_values(|t: TransformSpecYaml| t@)
}

/// The configuration as it was read.
#[derive(Debug)]
pub struct RawConfig {
    pub dns: Option<DnsSection>,
    pub proxy: ProxySection,
    pub tls: Option<TlsSection>,
    pub transforms: Vec<TransformSpecYaml>,
    pub management: Option<ManagementSection>,
    pub log: Option<LogSection>,
}

/// What a configuration says as it was read.
#[verifier::ext_equal]
pub struct RawView {
    pub dns: Option<DnsSectionView>,
    pub proxy: ProxyView,
    pub tls: Option<TlsView>,
    pub transforms: Seq<RawTransformView>,
    pub management: Option<ManagementView>,
    pub log_level: Option<Seq<char>>,
}

/// What an optional `dns` section says.
pub open spec fn opt_dns(o: Option<DnsSection>) -> Option<DnsSectionView> {
    match o {
        Some(d) => Some(d@),
        None => None,
    }
}

impl View for RawConfig {
    type V = RawView;

    open spec fn view(&self) -> RawView {
        RawView {
            dns: opt_dns(self.dns),
            proxy: self.proxy@,
            tls: opt_tls(self.tls),
            transforms: raw_transform_views(self.transforms@),
            management: opt_management(self.management),
            log_level: match self.log {
                Some(l) => opt_text(l.level),
                None => None,
            },
        }
    }
}

// ---- The resolved configuration ----------------------------------------------------------------

/// The addresses that are listened on.
#[derive(Debug)]
pub struct ListenKeys {
    pub http: String,
    pub https: Option<String>,
    pub tunnel: Option<String>,
    pub dns: Option<String>,
    pub management: Option<String>,
}

/// What the addresses say.
#[verifier::ext_equal]
pub struct ListenView {
    pub http: Seq<char>,
    pub https: Option<Seq<char>>,
    pub tunnel: Option<Seq<char>>,
    pub dns: Option<Seq<char>>,
    pub management: Option<Seq<char>>,
}

impl View for ListenKeys {
    type V = ListenView;

    open spec fn view(&self) -> ListenView {
        ListenView {
            http: self.http@,
            https: opt_text(self.https),
            tunnel: opt_text(self.tunnel),
            dns: opt_text(self.dns),
            management: opt_text(self.management),
        }
    }
}

fn same_opt(a: &Option<String>, b: &Option<String>) -> (r: bool)
    ensures
        r == (opt_text(*a) == opt_text(*b)),
{
    match (a, b) {
        (Some(x), Some(y)) => same(x.as_str(), y.as_str()),
        (None, None) => true,
        _ => false,
    }
}

impl ListenKeys {
    /// The same addresses.
    pub fn agrees(&self, other: &ListenKeys) -> (r: bool)
        ensures
            r == (self@ == other@),
    {
        same(self.http.as_str(), other.http.as_str()) && same_opt(&self.https, &other.https)
            && same_opt(&self.tunnel, &other.tunnel) && same_opt(&self.dns, &other.dns)
            && same_opt(&self.management, &other.management)
    }

    pub fn copy(&self) -> (r: ListenKeys)
        ensures
            r@ == self@,
    {
        ListenKeys {
            http: self.http.clone(),
            https: copy_opt(&self.https),
            tunnel: copy_opt(&self.tunnel),
            dns: copy_opt(&self.dns),
            management: copy_opt(&self.management),
        }
    }
}

/// The settings of the DNS server.
#[derive(Debug)]
pub struct DnsResolved {
    pub listen: String,
    pub proxy_ip: u32,
    pub upstream_resolver: String,
    pub passthrough: Vec<String>,
    pub records: Vec<DnsRecord>,
}

/// What the settings of the DNS server say.
#[verifier::ext_equal]
pub struct DnsResolvedView {
    pub listen: Seq<char>,
    pub proxy_ip: u32,
    pub upstream_resolver: Seq<char>,
    pub passthrough: Seq<Seq<char>>,
    pub records: Seq<DnsRecordView>,
}

impl View for DnsResolved {
    type V = DnsResolvedView;

    open spec fn view(&self) -> DnsResolvedView {
        DnsResolvedView {
            listen: self.listen@,
            proxy_ip: self.proxy_ip,
            upstream_resolver: self.upstream_resolver@,
            passthrough: texts(self.passthrough@),
            records: dns_record_views(self.records@),
        }
    }
}

/// What optional settings of the DNS server say.
pub open spec fn opt_resolved(o: Option<DnsResolved>) -> Option<DnsResolvedView> {
    match o {
        Some(d) => Some(d@),
        None => None,
    }
}

/// The configuration with its defaults.
#[derive(Debug)]
pub struct Config {
    pub listen: ListenKeys,
    pub max_request_body_bytes: usize,
    pub max_response_body_bytes: usize,
    /// In milliseconds.
    pub upstream_response_header_timeout: u128,
    /// None where nothing is said, which is the default deny set; an empty list
    /// turns the guard off.
    pub upstream_deny_cidrs: Option<Vec<String>>,
    pub management_api_key: Option<String>,
    pub log_level: String,
    pub transforms: Vec<TransformSpec>,
    pub dns: Option<DnsResolved>,
    pub tls: Option<TlsSection>,
    pub warnings: Vec<String>,
}

/// What a configuration says.
#[verifier::ext_equal]
pub struct ConfigView {
    pub listen: ListenView,
    pub max_request_body_bytes: usize,
    pub max_response_body_bytes: usize,
    pub upstream_response_header_timeout: nat,
    pub upstream_deny_cidrs: Option<Seq<Seq<char>>>,
    pub management_api_key: Option<Seq<char>>,
    pub log_level: Seq<char>,
    pub transforms: Seq<TransformSpecView>,
    pub dns: Option<DnsResolvedView>,
    pub tls: Option<TlsView>,
    pub warnings: Seq<Seq<char>>,
}

impl View for Config {
    type V = ConfigView;

    open spec fn view(&self) -> ConfigView {
        ConfigView {
            listen: self.listen@,
            max_request_body_bytes: self.max_request_body_bytes,
            max_response_body_bytes: self.max_response_body_bytes,
            upstream_response_header_timeout: self.upstream_response_header_timeout as nat,
            upstream_deny_cidrs: opt_texts(self.upstream_deny_cidrs),
            management_api_key: opt_text(self.management_api_key),
            log_level: self.log_level@,
            transforms: transform_spec_views(self.transforms@),
            dns: opt_resolved(self.dns),
            tls: opt_tls(self.tls),
            warnings: texts(self.warnings@),
        }
    }
}

// ---- Defaults and validation ------------------------------------------------------------------

/// A text, or what stands for it where there is none.
pub open spec fn or_text(o: Option<Seq<char>>, d: Seq<char>) -> Seq<char> {
    match o {
        Some(t) => t,
        None => d,
    }
}

fn or_default(o: &Option<String>, d: &str) -> (r: String)
    ensures
        r@ == or_text(opt_text(*o), d@),
{
    match o {
        Some(t) => t.clone(),
        None => d.to_owned(),
    }
}

/// The addresses to listen on.
pub open spec fn listen_of(raw: RawView) -> ListenView {
    ListenView {
        http: or_text(raw.proxy.http_listen, ":80"@),
        https: raw.proxy.https_listen,
        tunnel: raw.proxy.tunnel_listen,
        dns: match raw.dns {
            Some(d) => if d.enabled {
                Some(or_text(d.listen, ":53"@))
            } else {
                None
            },
            None => None,
        },
        management: match raw.management {
            Some(m) => Some(m.listen),
            None => None,
        },
    }
}

fn listen_keys(raw: &RawConfig) -> (r: ListenKeys)
    ensures
        r@ == listen_of(raw@),
{
    ListenKeys {
        http: or_default(&raw.proxy.http_listen, ":80"),
        https: copy_opt(&raw.proxy.https_listen),
        tunnel: copy_opt(&raw.proxy.tunnel_listen),
        dns: match &raw.dns {
            Some(d) => if d.enabled {
                Some(or_default(&d.listen, ":53"))
            } else {
                None
            },
            None => None,
        },
        management: match &raw.management {
            Some(m) => Some(m.listen.clone()),
            None => None,
        },
    }
}

/// A duration in milliseconds, half a minute where nothing is said.
pub open spec fn timeout_of(o: Option<Seq<char>>) -> Result<nat, Seq<char>> {
    match o {
        Some(s) => duration(s),
        None => Ok(30000),
    }
}

fn header_timeout(o: &Option<String>) -> (r: Result<u128, String>)
    ensures
        match r {
            Ok(n) => timeout_of(opt_text(*o)) == Ok::<nat, Seq<char>>(n as nat),
            Err(e) => timeout_of(opt_text(*o)) == Err::<nat, Seq<char>>(e@),
        },
{
    match o {
        Some(s) => parse_millis(s.as_str()),
        None => Ok(30000),
    }
}

/// The index of the first record at or after `i` of another type than A and
/// CNAME, or the length.
pub open spec fn first_foreign(s: Seq<DnsRecordView>, i: int) -> int
    decreases s.len() - i,
{
    if i >= s.len() {
        s.len() as int
    } else if s[i].record_type != "A"@ && s[i].record_type != "CNAME"@ {
        i
    } else {
        first_foreign(s, i + 1)
    }
}

fn first_foreign_record(v: &Vec<DnsRecord>) -> (r: usize)
    ensures
        r == first_foreign(dns_record_views(v@), 0),
        r <= v@.len(),
{
    let ghost s = dns_record_views(v@);
    let mut i: usize = 0;
    while i < v.len()
        invariant
            i <= v@.len(),
            s == dns_record_views(v@),
            first_foreign(s, 0) == first_foreign(s, i as int),
        decreases v@.len() - i,
    {
        assert(s[i as int] == v@[i as int]@);
        if !same(v[i].record_type.as_str(), "A") && !same(v[i].record_type.as_str(), "CNAME") {
            return i;
        }
        i += 1;
    }
    i
}

/// The settings of the DNS server, where it is enabled. It needs an IPv4 address
/// to answer with, and has records of two types.
pub open spec fn dns_of(o: Option<DnsSectionView>) -> Result<Option<DnsResolvedView>, Seq<char>> {
    match o {
        None => Ok(None),
        Some(d) => if !d.enabled {
            Ok(None)
        } else {
            match d.proxy_ip {
                None => Err("dns.proxy_ip is required when DNS is enabled"@),
                Some(ip) => match crate::ip::v4_value(ip) {
                    None => Err("dns.proxy_ip must be IPv4: "@ + crate::text::quoted_text(ip)),
                    Some(v) => {
                        let i = first_foreign(d.records, 0);
                        if i < d.records.len() {
                            Err(
                                "dns record type "@ + crate::text::quoted_text(
                                    d.records[i].record_type,
                                ) + " is not A or CNAME"@,
                            )
                        } else {
                            Ok(
                                Some(
                                    DnsResolvedView {
                                        listen: or_text(d.listen, ":53"@),
                                        proxy_ip: v as u32,
                                        upstream_resolver: or_text(d.upstream_resolver, ""@),
                                        passthrough: d.passthrough,
                                        records: d.records,
                                    },
                                ),
                            )
                        }
                    },
                },
            }
        },
    }
}

fn resolve_dns(o: Option<DnsSection>) -> (r: Result<Option<DnsResolved>, LoadError>)
    ensures
        match r {
            Ok(d) => dns_of(opt_dns(o)) == Ok::<Option<DnsResolvedView>, Seq<char>>(
                opt_resolved(d),
            ),
            Err(e) => dns_of(opt_dns(o)) == Err::<Option<DnsResolvedView>, Seq<char>>(e.0@),
        },
{
    let d = match o {
        Some(d) => d,
        None => {
            return Ok(None);
        },
    };
    if !d.enabled {
        return Ok(None);
    }
    let ip: &String = match &d.proxy_ip {
        Some(ip) => ip,
        None => {
            return Err(LoadError("dns.proxy_ip is required when DNS is enabled".to_owned()));
        },
    };
    let proxy_ip: u32 = match IpAddr::parse(ip.as_str()) {
        Some(IpAddr::V4(v)) => v,
        _ => {
            return Err(LoadError(join2("dns.proxy_ip must be IPv4: ", quoted(ip.as_str()).as_str())));
        },
    };
    let i: usize = first_foreign_record(&d.records);
    if i < d.records.len() {
        assert(dns_record_views(d.records@)[i as int] == d.records@[i as int]@);
        return Err(
            LoadError(
                join3(
                    "dns record type ",
                    quoted(d.records[i].record_type.as_str()).as_str(),
                    " is not A or CNAME",
                ),
            ),
        );
    }
    Ok(
        Some(
            DnsResolved {
                listen: or_default(&d.listen, ":53"),
                proxy_ip,
                upstream_resolver: or_default(&d.upstream_resolver, ""),
                passthrough: d.passthrough,
                records: d.records,
            },
        ),
    )
}

/// The key of the management interface, where it is enabled: the environment
/// must hold one.
pub open spec fn management_key_of(
    o: Option<ManagementView>,
    env: Seq<(Seq<char>, String)>,
) -> Result<Option<Seq<char>>, Seq<char>> {
    match o {
        None => Ok(None),
        Some(m) => {
            let var = or_text(m.api_key_env, "HEMATITE_MANAGEMENT_API_KEY"@);
            match env_text(env, var) {
                Some(key) => if key.len() > 0 {
                    Ok(Some(key))
                } else {
                    Err(missing_key(var))
                },
                None => Err(missing_key(var)),
            }
        },
    }
}

/// The error of a management interface without a key.
pub open spec fn missing_key(var: Seq<char>) -> Seq<char> {
    "management.listen is set but env var "@ + crate::text::quoted_text(var)
        + " is empty or unset"@
}

fn management_key(o: &Option<ManagementSection>, env: &StrMap<String>) -> (r: Result<
    Option<String>,
    LoadError,
>)
    ensures
        match r {
            Ok(k) => management_key_of(opt_management(*o), env@) == Ok::<
                Option<Seq<char>>,
                Seq<char>,
            >(opt_text(k)),
            Err(e) => management_key_of(opt_management(*o), env@) == Err::<
                Option<Seq<char>>,
                Seq<char>,
            >(e.0@),
        },
{
    match o {
        None => Ok(None),
        Some(m) => {
            let var = or_default(&m.api_key_env, "HEMATITE_MANAGEMENT_API_KEY");
            if let Some(key) = env.get(var.as_str()) {
                let c = chars_of(key.as_str());
                if c.len() > 0 {
                    return Ok(Some(key.clone()));
                }
            }
            Err(
                LoadError(
                    join3(
                        "management.listen is set but env var ",
                        quoted(var.as_str()).as_str(),
                        " is empty or unset",
                    ),
                ),
            )
        },
    }
}

/// An entry with its block.
pub open spec fn entry_of(t: RawTransformView) -> Result<TransformSpecView, Seq<char>> {
    match t.config {
        Ok(c) => Ok(TransformSpecView { name: t.name, config: c }),
        Err(e) => Err("transform config: "@ + e),
    }
}

/// The entries with their blocks, or the first error.
pub open spec fn entries_of(s: Seq<RawTransformView>) -> Result<Seq<TransformSpecView>, Seq<char>> {
    crate::config::all_of(s, |t: RawTransformView| entry_of(t))
}

fn entries(list: Vec<TransformSpecYaml>) -> (r: Result<Vec<TransformSpec>, LoadError>)
    ensures
        match r {
            Ok(v) => entries_of(raw_transform_views(list@)) == Ok::<
                Seq<TransformSpecView>,
                Seq<char>,
            >(transform_spec_views(v@)),
            Err(e) => entries_of(raw_transform_views(list@)) == Err::<
                Seq<TransformSpecView>,
                Seq<char>,
            >(e.0@),
        },
{
    let ghost s = raw_transform_views(list@);
    let ghost f = |t: RawTransformView| entry_of(t);
    let mut rest = list;
    let mut out: Vec<TransformSpec> = Vec::new();
    let n: usize = rest.len();
    let mut i: usize = 0;
    assert(transform_spec_views(out@) == Seq::<TransformSpecView>::empty());
    while i < n
        invariant
            i <= n,
            n == s.len(),
            s == raw_transform_views(list@),
            f == (|t: RawTransformView| entry_of(t)),
            rest@.len() == n - i,
            forall|j: int| 0 <= j < n - i ==> (#[trigger] rest@[j])@ == s[i + j],
            collected(s, f, i as int) == Ok::<Seq<TransformSpecView>, Seq<char>>(
                transform_spec_views(out@),
            ),
        decreases n - i,
    {
        assert(rest@[0]@ == s[i as int]);
        let t = rest.remove(0);
        match t.config {
            Ok(c) => {
                let ghost before = out@;
                let spec_entry = TransformSpec { name: t.name, config: c };
                let ghost sv = spec_entry@;
                out.push(spec_entry);
                assert(transform_spec_views(out@) == transform_spec_views(before).push(sv));
            },
            Err(e) => {
                proof {
                    first_error_counts(s, f, i + 1, s.len() as int);
                }
                return Err(LoadError(join2("transform config: ", e.as_str())));
            },
        }
        i += 1;
    }
    Ok(out)
}

/// The error of a listener that needs the signing certificate without one.
pub open spec fn missing_tls() -> Seq<char> {
    "tls.ca_cert and tls.ca_key are required when the HTTPS or tunnel listener is enabled"@
}

/// The configuration that is read, or why it is refused: the first of these that
/// holds counts.
pub open spec fn config_of(raw: RawView, env: Seq<(Seq<char>, String)>) -> Result<
    ConfigView,
    Seq<char>,
> {
    let listen = listen_of(raw);
    let deny = raw.proxy.upstream_deny_cidrs;
    match timeout_of(raw.proxy.upstream_response_header_timeout) {
        Err(e) => Err(e),
        Ok(timeout) => match dns_of(raw.dns) {
            Err(e) => Err(e),
            Ok(dns) => if (listen.https is Some || listen.tunnel is Some) && raw.tls is None {
                Err(missing_tls())
            } else if deny is Some && guard_of(deny.unwrap()) is Err {
                Err(guard_of(deny.unwrap())->Err_0)
            } else {
                match management_key_of(raw.management, env) {
                    Err(e) => Err(e),
                    Ok(key) => match entries_of(raw.transforms) {
                        Err(e) => Err(e),
                        Ok(specs) => match pipeline_of(specs, true) {
                            Err(e) => Err("config error: "@ + e),
                            Ok(_) => Ok(
                                ConfigView {
                                    listen,
                                    max_request_body_bytes: match raw.proxy.max_request_body_bytes {
                                        Some(n) => n,
                                        None => 1048576,
                                    },
                                    max_response_body_bytes: match raw.proxy.max_response_body_bytes {
                                        Some(n) => n,
                                        None => 0,
                                    },
                                    upstream_response_header_timeout: timeout,
                                    upstream_deny_cidrs: deny,
                                    management_api_key: key,
                                    log_level: or_text(raw.log_level, "info"@),
                                    transforms: specs,
                                    dns,
                                    tls: raw.tls,
                                    warnings: warnings_of(specs),
                                },
                            ),
                        },
                    },
                }
            },
        },
    }
}

/// Fills in the defaults and validates.
pub fn load(raw: RawConfig, env: &StrMap<String>) -> (r: Result<Config, LoadError>)
    ensures
        match r {
            Ok(c) => config_of(raw@, env@) == Ok::<ConfigView, Seq<char>>(c@),
            Err(e) => config_of(raw@, env@) == Err::<ConfigView, Seq<char>>(e.0@),
        },
{
    let listen = listen_keys(&raw);
    let timeout: u128 = match header_timeout(&raw.proxy.upstream_response_header_timeout) {
        Ok(n) => n,
        Err(e) => {
            return Err(LoadError(e));
        },
    };
    let log_level = match &raw.log {
        Some(l) => or_default(&l.level, "info"),
        None => "info".to_owned(),
    };
    let dns = match resolve_dns(raw.dns) {
        Ok(d) => d,
        Err(e) => {
            return Err(e);
        },
    };
    if (listen.https.is_some() || listen.tunnel.is_some()) && raw.tls.is_none() {
        return Err(
            LoadError(
                "tls.ca_cert and tls.ca_key are required when the HTTPS or tunnel listener is enabled".to_owned(),
            ),
        );
    }
    if let Some(cidrs) = &raw.proxy.upstream_deny_cidrs {
        if let Err(e) = Guard::new(cidrs) {
            return Err(LoadError(e));
        }
    }
    let key = match management_key(&raw.management, env) {
        Ok(k) => k,
        Err(e) => {
            return Err(e);
        },
    };
    let transforms = match entries(raw.transforms) {
        Ok(t) => t,
        Err(e) => {
            return Err(e);
        },
    };
    let built = match build_pipeline_with_resolver(&transforms, NoResolver) {
        Ok(b) => b,
        Err(e) => {
            return Err(LoadError(e.to_text()));
        },
    };
    Ok(
        Config {
            listen,
            max_request_body_bytes: match raw.proxy.max_request_body_bytes {
                Some(n) => n,
                None => 1048576,
            },
            max_response_body_bytes: match raw.proxy.max_response_body_bytes {
                Some(n) => n,
                None => 0,
            },
            upstream_response_header_timeout: timeout,
            upstream_deny_cidrs: raw.proxy.upstream_deny_cidrs,
            management_api_key: key,
            log_level,
            transforms,
            dns,
            tls: raw.tls,
            warnings: built.warnings,
        },
    )
}

// ---- Building the runtime -----------------------------------------------------------------------

/// The deny list of a configuration: the default set where nothing is said.
pub open spec fn deny_list_of(c: ConfigView) -> Result<Seq<DenyView>, Seq<char>> {
    match c.upstream_deny_cidrs {
        None => Ok(default_deny()),
        Some(v) => guard_of(v),
    }
}

/// Why no runtime can be built of a configuration, if so.
pub open spec fn build_error(c: ConfigView) -> Option<Seq<char>> {
    match pipeline_of(c.transforms, true) {
        Err(e) => Some("config error: "@ + e),
        Ok(_) => match deny_list_of(c) {
            Err(e) => Some(e),
            Ok(_) => None,
        },
    }
}

/// Builds the runtime of a configuration; secrets are resolved by `resolver`.
pub fn build_runtime<R: SecretResolver>(config: &Config, resolver: R) -> (r: Result<
    Runtime<R>,
    LoadError,
>)
    ensures
        match r {
            Ok(rt) => {
                &&& build_error(config@) is None
                &&& pipeline_of(config@.transforms, true) == Ok::<Seq<TransformView>, Seq<char>>(
                    rt.pipeline@,
                )
                &&& rt.pipeline.resolver_view() == resolver
                &&& deny_list_of(config@) == Ok::<Seq<DenyView>, Seq<char>>(rt.guard@)
                &&& rt.max_request_body_bytes == config@.max_request_body_bytes
                &&& rt.upstream_response_header_timeout
                    == config@.upstream_response_header_timeout
                &&& rt.dial_timeout == 30000
                &&& rt.tunnel_passthrough@.len() == 0
            },
            Err(e) => build_error(config@) == Some(e.0@),
        },
{
    let pipeline: Pipeline<R> = match build_pipeline_with_resolver(&config.transforms, resolver) {
        Ok(b) => b.pipeline,
        Err(e) => {
            return Err(LoadError(e.to_text()));
        },
    };
    let guard = match &config.upstream_deny_cidrs {
        None => Guard::default_set(),
        Some(cidrs) => match Guard::new(cidrs) {
            Ok(g) => g,
            Err(e) => {
                return Err(LoadError(e));
            },
        },
    };
    Ok(
        Runtime {
            pipeline,
            guard,
            max_request_body_bytes: config.max_request_body_bytes,
            upstream_response_header_timeout: config.upstream_response_header_timeout,
            dial_timeout: 30000,
            tunnel_passthrough: Vec::new(),
        },
    )
}

// ---- The DNS server ---------------------------------------------------------------------------

/// The first `n` records by their names; a later one of a name wins.
pub open spec fn records_upto(s: Seq<DnsRecordView>, n: int) -> Result<
    Seq<(Seq<char>, StaticView)>,
    Seq<char>,
>
    decreases n,
{
    if n <= 0 {
        Ok(Seq::<(Seq<char>, StaticView)>::empty())
    } else {
        match records_upto(s, n - 1) {
            Err(e) => Err(e),
            Ok(m) => match crate::resolve::record_of(s[n - 1].record_type, s[n - 1].value) {
                Err(e) => Err(e),
                Ok(x) => Ok(put(m, record_name(s[n - 1].name), x)),
            },
        }
    }
}

proof fn record_error_stays(s: Seq<DnsRecordView>, n: int, m: int)
    requires
        0 <= n <= m,
        records_upto(s, n) is Err,
    ensures
        records_upto(s, m) == records_upto(s, n),
    decreases m - n,
{
    if n < m {
        record_error_stays(s, n, m - 1);
    }
}

/// The static records of a configuration, by their views.
pub open spec fn static_views(m: Seq<(Seq<char>, StaticRecord)>) -> Seq<(Seq<char>, StaticView)> {
    mapped(m, |r: StaticRecord| r@)
}

fn static_records(v: &Vec<DnsRecord>) -> (r: Result<StrMap<StaticRecord>, String>)
    ensures
        match r {
            Ok(m) => records_upto(dns_record_views(v@), v@.len() as int) == Ok::<
                Seq<(Seq<char>, StaticView)>,
                Seq<char>,
            >(static_views(m@)),
            Err(e) => records_upto(dns_record_views(v@), v@.len() as int) == Err::<
                Seq<(Seq<char>, StaticView)>,
                Seq<char>,
            >(e@),
        },
{
    let ghost s = dns_record_views(v@);
    let ghost f = |r: StaticRecord| r@;
    let mut m: StrMap<StaticRecord> = StrMap::new();
    let mut i: usize = 0;
    assert(static_views(m@) == Seq::<(Seq<char>, StaticView)>::empty());
    while i < v.len()
        invariant
            i <= v@.len(),
            s == dns_record_views(v@),
            f == (|r: StaticRecord| r@),
            records_upto(s, i as int) == Ok::<Seq<(Seq<char>, StaticView)>, Seq<char>>(
                static_views(m@),
            ),
        decreases v@.len() - i,
    {
        assert(s[i as int] == v@[i as int]@);
        match parse_record(v[i].record_type.as_str(), v[i].value.as_str()) {
            Ok(x) => {
                let name = crate::wire::lookup_name(v[i].name.as_str());
                proof {
                    mapping_commutes(m@, f, name@, x);
                }
                m.insert(name, x);
            },
            Err(e) => {
                proof {
                    record_error_stays(s, i + 1, s.len() as int);
                }
                return Err(e);
            },
        }
        i += 1;
    }
    Ok(m)
}

fn zones(v: &Vec<String>) -> (r: Result<Vec<DomainGlob>, String>)
    ensures
        match r {
            Ok(g) => crate::config::all_of(
                texts(v@),
                |s: Seq<char>| crate::config::domain_of(s),
            ) == Ok::<Seq<crate::matcher::DomainGlobView>, Seq<char>>(
                crate::transforms::glob_views(g@),
            ),
            Err(e) => crate::config::all_of(
                texts(v@),
                |s: Seq<char>| crate::config::domain_of(s),
            ) == Err::<Seq<crate::matcher::DomainGlobView>, Seq<char>>(e@),
        },
{
    let ghost s = texts(v@);
    let ghost f = |s: Seq<char>| crate::config::domain_of(s);
    let mut out: Vec<DomainGlob> = Vec::new();
    let mut i: usize = 0;
    assert(crate::transforms::glob_views(out@) == Seq::<crate::matcher::DomainGlobView>::empty());
    while i < v.len()
        invariant
            i <= v@.len(),
            s == texts(v@),
            f == (|s: Seq<char>| crate::config::domain_of(s)),
            collected(s, f, i as int) == Ok::<Seq<crate::matcher::DomainGlobView>, Seq<char>>(
                crate::transforms::glob_views(out@),
            ),
        decreases v@.len() - i,
    {
        assert(s[i as int] == v@[i as int]@);
        match DomainGlob::parse(v[i].as_str()) {
            Ok(g) => {
                let ghost before = out@;
                let ghost gv = g@;
                out.push(g);
                assert(crate::transforms::glob_views(out@) == crate::transforms::glob_views(
                    before,
                ).push(gv));
            },
            Err(e) => {
                proof {
                    first_error_counts(s, f, i + 1, s.len() as int);
                }
                return Err(e.to_text());
            },
        }
        i += 1;
    }
    Ok(out)
}

/// Why no DNS server can be set up, if so: a bad record, then a bad zone.
pub open spec fn dns_error(d: DnsResolvedView) -> Option<Seq<char>> {
    match records_upto(d.records, d.records.len() as int) {
        Err(e) => Some(e),
        Ok(_) => match crate::config::all_of(
            d.passthrough,
            |s: Seq<char>| crate::config::domain_of(s),
        ) {
            Err(e) => Some(e),
            Ok(_) => None,
        },
    }
}

/// Sets up the DNS server. Its answers are good for a minute.
pub fn dns_config(d: &DnsResolved) -> (r: Result<DnsConfig, String>)
    ensures
        match r {
            Ok(c) => {
                &&& dns_error(d@) is None
                &&& c.proxy_ip == d@.proxy_ip
                &&& c.ttl == 60
                &&& records_upto(d@.records, d@.records.len() as int) == Ok::<
                    Seq<(Seq<char>, StaticView)>,
                    Seq<char>,
                >(static_views(c.records@))
                &&& crate::config::all_of(
                    d@.passthrough,
                    |s: Seq<char>| crate::config::domain_of(s),
                ) == Ok::<Seq<crate::matcher::DomainGlobView>, Seq<char>>(
                    crate::transforms::glob_views(c.passthrough@),
                )
            },
            Err(e) => dns_error(d@) == Some(e@),
        },
{
    let records = match static_records(&d.records) {
        Ok(m) => m,
        Err(e) => {
            return Err(e);
        },
    };
    let passthrough = match zones(&d.passthrough) {
        Ok(z) => z,
        Err(e) => {
            return Err(e);
        },
    };
    Ok(DnsConfig { proxy_ip: d.proxy_ip, passthrough, records, ttl: 60 })
}

/// The socket address of a `listen` key: one without a host is every address of
/// the machine.
pub open spec fn listen_address(key: Seq<char>) -> Seq<char> {
    if key.len() > 0 && key[0] == ':' {
        "0.0.0.0"@ + key
    } else {
        key
    }
}

pub fn listen_addr(key: &str) -> (r: String)
    ensures
        r@ == listen_address(key@),
{
    let c = chars_of(key);
    if c.len() > 0 && c[0] == ':' {
        join2("0.0.0.0", key)
    } else {
        key.to_owned()
    }
}

// ---- Laws ---------------------------------------------------------------------------------------

/// What is accepted at boot can be run: a configuration that was read has a
/// runtime.
pub proof fn loaded_config_builds(raw: RawView, env: Seq<(Seq<char>, String)>)
    requires
        config_of(raw, env) is Ok,
    ensures
        build_error(config_of(raw, env)->Ok_0) is None,
{
}

/// A configuration that was read is complete: a listener that terminates TLS has
/// a signing certificate, the management interface has a key that is not empty,
/// the DNS server has its settings, and there is an allowlist in the pipeline.
pub proof fn loaded_config_is_complete(raw: RawView, env: Seq<(Seq<char>, String)>)
    requires
        config_of(raw, env) is Ok,
    ensures
        ({
            let c = config_of(raw, env)->Ok_0;
            &&& c.listen.https is Some || c.listen.tunnel is Some ==> c.tls is Some
            &&& c.listen.management is Some ==> (c.management_api_key matches Some(k) && k.len() > 0)
            &&& c.listen.dns is Some <==> c.dns is Some
            &&& exists|i: int|
                0 <= i < c.transforms.len() && (#[trigger] c.transforms[i]).name == "allowlist"@
        }),
{
    let c = config_of(raw, env)->Ok_0;
    crate::config::every_pipeline_has_an_allowlist(c.transforms, true);
}

/// A deny list that is not given is the default set; one given as empty denies
/// nothing.
pub proof fn absent_and_empty_deny_lists_differ(c: ConfigView)
    ensures
        c.upstream_deny_cidrs is None ==> deny_list_of(c) == Ok::<Seq<DenyView>, Seq<char>>(
            default_deny(),
        ),
        c.upstream_deny_cidrs == Some(Seq::<Seq<char>>::empty()) ==> deny_list_of(c) == Ok::<
            Seq<DenyView>,
            Seq<char>,
        >(Seq::empty()),
{
}

} // verus!
