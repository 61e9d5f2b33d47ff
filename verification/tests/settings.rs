//! Configuration: defaults, overrides from the environment, validation, reload.
use hematite::config::{AllowlistConfig, HeaderAllowlistConfig, TransformConfig};
use hematite::management::{constant_time_eq, reload, route, ManagementStep, ReloadInput};
use hematite::metrics::Metrics;
use hematite::pipeline::Outcome;
use hematite::secret::NoResolver;
use hematite::settings::{
    build_runtime, dns_config, listen_addr, load, Config, DnsRecord, DnsSection, ListenKeys,
    LoadError, LogSection, ManagementSection, ProxySection, RawConfig, TlsSection,
    TransformSpecYaml,
};
use hematite::state::Runtime;
use hematite::strmap::StrMap;
use hematite::summary::{Body, Headers, Mode, RequestSummary};
use hematite::yaml::{apply_env_overrides, env_name, read_document, settle_document};

fn proxy() -> ProxySection {
    ProxySection {
        http_listen: None,
        https_listen: None,
        tunnel_listen: None,
        max_request_body_bytes: None,
        max_response_body_bytes: None,
        upstream_response_header_timeout: None,
        upstream_deny_cidrs: None,
        http_proxy: None,
        https_proxy: None,
        no_proxy: None,
    }
}

fn allow(domains: &[&str]) -> TransformSpecYaml {
    TransformSpecYaml {
        name: "allowlist".into(),
        config: Ok(TransformConfig::Allowlist(AllowlistConfig {
            domains: domains.iter().map(|s| s.to_string()).collect(),
            cidrs: vec![],
            warn: false,
        })),
    }
}

fn accept_only() -> TransformSpecYaml {
    TransformSpecYaml {
        name: "header_allowlist".into(),
        config: Ok(TransformConfig::HeaderAllowlist(HeaderAllowlistConfig {
            headers: vec!["Accept".into()],
            rules: None,
        })),
    }
}

fn minimal() -> RawConfig {
    RawConfig {
        dns: None,
        proxy: proxy(),
        tls: None,
        transforms: vec![allow(&["api.example.com"])],
        management: None,
        log: None,
    }
}

fn no_env() -> StrMap<String> {
    StrMap::new()
}

fn env_of(name: &str, value: &str) -> StrMap<String> {
    let mut env = StrMap::new();
    env.insert(name.into(), value.into());
    env
}

#[test]
fn defaults_applied() {
    let config = load(minimal(), &no_env()).expect("minimal config loads");
    assert_eq!(config.listen.http, ":80");
    assert_eq!(config.max_request_body_bytes, 1 << 20);
    assert_eq!(config.max_response_body_bytes, 0);
    assert_eq!(config.upstream_response_header_timeout, 30_000);
    assert_eq!(config.log_level, "info");
    assert!(config.upstream_deny_cidrs.is_none(), "absent = default deny set");
    assert!(config.warnings.is_empty());
}

#[test]
fn env_override_applies() {
    let env = env_of("HEMATITE_PROXY_HTTP_LISTEN", ":8080");
    let doc = read_document("transforms: []\n", &env).expect("document reads");
    assert_eq!(doc["proxy"]["http_listen"].as_str(), Some(":8080"));
}

#[test]
fn missing_allowlist_rejected() {
    let mut raw = minimal();
    raw.transforms = vec![accept_only()];
    assert!(load(raw, &no_env()).is_err());
}

#[test]
fn explicit_empty_deny_cidrs_differs_from_absent() {
    let mut raw = minimal();
    raw.proxy.upstream_deny_cidrs = Some(vec![]);
    let config = load(raw, &no_env()).expect("config loads");
    assert_eq!(config.upstream_deny_cidrs, Some(vec![]), "explicit [] disables the guard");
    let loopback = hematite::ip::IpAddr::parse("127.0.0.1").unwrap();
    let open = build_runtime(&config, NoResolver).unwrap();
    assert!(open.guard.check(loopback).is_ok());
    let default = build_runtime(&load(minimal(), &no_env()).unwrap(), NoResolver).unwrap();
    assert!(default.guard.check(loopback).is_err());
    assert_eq!(default.dial_timeout, 30_000);
}

#[test]
fn bare_ip_deny_cidr_rejected() {
    let mut raw = minimal();
    raw.proxy.upstream_deny_cidrs = Some(vec!["10.0.0.1".into()]);
    assert!(load(raw, &no_env()).is_err(), "prefix lengths are required");
}

fn managed() -> RawConfig {
    let mut raw = minimal();
    raw.management =
        Some(ManagementSection { listen: "127.0.0.1:9092".into(), api_key_env: None });
    raw
}

#[test]
fn management_requires_api_key_env() {
    assert_eq!(
        load(managed(), &no_env()).unwrap_err().to_text(),
        "management.listen is set but env var \"HEMATITE_MANAGEMENT_API_KEY\" is empty or unset"
    );
    assert!(load(managed(), &env_of("HEMATITE_MANAGEMENT_API_KEY", "")).is_err());
    let config = load(managed(), &env_of("HEMATITE_MANAGEMENT_API_KEY", "tok"))
        .expect("config loads with key set");
    assert_eq!(config.management_api_key.as_deref(), Some("tok"));
}

fn dns_section() -> DnsSection {
    DnsSection {
        enabled: true,
        listen: None,
        proxy_ip: None,
        upstream_resolver: None,
        passthrough: vec![],
        records: vec![],
    }
}

#[test]
fn dns_enabled_requires_proxy_ip() {
    let mut raw = minimal();
    raw.dns = Some(dns_section());
    assert_eq!(
        load(raw, &no_env()).unwrap_err().0,
        "dns.proxy_ip is required when DNS is enabled"
    );
    let mut raw = minimal();
    let mut dns = dns_section();
    dns.proxy_ip = Some("172.20.0.2".into());
    raw.dns = Some(dns);
    let config = load(raw, &no_env()).expect("config loads");
    assert!(config.dns.is_some(), "dns settings resolved");
    assert_eq!(config.listen.dns.as_deref(), Some(":53"));
    assert_eq!(config.dns.unwrap().proxy_ip, 0xac14_0002);
}

#[test]
fn tls_required_when_https_listener_enabled() {
    let mut raw = minimal();
    raw.proxy.https_listen = Some(":443".into());
    assert_eq!(
        load(raw, &no_env()).unwrap_err().0,
        "tls.ca_cert and tls.ca_key are required when the HTTPS or tunnel listener is enabled"
    );
    let mut raw = minimal();
    raw.proxy.https_listen = Some(":443".into());
    raw.proxy.tunnel_listen = Some(":8443".into());
    raw.tls = Some(TlsSection {
        ca_cert: "ca.pem".into(),
        ca_key: "ca.key".into(),
        cert_cache_size: None,
        leaf_cert_expiry_hours: None,
    });
    let config = load(raw, &no_env()).expect("config loads");
    assert!(config.warnings.is_empty(), "both listeners are served");
    let tls = config.tls.unwrap();
    assert_eq!((tls.cache_size(), tls.expiry_hours()), (1000, 72));
}

#[test]
fn ordering_lint_surfaces_as_warning() {
    let mut raw = minimal();
    raw.transforms = vec![accept_only(), allow(&["api.example.com"])];
    let config = load(raw, &no_env()).expect("config loads");
    assert!(config.warnings.iter().any(|w| w.contains("not first")));
}

#[test]
fn every_refusal_is_told() {
    let mut raw = minimal();
    raw.proxy.upstream_response_header_timeout = Some("1h".into());
    assert_eq!(load(raw, &no_env()).unwrap_err().0, "invalid duration unit: \"1h\"");
    let mut raw = minimal();
    let mut dns = dns_section();
    dns.proxy_ip = Some("::1".into());
    raw.dns = Some(dns);
    assert_eq!(load(raw, &no_env()).unwrap_err().0, "dns.proxy_ip must be IPv4: \"::1\"");
    let mut raw = minimal();
    let mut dns = dns_section();
    dns.proxy_ip = Some("10.0.0.1".into());
    dns.records = vec![DnsRecord {
        name: "a".into(),
        record_type: "TXT".into(),
        value: "x".into(),
    }];
    raw.dns = Some(dns);
    assert_eq!(load(raw, &no_env()).unwrap_err().0, "dns record type \"TXT\" is not A or CNAME");
    let mut raw = minimal();
    raw.transforms.push(TransformSpecYaml {
        name: "annotate".into(),
        config: Err("no JSON".into()),
    });
    assert_eq!(load(raw, &no_env()).unwrap_err().0, "transform config: no JSON");
    let mut raw = minimal();
    raw.transforms = vec![];
    raw.log = Some(LogSection { level: Some("debug".into()) });
    assert_eq!(
        load(raw, &no_env()).unwrap_err().0,
        "config error: no allowlist transform: default-deny is structural"
    );
}

#[test]
fn the_dns_server_is_set_up() {
    let mut raw = minimal();
    let mut dns = dns_section();
    dns.proxy_ip = Some("10.0.0.1".into());
    dns.passthrough = vec!["*.internal".into()];
    dns.records = vec![
        DnsRecord { name: "DB.internal.".into(), record_type: "A".into(), value: "10.0.0.9".into() },
        DnsRecord { name: "db.internal".into(), record_type: "A".into(), value: "10.0.0.8".into() },
    ];
    raw.dns = Some(dns);
    let mut d = load(raw, &no_env()).unwrap().dns.unwrap();
    let config = dns_config(&d).unwrap();
    assert_eq!((config.ttl, config.records.len(), config.passthrough.len()), (60, 1, 1));
    assert!(matches!(
        config.records.get("db.internal"),
        Some(hematite::resolve::StaticRecord::A(0x0a00_0008))
    ));
    d.passthrough = vec!["a.*".into()];
    assert!(dns_config(&d).is_err());
    d.records[0].value = "x".into();
    assert_eq!(dns_config(&d).err().unwrap(), "bad A value \"x\"");
}

#[test]
fn listen_keys_become_addresses() {
    assert_eq!(listen_addr(":80"), "0.0.0.0:80");
    assert_eq!(listen_addr("127.0.0.1:9092"), "127.0.0.1:9092");
}

#[test]
fn scalars_from_the_environment_keep_their_types() {
    assert_eq!(env_name("proxy", "http_listen"), "HEMATITE_PROXY_HTTP_LISTEN");
    let mut env = env_of("HEMATITE_DNS_ENABLED", "false");
    env.insert("HEMATITE_TLS_CERT_CACHE_SIZE".into(), "64".into());
    env.insert("HEMATITE_LOG_LEVEL".into(), "debug".into());
    let doc = read_document("dns: {enabled: true, listen: ':53'}\nlog: off-the-books\n", &env).unwrap();
    assert_eq!(doc["dns"]["enabled"].as_bool(), Some(false));
    assert_eq!(doc["dns"]["listen"].as_str(), Some(":53"));
    assert_eq!(doc["tls"]["cert_cache_size"].as_u64(), Some(64));
    assert_eq!(doc["log"].as_str(), Some("off-the-books"), "no mapping, left as it is");
    let null = settle_document(serde_yaml::Value::Null, &env);
    assert_eq!(null["log"]["level"].as_str(), Some("debug"));
    let list = serde_yaml::Value::Sequence(vec![]);
    assert_eq!(apply_env_overrides(list.clone(), &env), list);
    assert!(read_document("a: [", &env).unwrap_err().starts_with("YAML parse error: "));
}

// ---- Management -------------------------------------------------------------------------

fn summary(host: &str) -> RequestSummary {
    RequestSummary {
        mode: Mode::Http,
        method: "GET".into(),
        host: host.into(),
        port: 80,
        path: "/".into(),
        query: String::new(),
        headers: Headers::new(vec![]),
        body: Body::new(vec![], false),
        sni: None,
        remote_addr: None,
    }
}

fn allows(runtime: &Runtime<NoResolver>, host: &str) -> bool {
    let mut req = summary(host);
    matches!(runtime.pipeline.evaluate_request(&mut req).outcome, Outcome::Continue(_))
}

fn config_for(domain: &str, http_listen: Option<&str>) -> Result<Config, LoadError> {
    let mut raw = minimal();
    raw.transforms = vec![allow(&[domain])];
    raw.proxy.http_listen = http_listen.map(String::from);
    load(raw, &no_env())
}

fn read_again(
    config: Result<Config, LoadError>,
    listen: &ListenKeys,
    state: &mut Runtime<NoResolver>,
    metrics: &mut Metrics,
) -> (u16, String) {
    let input = match config {
        Ok(c) => ReloadInput::Loaded(c),
        Err(e) => ReloadInput::Refused(e),
    };
    let (status, message, runtime) = reload(input, listen, metrics, NoResolver);
    if let Some(r) = runtime {
        *state = r;
    }
    (status, message)
}

#[test]
fn reload_swaps_rejects_and_survives() {
    let config = config_for("one.example", None).unwrap();
    let mut metrics = Metrics::new("test");
    let mut state = build_runtime(&config, NoResolver).unwrap();
    assert!(allows(&state, "one.example"));
    assert!(!allows(&state, "two.example"));

    // Valid new config → 200, swapped.
    let (status, message) =
        read_again(config_for("two.example", None), &config.listen, &mut state, &mut metrics);
    assert_eq!((status, message.as_str()), (200, "reloaded"));
    assert!(allows(&state, "two.example"));
    assert!(!allows(&state, "one.example"));

    // Invalid new config → 422; the old (v2) config keeps serving.
    let mut broken = minimal();
    broken.transforms = vec![allow(&[])];
    let (status, message) =
        read_again(load(broken, &no_env()), &config.listen, &mut state, &mut metrics);
    assert_eq!(status, 422, "{message}");
    assert!(allows(&state, "two.example"), "fail-closed: surviving config untouched");

    // Changed listener address → 422.
    let (status, message) = read_again(
        config_for("two.example", Some(":8081")),
        &config.listen,
        &mut state,
        &mut metrics,
    );
    assert_eq!(status, 422, "{message}");
    assert!(message.contains("not reloadable"));

    // Unreadable file → 500.
    let (status, message, runtime) = reload(
        ReloadInput::Unreadable("gone".into()),
        &config.listen,
        &mut metrics,
        NoResolver,
    );
    assert_eq!((status, message.as_str()), (500, "cannot read config: gone"));
    assert!(runtime.is_none());
    let out = metrics.render(&StrMap::new());
    assert!(out.contains(r#"hematite_config_reloads_total{result="ok"} 1"#));
    assert!(out.contains(r#"hematite_config_reloads_total{result="error"} 3"#));
}

#[test]
fn a_config_built_by_hand_can_still_be_refused() {
    let mut config = config_for("one.example", None).unwrap();
    config.upstream_deny_cidrs = Some(vec!["nonsense".into()]);
    assert!(build_runtime(&config, NoResolver).is_err());
    config.transforms = vec![];
    assert!(build_runtime(&config, NoResolver).err().unwrap().0.starts_with("config error: "));
}

fn status_of(step: ManagementStep) -> (u16, String) {
    match step {
        ManagementStep::Respond { status, body } => (status, body),
        ManagementStep::Metrics => (200, "metrics".into()),
        ManagementStep::Reload => (200, "reload".into()),
    }
}

#[test]
fn metrics_are_open_and_reload_is_not() {
    let bearer = |t: &str| Some(format!("Bearer {t}"));
    let go = |method: &str, path: &str, auth: Option<String>, enabled: bool| {
        status_of(route(method, path, &auth, "secret-key", enabled))
    };
    assert_eq!(go("GET", "/metrics", None, true), (200, "metrics".into()));
    assert_eq!(go("GET", "/metrics", None, false), (404, "not found".into()));
    assert_eq!(go("POST", "/metrics", bearer("secret-key"), true), (404, "not found".into()));
    assert_eq!(go("POST", "/v1/reload", None, true), (401, "unauthorized".into()));
    assert_eq!(go("POST", "/v1/reload", bearer("secret-kex"), true).0, 401);
    assert_eq!(go("POST", "/v1/reload", Some("secret-key".into()), true).0, 401);
    assert_eq!(go("POST", "/v1/reload", bearer("secret-key"), true), (200, "reload".into()));
    assert_eq!(go("GET", "/v1/reload", bearer("secret-key"), true).0, 404);
}

#[test]
fn keys_are_compared_whole() {
    assert!(constant_time_eq(b"abc", b"abc"));
    assert!(constant_time_eq(b"", b""));
    assert!(!constant_time_eq(b"abc", b"abd"));
    assert!(!constant_time_eq(b"abc", b"abc\0"));
    assert!(!constant_time_eq(b"", b"\0"));
}
