//! The cache of resolved secrets, driven by a clock of the test's own.
use hematite::resolver::{
    apply_json_key, cache_key, json_field, read_value, CachePlan, EnvFileResolver, JsonField,
    RawRead,
};
use hematite::secret::{ResolveError, Secret, SourceKind, SourceRef};

fn file_source(path: &str, ttl: Option<u128>, failure_ttl: Option<u128>) -> SourceRef {
    SourceRef { kind: SourceKind::File { path: path.into() }, json_key: None, ttl, failure_ttl }
}

fn secret(s: &str) -> Secret {
    Secret::new(s.as_bytes().to_vec())
}

/// Resolves a source that holds `raw`; tells whether it was read.
fn resolve(
    cache: &mut EnvFileResolver,
    source: &SourceRef,
    now: u64,
    raw: RawRead,
) -> (Result<Secret, ResolveError>, bool) {
    let mut read = false;
    let r = cache.resolve(source, now, || {
        read = true;
        raw
    });
    (r, read)
}

fn gone() -> RawRead {
    RawRead::File(Err("No such file".into()))
}

#[test]
fn file_ttl_refresh_failure_and_stale_serve() {
    let mut cache = EnvFileResolver::new();
    let src = file_source("/tok", Some(10_000), Some(5_000));
    let (r, read) = resolve(&mut cache, &src, 0, RawRead::File(Ok(secret("v1"))));
    assert!(r.is_ok() && read, "initial read");
    let (r, read) = resolve(&mut cache, &src, 5_000, RawRead::File(Ok(secret("v2"))));
    assert!(r.is_ok() && !read, "cached within ttl");
    let (r, read) = resolve(&mut cache, &src, 11_000, RawRead::File(Ok(secret("v2"))));
    assert!(r.is_ok() && read, "refresh after ttl");
    let (r, read) = resolve(&mut cache, &src, 22_000, gone());
    assert!(r.is_ok() && read, "stale-serve on refresh failure");
    let (_, read) = resolve(&mut cache, &src, 26_000, gone());
    assert!(!read, "the next attempt waits for half the lifetime");
    let (_, read) = resolve(&mut cache, &src, 27_000, gone());
    assert!(read);
}

#[test]
fn json_keys_from_one_file_do_not_share_a_cache_entry() {
    let mut cache = EnvFileResolver::new();
    let content = r#"{"service_a": "ka"}"#;
    let mut src_a = file_source("/creds.json", None, None);
    src_a.json_key = Some("service_a".into());
    let mut src_b = file_source("/creds.json", None, None);
    src_b.json_key = Some("service_b".into());
    let (a, _) = resolve(&mut cache, &src_a, 0, RawRead::File(Ok(secret(content))));
    assert!(a.is_ok(), "service_a resolves");
    let (b, _) = resolve(&mut cache, &src_b, 0, RawRead::File(Ok(secret(content))));
    assert_eq!(
        b.err().expect("service_b must not receive service_a's cached value").reason,
        "json_key \"service_b\" missing or not a string"
    );
}

#[test]
fn env_and_file_sources_with_the_same_name_stay_distinct() {
    let name = "/no/such/hematite/dir/HEMATITE_SAME_NAME_TOKEN";
    let mut cache = EnvFileResolver::new();
    let env_src = SourceRef {
        kind: SourceKind::Env { var: name.into() },
        json_key: None,
        ttl: None,
        failure_ttl: None,
    };
    let file_src = file_source(name, None, None);
    let (r, _) = resolve(&mut cache, &env_src, 0, RawRead::Env(Some(secret("env-value"))));
    assert!(r.is_ok(), "env resolves");
    let (r, _) = resolve(&mut cache, &file_src, 0, gone());
    assert!(r.is_err(), "the env value must not be served for the file");
    assert_ne!(cache_key(&env_src), cache_key(&file_src));
}

#[test]
fn failure_is_cached_then_retried() {
    let mut cache = EnvFileResolver::new();
    let missing = file_source("/no/such/hematite/file", None, Some(5_000));
    let (r, read) = resolve(&mut cache, &missing, 0, gone());
    assert_eq!(r.err().unwrap().reason, "cannot read file: No such file");
    assert!(read, "initial failure");
    let (r, read) = resolve(&mut cache, &missing, 3_000, gone());
    assert_eq!(r.err().unwrap().reason, "cached failure");
    assert!(!read);
    let (r, read) = resolve(&mut cache, &missing, 6_000, gone());
    assert!(r.is_err() && read, "retry after failure_ttl");
}

#[test]
fn an_empty_variable_is_no_value() {
    let src = SourceRef {
        kind: SourceKind::Env { var: "X".into() },
        json_key: None,
        ttl: None,
        failure_ttl: None,
    };
    for raw in [RawRead::Env(None), RawRead::Env(Some(secret("")))] {
        assert_eq!(read_value(raw, &src).err().unwrap(), "env var unset or empty");
    }
    assert_eq!(src.name(), "X");
    let e = ResolveError { source: src, reason: "down".into() };
    assert!(e.to_text().contains("\"X\"") && e.to_text().contains("down"));
}

#[test]
fn fields_of_json_values() {
    assert!(matches!(json_field(b"{", "k"), JsonField::NotJson));
    assert!(matches!(json_field(b"{\"k\": 1}", "k"), JsonField::Missing));
    assert!(matches!(json_field(b"{}", "k"), JsonField::Missing));
    match json_field("{\"k\": \"v\u{e9}\"}".as_bytes(), "k") {
        JsonField::Text(t) => assert_eq!(t, "v\u{e9}"),
        _ => panic!("expected a text"),
    }
    let mut src = file_source("/f", None, None);
    src.json_key = Some("k".into());
    assert_eq!(apply_json_key(secret("x"), &src).err().unwrap().reason, "value is not JSON");
}

#[test]
fn a_variable_is_kept_for_good() {
    let mut cache = EnvFileResolver::new();
    let src = SourceRef {
        kind: SourceKind::Env { var: "TOKEN".into() },
        json_key: None,
        ttl: Some(10_000),
        failure_ttl: None,
    };
    let (r, read) = resolve(&mut cache, &src, 0, RawRead::Env(Some(secret("v1"))));
    assert!(r.is_ok() && read);
    let (r, read) = resolve(&mut cache, &src, 11_000, RawRead::Env(Some(secret("v2"))));
    assert!(r.is_ok() && !read, "whatever lifetime the source gives");
}

#[test]
fn what_is_kept_is_told_before_a_read() {
    let mut cache = EnvFileResolver::new();
    let src = file_source("/tok", Some(10_000), None);
    assert!(matches!(cache.plan(&src, 0), CachePlan::Read));
    assert!(cache.complete(&src, 0, Err("down".into())).is_err());
    assert!(matches!(cache.plan(&src, 59_999), CachePlan::Refuse(_)));
    assert!(cache.complete(&src, 60_000, Ok(secret("v1"))).is_ok());
    assert!(matches!(cache.plan(&src, 69_999), CachePlan::Serve(_)));
    assert!(matches!(cache.plan(&src, 70_000), CachePlan::Read));
}

#[test]
fn a_lifetime_may_be_longer_than_any_clock() {
    let mut cache = EnvFileResolver::new();
    let src = file_source("/tok", Some(1 << 64), Some(1 << 64));
    let (r, read) = resolve(&mut cache, &src, 0, RawRead::File(Ok(secret("v1"))));
    assert!(r.is_ok() && read);
    let (r, read) = resolve(&mut cache, &src, u64::MAX, gone());
    assert!(r.is_ok() && !read);
}
