//! Swapping secrets into requests.
use hematite::config::{
    build_pipeline, build_pipeline_with_resolver, AllowlistConfig, BodyCaptureConfig, RuleSpec,
    SecretEntry, SecretsConfig, SourceSpec, TransformConfig, TransformSpec,
};
use hematite::pipeline::{Outcome, PipelineOutcome};
use hematite::secret::{ResolveError, Secret, SecretResolver, SourceRef};
use hematite::summary::{Body, Headers, Mode, RequestSummary};
use hematite::verdict::{Annotation, TraceVerdict};

struct OneSecret(Option<&'static str>);

impl SecretResolver for OneSecret {
    fn resolve(&self, source: &SourceRef) -> Result<Secret, ResolveError> {
        match self.0 {
            Some(v) => Ok(Secret::new(v.as_bytes().to_vec())),
            None => Err(ResolveError { source: source.copy(), reason: "down".into() }),
        }
    }
}

fn entry() -> SecretEntry {
    SecretEntry {
        source: SourceSpec::Env { var: "OPENAI_KEY".into(), json_key: None },
        proxy_value: "proxy-tok".into(),
        match_headers: Some(vec!["Authorization".into()]),
        match_query: false,
        match_path: false,
        match_body: false,
        require: false,
        rules: vec![RuleSpec { host: "api.example.com".into(), methods: None, paths: None }],
    }
}

fn specs(secret: SecretEntry) -> Vec<TransformSpec> {
    vec![
        TransformSpec {
            name: "allowlist".into(),
            config: TransformConfig::Allowlist(AllowlistConfig {
                domains: vec!["api.example.com".into()],
                cidrs: vec![],
                warn: false,
            }),
        },
        TransformSpec {
            name: "secrets".into(),
            config: TransformConfig::Secrets(SecretsConfig { secrets: vec![secret] }),
        },
    ]
}

fn request(headers: Vec<(&str, &str)>, query: &str, path: &str, body: &str) -> RequestSummary {
    RequestSummary {
        mode: Mode::Https,
        method: "POST".into(),
        host: "api.example.com".into(),
        port: 443,
        path: path.into(),
        query: query.into(),
        headers: Headers::new(
            headers.into_iter().map(|(n, v)| (n.to_string(), v.to_string())).collect(),
        ),
        body: Body::new(body.as_bytes().to_vec(), false),
        sni: None,
        remote_addr: None,
    }
}

fn run(secret: SecretEntry, value: Option<&'static str>, req: &mut RequestSummary) -> PipelineOutcome {
    build_pipeline_with_resolver(&specs(secret), OneSecret(value))
        .unwrap()
        .pipeline
        .evaluate_request(req)
}

#[test]
fn a_token_in_a_header_is_swapped() {
    let mut req = request(vec![("Authorization", "Bearer proxy-tok")], "", "/", "");
    let outcome = run(entry(), Some("sk-real"), &mut req);
    assert!(matches!(outcome.outcome, Outcome::Continue(_)));
    assert_eq!(req.headers.first("authorization"), Some("Bearer sk-real"));
    match outcome.request_traces[1].annotations.get("swapped") {
        Some(Annotation::Swaps(v)) => {
            assert_eq!(v.len(), 1);
            assert_eq!(v[0].secret, "OPENAI_KEY");
            assert_eq!(v[0].locations, vec!["header:Authorization"]);
        }
        _ => panic!("expected a swap"),
    }
}

#[test]
fn a_token_in_basic_credentials_is_swapped() {
    let mut req = request(vec![("Authorization", "Basic cHJveHktdG9rOng=")], "", "/", "");
    run(entry(), Some("sk-real"), &mut req);
    assert_eq!(req.headers.first("authorization"), Some("Basic c2stcmVhbDp4"));
}

#[test]
fn query_path_and_body_are_swapped_where_asked() {
    let mut secret = entry();
    secret.match_headers = Some(vec![]);
    secret.match_query = true;
    secret.match_path = true;
    secret.match_body = true;
    let mut req = request(vec![], "key=proxy-tok&x=1", "/k/proxy-tok", "t=proxy-tok");
    let outcome = run(secret, Some("a/b"), &mut req);
    assert_eq!(req.query, "key=a%2Fb&x=1");
    assert_eq!(req.path, "/k/a%2Fb");
    assert_eq!(req.body.read(), b"t=a/b");
    assert_eq!(outcome.request_path, "/k/proxy-tok", "the record keeps the client's path");
}

#[test]
fn a_required_secret_that_is_missing_rejects() {
    let mut secret = entry();
    secret.require = true;
    let mut req = request(vec![("Accept", "*/*")], "", "/", "");
    let outcome = run(secret, Some("sk-real"), &mut req);
    assert!(matches!(outcome.outcome, Outcome::Reject { .. }));
    assert_eq!(outcome.request_traces[1].verdict, TraceVerdict::Reject);
}

#[test]
fn an_unavailable_source_is_noted() {
    let mut req = request(vec![("Authorization", "Bearer proxy-tok")], "", "/", "");
    let outcome = run(entry(), None, &mut req);
    assert_eq!(req.headers.first("authorization"), Some("Bearer proxy-tok"));
    match outcome.request_traces[1].annotations.get("secret_unavailable") {
        Some(Annotation::Texts(v)) => assert_eq!(*v, vec!["OPENAI_KEY".to_string()]),
        _ => panic!("expected a note"),
    }
}

#[test]
fn a_body_over_the_cap_cannot_be_swapped() {
    let mut secret = entry();
    secret.match_headers = Some(vec![]);
    secret.match_body = true;
    let mut req = request(vec![], "", "/", "");
    req.body = Body::new(b"proxy-tok".to_vec(), true);
    match run(secret, Some("sk-real"), &mut req).outcome {
        Outcome::Error { by, message } => {
            assert_eq!(by, "secrets");
            assert_eq!(message, "secret \"OPENAI_KEY\": cannot swap in an over-cap body");
        }
        _ => panic!("expected an error"),
    }
}

#[test]
fn secrets_need_a_resolver_and_plain_tokens() {
    assert_eq!(
        build_pipeline(&specs(entry())).err().unwrap().0,
        "the `secrets` transform is L3; build with a SecretResolver (build_pipeline_with_resolver)"
    );
    let mut secret = entry();
    secret.match_path = true;
    secret.proxy_value = "a/b".into();
    assert_eq!(
        build_pipeline_with_resolver(&specs(secret), OneSecret(None)).err().unwrap().0,
        "secrets: proxy_value must be RFC 3986 unreserved-only when match_path is set"
    );
    let mut secret = entry();
    secret.source = SourceSpec::File {
        path: "/tok".into(),
        ttl: Some("soon".into()),
        failure_ttl: None,
        json_key: None,
    };
    assert_eq!(
        build_pipeline_with_resolver(&specs(secret), OneSecret(None)).err().unwrap().0,
        "secrets: invalid duration: \"soon\""
    );
}

fn capture() -> TransformSpec {
    TransformSpec {
        name: "body_capture".into(),
        config: TransformConfig::BodyCapture(BodyCaptureConfig {
            max_request_body_bytes: 8,
            rules: vec![RuleSpec { host: "api.example.com".into(), methods: None, paths: None }],
        }),
    }
}

#[test]
fn any_capture_behind_a_body_swap_is_warned_of() {
    let warned = |specs: Vec<TransformSpec>| {
        build_pipeline_with_resolver(&specs, OneSecret(None)).unwrap().warnings.len()
    };
    let mut secret = entry();
    secret.match_body = true;
    let mut early = specs(secret);
    early.insert(1, capture());
    assert_eq!(warned(early), 0);
    let mut secret = entry();
    secret.match_body = true;
    let mut both = specs(secret);
    both.insert(1, capture());
    both.push(capture());
    assert_eq!(warned(both), 1, "an earlier capture does not hide a later one");
    let mut harmless = specs(entry());
    harmless.push(capture());
    assert_eq!(warned(harmless), 0);
}
