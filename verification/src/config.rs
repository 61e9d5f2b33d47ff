//! Building a pipeline from the `transforms` list of a configuration. What
//! cannot work is refused here, not while a request is served.
use vstd::prelude::*;
use vstd::string::*;
use vstd::utf8::*;

use crate::duration::{duration, parse_millis};
use crate::matcher::{
    parse_literal, Cidr, DomainGlob, HeaderNameEntry, HeaderNameView, HostClause,
    MatchConfigError, PathGlob, Rule, RuleView,
};
use crate::pipeline::Pipeline;
use crate::secret::{NoResolver, SecretResolver, SourceKind, SourceKindView, SourceRef, SourceView};
use crate::secrets::{SecretSpec, SecretView, Secrets};
use crate::text::{copy_opt, join2, join3, quoted, same, to_upper};
use crate::transforms::{
    Allowlist, AllowlistView, Annotate, AnnotateGroup, BodyCaptureTransform, BodyCaptureView,
    GroupView, HeaderAllowlist, HeaderAllowlistView, Transform, TransformView,
};

verus! {

/// A configuration that is refused.
#[derive(Debug)]
pub struct ConfigError(pub String);

impl ConfigError {
    /// The error as shown to an operator.
    pub fn to_text(&self) -> (r: String)
        ensures
            r@ == "config error: "@ + self.0@,
    {
        join2("config error: ", self.0.as_str())
    }
}

/// A matcher's error as a configuration error.
pub open spec fn matcher_error(e: Seq<char>) -> Seq<char> {
    "invalid matcher: "@ + e
}

fn config_error(e: MatchConfigError) -> (r: ConfigError)
    ensures
        r.0@ == matcher_error(e.0@),
{
    ConfigError(e.to_text())
}

// ---- Lists in which the first error counts -------------------------------------------------

/// What `f` makes of the first `n` items, or its first error.
pub open spec fn collected<A, B>(
    s: Seq<A>,
    f: spec_fn(A) -> Result<B, Seq<char>>,
    n: int,
) -> Result<Seq<B>, Seq<char>>
    decreases n,
{
    if n <= 0 {
        Ok(Seq::<B>::empty())
    } else {
        match collected(s, f, n - 1) {
            Err(e) => Err(e),
            Ok(v) => match f(s[n - 1]) {
                Ok(b) => Ok(v.push(b)),
                Err(e) => Err(e),
            },
        }
    }
}

/// What `f` makes of all items, or its first error.
pub open spec fn all_of<A, B>(s: Seq<A>, f: spec_fn(A) -> Result<B, Seq<char>>) -> Result<
    Seq<B>,
    Seq<char>,
> {
    collected(s, f, s.len() as int)
}

/// The first error stays the error.
pub proof fn first_error_counts<A, B>(
    s: Seq<A>,
    f: spec_fn(A) -> Result<B, Seq<char>>,
    n: int,
    m: int,
)
    requires
        n <= m,
        collected(s, f, n) is Err,
    ensures
        collected(s, f, m) == collected(s, f, n),
    decreases m - n,
{
    if n < m {
        first_error_counts(s, f, n, m - 1);
    }
}

// ---- Rules -----------------------------------------------------------------------------------

/// A rule as configured.
#[derive(Debug)]
pub struct RuleSpec {
    pub host: String,
    pub methods: Option<Vec<String>>,
    pub paths: Option<Vec<String>>,
}

/// What a configured rule says.
#[verifier::ext_equal]
pub struct RuleSpecView {
    pub host: Seq<char>,
    pub methods: Option<Seq<Seq<char>>>,
    pub paths: Option<Seq<Seq<char>>>,
}

/// The texts of an optional list.
pub open spec fn opt_texts(o: Option<Vec<String>>) -> Option<Seq<Seq<char>>> {
    match o {
        Some(v) => Some(crate::text::texts(v@)),
        None => None,
    }
}

impl View for RuleSpec {
    type V = RuleSpecView;

    open spec fn view(&self) -> RuleSpecView {
        RuleSpecView {
            host: self.host@,
            methods: opt_texts(self.methods),
            paths: opt_texts(self.paths),
        }
    }
}

/// The views of a list of configured rules.
pub open spec fn rule_spec_views(v: Seq<RuleSpec>) -> Seq<RuleSpecView> {
    v.map_values(|s: RuleSpec| s@)
}

/// Methods are compared in uppercase.
pub open spec fn uppers(v: Seq<Seq<char>>) -> Seq<Seq<char>> {
    v.map_values(|m: Seq<char>| crate::text::upper(m))
}

/// The rule that a configured one stands for.
pub open spec fn rule_of(s: RuleSpecView) -> Result<RuleView, Seq<char>> {
    match crate::matcher::host_clause(s.host) {
        Err(e) => Err(matcher_error(e)),
        Ok(host) => Ok(
            RuleView {
                host,
                methods: match s.methods {
                    Some(m) => Some(uppers(m)),
                    None => None,
                },
                paths: s.paths,
            },
        ),
    }
}

/// The rules of a list; an empty list is refused.
pub open spec fn rules_of(s: Seq<RuleSpecView>) -> Result<Seq<RuleView>, Seq<char>> {
    if s.len() == 0 {
        Err("empty rule list"@)
    } else {
        all_of(s, |x: RuleSpecView| rule_of(x))
    }
}

fn upper_all(v: &Vec<String>) -> (r: Vec<String>)
    ensures
        crate::text::texts(r@) == uppers(crate::text::texts(v@)),
{
    let mut out: Vec<String> = Vec::new();
    let mut i: usize = 0;
    while i < v.len()
        invariant
            i <= v@.len(),
            out@.len() == i,
            forall|j: int| 0 <= j < i ==> (#[trigger] out@[j])@ == crate::text::upper(v@[j]@),
        decreases v@.len() - i,
    {
        out.push(to_upper(v[i].as_str()));
        i += 1;
    }
    assert(crate::text::texts(out@) == uppers(crate::text::texts(v@)));
    out
}

fn globs_of(v: &Vec<String>) -> (r: Result<Vec<PathGlob>, ConfigError>)
    ensures
        r matches Ok(p) && crate::matcher::patterns(p@) == crate::text::texts(v@),
{
    let mut out: Vec<PathGlob> = Vec::new();
    let mut i: usize = 0;
    while i < v.len()
        invariant
            i <= v@.len(),
            out@.len() == i,
            forall|j: int| 0 <= j < i ==> (#[trigger] out@[j])@ == v@[j]@,
        decreases v@.len() - i,
    {
        match PathGlob::parse(v[i].as_str()) {
            Ok(p) => {
                out.push(p);
            },
            Err(e) => {
                return Err(config_error(e));
            },
        }
        i += 1;
    }
    assert(crate::matcher::patterns(out@) == crate::text::texts(v@));
    Ok(out)
}

fn compile_rule(s: &RuleSpec) -> (r: Result<Rule, ConfigError>)
    ensures
        match r {
            Ok(x) => rule_of(s@) == Ok::<RuleView, Seq<char>>(x@),
            Err(e) => rule_of(s@) == Err::<RuleView, Seq<char>>(e.0@),
        },
{
    let host = match HostClause::parse(s.host.as_str()) {
        Ok(h) => h,
        Err(e) => {
            return Err(config_error(e));
        },
    };
    let methods = match &s.methods {
        Some(m) => Some(upper_all(m)),
        None => None,
    };
    let paths = match &s.paths {
        Some(p) => match globs_of(p) {
            Ok(g) => Some(g),
            Err(e) => {
                return Err(e);
            },
        },
        None => None,
    };
    Ok(Rule { host, methods, paths })
}

fn compile_rules(specs: &Vec<RuleSpec>) -> (r: Result<Vec<Rule>, ConfigError>)
    ensures
        match r {
            Ok(v) => rules_of(rule_spec_views(specs@)) == Ok::<Seq<RuleView>, Seq<char>>(
                crate::matcher::rule_views(v@),
            ),
            Err(e) => rules_of(rule_spec_views(specs@)) == Err::<Seq<RuleView>, Seq<char>>(e.0@),
        },
{
    if specs.len() == 0 {
        return Err(ConfigError("empty rule list".to_owned()));
    }
    let ghost s = rule_spec_views(specs@);
    let ghost f = |x: RuleSpecView| rule_of(x);
    let mut out: Vec<Rule> = Vec::new();
    let mut i: usize = 0;
    assert(crate::matcher::rule_views(out@) == Seq::<RuleView>::empty());
    while i < specs.len()
        invariant
            i <= specs@.len(),
            specs@.len() > 0,
            s == rule_spec_views(specs@),
            f == (|x: RuleSpecView| rule_of(x)),
            collected(s, f, i as int) == Ok::<Seq<RuleView>, Seq<char>>(
                crate::matcher::rule_views(out@),
            ),
        decreases specs@.len() - i,
    {
        assert(s[i as int] == specs@[i as int]@);
        match compile_rule(&specs[i]) {
            Ok(r) => {
                let ghost before = out@;
                let ghost rv = r@;
                out.push(r);
                assert(crate::matcher::rule_views(out@) == crate::matcher::rule_views(before).push(
                    rv,
                ));
            },
            Err(e) => {
                proof {
                    first_error_counts(s, f, i + 1, s.len() as int);
                }
                return Err(e);
            },
        }
        i += 1;
    }
    Ok(out)
}

// ---- Secrets ---------------------------------------------------------------------------------

/// A secret's source as configured.
#[derive(Debug)]
pub enum SourceSpec {
    Env { var: String, json_key: Option<String> },
    File {
        path: String,
        ttl: Option<String>,
        failure_ttl: Option<String>,
        json_key: Option<String>,
    },
}

/// What a configured source says.
#[verifier::ext_equal]
pub enum SourceSpecView {
    Env { var: Seq<char>, json_key: Option<Seq<char>> },
    File {
        path: Seq<char>,
        ttl: Option<Seq<char>>,
        failure_ttl: Option<Seq<char>>,
        json_key: Option<Seq<char>>,
    },
}

impl View for SourceSpec {
    type V = SourceSpecView;

    open spec fn view(&self) -> SourceSpecView {
        match self {
            SourceSpec::Env { var, json_key } => SourceSpecView::Env {
                var: var@,
                json_key: crate::text::opt_text(*json_key),
            },
            SourceSpec::File { path, ttl, failure_ttl, json_key } => SourceSpecView::File {
                path: path@,
                ttl: crate::text::opt_text(*ttl),
                failure_ttl: crate::text::opt_text(*failure_ttl),
                json_key: crate::text::opt_text(*json_key),
            },
        }
    }
}

/// A lifetime that may be absent.
pub open spec fn opt_duration(o: Option<Seq<char>>) -> Result<Option<u128>, Seq<char>> {
    match o {
        None => Ok(None),
        Some(s) => match duration(s) {
            Ok(n) => Ok(Some(n as u128)),
            Err(e) => Err("secrets: "@ + e),
        },
    }
}

/// The source that a configured one stands for. An environment variable is kept
/// for good; a file can have lifetimes.
pub open spec fn source_of(s: SourceSpecView) -> Result<SourceView, Seq<char>> {
    match s {
        SourceSpecView::Env { var, json_key } => Ok(
            SourceView {
                kind: SourceKindView::Env { var },
                json_key,
                ttl: None,
                failure_ttl: None,
            },
        ),
        SourceSpecView::File { path, ttl, failure_ttl, json_key } => match opt_duration(ttl) {
            Err(e) => Err(e),
            Ok(ttl) => match opt_duration(failure_ttl) {
                Err(e) => Err(e),
                Ok(failure_ttl) => Ok(
                    SourceView {
                        kind: SourceKindView::File { path },
                        json_key,
                        ttl,
                        failure_ttl,
                    },
                ),
            },
        },
    }
}

fn lifetime(o: &Option<String>) -> (r: Result<Option<u128>, ConfigError>)
    ensures
        match r {
            Ok(n) => opt_duration(crate::text::opt_text(*o)) == Ok::<Option<u128>, Seq<char>>(n),
            Err(e) => opt_duration(crate::text::opt_text(*o)) == Err::<Option<u128>, Seq<char>>(
                e.0@,
            ),
        },
{
    match o {
        None => Ok(None),
        Some(s) => match parse_millis(s.as_str()) {
            Ok(n) => Ok(Some(n)),
            Err(e) => Err(ConfigError(join2("secrets: ", e.as_str()))),
        },
    }
}

impl SourceSpec {
    pub fn into_ref(&self) -> (r: Result<SourceRef, ConfigError>)
        ensures
            match r {
                Ok(x) => source_of(self@) == Ok::<SourceView, Seq<char>>(x@),
                Err(e) => source_of(self@) == Err::<SourceView, Seq<char>>(e.0@),
            },
    {
        match self {
            SourceSpec::Env { var, json_key } => Ok(
                SourceRef {
                    kind: SourceKind::Env { var: var.clone() },
                    json_key: copy_opt(json_key),
                    ttl: None,
                    failure_ttl: None,
                },
            ),
            SourceSpec::File { path, ttl, failure_ttl, json_key } => {
                let ttl = match lifetime(ttl) {
                    Ok(t) => t,
                    Err(e) => {
                        return Err(e);
                    },
                };
                let failure_ttl = match lifetime(failure_ttl) {
                    Ok(t) => t,
                    Err(e) => {
                        return Err(e);
                    },
                };
                Ok(
                    SourceRef {
                        kind: SourceKind::File { path: path.clone() },
                        json_key: copy_opt(json_key),
                        ttl,
                        failure_ttl,
                    },
                )
            },
        }
    }
}

/// A secret as configured.
#[derive(Debug)]
pub struct SecretEntry {
    pub source: SourceSpec,
    pub proxy_value: String,
    /// Absent or empty: every header is scanned.
    pub match_headers: Option<Vec<String>>,
    pub match_query: bool,
    pub match_path: bool,
    pub match_body: bool,
    pub require: bool,
    pub rules: Vec<RuleSpec>,
}

/// What a configured secret says.
#[verifier::ext_equal]
pub struct SecretEntryView {
    pub source: SourceSpecView,
    pub proxy_value: Seq<char>,
    pub match_headers: Option<Seq<Seq<char>>>,
    pub match_query: bool,
    pub match_path: bool,
    pub match_body: bool,
    pub require: bool,
    pub rules: Seq<RuleSpecView>,
}

impl View for SecretEntry {
    type V = SecretEntryView;

    open spec fn view(&self) -> SecretEntryView {
        SecretEntryView {
            source: self.source@,
            proxy_value: self.proxy_value@,
            match_headers: opt_texts(self.match_headers),
            match_query: self.match_query,
            match_path: self.match_path,
            match_body: self.match_body,
            require: self.require,
            rules: rule_spec_views(self.rules@),
        }
    }
}

/// The views of a list of configured secrets.
pub open spec fn secret_entry_views(v: Seq<SecretEntry>) -> Seq<SecretEntryView> {
    v.map_values(|s: SecretEntry| s@)
}

/// A header-name entry, or the configuration error.
pub open spec fn header_entry_of(s: Seq<char>, allow_regex: bool) -> Result<
    HeaderNameView,
    Seq<char>,
> {
    match crate::matcher::header_entry(s, allow_regex) {
        Ok(e) => Ok(e),
        Err(e) => Err(matcher_error(e)),
    }
}

/// The header-name entries of a list.
pub open spec fn header_entries_of(v: Seq<Seq<char>>) -> Result<Seq<HeaderNameView>, Seq<char>> {
    all_of(v, |s: Seq<char>| header_entry_of(s, true))
}

/// The header-name entries of a secret; none where every header is scanned.
pub open spec fn match_headers_of(o: Option<Seq<Seq<char>>>) -> Result<
    Option<Seq<HeaderNameView>>,
    Seq<char>,
> {
    match o {
        None => Ok(None),
        Some(v) => if v.len() == 0 {
            Ok(None)
        } else {
            match header_entries_of(v) {
                Ok(e) => Ok(Some(e)),
                Err(e) => Err(e),
            }
        },
    }
}

/// Every byte of the text stands for itself in a URL.
pub open spec fn all_unreserved(s: Seq<char>) -> bool {
    forall|i: int|
        0 <= i < encode_utf8(s).len() ==> crate::codec::unreserved(#[trigger] encode_utf8(s)[i])
}

/// The secret that a configured one stands for. A token that is looked for in
/// the path must not be encodable there, or an encoded one would be missed.
pub open spec fn secret_of(e: SecretEntryView) -> Result<SecretView, Seq<char>> {
    match match_headers_of(e.match_headers) {
        Err(m) => Err(m),
        Ok(match_headers) => if e.match_path && !all_unreserved(e.proxy_value) {
            Err("secrets: proxy_value must be RFC 3986 unreserved-only when match_path is set"@)
        } else {
            match source_of(e.source) {
                Err(m) => Err(m),
                Ok(source) => match rules_of(e.rules) {
                    Err(m) => Err(m),
                    Ok(rules) => Ok(
                        SecretView {
                            source,
                            proxy: encode_utf8(e.proxy_value),
                            match_headers,
                            match_query: e.match_query,
                            match_path: e.match_path,
                            match_body: e.match_body,
                            require: e.require,
                            rules,
                        },
                    ),
                },
            }
        },
    }
}

fn compile_entries(v: &Vec<String>) -> (r: Result<Vec<HeaderNameEntry>, ConfigError>)
    ensures
        match r {
            Ok(e) => header_entries_of(crate::text::texts(v@)) == Ok::<
                Seq<HeaderNameView>,
                Seq<char>,
            >(crate::matcher::entry_views(e@)),
            Err(e) => header_entries_of(crate::text::texts(v@)) == Err::<
                Seq<HeaderNameView>,
                Seq<char>,
            >(e.0@),
        },
{
    let ghost s = crate::text::texts(v@);
    let ghost f = |s: Seq<char>| header_entry_of(s, true);
    let mut out: Vec<HeaderNameEntry> = Vec::new();
    let mut i: usize = 0;
    assert(crate::matcher::entry_views(out@) == Seq::<HeaderNameView>::empty());
    while i < v.len()
        invariant
            i <= v@.len(),
            s == crate::text::texts(v@),
            f == (|s: Seq<char>| header_entry_of(s, true)),
            collected(s, f, i as int) == Ok::<Seq<HeaderNameView>, Seq<char>>(
                crate::matcher::entry_views(out@),
            ),
        decreases v@.len() - i,
    {
        assert(s[i as int] == v@[i as int]@);
        match HeaderNameEntry::parse(v[i].as_str(), true) {
            Ok(e) => {
                let ghost before = out@;
                let ghost ev = e@;
                out.push(e);
                assert(crate::matcher::entry_views(out@) == crate::matcher::entry_views(
                    before,
                ).push(ev));
            },
            Err(e) => {
                proof {
                    first_error_counts(s, f, i + 1, s.len() as int);
                }
                return Err(config_error(e));
            },
        }
        i += 1;
    }
    Ok(out)
}

fn unreserved_only(s: &str) -> (r: bool)
    ensures
        r == all_unreserved(s@),
{
    let b = s.as_bytes();
    let mut i: usize = 0;
    while i < b.len()
        invariant
            b@ == encode_utf8(s@),
            i <= b@.len(),
            forall|j: int| 0 <= j < i ==> crate::codec::unreserved(#[trigger] b@[j]),
        decreases b@.len() - i,
    {
        let x: u8 = b[i];
        if !((48 <= x && x <= 57) || (65 <= x && x <= 90) || (97 <= x && x <= 122) || x == 45 || x
            == 46 || x == 95 || x == 126) {
            assert(!crate::codec::unreserved(encode_utf8(s@)[i as int]));
            return false;
        }
        i += 1;
    }
    true
}

fn build_secret_spec(entry: &SecretEntry) -> (r: Result<SecretSpec, ConfigError>)
    ensures
        match r {
            Ok(s) => secret_of(entry@) == Ok::<SecretView, Seq<char>>(s@),
            Err(e) => secret_of(entry@) == Err::<SecretView, Seq<char>>(e.0@),
        },
{
    let match_headers = match &entry.match_headers {
        None => None,
        Some(list) => if list.len() == 0 {
            None
        } else {
            match compile_entries(list) {
                Ok(e) => Some(e),
                Err(e) => {
                    return Err(e);
                },
            }
        },
    };
    if entry.match_path && !unreserved_only(entry.proxy_value.as_str()) {
        return Err(
            ConfigError(
                "secrets: proxy_value must be RFC 3986 unreserved-only when match_path is set".to_owned(),
            ),
        );
    }
    let source = match entry.source.into_ref() {
        Ok(s) => s,
        Err(e) => {
            return Err(e);
        },
    };
    let rules = match compile_rules(&entry.rules) {
        Ok(r) => r,
        Err(e) => {
            return Err(e);
        },
    };
    Ok(
        SecretSpec {
            source,
            proxy_value: entry.proxy_value.clone(),
            match_headers,
            match_query: entry.match_query,
            match_path: entry.match_path,
            match_body: entry.match_body,
            require: entry.require,
            rules,
        },
    )
}

// ---- Transforms ------------------------------------------------------------------------------

/// The configuration of `allowlist`.
#[derive(Debug)]
pub struct AllowlistConfig {
    pub domains: Vec<String>,
    pub cidrs: Vec<String>,
    pub warn: bool,
}

/// The configuration of `annotate`.
#[derive(Debug)]
pub struct AnnotateConfig {
    pub annotations: Vec<AnnotateGroupSpec>,
}

/// One group of `annotate`.
#[derive(Debug)]
pub struct AnnotateGroupSpec {
    pub rules: Vec<RuleSpec>,
    pub headers: Vec<String>,
}

/// The configuration of `header_allowlist`.
#[derive(Debug)]
pub struct HeaderAllowlistConfig {
    pub headers: Vec<String>,
    pub rules: Option<Vec<RuleSpec>>,
}

/// The configuration of `body_capture`.
#[derive(Debug)]
pub struct BodyCaptureConfig {
    pub max_request_body_bytes: usize,
    pub rules: Vec<RuleSpec>,
}

/// The configuration of `secrets`.
#[derive(Debug)]
pub struct SecretsConfig {
    pub secrets: Vec<SecretEntry>,
}

/// The configuration block of a transform as it was read.
#[derive(Debug)]
pub enum TransformConfig {
    Allowlist(AllowlistConfig),
    Annotate(AnnotateConfig),
    HeaderAllowlist(HeaderAllowlistConfig),
    BodyCapture(BodyCaptureConfig),
    Secrets(SecretsConfig),
    /// The block could not be read, and why.
    Unreadable(String),
}

/// One entry of the `transforms` list.
#[derive(Debug)]
pub struct TransformSpec {
    pub name: String,
    pub config: TransformConfig,
}

/// What a group of `annotate` says.
#[verifier::ext_equal]
pub struct GroupSpecView {
    pub rules: Seq<RuleSpecView>,
    pub headers: Seq<Seq<char>>,
}

impl View for AnnotateGroupSpec {
    type V = GroupSpecView;

    open spec fn view(&self) -> GroupSpecView {
        GroupSpecView {
            rules: rule_spec_views(self.rules@),
            headers: crate::text::texts(self.headers@),
        }
    }
}

/// The views of a list of groups.
pub open spec fn group_spec_views(v: Seq<AnnotateGroupSpec>) -> Seq<GroupSpecView> {
    v.map_values(|g: AnnotateGroupSpec| g@)
}

/// The configured rules of an optional list.
pub open spec fn opt_rule_specs(o: Option<Vec<RuleSpec>>) -> Option<Seq<RuleSpecView>> {
    match o {
        Some(v) => Some(rule_spec_views(v@)),
        None => None,
    }
}

/// What the configuration block of a transform says.
#[verifier::ext_equal]
#[allow(inconsistent_fields)]
pub enum TransformConfigView {
    Allowlist { domains: Seq<Seq<char>>, cidrs: Seq<Seq<char>>, warn: bool },
    Annotate { annotations: Seq<GroupSpecView> },
    HeaderAllowlist { headers: Seq<Seq<char>>, rules: Option<Seq<RuleSpecView>> },
    BodyCapture { max_request_body_bytes: usize, rules: Seq<RuleSpecView> },
    Secrets { secrets: Seq<SecretEntryView> },
    Unreadable(Seq<char>),
}

impl View for TransformConfig {
    type V = TransformConfigView;

    open spec fn view(&self) -> TransformConfigView {
        match self {
            TransformConfig::Allowlist(c) => TransformConfigView::Allowlist {
                domains: crate::text::texts(c.domains@),
                cidrs: crate::text::texts(c.cidrs@),
                warn: c.warn,
            },
            TransformConfig::Annotate(c) => TransformConfigView::Annotate {
                annotations: group_spec_views(c.annotations@),
            },
            TransformConfig::HeaderAllowlist(c) => TransformConfigView::HeaderAllowlist {
                headers: crate::text::texts(c.headers@),
                rules: opt_rule_specs(c.rules),
            },
            TransformConfig::BodyCapture(c) => TransformConfigView::BodyCapture {
                max_request_body_bytes: c.max_request_body_bytes,
                rules: rule_spec_views(c.rules@),
            },
            TransformConfig::Secrets(c) => TransformConfigView::Secrets {
                secrets: secret_entry_views(c.secrets@),
            },
            TransformConfig::Unreadable(e) => TransformConfigView::Unreadable(e@),
        }
    }
}

/// What an entry of the list says.
#[verifier::ext_equal]
pub struct TransformSpecView {
    pub name: Seq<char>,
    pub config: TransformConfigView,
}

impl View for TransformSpec {
    type V = TransformSpecView;

    open spec fn view(&self) -> TransformSpecView {
        TransformSpecView { name: self.name@, config: self.config@ }
    }
}

/// The views of a list of entries.
pub open spec fn transform_spec_views(v: Seq<TransformSpec>) -> Seq<TransformSpecView> {
    v.map_values(|t: TransformSpec| t@)
}

/// A domain glob, or the configuration error.
pub open spec fn domain_of(s: Seq<char>) -> Result<crate::matcher::DomainGlobView, Seq<char>> {
    match crate::matcher::domain_glob(s) {
        Ok(g) => Ok(g),
        Err(e) => Err(matcher_error(e)),
    }
}

/// A CIDR prefix, or the configuration error.
pub open spec fn prefix_of(s: Seq<char>) -> Result<crate::matcher::CidrView, Seq<char>> {
    match crate::matcher::cidr(s) {
        Ok(c) => Ok(c),
        Err(e) => Err(matcher_error(e)),
    }
}

/// A literal header name, or the configuration error.
pub open spec fn literal_of(s: Seq<char>) -> Result<Seq<char>, Seq<char>> {
    match crate::matcher::literal_entry(s) {
        Ok(l) => Ok(l),
        Err(e) => Err(matcher_error(e)),
    }
}

/// The `allowlist` that a block stands for; it must list something.
pub open spec fn allowlist_of(
    domains: Seq<Seq<char>>,
    cidrs: Seq<Seq<char>>,
    warn: bool,
) -> Result<AllowlistView, Seq<char>> {
    if domains.len() == 0 && cidrs.len() == 0 {
        Err("allowlist: at least one of domains/cidrs must be non-empty"@)
    } else {
        match all_of(domains, |s: Seq<char>| domain_of(s)) {
            Err(e) => Err(e),
            Ok(d) => match all_of(cidrs, |s: Seq<char>| prefix_of(s)) {
                Err(e) => Err(e),
                Ok(c) => Ok(AllowlistView { domains: d, cidrs: c, warn }),
            },
        }
    }
}

/// The group that a configured one stands for.
pub open spec fn group_of(g: GroupSpecView) -> Result<GroupView, Seq<char>> {
    match all_of(g.headers, |s: Seq<char>| literal_of(s)) {
        Err(e) => Err(e),
        Ok(headers) => match rules_of(g.rules) {
            Err(e) => Err(e),
            Ok(rules) => Ok(GroupView { rules, headers }),
        },
    }
}

/// The `header_allowlist` that a block stands for; it must list something.
pub open spec fn header_allowlist_of(
    headers: Seq<Seq<char>>,
    rules: Option<Seq<RuleSpecView>>,
) -> Result<HeaderAllowlistView, Seq<char>> {
    if headers.len() == 0 {
        Err("header_allowlist: headers must be non-empty"@)
    } else {
        match header_entries_of(headers) {
            Err(e) => Err(e),
            Ok(entries) => match rules {
                None => Ok(HeaderAllowlistView { entries, rules: None }),
                Some(r) => match rules_of(r) {
                    Err(e) => Err(e),
                    Ok(rules) => Ok(HeaderAllowlistView { entries, rules: Some(rules) }),
                },
            },
        }
    }
}

/// A block that could not be read.
pub open spec fn unreadable(name: Seq<char>, why: Seq<char>) -> Seq<char> {
    "transform "@ + crate::text::quoted_text(name) + ": "@ + why
}

/// A block that belongs to another transform, or that could not be read.
pub open spec fn wrong_block(s: TransformSpecView) -> Seq<char> {
    match s.config {
        TransformConfigView::Unreadable(e) => unreadable(s.name, e),
        _ => unreadable(s.name, "configuration of another transform"@),
    }
}

/// The transform that an entry stands for. Secrets need a resolver.
pub open spec fn transform_of(s: TransformSpecView, resolver: bool) -> Result<
    TransformView,
    Seq<char>,
> {
    if s.name == "allowlist"@ {
        match s.config {
            TransformConfigView::Allowlist { domains, cidrs, warn } => match allowlist_of(
                domains,
                cidrs,
                warn,
            ) {
                Ok(a) => Ok(TransformView::Allowlist(a)),
                Err(e) => Err(e),
            },
            _ => Err(wrong_block(s)),
        }
    } else if s.name == "annotate"@ {
        match s.config {
            TransformConfigView::Annotate { annotations } => match all_of(
                annotations,
                |g: GroupSpecView| group_of(g),
            ) {
                Ok(g) => Ok(TransformView::Annotate(g)),
                Err(e) => Err(e),
            },
            _ => Err(wrong_block(s)),
        }
    } else if s.name == "header_allowlist"@ {
        match s.config {
            TransformConfigView::HeaderAllowlist { headers, rules } => match header_allowlist_of(
                headers,
                rules,
            ) {
                Ok(a) => Ok(TransformView::HeaderAllowlist(a)),
                Err(e) => Err(e),
            },
            _ => Err(wrong_block(s)),
        }
    } else if s.name == "body_capture"@ {
        match s.config {
            TransformConfigView::BodyCapture { max_request_body_bytes, rules } => match rules_of(
                rules,
            ) {
                Ok(rules) => Ok(
                    TransformView::BodyCapture(
                        BodyCaptureView { max: max_request_body_bytes as nat, rules },
                    ),
                ),
                Err(e) => Err(e),
            },
            _ => Err(wrong_block(s)),
        }
    } else if s.name == "secrets"@ {
        if !resolver {
            Err(
                "the `secrets` transform is L3; build with a SecretResolver (build_pipeline_with_resolver)"@,
            )
        } else {
            match s.config {
                TransformConfigView::Secrets { secrets } => if secrets.len() == 0 {
                    Err("secrets: at least one secret required"@)
                } else {
                    match all_of(secrets, |e: SecretEntryView| secret_of(e)) {
                        Ok(v) => Ok(TransformView::Secrets(v)),
                        Err(e) => Err(e),
                    }
                },
                _ => Err(wrong_block(s)),
            }
        }
    } else {
        Err(
            "unknown transform "@ + crate::text::quoted_text(s.name)
                + ": the v1 registry is closed"@,
        )
    }
}

fn compile_domains(v: &Vec<String>) -> (r: Result<Vec<DomainGlob>, ConfigError>)
    ensures
        match r {
            Ok(x) => all_of(crate::text::texts(v@), |s: Seq<char>| domain_of(s)) == Ok::<Seq<crate::matcher::DomainGlobView>, Seq<char>>(crate::transforms::glob_views(x@)),
            Err(e) => all_of(crate::text::texts(v@), |s: Seq<char>| domain_of(s)) == Err::<Seq<crate::matcher::DomainGlobView>, Seq<char>>(e.0@),
        },
{
    let ghost s = crate::text::texts(v@);
    let ghost f = |s: Seq<char>| domain_of(s);
    let mut out: Vec<DomainGlob> = Vec::new();
    let mut i: usize = 0;
    assert(crate::transforms::glob_views(out@) == Seq::<crate::matcher::DomainGlobView>::empty());
    while i < v.len()
        invariant
            i <= v@.len(),
            s == crate::text::texts(v@),
            f == (|s: Seq<char>| domain_of(s)),
            collected(s, f, i as int) == Ok::<Seq<crate::matcher::DomainGlobView>, Seq<char>>(crate::transforms::glob_views(out@)),
        decreases v@.len() - i,
    {
        assert(s[i as int] == v@[i as int]@);
        match DomainGlob::parse(v[i].as_str()) {
            Ok(x) => {
                let ghost before = out@;
                let ghost xv = x@;
                out.push(x);
                assert(crate::transforms::glob_views(out@) == crate::transforms::glob_views(before).push(xv));
            },
            Err(e) => {
                proof {
                    first_error_counts(s, f, i + 1, s.len() as int);
                }
                return Err(config_error(e));
            },
        }
        i += 1;
    }
    Ok(out)
}

fn compile_cidrs(v: &Vec<String>) -> (r: Result<Vec<Cidr>, ConfigError>)
    ensures
        match r {
            Ok(x) => all_of(crate::text::texts(v@), |s: Seq<char>| prefix_of(s)) == Ok::<Seq<crate::matcher::CidrView>, Seq<char>>(crate::transforms::cidr_views(x@)),
            Err(e) => all_of(crate::text::texts(v@), |s: Seq<char>| prefix_of(s)) == Err::<Seq<crate::matcher::CidrView>, Seq<char>>(e.0@),
        },
{
    let ghost s = crate::text::texts(v@);
    let ghost f = |s: Seq<char>| prefix_of(s);
    let mut out: Vec<Cidr> = Vec::new();
    let mut i: usize = 0;
    assert(crate::transforms::cidr_views(out@) == Seq::<crate::matcher::CidrView>::empty());
    while i < v.len()
        invariant
            i <= v@.len(),
            s == crate::text::texts(v@),
            f == (|s: Seq<char>| prefix_of(s)),
            collected(s, f, i as int) == Ok::<Seq<crate::matcher::CidrView>, Seq<char>>(crate::transforms::cidr_views(out@)),
        decreases v@.len() - i,
    {
        assert(s[i as int] == v@[i as int]@);
        match Cidr::parse(v[i].as_str()) {
            Ok(x) => {
                let ghost before = out@;
                let ghost xv = x@;
                out.push(x);
                assert(crate::transforms::cidr_views(out@) == crate::transforms::cidr_views(before).push(xv));
            },
            Err(e) => {
                proof {
                    first_error_counts(s, f, i + 1, s.len() as int);
                }
                return Err(config_error(e));
            },
        }
        i += 1;
    }
    Ok(out)
}

fn literal_name(s: &str) -> (r: Result<String, ConfigError>)
    ensures
        match r {
            Ok(l) => literal_of(s@) == Ok::<Seq<char>, Seq<char>>(l@),
            Err(e) => literal_of(s@) == Err::<Seq<char>, Seq<char>>(e.0@),
        },
{
    match parse_literal(s) {
        Ok(l) => Ok(l),
        Err(e) => Err(config_error(e)),
    }
}

fn compile_literals(v: &Vec<String>) -> (r: Result<Vec<String>, ConfigError>)
    ensures
        match r {
            Ok(x) => all_of(crate::text::texts(v@), |s: Seq<char>| literal_of(s)) == Ok::<Seq<Seq<char>>, Seq<char>>(crate::text::texts(x@)),
            Err(e) => all_of(crate::text::texts(v@), |s: Seq<char>| literal_of(s)) == Err::<Seq<Seq<char>>, Seq<char>>(e.0@),
        },
{
    let ghost s = crate::text::texts(v@);
    let ghost f = |s: Seq<char>| literal_of(s);
    let mut out: Vec<String> = Vec::new();
    let mut i: usize = 0;
    assert(crate::text::texts(out@) == Seq::<Seq<char>>::empty());
    while i < v.len()
        invariant
            i <= v@.len(),
            s == crate::text::texts(v@),
            f == (|s: Seq<char>| literal_of(s)),
            collected(s, f, i as int) == Ok::<Seq<Seq<char>>, Seq<char>>(crate::text::texts(out@)),
        decreases v@.len() - i,
    {
        assert(s[i as int] == v@[i as int]@);
        match literal_name(v[i].as_str()) {
            Ok(x) => {
                let ghost before = out@;
                let ghost xv = x@;
                out.push(x);
                assert(crate::text::texts(out@) == crate::text::texts(before).push(xv));
            },
            Err(e) => {
                proof {
                    first_error_counts(s, f, i + 1, s.len() as int);
                }
                return Err(e);
            },
        }
        i += 1;
    }
    Ok(out)
}

fn compile_group(g: &AnnotateGroupSpec) -> (r: Result<AnnotateGroup, ConfigError>)
    ensures
        match r {
            Ok(x) => group_of(g@) == Ok::<GroupView, Seq<char>>(x@),
            Err(e) => group_of(g@) == Err::<GroupView, Seq<char>>(e.0@),
        },
{
    let headers = match compile_literals(&g.headers) {
        Ok(h) => h,
        Err(e) => {
            return Err(e);
        },
    };
    match compile_rules(&g.rules) {
        Ok(rules) => Ok(AnnotateGroup::new(rules, headers)),
        Err(e) => Err(e),
    }
}

fn compile_groups(v: &Vec<AnnotateGroupSpec>) -> (r: Result<Vec<AnnotateGroup>, ConfigError>)
    ensures
        match r {
            Ok(x) => all_of(group_spec_views(v@), |g: GroupSpecView| group_of(g)) == Ok::<Seq<GroupView>, Seq<char>>(crate::transforms::group_views(x@)),
            Err(e) => all_of(group_spec_views(v@), |g: GroupSpecView| group_of(g)) == Err::<Seq<GroupView>, Seq<char>>(e.0@),
        },
{
    let ghost s = group_spec_views(v@);
    let ghost f = |g: GroupSpecView| group_of(g);
    let mut out: Vec<AnnotateGroup> = Vec::new();
    let mut i: usize = 0;
    assert(crate::transforms::group_views(out@) == Seq::<GroupView>::empty());
    while i < v.len()
        invariant
            i <= v@.len(),
            s == group_spec_views(v@),
            f == (|g: GroupSpecView| group_of(g)),
            collected(s, f, i as int) == Ok::<Seq<GroupView>, Seq<char>>(crate::transforms::group_views(out@)),
        decreases v@.len() - i,
    {
        assert(s[i as int] == v@[i as int]@);
        match compile_group(&v[i]) {
            Ok(x) => {
                let ghost before = out@;
                let ghost xv = x@;
                out.push(x);
                assert(crate::transforms::group_views(out@) == crate::transforms::group_views(before).push(xv));
            },
            Err(e) => {
                proof {
                    first_error_counts(s, f, i + 1, s.len() as int);
                }
                return Err(e);
            },
        }
        i += 1;
    }
    Ok(out)
}

fn build_secret_specs(v: &Vec<SecretEntry>) -> (r: Result<Vec<SecretSpec>, ConfigError>)
    ensures
        match r {
            Ok(x) => all_of(secret_entry_views(v@), |e: SecretEntryView| secret_of(e)) == Ok::<Seq<SecretView>, Seq<char>>(crate::secrets::spec_views(x@)),
            Err(e) => all_of(secret_entry_views(v@), |e: SecretEntryView| secret_of(e)) == Err::<Seq<SecretView>, Seq<char>>(e.0@),
        },
{
    let ghost s = secret_entry_views(v@);
    let ghost f = |e: SecretEntryView| secret_of(e);
    let mut out: Vec<SecretSpec> = Vec::new();
    let mut i: usize = 0;
    assert(crate::secrets::spec_views(out@) == Seq::<SecretView>::empty());
    while i < v.len()
        invariant
            i <= v@.len(),
            s == secret_entry_views(v@),
            f == (|e: SecretEntryView| secret_of(e)),
            collected(s, f, i as int) == Ok::<Seq<SecretView>, Seq<char>>(crate::secrets::spec_views(out@)),
        decreases v@.len() - i,
    {
        assert(s[i as int] == v@[i as int]@);
        match build_secret_spec(&v[i]) {
            Ok(x) => {
                let ghost before = out@;
                let ghost xv = x@;
                out.push(x);
                assert(crate::secrets::spec_views(out@) == crate::secrets::spec_views(before).push(xv));
            },
            Err(e) => {
                proof {
                    first_error_counts(s, f, i + 1, s.len() as int);
                }
                return Err(e);
            },
        }
        i += 1;
    }
    Ok(out)
}

fn block_error(spec: &TransformSpec) -> (r: ConfigError)
    ensures
        r.0@ == wrong_block(spec@),
{
    let head = join3("transform ", quoted(spec.name.as_str()).as_str(), ": ");
    match &spec.config {
        TransformConfig::Unreadable(e) => ConfigError(join2(head.as_str(), e.as_str())),
        _ => ConfigError(join2(head.as_str(), "configuration of another transform")),
    }
}

fn build_allowlist(c: &AllowlistConfig) -> (r: Result<Allowlist, ConfigError>)
    ensures
        ({
            let want = allowlist_of(
                crate::text::texts(c.domains@),
                crate::text::texts(c.cidrs@),
                c.warn,
            );
            match r {
                Ok(a) => want == Ok::<AllowlistView, Seq<char>>(a@),
                Err(e) => want == Err::<AllowlistView, Seq<char>>(e.0@),
            }
        }),
{
    if c.domains.len() == 0 && c.cidrs.len() == 0 {
        return Err(
            ConfigError(
                "allowlist: at least one of domains/cidrs must be non-empty".to_owned(),
            ),
        );
    }
    let domains = match compile_domains(&c.domains) {
        Ok(d) => d,
        Err(e) => {
            return Err(e);
        },
    };
    match compile_cidrs(&c.cidrs) {
        Ok(cidrs) => Ok(Allowlist::new(domains, cidrs, c.warn)),
        Err(e) => Err(e),
    }
}

fn build_header_allowlist(c: &HeaderAllowlistConfig) -> (r: Result<HeaderAllowlist, ConfigError>)
    ensures
        ({
            let want = header_allowlist_of(
                crate::text::texts(c.headers@),
                opt_rule_specs(c.rules),
            );
            match r {
                Ok(a) => want == Ok::<HeaderAllowlistView, Seq<char>>(a@),
                Err(e) => want == Err::<HeaderAllowlistView, Seq<char>>(e.0@),
            }
        }),
{
    if c.headers.len() == 0 {
        return Err(ConfigError("header_allowlist: headers must be non-empty".to_owned()));
    }
    let entries = match compile_entries(&c.headers) {
        Ok(e) => e,
        Err(e) => {
            return Err(e);
        },
    };
    match &c.rules {
        None => Ok(HeaderAllowlist::new(entries, None)),
        Some(r) => match compile_rules(r) {
            Ok(rules) => Ok(HeaderAllowlist::new(entries, Some(rules))),
            Err(e) => Err(e),
        },
    }
}

fn build_transform(spec: &TransformSpec, resolver: bool) -> (r: Result<Transform, ConfigError>)
    ensures
        match r {
            Ok(t) => transform_of(spec@, resolver) == Ok::<TransformView, Seq<char>>(t@),
            Err(e) => transform_of(spec@, resolver) == Err::<TransformView, Seq<char>>(e.0@),
        },
{
    let name = spec.name.as_str();
    if same(name, "allowlist") {
        match &spec.config {
            TransformConfig::Allowlist(c) => match build_allowlist(c) {
                Ok(a) => Ok(Transform::Allowlist(a)),
                Err(e) => Err(e),
            },
            _ => Err(block_error(spec)),
        }
    } else if same(name, "annotate") {
        match &spec.config {
            TransformConfig::Annotate(c) => match compile_groups(&c.annotations) {
                Ok(groups) => Ok(Transform::Annotate(Annotate::new(groups))),
                Err(e) => Err(e),
            },
            _ => Err(block_error(spec)),
        }
    } else if same(name, "header_allowlist") {
        match &spec.config {
            TransformConfig::HeaderAllowlist(c) => match build_header_allowlist(c) {
                Ok(a) => Ok(Transform::HeaderAllowlist(a)),
                Err(e) => Err(e),
            },
            _ => Err(block_error(spec)),
        }
    } else if same(name, "body_capture") {
        match &spec.config {
            TransformConfig::BodyCapture(c) => match compile_rules(&c.rules) {
                Ok(rules) => Ok(
                    Transform::BodyCapture(
                        BodyCaptureTransform::new(c.max_request_body_bytes, rules),
                    ),
                ),
                Err(e) => Err(e),
            },
            _ => Err(block_error(spec)),
        }
    } else if same(name, "secrets") {
        if !resolver {
            return Err(
                ConfigError(
                    "the `secrets` transform is L3; build with a SecretResolver (build_pipeline_with_resolver)".to_owned(),
                ),
            );
        }
        match &spec.config {
            TransformConfig::Secrets(c) => {
                if c.secrets.len() == 0 {
                    return Err(ConfigError("secrets: at least one secret required".to_owned()));
                }
                match build_secret_specs(&c.secrets) {
                    Ok(specs) => Ok(Transform::Secrets(Secrets::build(specs))),
                    Err(e) => Err(e),
                }
            },
            _ => Err(block_error(spec)),
        }
    } else {
        Err(
            ConfigError(
                join3(
                    "unknown transform ",
                    quoted(name).as_str(),
                    ": the v1 registry is closed",
                ),
            ),
        )
    }
}

// ---- Pipelines -------------------------------------------------------------------------------

/// A pipeline, and what the operator should be warned of.
pub struct BuiltPipeline<R> {
    pub pipeline: Pipeline<R>,
    pub warnings: Vec<String>,
}

/// The index of the first entry at or after `i` of that name, or the length.
pub open spec fn first_named(s: Seq<TransformSpecView>, name: Seq<char>, i: int) -> int
    decreases s.len() - i,
{
    if i >= s.len() {
        s.len() as int
    } else if s[i].name == name {
        i
    } else {
        first_named(s, name, i + 1)
    }
}

/// A `secrets` entry that looks into bodies.
pub open spec fn swaps_bodies(s: TransformSpecView) -> bool {
    &&& s.name == "secrets"@
    &&& s.config matches TransformConfigView::Secrets { secrets } && exists|i: int|
        0 <= i < secrets.len() && (#[trigger] secrets[i]).match_body
}

/// Bodies are recorded after secrets were swapped into them: some `body_capture`
/// stands behind an entry that swaps into bodies.
pub open spec fn records_swapped_bodies(s: Seq<TransformSpecView>) -> bool {
    exists|i: int, j: int|
        0 <= i < j < s.len() && swaps_bodies(#[trigger] s[i]) && (#[trigger] s[j]).name
            == "body_capture"@
}

/// What the operator is warned of.
pub open spec fn warnings_of(s: Seq<TransformSpecView>) -> Seq<Seq<char>> {
    let a = if first_named(s, "allowlist"@, 0) != 0 {
        seq!["allowlist is present but not first in the pipeline"@]
    } else {
        Seq::<Seq<char>>::empty()
    };
    if records_swapped_bodies(s) {
        a.push(
            "body_capture follows a secrets entry with match_body: true; the log will hold real credentials"@,
        )
    } else {
        a
    }
}

/// The transforms of a list, in its order. Without an allowlist there is no
/// pipeline.
pub open spec fn pipeline_of(s: Seq<TransformSpecView>, resolver: bool) -> Result<
    Seq<TransformView>,
    Seq<char>,
> {
    if first_named(s, "allowlist"@, 0) == s.len() {
        Err("no allowlist transform: default-deny is structural"@)
    } else {
        all_of(s, |t: TransformSpecView| transform_of(t, resolver))
    }
}

fn position(specs: &Vec<TransformSpec>, name: &str) -> (r: usize)
    ensures
        r == first_named(transform_spec_views(specs@), name@, 0),
        r <= specs@.len(),
{
    let ghost s = transform_spec_views(specs@);
    let mut i: usize = 0;
    while i < specs.len() && !same(specs[i].name.as_str(), name)
        invariant
            i <= specs@.len(),
            s == transform_spec_views(specs@),
            first_named(s, name@, 0) == first_named(s, name@, i as int),
        decreases specs@.len() - i,
    {
        assert(s[i as int] == specs@[i as int]@);
        i += 1;
    }
    proof {
        if i < specs@.len() {
            assert(s[i as int] == specs@[i as int]@);
        }
    }
    i
}

fn looks_into_bodies(spec: &TransformSpec) -> (r: bool)
    ensures
        r == swaps_bodies(spec@),
{
    if !same(spec.name.as_str(), "secrets") {
        return false;
    }
    match &spec.config {
        TransformConfig::Secrets(c) => {
            let ghost v = secret_entry_views(c.secrets@);
            let mut i: usize = 0;
            while i < c.secrets.len()
                invariant
                    i <= c.secrets@.len(),
                    v == secret_entry_views(c.secrets@),
                    spec@.name == "secrets"@,
                    spec@.config == (TransformConfigView::Secrets { secrets: v }),
                    forall|j: int| 0 <= j < i ==> !(#[trigger] v[j]).match_body,
                decreases c.secrets@.len() - i,
            {
                assert(v[i as int] == c.secrets@[i as int]@);
                if c.secrets[i].match_body {
                    assert(v[i as int].match_body);
                    return true;
                }
                i += 1;
            }
            false
        },
        _ => false,
    }
}

fn capture_follows_swap(specs: &Vec<TransformSpec>) -> (r: bool)
    ensures
        r == records_swapped_bodies(transform_spec_views(specs@)),
{
    let ghost s = transform_spec_views(specs@);
    let mut swapping: bool = false;
    let mut j: usize = 0;
    while j < specs.len()
        invariant
            j <= specs@.len(),
            s == transform_spec_views(specs@),
            swapping == exists|i: int| 0 <= i < j && swaps_bodies(#[trigger] s[i]),
            forall|i: int, k: int|
                0 <= i < k < j ==> !(swaps_bodies(#[trigger] s[i]) && (#[trigger] s[k]).name
                    == "body_capture"@),
        decreases specs@.len() - j,
    {
        assert(s[j as int] == specs@[j as int]@);
        if swapping && same(specs[j].name.as_str(), "body_capture") {
            return true;
        }
        if looks_into_bodies(&specs[j]) {
            swapping = true;
        }
        j += 1;
    }
    false
}

/// Warns where `body_capture` stands behind a `secrets` entry that swaps into
/// bodies.
fn body_capture_ordering_lint(specs: &Vec<TransformSpec>, warnings: &mut Vec<String>)
    ensures
        crate::text::texts(final(warnings)@) == (if records_swapped_bodies(
            transform_spec_views(specs@),
        ) {
            crate::text::texts(old(warnings)@).push(
                "body_capture follows a secrets entry with match_body: true; the log will hold real credentials"@,
            )
        } else {
            crate::text::texts(old(warnings)@)
        }),
{
    if capture_follows_swap(specs) {
        let ghost before = warnings@;
        warnings.push(
            "body_capture follows a secrets entry with match_body: true; the log will hold real credentials".to_owned(),
        );
        assert(crate::text::texts(warnings@) == crate::text::texts(before).push(
            "body_capture follows a secrets entry with match_body: true; the log will hold real credentials"@,
        ));
    }
}

fn build_transforms(specs: &Vec<TransformSpec>, resolver: bool) -> (r: Result<
    Vec<Transform>,
    ConfigError,
>)
    ensures
        ({
            let want = all_of(
                transform_spec_views(specs@),
                |t: TransformSpecView| transform_of(t, resolver),
            );
            match r {
                Ok(v) => want == Ok::<Seq<TransformView>, Seq<char>>(
                    crate::pipeline::transform_views(v@),
                ),
                Err(e) => want == Err::<Seq<TransformView>, Seq<char>>(e.0@),
            }
        }),
{
    let ghost s = transform_spec_views(specs@);
    let ghost f = |t: TransformSpecView| transform_of(t, resolver);
    let mut out: Vec<Transform> = Vec::new();
    let mut i: usize = 0;
    assert(crate::pipeline::transform_views(out@) == Seq::<TransformView>::empty());
    while i < specs.len()
        invariant
            i <= specs@.len(),
            s == transform_spec_views(specs@),
            f == (|t: TransformSpecView| transform_of(t, resolver)),
            collected(s, f, i as int) == Ok::<Seq<TransformView>, Seq<char>>(
                crate::pipeline::transform_views(out@),
            ),
        decreases specs@.len() - i,
    {
        assert(s[i as int] == specs@[i as int]@);
        match build_transform(&specs[i], resolver) {
            Ok(t) => {
                let ghost before = out@;
                let ghost tv = t@;
                out.push(t);
                assert(crate::pipeline::transform_views(out@) == crate::pipeline::transform_views(
                    before,
                ).push(tv));
            },
            Err(e) => {
                proof {
                    first_error_counts(s, f, i + 1, s.len() as int);
                }
                return Err(e);
            },
        }
        i += 1;
    }
    Ok(out)
}

fn build_pipeline_inner<R: SecretResolver>(
    specs: &Vec<TransformSpec>,
    resolver: R,
    resolves: bool,
) -> (r: Result<BuiltPipeline<R>, ConfigError>)
    ensures
        ({
            let s = transform_spec_views(specs@);
            match r {
                Ok(b) => {
                    &&& pipeline_of(s, resolves) == Ok::<Seq<TransformView>, Seq<char>>(
                        b.pipeline@,
                    )
                    &&& b.pipeline.resolver_view() == resolver
                    &&& crate::text::texts(b.warnings@) == warnings_of(s)
                },
                Err(e) => pipeline_of(s, resolves) == Err::<Seq<TransformView>, Seq<char>>(e.0@),
            }
        }),
{
    let first: usize = position(specs, "allowlist");
    if first == specs.len() {
        return Err(ConfigError("no allowlist transform: default-deny is structural".to_owned()));
    }
    let mut warnings: Vec<String> = Vec::new();
    assert(crate::text::texts(warnings@) == Seq::<Seq<char>>::empty());
    if first != 0 {
        warnings.push("allowlist is present but not first in the pipeline".to_owned());
        assert(crate::text::texts(warnings@)
            == seq!["allowlist is present but not first in the pipeline"@]);
    }
    body_capture_ordering_lint(specs, &mut warnings);
    match build_transforms(specs, resolves) {
        Ok(transforms) => Ok(
            BuiltPipeline { pipeline: Pipeline::new(transforms, resolver), warnings },
        ),
        Err(e) => Err(e),
    }
}

/// Builds the pipeline of a list, in the order of the list. A `secrets` entry is
/// refused: there is nothing to resolve secrets with.
pub fn build_pipeline(specs: &Vec<TransformSpec>) -> (r: Result<
    BuiltPipeline<NoResolver>,
    ConfigError,
>)
    ensures
        ({
            let s = transform_spec_views(specs@);
            match r {
                Ok(b) => {
                    &&& pipeline_of(s, false) == Ok::<Seq<TransformView>, Seq<char>>(b.pipeline@)
                    &&& crate::text::texts(b.warnings@) == warnings_of(s)
                },
                Err(e) => pipeline_of(s, false) == Err::<Seq<TransformView>, Seq<char>>(e.0@),
            }
        }),
{
    build_pipeline_inner(specs, NoResolver, false)
}

/// Builds the pipeline of a list; its secrets are resolved by `resolver` while
/// requests are evaluated.
pub fn build_pipeline_with_resolver<R: SecretResolver>(
    specs: &Vec<TransformSpec>,
    resolver: R,
) -> (r: Result<BuiltPipeline<R>, ConfigError>)
    ensures
        ({
            let s = transform_spec_views(specs@);
            match r {
                Ok(b) => {
                    &&& pipeline_of(s, true) == Ok::<Seq<TransformView>, Seq<char>>(b.pipeline@)
                    &&& b.pipeline.resolver_view() == resolver
                    &&& crate::text::texts(b.warnings@) == warnings_of(s)
                },
                Err(e) => pipeline_of(s, true) == Err::<Seq<TransformView>, Seq<char>>(e.0@),
            }
        }),
{
    build_pipeline_inner(specs, resolver, true)
}

// ---- Laws ------------------------------------------------------------------------------------

proof fn first_named_is_named(s: Seq<TransformSpecView>, name: Seq<char>, i: int)
    requires
        0 <= i <= s.len(),
    ensures
        i <= first_named(s, name, i) <= s.len(),
        first_named(s, name, i) < s.len() ==> s[first_named(s, name, i)].name == name,
    decreases s.len() - i,
{
    if i < s.len() && s[i].name != name {
        first_named_is_named(s, name, i + 1);
    }
}

proof fn collected_each<A, B>(
    s: Seq<A>,
    f: spec_fn(A) -> Result<B, Seq<char>>,
    n: int,
    k: int,
)
    requires
        0 <= k < n,
        collected(s, f, n) is Ok,
    ensures
        collected(s, f, n)->Ok_0.len() == n,
        f(s[k]) == Ok::<B, Seq<char>>(collected(s, f, n)->Ok_0[k]),
    decreases n,
{
    collected_len(s, f, n);
    collected_len(s, f, n - 1);
    if k < n - 1 {
        collected_each(s, f, n - 1, k);
    }
}

proof fn collected_len<A, B>(s: Seq<A>, f: spec_fn(A) -> Result<B, Seq<char>>, n: int)
    requires
        0 <= n,
        collected(s, f, n) is Ok,
    ensures
        collected(s, f, n)->Ok_0.len() == n,
    decreases n,
{
    if n > 0 {
        collected_len(s, f, n - 1);
    }
}

/// Default deny is structural: every pipeline that can be built has an
/// allowlist in it, and it has as many transforms as the list has entries, each
/// under the name of its entry.
pub proof fn every_pipeline_has_an_allowlist(s: Seq<TransformSpecView>, resolver: bool)
    requires
        pipeline_of(s, resolver) is Ok,
    ensures
        ({
            let ts = pipeline_of(s, resolver)->Ok_0;
            &&& ts.len() == s.len()
            &&& forall|i: int|
                0 <= i < ts.len() ==> crate::transforms::transform_name(#[trigger] ts[i])
                    == s[i].name
            &&& exists|k: int| 0 <= k < ts.len() && #[trigger] ts[k] is Allowlist
        }),
{
    let f = |t: TransformSpecView| transform_of(t, resolver);
    let ts = pipeline_of(s, resolver)->Ok_0;
    first_named_is_named(s, "allowlist"@, 0);
    let k = first_named(s, "allowlist"@, 0);
    collected_len(s, f, s.len() as int);
    assert forall|i: int| 0 <= i < ts.len() implies crate::transforms::transform_name(
        #[trigger] ts[i],
    ) == s[i].name by {
        collected_each(s, f, s.len() as int, i);
    }
    collected_each(s, f, s.len() as int, k);
    assert(ts[k] is Allowlist);
}

/// A pipeline built without a resolver has no secrets to swap.
pub proof fn no_secrets_without_a_resolver(s: Seq<TransformSpecView>)
    requires
        pipeline_of(s, false) is Ok,
    ensures
        forall|i: int|
            0 <= i < pipeline_of(s, false)->Ok_0.len() ==> !(#[trigger] pipeline_of(
                s,
                false,
            )->Ok_0[i] is Secrets),
{
    let f = |t: TransformSpecView| transform_of(t, false);
    collected_len(s, f, s.len() as int);
    assert forall|i: int| 0 <= i < pipeline_of(s, false)->Ok_0.len() implies !(
    #[trigger] pipeline_of(s, false)->Ok_0[i] is Secrets) by {
        collected_each(s, f, s.len() as int, i);
    }
}

} // verus!
