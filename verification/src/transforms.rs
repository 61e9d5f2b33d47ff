//! The built-in transforms, and the closed set of them that a pipeline is made
//! of.
use vstd::prelude::*;
use vstd::slice::slice_subrange;
use vstd::string::*;

use crate::matcher::{
    any_entry_matches, any_rule_matches, canonical_name, Cidr, CidrView, DomainGlob,
    DomainGlobView, HeaderNameEntry, HeaderNameView, Rule, RuleView,
};
use crate::pipeline::{BodyCapture, CaptureView, Ctx, CtxView, TransformError};
use crate::secret::SecretResolver;
use crate::secrets::{
    answered, result_view, swap_notes, swap_result, swap_upto, SecretView, Secrets,
};
use crate::strmap::{put, sorted, StrMap};
use crate::summary::{dropped_names, kept_headers, HeaderView, RequestSummary, RequestView};
use crate::text::{bytes_text, join2, lossy};
use crate::verdict::{Annotation, Notes, NoteView, Verdict, VerdictView};

verus! {

// ---- allowlist --------------------------------------------------------------------------

/// The destination filter: what it does not list is denied.
#[derive(Debug)]
pub struct Allowlist {
    pub(crate) domains: Vec<DomainGlob>,
    pub(crate) cidrs: Vec<Cidr>,
    pub(crate) warn: bool,
}

/// What an allowlist says.
#[verifier::ext_equal]
pub struct AllowlistView {
    pub domains: Seq<DomainGlobView>,
    pub cidrs: Seq<CidrView>,
    pub warn: bool,
}

/// The views of a list of globs.
pub open spec fn glob_views(v: Seq<DomainGlob>) -> Seq<DomainGlobView> {
    v.map_values(|g: DomainGlob| g@)
}

/// The views of a list of prefixes.
pub open spec fn cidr_views(v: Seq<Cidr>) -> Seq<CidrView> {
    v.map_values(|c: Cidr| c@)
}

impl View for Allowlist {
    type V = AllowlistView;

    closed spec fn view(&self) -> AllowlistView {
        AllowlistView {
            domains: glob_views(self.domains@),
            cidrs: cidr_views(self.cidrs@),
            warn: self.warn,
        }
    }
}

/// Some glob matches the host.
pub open spec fn some_domain_accepts(v: Seq<DomainGlobView>, host: Seq<char>) -> bool {
    exists|i: int| 0 <= i < v.len() && crate::matcher::glob_accepts(#[trigger] v[i], host)
}

/// Some prefix holds the host.
pub open spec fn some_cidr_accepts(v: Seq<CidrView>, host: Seq<char>) -> bool {
    exists|i: int| 0 <= i < v.len() && crate::matcher::cidr_accepts(#[trigger] v[i], host)
}

/// The list names the host.
pub open spec fn lists(a: AllowlistView, host: Seq<char>) -> bool {
    some_domain_accepts(a.domains, host) || some_cidr_accepts(a.cidrs, host)
}

pub fn any_domain_matches(v: &Vec<DomainGlob>, host: &str) -> (r: bool)
    ensures
        r == some_domain_accepts(glob_views(v@), host@),
{
    let ghost g = glob_views(v@);
    let mut i: usize = 0;
    while i < v.len()
        invariant
            i <= v@.len(),
            g == glob_views(v@),
            forall|j: int| 0 <= j < i ==> !crate::matcher::glob_accepts(#[trigger] g[j], host@),
        decreases v@.len() - i,
    {
        assert(g[i as int] == v@[i as int]@);
        if v[i].matches(host) {
            return true;
        }
        i += 1;
    }
    false
}

fn any_cidr_matches(v: &Vec<Cidr>, host: &str) -> (r: bool)
    ensures
        r == some_cidr_accepts(cidr_views(v@), host@),
{
    let ghost g = cidr_views(v@);
    let mut i: usize = 0;
    while i < v.len()
        invariant
            i <= v@.len(),
            g == cidr_views(v@),
            forall|j: int| 0 <= j < i ==> !crate::matcher::cidr_accepts(#[trigger] g[j], host@),
        decreases v@.len() - i,
    {
        assert(g[i as int] == v@[i as int]@);
        if v[i].matches_host(host) {
            return true;
        }
        i += 1;
    }
    false
}

/// A host that the list names passes; another is rejected, or with `warn`
/// passes with a note.
pub open spec fn allowlist_step(a: AllowlistView, notes: Notes, req: RequestView) -> StepView {
    let listed = lists(a, req.host);
    StepView {
        result: if listed || a.warn {
            Ok(VerdictView::Continue)
        } else {
            Ok(VerdictView::Reject(None))
        },
        notes: if !listed && a.warn {
            put(notes, "warn"@, NoteView::Flag(true))
        } else {
            notes
        },
        capture: None,
        req,
    }
}

impl Allowlist {
    pub(crate) fn new(domains: Vec<DomainGlob>, cidrs: Vec<Cidr>, warn: bool) -> (r: Self)
        ensures
            r@ == (AllowlistView {
                domains: glob_views(domains@),
                cidrs: cidr_views(cidrs@),
                warn,
            }),
    {
        Allowlist { domains, cidrs, warn }
    }

    pub fn on_request(&self, ctx: &mut Ctx, req: &RequestSummary) -> (r: Result<
        Verdict,
        TransformError,
    >)
        ensures
            ({
                let s = allowlist_step(self@, old(ctx)@.notes, req@);
                &&& result_view(r) == s.result
                &&& final(ctx)@ == (CtxView { notes: s.notes, capture: old(ctx)@.capture })
            }),
    {
        let allowed: bool = any_domain_matches(&self.domains, req.host.as_str())
            || any_cidr_matches(&self.cidrs, req.host.as_str());
        if allowed {
            Ok(Verdict::Continue)
        } else if self.warn {
            ctx.annotate("warn", Annotation::Flag(true));
            Ok(Verdict::Continue)
        } else {
            Ok(Verdict::Reject(None))
        }
    }
}

// ---- annotate ---------------------------------------------------------------------------

/// One group of `annotate`: rules and the lowercase names of the headers to
/// record.
#[derive(Debug)]
pub struct AnnotateGroup {
    pub(crate) rules: Vec<Rule>,
    pub(crate) headers: Vec<String>,
}

/// What a group says.
#[verifier::ext_equal]
pub struct GroupView {
    pub rules: Seq<RuleView>,
    pub headers: Seq<Seq<char>>,
}

impl View for AnnotateGroup {
    type V = GroupView;

    closed spec fn view(&self) -> GroupView {
        GroupView {
            rules: crate::matcher::rule_views(self.rules@),
            headers: crate::text::texts(self.headers@),
        }
    }
}

impl AnnotateGroup {
    pub(crate) fn new(rules: Vec<Rule>, headers: Vec<String>) -> (r: Self)
        ensures
            r@ == (GroupView {
                rules: crate::matcher::rule_views(rules@),
                headers: crate::text::texts(headers@),
            }),
    {
        AnnotateGroup { rules, headers }
    }
}

/// Records headers in the trace; rejects nothing.
#[derive(Debug)]
pub struct Annotate {
    pub(crate) groups: Vec<AnnotateGroup>,
}

/// The views of a list of groups.
pub open spec fn group_views(v: Seq<AnnotateGroup>) -> Seq<GroupView> {
    v.map_values(|g: AnnotateGroup| g@)
}

impl View for Annotate {
    type V = Seq<GroupView>;

    closed spec fn view(&self) -> Seq<GroupView> {
        group_views(self.groups@)
    }
}

/// A note for each of the first `n` names that the request has a header of.
pub open spec fn header_notes(
    notes: Notes,
    names: Seq<Seq<char>>,
    h: Seq<HeaderView>,
    n: int,
) -> Notes
    decreases n,
{
    if n <= 0 {
        notes
    } else {
        let before = header_notes(notes, names, h, n - 1);
        match crate::summary::first_value(h, names[n - 1], 0) {
            Some(v) => put(
                before,
                "header:"@ + crate::matcher::canonical_header(names[n - 1]),
                NoteView::Text(v),
            ),
            None => before,
        }
    }
}

/// The notes of the first `n` groups whose rules match.
pub open spec fn annotate_notes(
    notes: Notes,
    groups: Seq<GroupView>,
    req: RequestView,
    n: int,
) -> Notes
    decreases n,
{
    if n <= 0 {
        notes
    } else {
        let before = annotate_notes(notes, groups, req, n - 1);
        let g = groups[n - 1];
        if crate::matcher::some_rule_accepts(g.rules, req.host, req.method, req.path) {
            header_notes(before, g.headers, req.headers, g.headers.len() as int)
        } else {
            before
        }
    }
}

/// Notes, and nothing else.
pub open spec fn annotate_step(groups: Seq<GroupView>, notes: Notes, req: RequestView) -> StepView {
    StepView {
        result: Ok(VerdictView::Continue),
        notes: annotate_notes(notes, groups, req, groups.len() as int),
        capture: None,
        req,
    }
}

fn annotate_group(group: &AnnotateGroup, ctx: &mut Ctx, req: &RequestSummary)
    ensures
        final(ctx)@ == (CtxView {
            notes: header_notes(
                old(ctx)@.notes,
                group@.headers,
                req@.headers,
                group@.headers.len() as int,
            ),
            capture: old(ctx)@.capture,
        }),
{
    let ghost names = group@.headers;
    let ghost ctx0 = ctx@;
    let mut i: usize = 0;
    while i < group.headers.len()
        invariant
            i <= group.headers@.len(),
            names == crate::text::texts(group.headers@),
            ctx@ == (CtxView {
                notes: header_notes(ctx0.notes, names, req@.headers, i as int),
                capture: ctx0.capture,
            }),
        decreases group.headers@.len() - i,
    {
        let name = group.headers[i].as_str();
        assert(names[i as int] == name@);
        if let Some(value) = req.headers.first(name) {
            let shown = canonical_name(name);
            let key = join2("header:", shown.as_str());
            ctx.annotate(key.as_str(), Annotation::Text(value.to_owned()));
        }
        i += 1;
    }
}

impl Annotate {
    pub(crate) fn new(groups: Vec<AnnotateGroup>) -> (r: Self)
        ensures
            r@ == group_views(groups@),
    {
        Annotate { groups }
    }

    pub fn on_request(&self, ctx: &mut Ctx, req: &RequestSummary) -> (r: Result<
        Verdict,
        TransformError,
    >)
        ensures
            ({
                let s = annotate_step(self@, old(ctx)@.notes, req@);
                &&& result_view(r) == s.result
                &&& final(ctx)@ == (CtxView { notes: s.notes, capture: old(ctx)@.capture })
            }),
    {
        let ghost groups = self@;
        let ghost ctx0 = ctx@;
        let mut i: usize = 0;
        while i < self.groups.len()
            invariant
                i <= self.groups@.len(),
                groups == group_views(self.groups@),
                ctx@ == (CtxView {
                    notes: annotate_notes(ctx0.notes, groups, req@, i as int),
                    capture: ctx0.capture,
                }),
            decreases self.groups@.len() - i,
        {
            let group = &self.groups[i];
            assert(groups[i as int] == group@);
            if any_rule_matches(
                group.rules.as_slice(),
                req.host.as_str(),
                req.method.as_str(),
                req.path.as_str(),
            ) {
                annotate_group(group, ctx, req);
            }
            i += 1;
        }
        Ok(Verdict::Continue)
    }
}

// ---- header_allowlist -------------------------------------------------------------------

/// The request-header filter: headers that it does not list are taken out.
/// Rejects nothing.
#[derive(Debug)]
pub struct HeaderAllowlist {
    pub(crate) entries: Vec<HeaderNameEntry>,
    /// `None`: every request.
    pub(crate) rules: Option<Vec<Rule>>,
}

/// What a header allowlist says.
#[verifier::ext_equal]
pub struct HeaderAllowlistView {
    pub entries: Seq<HeaderNameView>,
    pub rules: Option<Seq<RuleView>>,
}

/// The rules of an optional list.
pub open spec fn opt_rules(o: Option<Vec<Rule>>) -> Option<Seq<RuleView>> {
    match o {
        Some(v) => Some(crate::matcher::rule_views(v@)),
        None => None,
    }
}

impl View for HeaderAllowlist {
    type V = HeaderAllowlistView;

    closed spec fn view(&self) -> HeaderAllowlistView {
        HeaderAllowlistView {
            entries: crate::matcher::entry_views(self.entries@),
            rules: opt_rules(self.rules),
        }
    }
}

/// Which headers the entries keep.
pub open spec fn kept_by(entries: Seq<HeaderNameView>, h: Seq<HeaderView>) -> Seq<bool> {
    h.map_values(|x: HeaderView| crate::matcher::some_entry_accepts(entries, x.0))
}

/// The first `n` names in order, each once.
pub open spec fn name_set(names: Seq<Seq<char>>, n: int) -> Seq<(Seq<char>, ())>
    decreases n,
{
    if n <= 0 {
        Seq::<(Seq<char>, ())>::empty()
    } else {
        put(name_set(names, n - 1), names[n - 1], ())
    }
}

/// Names in order, each once.
pub open spec fn sorted_names(names: Seq<Seq<char>>) -> Seq<Seq<char>> {
    name_set(names, names.len() as int).map_values(|p: (Seq<char>, ())| p.0)
}

/// Sorting keeps exactly the names there are, in rising order.
pub proof fn sorted_names_are_the_names(names: Seq<Seq<char>>)
    ensures
        forall|x: Seq<char>| #[trigger] sorted_names(names).contains(x) == names.contains(x),
        forall|i: int, j: int|
            0 <= i < j < sorted_names(names).len() ==> crate::strmap::less(
                #[trigger] sorted_names(names)[i],
                #[trigger] sorted_names(names)[j],
            ),
{
    let n = names.len() as int;
    let set = name_set(names, n);
    name_set_holds(names, n);
    let out = sorted_names(names);
    assert forall|x: Seq<char>| #[trigger] out.contains(x) == names.contains(x) by {
        crate::strmap::found_is_member(set, x, ());
        if names.contains(x) {
            let i = choose|i: int| 0 <= i < names.len() && names[i] == x;
            assert(crate::strmap::found(set, names[i]) == Some(()));
            let k = choose|k: int| 0 <= k < set.len() && set[k] == (x, ());
            assert(out[k] == x);
        }
        if out.contains(x) {
            let k = choose|k: int| 0 <= k < out.len() && out[k] == x;
            assert(set[k] == (x, ()));
            assert(set.contains((x, ())));
            assert(crate::strmap::found(set, x) is Some);
        }
    }
}

proof fn name_set_holds(names: Seq<Seq<char>>, n: int)
    requires
        0 <= n <= names.len(),
    ensures
        sorted(name_set(names, n)),
        forall|i: int|
            0 <= i < n ==> crate::strmap::found(name_set(names, n), #[trigger] names[i]) == Some(
                (),
            ),
        forall|x: Seq<char>| #[trigger]
            crate::strmap::found(name_set(names, n), x) is Some ==> names.take(n).contains(x),
    decreases n,
{
    if n > 0 {
        name_set_holds(names, n - 1);
        let before = name_set(names, n - 1);
        let k = names[n - 1];
        crate::strmap::put_laws(before, k, ());
        assert forall|i: int| 0 <= i < n implies crate::strmap::found(
            name_set(names, n),
            #[trigger] names[i],
        ) == Some(()) by {
            if names[i] != k {
                assert(crate::strmap::found(before, names[i]) == Some(()));
            }
        }
        assert forall|x: Seq<char>| #[trigger]
            crate::strmap::found(name_set(names, n), x) is Some implies names.take(n).contains(
            x,
        ) by {
            if x == k {
                assert(names.take(n)[n - 1] == x);
            } else {
                assert(crate::strmap::found(before, x) is Some);
                let part = names.take(n - 1);
                let j = choose|j: int| 0 <= j < part.len() && part[j] == x;
                assert(names.take(n)[j] == x);
            }
        }
    }
}

/// Takes out the headers that no entry matches and notes their display names,
/// in order, each once.
pub open spec fn header_allowlist_step(
    a: HeaderAllowlistView,
    notes: Notes,
    req: RequestView,
) -> StepView {
    let n = req.headers.len() as int;
    let kept = kept_by(a.entries, req.headers);
    let removed = dropped_names(req.headers, kept, n);
    if a.rules matches Some(rules) && !crate::matcher::some_rule_accepts(
        rules,
        req.host,
        req.method,
        req.path,
    ) {
        StepView { result: Ok(VerdictView::Continue), notes, capture: None, req }
    } else {
        StepView {
            result: Ok(VerdictView::Continue),
            notes: if removed.len() > 0 {
                put(notes, "stripped_headers"@, NoteView::Texts(sorted_names(removed)))
            } else {
                notes
            },
            capture: None,
            req: RequestView { headers: kept_headers(req.headers, kept, n), ..req },
        }
    }
}

/// Names in order, each once.
fn sort_names(names: &Vec<String>) -> (r: Vec<String>)
    ensures
        crate::text::texts(r@) == sorted_names(crate::text::texts(names@)),
{
    let ghost t = crate::text::texts(names@);
    let mut set: StrMap<()> = StrMap::new();
    let mut i: usize = 0;
    while i < names.len()
        invariant
            i <= names@.len(),
            t == crate::text::texts(names@),
            set@ == name_set(t, i as int),
        decreases names@.len() - i,
    {
        assert(t[i as int] == names@[i as int]@);
        set.insert(names[i].clone(), ());
        i += 1;
    }
    let mut out: Vec<String> = Vec::new();
    let n: usize = set.len();
    let mut k: usize = 0;
    while k < n
        invariant
            k <= n,
            n == set@.len(),
            out@.len() == k,
            forall|j: int| 0 <= j < k ==> (#[trigger] out@[j])@ == set@[j].0,
        decreases n - k,
    {
        out.push(set.key_at(k).to_owned());
        k += 1;
    }
    assert(crate::text::texts(out@) == sorted_names(t));
    out
}

impl HeaderAllowlist {
    pub(crate) fn new(entries: Vec<HeaderNameEntry>, rules: Option<Vec<Rule>>) -> (r: Self)
        ensures
            r@ == (HeaderAllowlistView {
                entries: crate::matcher::entry_views(entries@),
                rules: opt_rules(rules),
            }),
    {
        HeaderAllowlist { entries, rules }
    }

    pub fn on_request(&self, ctx: &mut Ctx, req: &mut RequestSummary) -> (r: Result<
        Verdict,
        TransformError,
    >)
        ensures
            ({
                let s = header_allowlist_step(self@, old(ctx)@.notes, old(req)@);
                &&& result_view(r) == s.result
                &&& final(ctx)@ == (CtxView { notes: s.notes, capture: old(ctx)@.capture })
                &&& final(req)@ == s.req
            }),
    {
        if let Some(rules) = &self.rules {
            if !any_rule_matches(
                rules.as_slice(),
                req.host.as_str(),
                req.method.as_str(),
                req.path.as_str(),
            ) {
                return Ok(Verdict::Continue);
            }
        }
        let entries = &self.entries;
        let ghost h = req@.headers;
        let ghost want = kept_by(self@.entries, h);
        let keep = |name: &str| -> (k: bool)
            ensures
                k == crate::matcher::some_entry_accepts(
                    crate::matcher::entry_views(entries@),
                    name@,
                ),
            { any_entry_matches(entries, name) };
        let removed = req.headers.retain(keep);
        proof {
            let got = choose|got: Seq<bool>|
                {
                    &&& #[trigger] crate::summary::chosen_by(keep, h, got)
                    &&& req@.headers == kept_headers(h, got, h.len() as int)
                    &&& crate::text::texts(removed@) == dropped_names(h, got, h.len() as int)
                };
            assert forall|j: int| 0 <= j < h.len() implies got[j] == want[j] by {
                assert(crate::summary::picked(keep, h[j].0, got[j]));
            }
            assert(got == want);
        }
        if removed.len() > 0 {
            let names = sort_names(&removed);
            ctx.annotate("stripped_headers", Annotation::Texts(names));
        }
        Ok(Verdict::Continue)
    }
}

// ---- body_capture -----------------------------------------------------------------------

/// Records the beginning of the request body; rejects nothing.
#[derive(Debug)]
pub struct BodyCaptureTransform {
    /// How much is recorded; independent of the cap on buffered bodies.
    pub(crate) max_request_body_bytes: usize,
    pub(crate) rules: Vec<Rule>,
}

/// What a body capture says.
#[verifier::ext_equal]
pub struct BodyCaptureView {
    pub max: nat,
    pub rules: Seq<RuleView>,
}

impl View for BodyCaptureTransform {
    type V = BodyCaptureView;

    closed spec fn view(&self) -> BodyCaptureView {
        BodyCaptureView {
            max: self.max_request_body_bytes as nat,
            rules: crate::matcher::rule_views(self.rules@),
        }
    }
}

/// Where a rule matches, the first bytes are captured; it is noted how many, and
/// whether there were more.
pub open spec fn body_capture_step(b: BodyCaptureView, notes: Notes, req: RequestView) -> StepView {
    let bytes = req.body.bytes;
    let cap = if bytes.len() <= b.max {
        bytes.len() as int
    } else {
        b.max as int
    };
    let truncated = bytes.len() > b.max || req.body.over_cap;
    if crate::matcher::some_rule_accepts(b.rules, req.host, req.method, req.path) {
        StepView {
            result: Ok(VerdictView::Continue),
            notes: put(
                put(notes, "captured_bytes"@, NoteView::Count(cap as u64)),
                "truncated"@,
                NoteView::Flag(truncated),
            ),
            capture: Some(
                CaptureView {
                    request_body: bytes_text(bytes.take(cap)),
                    request_body_truncated: truncated,
                },
            ),
            req,
        }
    } else {
        StepView { result: Ok(VerdictView::Continue), notes, capture: None, req }
    }
}

impl BodyCaptureTransform {
    pub(crate) fn new(max_request_body_bytes: usize, rules: Vec<Rule>) -> (r: Self)
        ensures
            r@ == (BodyCaptureView {
                max: max_request_body_bytes as nat,
                rules: crate::matcher::rule_views(rules@),
            }),
    {
        BodyCaptureTransform { max_request_body_bytes, rules }
    }

    pub fn on_request(&self, ctx: &mut Ctx, req: &RequestSummary) -> (r: Result<
        Verdict,
        TransformError,
    >)
        ensures
            ({
                let s = body_capture_step(self@, old(ctx)@.notes, req@);
                &&& result_view(r) == s.result
                &&& final(ctx)@ == (CtxView {
                    notes: s.notes,
                    capture: if s.capture is Some {
                        s.capture
                    } else {
                        old(ctx)@.capture
                    },
                })
            }),
    {
        if !any_rule_matches(
            self.rules.as_slice(),
            req.host.as_str(),
            req.method.as_str(),
            req.path.as_str(),
        ) {
            return Ok(Verdict::Continue);
        }
        let bytes = req.body.read();
        let cap: usize = if bytes.len() <= self.max_request_body_bytes {
            bytes.len()
        } else {
            self.max_request_body_bytes
        };
        let truncated: bool = bytes.len() > self.max_request_body_bytes || req.body.over_cap();
        ctx.annotate("captured_bytes", Annotation::Count(cap as u64));
        ctx.annotate("truncated", Annotation::Flag(truncated));
        let part = slice_subrange(bytes, 0, cap);
        assert(part@ == bytes@.take(cap as int));
        ctx.set_body_capture(
            BodyCapture { request_body: lossy(part), request_body_truncated: truncated },
        );
        Ok(Verdict::Continue)
    }
}

// ---- The registry -----------------------------------------------------------------------

/// What one run of a transform does.
#[verifier::ext_equal]
pub struct StepView {
    /// The verdict, or the text of an error.
    pub result: Result<VerdictView, Seq<char>>,
    pub notes: Notes,
    pub capture: Option<CaptureView>,
    pub req: RequestView,
}

/// A transform. The set is closed.
pub enum Transform {
    Allowlist(Allowlist),
    Annotate(Annotate),
    HeaderAllowlist(HeaderAllowlist),
    BodyCapture(BodyCaptureTransform),
    Secrets(Secrets),
}

/// What a transform says.
#[verifier::ext_equal]
pub enum TransformView {
    Allowlist(AllowlistView),
    Annotate(Seq<GroupView>),
    HeaderAllowlist(HeaderAllowlistView),
    BodyCapture(BodyCaptureView),
    Secrets(Seq<SecretView>),
}

impl View for Transform {
    type V = TransformView;

    open spec fn view(&self) -> TransformView {
        match self {
            Transform::Allowlist(t) => TransformView::Allowlist(t@),
            Transform::Annotate(t) => TransformView::Annotate(t@),
            Transform::HeaderAllowlist(t) => TransformView::HeaderAllowlist(t@),
            Transform::BodyCapture(t) => TransformView::BodyCapture(t@),
            Transform::Secrets(t) => TransformView::Secrets(t@),
        }
    }
}

/// The name of a transform in configuration and traces.
pub open spec fn transform_name(t: TransformView) -> Seq<char> {
    match t {
        TransformView::Allowlist(_) => "allowlist"@,
        TransformView::Annotate(_) => "annotate"@,
        TransformView::HeaderAllowlist(_) => "header_allowlist"@,
        TransformView::BodyCapture(_) => "body_capture"@,
        TransformView::Secrets(_) => "secrets"@,
    }
}

/// The run of the `secrets` transform on the answers of a resolver.
pub open spec fn secrets_step(
    v: Seq<SecretView>,
    notes: Notes,
    req: RequestView,
    answers: Seq<Option<Seq<u8>>>,
) -> StepView {
    let st = swap_upto(v, answers, req, v.len() as int);
    StepView {
        result: swap_result(st),
        notes: if st.end is None {
            swap_notes(notes, st)
        } else {
            notes
        },
        capture: None,
        req: st.req,
    }
}

/// One run of a transform on a request, with a resolver's answers.
pub open spec fn step(
    t: TransformView,
    notes: Notes,
    req: RequestView,
    answers: Seq<Option<Seq<u8>>>,
) -> StepView {
    match t {
        TransformView::Allowlist(a) => allowlist_step(a, notes, req),
        TransformView::Annotate(g) => annotate_step(g, notes, req),
        TransformView::HeaderAllowlist(a) => header_allowlist_step(a, notes, req),
        TransformView::BodyCapture(b) => body_capture_step(b, notes, req),
        TransformView::Secrets(v) => secrets_step(v, notes, req, answers),
    }
}

/// The answers that the transform asked for came from the resolver.
pub open spec fn step_answered<R: SecretResolver>(
    resolver: R,
    t: TransformView,
    req: RequestView,
    answers: Seq<Option<Seq<u8>>>,
) -> bool {
    match t {
        TransformView::Secrets(v) => answered(resolver, v, answers, req),
        _ => true,
    }
}

impl Transform {
    pub fn name(&self) -> (r: &'static str)
        ensures
            r@ == transform_name(self@),
    {
        match self {
            Transform::Allowlist(_) => "allowlist",
            Transform::Annotate(_) => "annotate",
            Transform::HeaderAllowlist(_) => "header_allowlist",
            Transform::BodyCapture(_) => "body_capture",
            Transform::Secrets(_) => "secrets",
        }
    }

    pub fn on_request<R: SecretResolver>(
        &self,
        resolver: &R,
        ctx: &mut Ctx,
        req: &mut RequestSummary,
    ) -> (r: Result<Verdict, TransformError>)
        ensures
            exists|answers: Seq<Option<Seq<u8>>>|
                {
                    let s = step(self@, old(ctx)@.notes, old(req)@, answers);
                    &&& #[trigger] step_answered(*resolver, self@, old(req)@, answers)
                    &&& result_view(r) == s.result
                    &&& final(req)@ == s.req
                    &&& final(ctx)@ == (CtxView {
                        notes: s.notes,
                        capture: if s.capture is Some {
                            s.capture
                        } else {
                            old(ctx)@.capture
                        },
                    })
                },
    {
        let ghost none = Seq::<Option<Seq<u8>>>::empty();
        let ghost req0 = req@;
        let ghost ctx0 = ctx@;
        let r = match self {
            Transform::Allowlist(t) => t.on_request(ctx, req),
            Transform::Annotate(t) => t.on_request(ctx, req),
            Transform::HeaderAllowlist(t) => t.on_request(ctx, req),
            Transform::BodyCapture(t) => t.on_request(ctx, req),
            Transform::Secrets(t) => {
                let r = t.on_request(resolver, ctx, req);
                proof {
                    let answers = choose|answers: Seq<Option<Seq<u8>>>|
                        {
                            let st = swap_upto(t@, answers, req0, t@.len() as int);
                            &&& #[trigger] answered(*resolver, t@, answers, req0)
                            &&& req@ == st.req
                            &&& result_view(r) == swap_result(st)
                            &&& ctx@.capture == ctx0.capture
                            &&& ctx@.notes == (if st.end is None {
                                swap_notes(ctx0.notes, st)
                            } else {
                                ctx0.notes
                            })
                        };
                    assert(step_answered(*resolver, self@, req0, answers));
                }
                return r;
            },
        };
        assert(step_answered(*resolver, self@, req0, none));
        r
    }

    /// On the way back no transform does anything.
    pub fn on_response(&self, ctx: &mut Ctx, req: &RequestSummary) -> (r: Result<
        Verdict,
        TransformError,
    >)
        ensures
            r == Ok::<Verdict, TransformError>(Verdict::Continue),
            final(ctx)@ == old(ctx)@,
    {
        Ok(Verdict::Continue)
    }
}

/// Transforms that observe let every request pass as it came; the header filter
/// lets every request pass too and changes nothing but its headers. An allowlist
/// that warns lets every request pass.
pub proof fn observers_never_interfere(
    t: TransformView,
    notes: Notes,
    req: RequestView,
    answers: Seq<Option<Seq<u8>>>,
)
    ensures
        t is Annotate || t is BodyCapture || (t matches TransformView::Allowlist(a) && a.warn) ==> {
            &&& step(t, notes, req, answers).result == Ok::<VerdictView, Seq<char>>(
                VerdictView::Continue,
            )
            &&& step(t, notes, req, answers).req == req
        },
        t is HeaderAllowlist ==> {
            let s = step(t, notes, req, answers);
            &&& s.result == Ok::<VerdictView, Seq<char>>(VerdictView::Continue)
            &&& s.req == (RequestView { headers: s.req.headers, ..req })
        },
{
}

} // verus!
