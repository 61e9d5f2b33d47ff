//! The pipeline: what a transform is handed, the order in which transforms run,
//! and when it stops.
use vstd::prelude::*;

use crate::secret::SecretResolver;
use crate::secrets::result_view;
use crate::strmap::{put, StrMap};
use crate::summary::{RequestSummary, RequestView};
use crate::transforms::{step, step_answered, transform_name, Transform, TransformView};
use crate::verdict::{
    trace_views, Annotation, Notes, NoteView, Response, ResponseView, Trace, TraceVerdict,
    TraceView, Verdict, VerdictView,
};

verus! {

// ---- What a transform is handed -------------------------------------------------------

/// The request body as recorded for the audit.
#[derive(Debug)]
pub struct BodyCapture {
    pub request_body: String,
    pub request_body_truncated: bool,
}

/// What a body capture says.
#[verifier::ext_equal]
pub struct CaptureView {
    pub request_body: Seq<char>,
    pub request_body_truncated: bool,
}

impl View for BodyCapture {
    type V = CaptureView;

    open spec fn view(&self) -> CaptureView {
        CaptureView {
            request_body: self.request_body@,
            request_body_truncated: self.request_body_truncated,
        }
    }
}

/// The view of an optional capture.
pub open spec fn opt_capture(c: Option<BodyCapture>) -> Option<CaptureView> {
    match c {
        Some(x) => Some(x@),
        None => None,
    }
}

impl BodyCapture {
    pub fn copy(&self) -> (r: BodyCapture)
        ensures
            r@ == self@,
    {
        BodyCapture {
            request_body: self.request_body.clone(),
            request_body_truncated: self.request_body_truncated,
        }
    }
}

/// The context of one run of one transform. Its annotations go into that
/// transform's own trace; no other transform sees them.
pub struct Ctx {
    annotations: StrMap<Annotation>,
    body_capture: Option<BodyCapture>,
}

/// What a context holds.
#[verifier::ext_equal]
pub struct CtxView {
    pub notes: Notes,
    pub capture: Option<CaptureView>,
}

impl View for Ctx {
    type V = CtxView;

    closed spec fn view(&self) -> CtxView {
        CtxView {
            notes: crate::verdict::notes_of(self.annotations@),
            capture: opt_capture(self.body_capture),
        }
    }
}

/// No annotation.
pub open spec fn no_notes() -> Notes {
    Seq::<(Seq<char>, NoteView)>::empty()
}

impl Ctx {
    pub fn new() -> (r: Ctx)
        ensures
            r@ == (CtxView { notes: no_notes(), capture: None }),
    {
        let annotations: StrMap<Annotation> = StrMap::new();
        assert(crate::verdict::notes_of(annotations@) == no_notes());
        Ctx { annotations, body_capture: None }
    }

    /// Sets an annotation; one of the same key is replaced.
    pub fn annotate(&mut self, key: &str, value: Annotation)
        ensures
            final(self)@ == (CtxView {
                notes: put(old(self)@.notes, key@, value@),
                capture: old(self)@.capture,
            }),
    {
        proof {
            crate::verdict::notes_put(self.annotations@, key@, value);
        }
        self.annotations.insert(key.to_owned(), value);
    }

    /// Attaches captured bytes to the audit record.
    pub fn set_body_capture(&mut self, capture: BodyCapture)
        ensures
            final(self)@ == (CtxView { notes: old(self)@.notes, capture: Some(capture@) }),
    {
        self.body_capture = Some(capture);
    }
}

/// A transform that failed. It stops the pipeline and is never taken for a
/// pass.
#[derive(Debug)]
pub struct TransformError(pub String);

// ---- Outcomes -----------------------------------------------------------------------------

/// The proof that a pipeline let a request pass. Only this module makes one,
/// and dialling consumes it: without it no connection is opened.
pub struct AllowProof {
    _sealed: (),
}

/// What the pipeline decided on a request.
#[allow(inconsistent_fields)]
pub enum Outcome {
    Continue(AllowProof),
    Reject { by: String, response: Option<Response> },
    Stub { by: String, response: Response },
    /// A transform failed: the proxy answers 502.
    Error { by: String, message: String },
}

/// What an outcome says.
#[verifier::ext_equal]
#[allow(inconsistent_fields)]
pub enum OutcomeView {
    Continue,
    Reject { by: Seq<char>, response: Option<ResponseView> },
    Stub { by: Seq<char>, response: ResponseView },
    Error { by: Seq<char>, message: Seq<char> },
}

impl View for Outcome {
    type V = OutcomeView;

    open spec fn view(&self) -> OutcomeView {
        match self {
            Outcome::Continue(_) => OutcomeView::Continue,
            Outcome::Reject { by, response } => OutcomeView::Reject {
                by: by@,
                response: crate::verdict::opt_response(*response),
            },
            Outcome::Stub { by, response } => OutcomeView::Stub { by: by@, response: response@ },
            Outcome::Error { by, message } => OutcomeView::Error { by: by@, message: message@ },
        }
    }
}

/// The outcome, and what is kept of the run for the audit.
pub struct PipelineOutcome {
    pub outcome: Outcome,
    /// In the order in which the transforms ran.
    pub request_traces: Vec<Trace>,
    pub body_capture: Option<BodyCapture>,
    /// The path as the client sent it. Audit records use this one: a secret
    /// may have been swapped into the path that goes upstream.
    pub request_path: String,
}

/// What a pipeline outcome says.
#[verifier::ext_equal]
pub struct PipelineOutcomeView {
    pub outcome: OutcomeView,
    pub traces: Seq<TraceView>,
    pub capture: Option<CaptureView>,
    pub request_path: Seq<char>,
}

impl View for PipelineOutcome {
    type V = PipelineOutcomeView;

    open spec fn view(&self) -> PipelineOutcomeView {
        PipelineOutcomeView {
            outcome: self.outcome@,
            traces: trace_views(self.request_traces@),
            capture: opt_capture(self.body_capture),
            request_path: self.request_path@,
        }
    }
}

// ---- One transform --------------------------------------------------------------------------

/// The trace of a result.
pub open spec fn trace_of(
    name: Seq<char>,
    result: Result<VerdictView, Seq<char>>,
    notes: Notes,
) -> TraceView {
    TraceView {
        name,
        verdict: match result {
            Ok(VerdictView::Continue) => TraceVerdict::Continue,
            Ok(VerdictView::Reject(_)) => TraceVerdict::Reject,
            Ok(VerdictView::Stub(_)) => TraceVerdict::Stub,
            Err(_) => TraceVerdict::Error,
        },
        error: match result {
            Ok(_) => None,
            Err(m) => Some(m),
        },
        notes,
    }
}

/// The outcome with which a result stops the pipeline; none where it goes on.
pub open spec fn stop_of(name: Seq<char>, result: Result<VerdictView, Seq<char>>) -> Option<
    OutcomeView,
> {
    match result {
        Ok(VerdictView::Continue) => None,
        Ok(VerdictView::Reject(response)) => Some(OutcomeView::Reject { by: name, response }),
        Ok(VerdictView::Stub(response)) => Some(OutcomeView::Stub { by: name, response }),
        Err(message) => Some(OutcomeView::Error { by: name, message }),
    }
}

fn trace(
    name: &str,
    verdict: TraceVerdict,
    error: Option<String>,
    annotations: StrMap<Annotation>,
) -> (r: Trace)
    ensures
        r@ == (TraceView {
            name: name@,
            verdict,
            error: crate::text::opt_text(error),
            notes: crate::verdict::notes_of(annotations@),
        }),
{
    Trace { name: name.to_owned(), verdict, error, annotations }
}

/// Turns what a transform returned into its trace, and into the outcome where
/// it stops the pipeline.
pub fn settle(name: &str, result: Result<Verdict, TransformError>, ctx: Ctx) -> (r: (
    Trace,
    Option<Outcome>,
    Option<BodyCapture>,
))
    ensures
        r.0@ == trace_of(name@, result_view(result), ctx@.notes),
        match r.1 {
            Some(o) => stop_of(name@, result_view(result)) == Some(o@),
            None => stop_of(name@, result_view(result)) is None,
        },
        opt_capture(r.2) == ctx@.capture,
{
    match result {
        Ok(Verdict::Continue) => (
            trace(name, TraceVerdict::Continue, None, ctx.annotations),
            None,
            ctx.body_capture,
        ),
        Ok(Verdict::Reject(response)) => (
            trace(name, TraceVerdict::Reject, None, ctx.annotations),
            Some(Outcome::Reject { by: name.to_owned(), response }),
            ctx.body_capture,
        ),
        Ok(Verdict::Stub(response)) => (
            trace(name, TraceVerdict::Stub, None, ctx.annotations),
            Some(Outcome::Stub { by: name.to_owned(), response }),
            ctx.body_capture,
        ),
        Err(TransformError(message)) => (
            trace(name, TraceVerdict::Error, Some(message.clone()), ctx.annotations),
            Some(Outcome::Error { by: name.to_owned(), message }),
            ctx.body_capture,
        ),
    }
}

// ---- The request path -----------------------------------------------------------------------

/// How far a run has come.
#[verifier::ext_equal]
pub struct RunView {
    pub req: RequestView,
    pub traces: Seq<TraceView>,
    pub capture: Option<CaptureView>,
    /// Set where a transform stopped the run.
    pub stop: Option<OutcomeView>,
}

/// One more transform.
pub open spec fn advance(st: RunView, t: TransformView, answers: Seq<Option<Seq<u8>>>) -> RunView {
    let s = step(t, no_notes(), st.req, answers);
    RunView {
        req: s.req,
        traces: st.traces.push(trace_of(transform_name(t), s.result, s.notes)),
        capture: if s.capture is Some {
            s.capture
        } else {
            st.capture
        },
        stop: stop_of(transform_name(t), s.result),
    }
}

/// After the first `n` transforms; a stop stays.
pub open spec fn run_upto(
    ts: Seq<TransformView>,
    answers: Seq<Seq<Option<Seq<u8>>>>,
    req: RequestView,
    n: int,
) -> RunView
    decreases n,
{
    if n <= 0 {
        RunView { req, traces: Seq::<TraceView>::empty(), capture: None, stop: None }
    } else {
        let st = run_upto(ts, answers, req, n - 1);
        if st.stop is Some {
            st
        } else {
            advance(st, ts[n - 1], answers[n - 1])
        }
    }
}

/// The whole run.
pub open spec fn run(
    ts: Seq<TransformView>,
    answers: Seq<Seq<Option<Seq<u8>>>>,
    req: RequestView,
) -> RunView {
    run_upto(ts, answers, req, ts.len() as int)
}

/// What a run comes to. A request passes only where nothing stopped it.
pub open spec fn outcome_of(st: RunView, request_path: Seq<char>) -> PipelineOutcomeView {
    PipelineOutcomeView {
        outcome: match st.stop {
            Some(o) => o,
            None => OutcomeView::Continue,
        },
        traces: st.traces,
        capture: st.capture,
        request_path,
    }
}

/// Every answer that the run asked for came from the resolver.
pub open spec fn run_answered<R: SecretResolver>(
    resolver: R,
    ts: Seq<TransformView>,
    answers: Seq<Seq<Option<Seq<u8>>>>,
    req: RequestView,
) -> bool {
    &&& answers.len() == ts.len()
    &&& forall|k: int|
        0 <= k < ts.len() && (#[trigger] run_upto(ts, answers, req, k)).stop is None
            ==> step_answered(resolver, ts[k], run_upto(ts, answers, req, k).req, answers[k])
}

/// The ordered pipeline. It does not change once built.
pub struct Pipeline<R> {
    transforms: Vec<Transform>,
    resolver: R,
}

/// The views of a list of transforms.
pub open spec fn transform_views(v: Seq<Transform>) -> Seq<TransformView> {
    v.map_values(|t: Transform| t@)
}

impl<R> View for Pipeline<R> {
    type V = Seq<TransformView>;

    closed spec fn view(&self) -> Seq<TransformView> {
        transform_views(self.transforms@)
    }
}

impl<R> Pipeline<R> {
    /// The resolver of the pipeline's secrets.
    pub closed spec fn resolver_view(self) -> R {
        self.resolver
    }
}

/// Only the answers to the first `n` transforms matter to them.
proof fn run_prefix(
    ts: Seq<TransformView>,
    a: Seq<Seq<Option<Seq<u8>>>>,
    b: Seq<Seq<Option<Seq<u8>>>>,
    req: RequestView,
    n: int,
)
    requires
        forall|k: int| 0 <= k < n ==> a[k] == b[k],
    ensures
        run_upto(ts, a, req, n) == run_upto(ts, b, req, n),
    decreases n,
{
    if n > 0 {
        run_prefix(ts, a, b, req, n - 1);
    }
}

/// A stop stays.
proof fn stop_stays(
    ts: Seq<TransformView>,
    a: Seq<Seq<Option<Seq<u8>>>>,
    req: RequestView,
    n: int,
    m: int,
)
    requires
        n <= m,
        run_upto(ts, a, req, n).stop is Some,
    ensures
        run_upto(ts, a, req, m) == run_upto(ts, a, req, n),
    decreases m - n,
{
    if n < m {
        stop_stays(ts, a, req, n, m - 1);
    }
}

/// Answers to the transforms behind a stop may be anything.
proof fn fill_answers<R: SecretResolver>(
    resolver: R,
    ts: Seq<TransformView>,
    a: Seq<Seq<Option<Seq<u8>>>>,
    req: RequestView,
) -> (b: Seq<Seq<Option<Seq<u8>>>>)
    requires
        a.len() <= ts.len(),
        a.len() < ts.len() ==> run_upto(ts, a, req, a.len() as int).stop is Some,
        forall|k: int|
            0 <= k < a.len() && (#[trigger] run_upto(ts, a, req, k)).stop is None
                ==> step_answered(resolver, ts[k], run_upto(ts, a, req, k).req, a[k]),
    ensures
        run_answered(resolver, ts, b, req),
        run(ts, b, req) == run_upto(ts, a, req, a.len() as int),
{
    let b = a + Seq::new((ts.len() - a.len()) as nat, |i: int| Seq::<Option<Seq<u8>>>::empty());
    run_prefix(ts, b, a, req, a.len() as int);
    if a.len() < ts.len() {
        stop_stays(ts, b, req, a.len() as int, ts.len() as int);
    }
    assert forall|k: int|
        0 <= k < ts.len() && (#[trigger] run_upto(ts, b, req, k)).stop is None implies step_answered(
        resolver,
        ts[k],
        run_upto(ts, b, req, k).req,
        b[k],
    ) by {
        if k < a.len() {
            run_prefix(ts, b, a, req, k);
            assert(run_upto(ts, a, req, k).stop is None);
        } else {
            stop_stays(ts, b, req, a.len() as int, k);
        }
    }
    b
}

impl<R: SecretResolver> Pipeline<R> {
    pub(crate) fn new(transforms: Vec<Transform>, resolver: R) -> (r: Self)
        ensures
            r@ == transform_views(transforms@),
            r.resolver_view() == resolver,
    {
        Pipeline { transforms, resolver }
    }

    pub fn transform_names(&self) -> (r: Vec<&'static str>)
        ensures
            r@.len() == self@.len(),
            forall|i: int| 0 <= i < self@.len() ==> (#[trigger] r@[i])@ == transform_name(self@[i]),
    {
        let mut out: Vec<&'static str> = Vec::new();
        let mut i: usize = 0;
        while i < self.transforms.len()
            invariant
                i <= self.transforms@.len(),
                self@ == transform_views(self.transforms@),
                out@.len() == i,
                forall|j: int| 0 <= j < i ==> (#[trigger] out@[j])@ == transform_name(self@[j]),
            decreases self.transforms@.len() - i,
        {
            out.push(self.transforms[i].name());
            i += 1;
        }
        out
    }

    /// Runs every transform in order on the one request, up to the first that
    /// rejects, stubs or fails.
    pub fn evaluate_request(&self, req: &mut RequestSummary) -> (r: PipelineOutcome)
        ensures
            exists|answers: Seq<Seq<Option<Seq<u8>>>>|
                {
                    &&& #[trigger] run_answered(self.resolver_view(), self@, answers, old(req)@)
                    &&& final(req)@ == run(self@, answers, old(req)@).req
                    &&& r@ == outcome_of(run(self@, answers, old(req)@), old(req)@.path)
                },
    {
        let ghost ts = self@;
        let ghost start = req@;
        let ghost resolver = self.resolver;
        let ghost mut answers = Seq::<Seq<Option<Seq<u8>>>>::empty();
        let mut traces: Vec<Trace> = Vec::new();
        let mut body_capture: Option<BodyCapture> = None;
        let request_path = req.path.clone();
        let n: usize = self.transforms.len();
        let mut i: usize = 0;
        assert(trace_views(traces@) == Seq::<TraceView>::empty());
        while i < n
            invariant
                i <= n,
                n == ts.len(),
                n == self.transforms@.len(),
                ts == self@,
                ts == transform_views(self.transforms@),
                start == old(req)@,
                resolver == self.resolver,
                resolver == self.resolver_view(),
                request_path@ == start.path,
                answers.len() == i,
                run_upto(ts, answers, start, i as int) == (RunView {
                    req: req@,
                    traces: trace_views(traces@),
                    capture: opt_capture(body_capture),
                    stop: None,
                }),
                forall|k: int|
                    0 <= k < i && (#[trigger] run_upto(ts, answers, start, k)).stop is None
                        ==> step_answered(
                        resolver,
                        ts[k],
                        run_upto(ts, answers, start, k).req,
                        answers[k],
                    ),
            decreases n - i,
        {
            let t = &self.transforms[i];
            let ghost before = answers;
            let ghost st = run_upto(ts, answers, start, i as int);
            let ghost req0 = req@;
            assert(ts[i as int] == t@);
            let mut ctx = Ctx::new();
            let result = t.on_request(&self.resolver, &mut ctx, req);
            let ghost given = choose|given: Seq<Option<Seq<u8>>>|
                {
                    let s = step(t@, no_notes(), req0, given);
                    &&& #[trigger] step_answered(self.resolver, t@, req0, given)
                    &&& result_view(result) == s.result
                    &&& req@ == s.req
                    &&& ctx@ == (CtxView {
                        notes: s.notes,
                        capture: if s.capture is Some {
                            s.capture
                        } else {
                            None
                        },
                    })
                };
            proof {
                answers = answers.push(given);
                run_prefix(ts, answers, before, start, i as int);
                assert forall|k: int|
                    0 <= k < i + 1 && (#[trigger] run_upto(ts, answers, start, k)).stop
                        is None implies step_answered(
                    resolver,
                    ts[k],
                    run_upto(ts, answers, start, k).req,
                    answers[k],
                ) by {
                    run_prefix(ts, answers, before, start, k);
                    if k < i {
                        assert(run_upto(ts, before, start, k).stop is None);
                    }
                }
                assert(run_upto(ts, answers, start, i + 1) == advance(st, t@, given));
            }
            let (one, stop, captured): (Trace, Option<Outcome>, Option<BodyCapture>) = settle(
                t.name(),
                result,
                ctx,
            );
            let ghost old_traces = traces@;
            let ghost one_view = one@;
            traces.push(one);
            assert(trace_views(traces@) == trace_views(old_traces).push(one_view));
            if captured.is_some() {
                body_capture = captured;
            }
            i += 1;
            if let Some(outcome) = stop {
                let r = PipelineOutcome {
                    outcome,
                    request_traces: traces,
                    body_capture,
                    request_path,
                };
                let ghost all = fill_answers(resolver, ts, answers, start);
                proof {
                    assert(run_answered(self.resolver_view(), self@, all, start));
                    assert(r@ == outcome_of(run(ts, all, start), start.path));
                }
                return r;
            }
        }
        let r = PipelineOutcome {
            outcome: Outcome::Continue(AllowProof { _sealed: () }),
            request_traces: traces,
            body_capture,
            request_path,
        };
        proof {
            assert(run_answered(self.resolver_view(), self@, answers, start));
            assert(r@ == outcome_of(run(ts, answers, start), start.path));
        }
        r
    }
}

// ---- The response path ----------------------------------------------------------------------

/// What the response path decided.
pub enum ResponseAction {
    /// Relay the upstream response.
    Forward,
    /// Answer with the response of a transform instead.
    Replace { by: String, response: Response, stub: bool },
    /// A transform failed: the proxy answers 502.
    Error { by: String, message: String },
}

/// What a response action says.
#[verifier::ext_equal]
pub enum ResponseActionView {
    Forward,
    Replace { by: Seq<char>, response: ResponseView, stub: bool },
    Error { by: Seq<char>, message: Seq<char> },
}

impl View for ResponseAction {
    type V = ResponseActionView;

    open spec fn view(&self) -> ResponseActionView {
        match self {
            ResponseAction::Forward => ResponseActionView::Forward,
            ResponseAction::Replace { by, response, stub } => ResponseActionView::Replace {
                by: by@,
                response: response@,
                stub: *stub,
            },
            ResponseAction::Error { by, message } => ResponseActionView::Error {
                by: by@,
                message: message@,
            },
        }
    }
}

/// The action, and the traces of the response path.
pub struct ResponseOutcome {
    pub traces: Vec<Trace>,
    pub action: ResponseAction,
}

/// An empty 403.
pub open spec fn forbidden() -> ResponseView {
    ResponseView { status: 403, headers: Seq::empty(), body: Seq::empty() }
}

/// What a stop on the response path comes to: a rejection without a response of
/// its own is answered with an empty 403.
pub open spec fn response_action(stop: OutcomeView) -> ResponseActionView {
    match stop {
        OutcomeView::Continue => ResponseActionView::Forward,
        OutcomeView::Reject { by, response } => ResponseActionView::Replace {
            by,
            response: match response {
                Some(r) => r,
                None => forbidden(),
            },
            stub: false,
        },
        OutcomeView::Stub { by, response } => ResponseActionView::Replace {
            by,
            response,
            stub: true,
        },
        OutcomeView::Error { by, message } => ResponseActionView::Error { by, message },
    }
}

/// Turns a stop on the response path into what is answered.
pub fn replace_response(stop: Outcome) -> (r: ResponseAction)
    ensures
        r@ == response_action(stop@),
{
    match stop {
        Outcome::Continue(_) => ResponseAction::Forward,
        Outcome::Reject { by, response } => {
            let response = match response {
                Some(r) => r,
                None => {
                    let r = Response { status: 403, headers: Vec::new(), body: Vec::new() };
                    assert(r@ == forbidden());
                    r
                },
            };
            ResponseAction::Replace { by, response, stub: false }
        },
        Outcome::Stub { by, response } => ResponseAction::Replace { by, response, stub: true },
        Outcome::Error { by, message } => ResponseAction::Error { by, message },
    }
}

/// The trace of a transform that had nothing to do.
pub open spec fn idle_trace(t: TransformView) -> TraceView {
    trace_of(transform_name(t), Ok(VerdictView::Continue), no_notes())
}

impl<R: SecretResolver> Pipeline<R> {
    /// Runs every transform in the same order once the upstream has answered.
    pub fn evaluate_response(&self, req: &RequestSummary) -> (r: ResponseOutcome)
        ensures
            trace_views(r.traces@) == self@.map_values(|t: TransformView| idle_trace(t)),
            r.action@ == ResponseActionView::Forward,
    {
        let ghost idle = self@.map_values(|t: TransformView| idle_trace(t));
        let mut traces: Vec<Trace> = Vec::new();
        let n: usize = self.transforms.len();
        let mut i: usize = 0;
        while i < n
            invariant
                i <= n,
                n == self.transforms@.len(),
                self@ == transform_views(self.transforms@),
                idle == self@.map_values(|t: TransformView| idle_trace(t)),
                traces@.len() == i,
                forall|j: int| 0 <= j < i ==> (#[trigger] traces@[j])@ == idle[j],
            decreases n - i,
        {
            let t = &self.transforms[i];
            assert(self@[i as int] == t@);
            let mut ctx = Ctx::new();
            let result = t.on_response(&mut ctx, req);
            let (one, stop, _captured): (Trace, Option<Outcome>, Option<BodyCapture>) = settle(
                t.name(),
                result,
                ctx,
            );
            traces.push(one);
            i += 1;
            if let Some(o) = stop {
                return ResponseOutcome { traces, action: replace_response(o) };
            }
        }
        assert(trace_views(traces@) == idle);
        ResponseOutcome { traces, action: ResponseAction::Forward }
    }
}

// ---- Laws -------------------------------------------------------------------------------------

/// What no transform changes.
pub open spec fn same_destination(a: RequestView, b: RequestView) -> bool {
    &&& a.mode == b.mode
    &&& a.method == b.method
    &&& a.host == b.host
    &&& a.port == b.port
    &&& a.sni == b.sni
    &&& a.remote_addr == b.remote_addr
}

proof fn swaps_keep_destination(
    v: Seq<crate::secrets::SecretView>,
    answers: Seq<Option<Seq<u8>>>,
    req: RequestView,
    n: int,
)
    ensures
        same_destination(crate::secrets::swap_upto(v, answers, req, n).req, req),
        req.body.over_cap ==> crate::secrets::swap_upto(v, answers, req, n).req.body == req.body,
    decreases n,
{
    if n > 0 {
        swaps_keep_destination(v, answers, req, n - 1);
    }
}

proof fn step_keeps_destination(
    t: TransformView,
    notes: Notes,
    req: RequestView,
    answers: Seq<Option<Seq<u8>>>,
)
    ensures
        same_destination(step(t, notes, req, answers).req, req),
        req.body.over_cap ==> step(t, notes, req, answers).req.body == req.body,
{
    if let TransformView::Secrets(v) = t {
        swaps_keep_destination(v, answers, req, v.len() as int);
    }
}

proof fn run_upto_keeps_destination(
    ts: Seq<TransformView>,
    answers: Seq<Seq<Option<Seq<u8>>>>,
    req: RequestView,
    n: int,
)
    ensures
        same_destination(run_upto(ts, answers, req, n).req, req),
        req.body.over_cap ==> run_upto(ts, answers, req, n).req.body == req.body,
    decreases n,
{
    if n > 0 {
        run_upto_keeps_destination(ts, answers, req, n - 1);
        let st = run_upto(ts, answers, req, n - 1);
        if st.stop is None {
            step_keeps_destination(ts[n - 1], no_notes(), st.req, answers[n - 1]);
        }
    }
}

/// No pipeline changes where a request goes, its method, its mode or its
/// client, whatever its transforms are and whatever the resolver answers.
pub proof fn pipeline_keeps_destination(
    ts: Seq<TransformView>,
    answers: Seq<Seq<Option<Seq<u8>>>>,
    req: RequestView,
)
    ensures
        same_destination(run(ts, answers, req).req, req),
{
    run_upto_keeps_destination(ts, answers, req, ts.len() as int);
}

/// A body that was cut at the cap leaves every pipeline as it came.
pub proof fn pipeline_keeps_over_cap_body(
    ts: Seq<TransformView>,
    answers: Seq<Seq<Option<Seq<u8>>>>,
    req: RequestView,
)
    requires
        req.body.over_cap,
    ensures
        run(ts, answers, req).req.body == req.body,
{
    run_upto_keeps_destination(ts, answers, req, ts.len() as int);
}

/// Traces of a run that was not stopped all say continue; of a stopped run the
/// last one alone says something else, and it is the one the outcome names.
pub open spec fn traces_explain(st: RunView) -> bool {
    match st.stop {
        None => forall|i: int|
            0 <= i < st.traces.len() ==> (#[trigger] st.traces[i]).verdict
                == TraceVerdict::Continue,
        Some(o) => {
            &&& st.traces.len() > 0
            &&& forall|i: int|
                0 <= i < st.traces.len() - 1 ==> (#[trigger] st.traces[i]).verdict
                    == TraceVerdict::Continue
            &&& match o {
                OutcomeView::Continue => false,
                OutcomeView::Reject { by, .. } => st.traces.last().verdict == TraceVerdict::Reject
                    && st.traces.last().name == by,
                OutcomeView::Stub { by, .. } => st.traces.last().verdict == TraceVerdict::Stub
                    && st.traces.last().name == by,
                OutcomeView::Error { by, message } => st.traces.last().verdict
                    == TraceVerdict::Error && st.traces.last().name == by
                    && st.traces.last().error == Some(message),
            }
        },
    }
}

proof fn run_upto_explained(
    ts: Seq<TransformView>,
    answers: Seq<Seq<Option<Seq<u8>>>>,
    req: RequestView,
    n: int,
)
    requires
        0 <= n <= ts.len(),
    ensures
        traces_explain(run_upto(ts, answers, req, n)),
        run_upto(ts, answers, req, n).traces.len() <= n,
        run_upto(ts, answers, req, n).stop is None ==> run_upto(ts, answers, req, n).traces.len()
            == n,
        forall|i: int|
            0 <= i < run_upto(ts, answers, req, n).traces.len() ==> (#[trigger] run_upto(
                ts,
                answers,
                req,
                n,
            ).traces[i]).name == transform_name(ts[i]),
    decreases n,
{
    if n > 0 {
        run_upto_explained(ts, answers, req, n - 1);
    }
}

/// Every run leaves one trace for each transform that ran, in order and under
/// its name. The request passes exactly where all transforms ran and each said
/// continue; else the outcome is what the last trace records. So a transform
/// that fails never lets a request pass.
pub proof fn outcome_is_what_the_traces_say(
    ts: Seq<TransformView>,
    answers: Seq<Seq<Option<Seq<u8>>>>,
    req: RequestView,
    path: Seq<char>,
)
    ensures
        ({
            let o = outcome_of(run(ts, answers, req), path);
            &&& traces_explain(run(ts, answers, req))
            &&& o.traces.len() <= ts.len()
            &&& forall|i: int|
                0 <= i < o.traces.len() ==> (#[trigger] o.traces[i]).name == transform_name(ts[i])
            &&& o.outcome == OutcomeView::Continue <==> (o.traces.len() == ts.len() && forall|
                i: int,
            |
                0 <= i < o.traces.len() ==> (#[trigger] o.traces[i]).verdict
                    == TraceVerdict::Continue)
        }),
{
    run_upto_explained(ts, answers, req, ts.len() as int);
    let st = run(ts, answers, req);
    if st.stop is Some {
        assert(st.traces[st.traces.len() - 1].verdict != TraceVerdict::Continue);
    }
}

/// Default deny: where an allowlist that does not merely warn does not name the
/// host, the request never passes, wherever in the pipeline the list stands.
pub proof fn unlisted_host_never_passes(
    ts: Seq<TransformView>,
    answers: Seq<Seq<Option<Seq<u8>>>>,
    req: RequestView,
    path: Seq<char>,
    k: int,
)
    requires
        0 <= k < ts.len(),
        ts[k] matches TransformView::Allowlist(a) && !a.warn && !crate::transforms::lists(
            a,
            req.host,
        ),
    ensures
        outcome_of(run(ts, answers, req), path).outcome != OutcomeView::Continue,
{
    run_upto_keeps_destination(ts, answers, req, k);
    run_upto_explained(ts, answers, req, ts.len() as int);
    stop_stays(ts, answers, req, k + 1, ts.len() as int);
}

/// With the allowlist first, a host that it does not name is rejected by it with
/// nothing else run, and the request stays as it came.
pub proof fn leading_allowlist_rejects(
    ts: Seq<TransformView>,
    answers: Seq<Seq<Option<Seq<u8>>>>,
    req: RequestView,
    path: Seq<char>,
)
    requires
        ts.len() > 0,
        ts[0] matches TransformView::Allowlist(a) && !a.warn && !crate::transforms::lists(
            a,
            req.host,
        ),
    ensures
        outcome_of(run(ts, answers, req), path).outcome == (OutcomeView::Reject {
            by: "allowlist"@,
            response: None,
        }),
        outcome_of(run(ts, answers, req), path).traces.len() == 1,
        run(ts, answers, req).req == req,
{
    reveal_with_fuel(run_upto, 2);
    stop_stays(ts, answers, req, 1, ts.len() as int);
}

proof fn answers_do_not_matter_upto(
    ts: Seq<TransformView>,
    a: Seq<Seq<Option<Seq<u8>>>>,
    b: Seq<Seq<Option<Seq<u8>>>>,
    req: RequestView,
    n: int,
)
    requires
        n <= ts.len(),
        forall|k: int| 0 <= k < ts.len() ==> (#[trigger] ts[k]) !is Secrets,
    ensures
        run_upto(ts, a, req, n) == run_upto(ts, b, req, n),
    decreases n,
{
    if n > 0 {
        answers_do_not_matter_upto(ts, a, b, req, n - 1);
        assert(ts[n - 1] !is Secrets);
    }
}

/// What a pipeline decides follows from its transforms, the request and what the
/// resolver answers; without secrets from the first two alone.
pub proof fn decisions_are_deterministic(
    ts: Seq<TransformView>,
    a: Seq<Seq<Option<Seq<u8>>>>,
    b: Seq<Seq<Option<Seq<u8>>>>,
    req: RequestView,
)
    requires
        a == b || forall|k: int| 0 <= k < ts.len() ==> (#[trigger] ts[k]) !is Secrets,
    ensures
        run(ts, a, req) == run(ts, b, req),
{
    if a != b {
        answers_do_not_matter_upto(ts, a, b, req, ts.len() as int);
    }
}

} // verus!
