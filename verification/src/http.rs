//! The handling of one request, as decisions: what is refused at once, what the
//! pipeline is shown, what goes upstream and what comes back. Reading, dialling
//! and sending are done elsewhere; every way to an end carries its audit record.
use vstd::prelude::*;
use vstd::string::*;

use crate::audit::{
    bare_record, with_outcome, Action, AuditRecord, RecordView, TunnelGroup, TunnelView,
};
use crate::dial::{DialError, DialErrorView};
use crate::hop::{strip_hop_by_hop, stripped};
use crate::pipeline::{
    idle_trace, outcome_of, run, run_answered, AllowProof, Outcome, OutcomeView, Pipeline,
    PipelineOutcome, PipelineOutcomeView, ResponseAction, ResponseActionView, ResponseOutcome,
};
use crate::secret::SecretResolver;
use crate::summary::{
    pair_texts, Body, BodyView, HeaderView, Headers, Mode, RequestSummary, RequestView,
};
use crate::target::{
    dotted, has_dot_segment, header_pairs, raw_headers, resolve_target, resolved, shown_headers,
    Head, HeadView, RawHeader, RequestTarget, Target, TargetError,
};
use crate::text::{copy_opt, eq_caseless, join2, opt_text};
use crate::transforms::TransformView;
use crate::tunnel::{opt_target, ConnectTarget, TargetView};
use crate::verdict::{copy_traces, trace_views, Response, ResponseView, Trace, TraceView};

verus! {

// ---- Connections ------------------------------------------------------------------------------

/// What the listener knows of a connection; all requests on it share this.
pub struct ConnCtx {
    pub remote_addr: String,
    pub mode: Mode,
    /// The server name of the client's TLS session, where TLS was terminated.
    pub sni: Option<String>,
    /// TLS was terminated; the upstream is reached over TLS too.
    pub scheme_https: bool,
    /// What the tunnel was opened to: the upstream of every request in it.
    pub forced_upstream: Option<ConnectTarget>,
    pub tunnel_target: Option<String>,
    /// The traces of the tunnel's handshake.
    pub tunnel_traces: Vec<Trace>,
}

/// What is known of a connection.
#[verifier::ext_equal]
pub struct ConnView {
    pub remote_addr: Seq<char>,
    pub mode: Mode,
    pub sni: Option<Seq<char>>,
    pub scheme_https: bool,
    pub forced_upstream: Option<TargetView>,
    pub tunnel_target: Option<Seq<char>>,
    pub tunnel_traces: Seq<TraceView>,
}

impl View for ConnCtx {
    type V = ConnView;

    open spec fn view(&self) -> ConnView {
        ConnView {
            remote_addr: self.remote_addr@,
            mode: self.mode,
            sni: opt_text(self.sni),
            scheme_https: self.scheme_https,
            forced_upstream: opt_target(self.forced_upstream),
            tunnel_target: opt_text(self.tunnel_target),
            tunnel_traces: trace_views(self.tunnel_traces@),
        }
    }
}

/// The connection of a plain listener.
pub open spec fn plain_connection(remote_addr: Seq<char>) -> ConnView {
    ConnView {
        remote_addr,
        mode: Mode::Http,
        sni: None,
        scheme_https: false,
        forced_upstream: None,
        tunnel_target: None,
        tunnel_traces: Seq::empty(),
    }
}

impl ConnCtx {
    /// A connection to the plain listener.
    pub fn plain(remote_addr: String) -> (r: ConnCtx)
        ensures
            r@ == plain_connection(remote_addr@),
    {
        let r = ConnCtx {
            remote_addr,
            mode: Mode::Http,
            sni: None,
            scheme_https: false,
            forced_upstream: None,
            tunnel_target: None,
            tunnel_traces: Vec::new(),
        };
        assert(r@.tunnel_traces == Seq::<TraceView>::empty());
        r
    }
}

/// The beginning of a record on a connection: in a tunnel it carries the traces
/// of the handshake.
pub open spec fn conn_record(
    c: ConnView,
    host: Seq<char>,
    method: Seq<char>,
    path: Seq<char>,
    action: Action,
) -> RecordView {
    RecordView {
        tunnel: match c.tunnel_target {
            Some(target) => Some(
                TunnelView {
                    target,
                    request_transforms: c.tunnel_traces,
                    passthrough: false,
                },
            ),
            None => None,
        },
        ..bare_record(host, method, path, Some(c.remote_addr), c.sni, c.mode, action)
    }
}

fn base_record(ctx: &ConnCtx, host: &str, method: &str, path: &str, action: Action) -> (r:
    AuditRecord)
    ensures
        r@ == conn_record(ctx@, host@, method@, path@, action),
{
    let mut record = AuditRecord::bare(
        host,
        method,
        path,
        Some(ctx.remote_addr.clone()),
        copy_opt(&ctx.sni),
        ctx.mode,
        action,
    );
    if let Some(target) = &ctx.tunnel_target {
        record.tunnel =
        Some(
            TunnelGroup {
                target: target.clone(),
                request_transforms: copy_traces(&ctx.tunnel_traces),
                passthrough: false,
            },
        );
    }
    record
}

// ---- Ends ---------------------------------------------------------------------------------------

/// What the proxy answers by itself.
pub enum Reply {
    /// A status with nothing behind it.
    Status(u16),
    Response(Response),
}

/// What a reply says.
#[verifier::ext_equal]
pub enum ReplyView {
    Status(u16),
    Response(ResponseView),
}

impl View for Reply {
    type V = ReplyView;

    open spec fn view(&self) -> ReplyView {
        match self {
            Reply::Status(s) => ReplyView::Status(*s),
            Reply::Response(r) => ReplyView::Response(r@),
        }
    }
}

/// The status of a reply.
pub open spec fn reply_status(r: ReplyView) -> u16 {
    match r {
        ReplyView::Status(s) => s,
        ReplyView::Response(x) => x.status,
    }
}

/// The end of a request that the proxy answers by itself.
pub struct Finished {
    pub record: AuditRecord,
    pub reply: Reply,
}

/// What an end says.
#[verifier::ext_equal]
pub struct FinishedView {
    pub record: RecordView,
    pub reply: ReplyView,
}

impl View for Finished {
    type V = FinishedView;

    open spec fn view(&self) -> FinishedView {
        FinishedView { record: self.record@, reply: self.reply@ }
    }
}

/// A request that the listener itself refuses.
pub open spec fn listener_reject(
    c: ConnView,
    host: Seq<char>,
    method: Seq<char>,
    path: Seq<char>,
) -> FinishedView {
    FinishedView {
        record: RecordView {
            rejected_by: Some("listener"@),
            status_code: Some(400),
            ..conn_record(c, host, method, path, Action::Reject)
        },
        reply: ReplyView::Status(400),
    }
}

fn reject_request(ctx: &ConnCtx, host: &str, method: &str, path: &str) -> (r: Finished)
    ensures
        r@ == listener_reject(ctx@, host@, method@, path@),
{
    let mut record = base_record(ctx, host, method, path, Action::Reject);
    record.rejected_by = Some("listener".to_owned());
    record.status_code = Some(400);
    Finished { record, reply: Reply::Status(400) }
}

// ---- Before the body ----------------------------------------------------------------------------

/// The target of a request, or its end: there must be a target on which all
/// that names one agrees, and its path may not climb.
pub open spec fn opened(head: HeadView, c: ConnView) -> Result<RequestTarget, FinishedView> {
    match resolved(head, c.forced_upstream, c.sni, c.scheme_https) {
        Err((_reason, host)) => Err(listener_reject(c, host, head.method, head.path)),
        Ok(t) => if dotted(t.path) {
            Err(listener_reject(c, t.host, head.method, t.path))
        } else {
            Ok(t)
        },
    }
}

/// Opens a request by its head.
pub fn open_request(head: &Head, ctx: &ConnCtx) -> (r: Result<Target, Finished>)
    ensures
        match r {
            Ok(t) => opened(head@, ctx@) == Ok::<RequestTarget, FinishedView>(t@),
            Err(f) => opened(head@, ctx@) == Err::<RequestTarget, FinishedView>(f@),
        },
{
    let target = match resolve_target(head, &ctx.forced_upstream, &ctx.sni, ctx.scheme_https) {
        Ok(t) => t,
        Err(TargetError::Bad { reason: _, host }) => {
            return Err(
                reject_request(ctx, host.as_str(), head.method.as_str(), head.path.as_str()),
            );
        },
    };
    if has_dot_segment(target.path.as_str()) {
        return Err(
            reject_request(
                ctx,
                target.host.as_str(),
                head.method.as_str(),
                target.path.as_str(),
            ),
        );
    }
    Ok(target)
}

// ---- The body -----------------------------------------------------------------------------------

/// What was read of a body, up to the cap and the piece that went over it.
pub struct BodyBuffer {
    bytes: Vec<u8>,
    cap: usize,
}

/// What a buffer holds, and the cap.
#[verifier::ext_equal]
pub struct BufferView {
    pub bytes: Seq<u8>,
    pub cap: usize,
}

impl View for BodyBuffer {
    type V = BufferView;

    closed spec fn view(&self) -> BufferView {
        BufferView { bytes: self.bytes@, cap: self.cap }
    }
}

/// More was read than the cap allows to look into.
pub open spec fn is_over(b: BufferView) -> bool {
    b.bytes.len() > b.cap
}

/// What the pipeline sees of a body: one that goes over the cap is cut there and
/// read-only.
pub open spec fn seen_body(b: BufferView) -> BodyView {
    if is_over(b) {
        BodyView { bytes: b.bytes.take(b.cap as int), over_cap: true }
    } else {
        BodyView { bytes: b.bytes, over_cap: false }
    }
}

impl BodyBuffer {
    pub fn new(cap: usize) -> (r: Self)
        ensures
            r@ == (BufferView { bytes: Seq::empty(), cap }),
    {
        BodyBuffer { bytes: Vec::new(), cap }
    }

    /// Whether more of the body is to be read before the pipeline runs.
    pub fn wants_more(&self) -> (r: bool)
        ensures
            r == !is_over(self@),
    {
        self.bytes.len() <= self.cap
    }

    /// Takes a piece of the body.
    pub fn push(&mut self, data: &[u8])
        ensures
            final(self)@ == (BufferView { bytes: old(self)@.bytes + data@, ..old(self)@ }),
    {
        self.bytes.extend_from_slice(data);
        assert(self.bytes@ == old(self).bytes@ + data@);
    }

    pub fn over_cap(&self) -> (r: bool)
        ensures
            r == is_over(self@),
    {
        self.bytes.len() > self.cap
    }

    /// The body as the pipeline sees it.
    pub fn kernel_body(&self) -> (r: Body)
        ensures
            r@ == seen_body(self@),
    {
        let n: usize = if self.bytes.len() > self.cap {
            self.cap
        } else {
            self.bytes.len()
        };
        let mut seen: Vec<u8> = Vec::new();
        let mut i: usize = 0;
        while i < n
            invariant
                i <= n <= self.bytes@.len(),
                seen@ == self.bytes@.take(i as int),
            decreases n - i,
        {
            seen.push(self.bytes[i]);
            assert(seen@ == self.bytes@.take(i + 1));
            i += 1;
        }
        assert(self.bytes@.take(self.bytes@.len() as int) == self.bytes@);
        Body::new(seen, self.bytes.len() > self.cap)
    }
}

/// A client that went away while its body was read. There is nothing to answer;
/// what is answered does not arrive.
pub open spec fn cancelled_of(c: ConnView, t: RequestTarget, method: Seq<char>) -> FinishedView {
    FinishedView {
        record: conn_record(c, t.host, method, t.path, Action::ClientCancel),
        reply: ReplyView::Status(400),
    }
}

pub fn cancelled(ctx: &ConnCtx, target: &Target, method: &str) -> (r: Finished)
    ensures
        r@ == cancelled_of(ctx@, target@, method@),
{
    Finished {
        record: base_record(
            ctx,
            target.host.as_str(),
            method,
            target.path.as_str(),
            Action::ClientCancel,
        ),
        reply: Reply::Status(400),
    }
}

// ---- The pipeline ---------------------------------------------------------------------------------

/// The request that the pipeline sees.
pub open spec fn request_of(
    head: HeadView,
    c: ConnView,
    t: RequestTarget,
    b: BufferView,
) -> RequestView {
    RequestView {
        mode: c.mode,
        method: head.method,
        host: t.host,
        port: t.port,
        path: t.path,
        query: t.query,
        headers: shown_headers(head.headers),
        body: seen_body(b),
        sni: c.sni,
        remote_addr: Some(c.remote_addr),
    }
}

/// Sums up a request for the pipeline.
pub fn summarize(head: &Head, ctx: &ConnCtx, target: Target, buffer: &BodyBuffer) -> (r:
    RequestSummary)
    ensures
        r@ == request_of(head@, ctx@, target@, buffer@),
{
    RequestSummary {
        mode: ctx.mode,
        method: head.method.clone(),
        host: target.host,
        port: target.port,
        path: target.path,
        query: target.query,
        headers: Headers::new(header_pairs(&head.headers)),
        body: buffer.kernel_body(),
        sni: copy_opt(&ctx.sni),
        remote_addr: Some(ctx.remote_addr.clone()),
    }
}

/// The record of what the request path decided. Its path is the one that the
/// client sent.
pub open spec fn request_record(
    c: ConnView,
    host: Seq<char>,
    method: Seq<char>,
    o: PipelineOutcomeView,
) -> RecordView {
    with_outcome(
        RecordView {
            request_transforms: o.traces,
            body_capture: o.capture,
            ..conn_record(c, host, method, o.request_path, Action::Allow)
        },
        o.outcome,
    )
}

/// What follows the request path: the record to go on with where the request
/// passed, else the end.
pub open spec fn settled(
    c: ConnView,
    host: Seq<char>,
    method: Seq<char>,
    o: PipelineOutcomeView,
) -> Result<RecordView, FinishedView> {
    let record = request_record(c, host, method, o);
    match o.outcome {
        OutcomeView::Continue => Ok(record),
        OutcomeView::Reject { by: _, response } => Err(
            FinishedView {
                record,
                reply: match response {
                    Some(r) => ReplyView::Response(r),
                    None => ReplyView::Status(403),
                },
            },
        ),
        OutcomeView::Stub { by: _, response } => Err(
            FinishedView { record, reply: ReplyView::Response(response) },
        ),
        OutcomeView::Error { by: _, message: _ } => Err(
            FinishedView { record, reply: ReplyView::Status(502) },
        ),
    }
}

/// Draws the consequence of the request path. Only a request that passed has a
/// proof to dial with.
pub fn settle_request(outcome: PipelineOutcome, ctx: &ConnCtx, host: &str, method: &str) -> (r:
    Result<(AllowProof, AuditRecord), Finished>)
    ensures
        match r {
            Ok((_, record)) => settled(ctx@, host@, method@, outcome@) == Ok::<
                RecordView,
                FinishedView,
            >(record@),
            Err(f) => settled(ctx@, host@, method@, outcome@) == Err::<RecordView, FinishedView>(
                f@,
            ),
        },
{
    let mut record = base_record(
        ctx,
        host,
        method,
        outcome.request_path.as_str(),
        Action::Allow,
    );
    record.request_transforms = outcome.request_traces;
    record.body_capture = outcome.body_capture;
    record.note_outcome(&outcome.outcome);
    match outcome.outcome {
        Outcome::Continue(proof) => Ok((proof, record)),
        Outcome::Reject { by: _, response } => Err(
            Finished {
                record,
                reply: match response {
                    Some(r) => Reply::Response(r),
                    None => Reply::Status(403),
                },
            },
        ),
        Outcome::Stub { by: _, response } => Err(
            Finished { record, reply: Reply::Response(response) },
        ),
        Outcome::Error { by: _, message: _ } => Err(
            Finished { record, reply: Reply::Status(502) },
        ),
    }
}

/// Runs the request path on a request and draws the consequence.
pub fn judge<R: SecretResolver>(
    pipeline: &Pipeline<R>,
    summary: &mut RequestSummary,
    ctx: &ConnCtx,
) -> (r: Result<(AllowProof, AuditRecord), Finished>)
    ensures
        exists|answers: Seq<Seq<Option<Seq<u8>>>>|
            {
                let end = run(pipeline@, answers, old(summary)@);
                let x = settled(
                    ctx@,
                    end.req.host,
                    old(summary)@.method,
                    outcome_of(end, old(summary)@.path),
                );
                &&& #[trigger] run_answered(
                    pipeline.resolver_view(),
                    pipeline@,
                    answers,
                    old(summary)@,
                )
                &&& final(summary)@ == end.req
                &&& match r {
                    Ok((_, record)) => x == Ok::<RecordView, FinishedView>(record@),
                    Err(f) => x == Err::<RecordView, FinishedView>(f@),
                }
            },
{
    let method = summary.method.clone();
    let outcome = pipeline.evaluate_request(summary);
    settle_request(outcome, ctx, summary.host.as_str(), method.as_str())
}

// ---- Dialling -------------------------------------------------------------------------------------

/// What to dial: in a tunnel what it was opened to.
pub open spec fn dialled(c: ConnView, req: RequestView) -> TargetView {
    match c.forced_upstream {
        Some(t) => t,
        None => TargetView { host: req.host, port: req.port },
    }
}

pub fn dial_target(ctx: &ConnCtx, summary: &RequestSummary) -> (r: ConnectTarget)
    ensures
        r@ == dialled(ctx@, summary@),
{
    match &ctx.forced_upstream {
        Some(t) => t.copy(),
        None => ConnectTarget { host: summary.host.clone(), port: summary.port },
    }
}

/// The end of a request that failed on the way upstream.
pub open spec fn failed_of(record: RecordView, message: Seq<char>) -> FinishedView {
    FinishedView {
        record: RecordView {
            action: Action::Error,
            status_code: Some(502),
            error: Some(message),
            ..record
        },
        reply: ReplyView::Status(502),
    }
}

/// The end of a request whose upstream could not be reached. A denial by the
/// guard is a rejection, not an error.
pub open spec fn dial_failed_of(record: RecordView, e: DialErrorView) -> FinishedView {
    match e {
        DialErrorView::Denied(d) => FinishedView {
            record: RecordView {
                action: Action::Reject,
                rejected_by: Some("guard"@),
                status_code: Some(502),
                guard: Some(d),
                ..record
            },
            reply: ReplyView::Status(502),
        },
        DialErrorView::Failed(message) => failed_of(record, message),
    }
}

fn fail(record: AuditRecord, message: String) -> (r: Finished)
    ensures
        r@ == failed_of(record@, message@),
{
    let mut record = record;
    record.action = Action::Error;
    record.status_code = Some(502);
    record.error = Some(message);
    Finished { record, reply: Reply::Status(502) }
}

/// Ends a request whose upstream could not be reached.
pub fn dial_failed(record: AuditRecord, e: DialError) -> (r: Finished)
    ensures
        r@ == dial_failed_of(record@, e@),
{
    match e {
        DialError::Denied(denial) => {
            let mut record = record;
            record.action = Action::Reject;
            record.rejected_by = Some("guard".to_owned());
            record.status_code = Some(502);
            record.guard = Some(denial);
            Finished { record, reply: Reply::Status(502) }
        },
        DialError::Failed(message) => fail(record, message),
    }
}

// ---- Going upstream ---------------------------------------------------------------------------------

/// The first `n` headers without the length of the body.
pub open spec fn without_length(h: Seq<HeaderView>, n: int) -> Seq<HeaderView>
    decreases n,
{
    if n <= 0 {
        Seq::<HeaderView>::empty()
    } else if crate::text::same_caseless(h[n - 1].0, "content-length"@) {
        without_length(h, n - 1)
    } else {
        without_length(h, n - 1).push(h[n - 1])
    }
}

/// What goes upstream. Where the body went over the cap, `body` is what was read
/// of it and the rest of the client's stream follows.
#[derive(Debug)]
pub struct Outbound {
    pub method: String,
    pub path_and_query: String,
    pub headers: Vec<(String, String)>,
    pub body: Vec<u8>,
    pub chained: bool,
}

/// What an outbound request says.
#[verifier::ext_equal]
pub struct OutboundView {
    pub method: Seq<char>,
    pub path_and_query: Seq<char>,
    pub headers: Seq<HeaderView>,
    pub body: Seq<u8>,
    pub chained: bool,
}

impl View for Outbound {
    type V = OutboundView;

    open spec fn view(&self) -> OutboundView {
        OutboundView {
            method: self.method@,
            path_and_query: self.path_and_query@,
            headers: pair_texts(self.headers@),
            body: self.body@,
            chained: self.chained,
        }
    }
}

/// What goes upstream of a request: its rewritten form without what concerns one
/// hop. A body that was seen whole goes in its rewritten form, its length
/// determined anew; one that went over the cap goes as it came.
pub open spec fn outbound_of(req: RequestView, b: BufferView, websocket: bool) -> OutboundView {
    let h = stripped(req.headers, websocket);
    OutboundView {
        method: req.method,
        path_and_query: if req.query.len() == 0 {
            req.path
        } else {
            req.path + "?"@ + req.query
        },
        headers: if is_over(b) {
            h
        } else {
            without_length(h, h.len() as int)
        },
        body: if is_over(b) {
            b.bytes
        } else {
            req.body.bytes
        },
        chained: is_over(b),
    }
}

fn drop_length(v: Vec<(String, String)>) -> (r: Vec<(String, String)>)
    ensures
        pair_texts(r@) == without_length(pair_texts(v@), v@.len() as int),
{
    let ghost h = pair_texts(v@);
    let mut out: Vec<(String, String)> = Vec::new();
    let mut i: usize = 0;
    assert(pair_texts(out@) == Seq::<HeaderView>::empty());
    while i < v.len()
        invariant
            i <= v@.len(),
            h == pair_texts(v@),
            pair_texts(out@) == without_length(h, i as int),
        decreases v@.len() - i,
    {
        assert(h[i as int] == (v@[i as int].0@, v@[i as int].1@));
        if !eq_caseless(v[i].0.as_str(), "content-length") {
            let ghost before = out@;
            out.push((v[i].0.clone(), v[i].1.clone()));
            assert(pair_texts(out@) == pair_texts(before).push(h[i as int]));
        }
        i += 1;
    }
    out
}

fn owned_headers(headers: &Headers) -> (r: Vec<(String, String)>)
    ensures
        pair_texts(r@) == headers@,
{
    let mut out: Vec<(String, String)> = Vec::new();
    let n: usize = headers.len();
    let ghost h = headers@;
    let mut i: usize = 0;
    while i < n
        invariant
            i <= n,
            n == h.len(),
            h == headers@,
            out@.len() == i,
            forall|j: int|
                0 <= j < i ==> (#[trigger] out@[j]).0@ == h[j].0 && out@[j].1@ == h[j].1,
        decreases n - i,
    {
        out.push((headers.name_at(i).to_owned(), headers.value_at(i).to_owned()));
        i += 1;
    }
    assert(pair_texts(out@) == h);
    out
}

/// Makes what goes upstream of a request.
pub fn outbound(summary: &RequestSummary, buffer: BodyBuffer, websocket: bool) -> (r: Outbound)
    ensures
        r@ == outbound_of(summary@, buffer@, websocket),
{
    let over: bool = buffer.over_cap();
    let mut headers = owned_headers(&summary.headers);
    strip_hop_by_hop(&mut headers, websocket);
    let headers = if over {
        headers
    } else {
        assert(pair_texts(headers@).len() == headers@.len());
        drop_length(headers)
    };
    let q = crate::text::chars_of(summary.query.as_str());
    let path_and_query = if q.len() == 0 {
        summary.path.clone()
    } else {
        crate::text::join3(summary.path.as_str(), "?", summary.query.as_str())
    };
    let body: Vec<u8> = if over {
        buffer.bytes
    } else {
        let mut b: Vec<u8> = Vec::new();
        b.extend_from_slice(summary.body.read());
        assert(b@ == summary@.body.bytes);
        b
    };
    Outbound { method: summary.method.clone(), path_and_query, headers, body, chained: over }
}

/// What went wrong between the dial and the answer.
#[derive(Debug)]
pub enum UpstreamFailure {
    /// The request could not be put together.
    Build(String),
    Handshake(String),
    Request(String),
    /// The head of the answer did not come in time.
    HeaderTimeout,
}

/// What a failure says.
#[verifier::ext_equal]
pub enum FailureView {
    Build(Seq<char>),
    Handshake(Seq<char>),
    Request(Seq<char>),
    HeaderTimeout,
}

impl View for UpstreamFailure {
    type V = FailureView;

    open spec fn view(&self) -> FailureView {
        match self {
            UpstreamFailure::Build(e) => FailureView::Build(e@),
            UpstreamFailure::Handshake(e) => FailureView::Handshake(e@),
            UpstreamFailure::Request(e) => FailureView::Request(e@),
            UpstreamFailure::HeaderTimeout => FailureView::HeaderTimeout,
        }
    }
}

/// How a failure is called in the record.
pub open spec fn failure_text(f: FailureView) -> Seq<char> {
    match f {
        FailureView::Build(e) => "building upstream request: "@ + e,
        FailureView::Handshake(e) => "upstream handshake: "@ + e,
        FailureView::Request(e) => "upstream request: "@ + e,
        FailureView::HeaderTimeout => "upstream response header timeout"@,
    }
}

/// Ends a request that failed between the dial and the answer.
pub fn upstream_failed(record: AuditRecord, f: UpstreamFailure) -> (r: Finished)
    ensures
        r@ == failed_of(record@, failure_text(f@)),
{
    let message = match f {
        UpstreamFailure::Build(e) => join2("building upstream request: ", e.as_str()),
        UpstreamFailure::Handshake(e) => join2("upstream handshake: ", e.as_str()),
        UpstreamFailure::Request(e) => join2("upstream request: ", e.as_str()),
        UpstreamFailure::HeaderTimeout => "upstream response header timeout".to_owned(),
    };
    fail(record, message)
}

// ---- Coming back ------------------------------------------------------------------------------------

/// What to do with the upstream's answer.
pub enum Answer {
    /// The connection switches protocols: relay the head, then copy bytes.
    Switch { record: AuditRecord, headers: Vec<(String, String)> },
    /// Relay the answer under these headers.
    Forward { record: AuditRecord, status: u16, headers: Vec<(String, String)> },
    /// The proxy answers by itself instead.
    Finished(Finished),
}

/// What is done with the upstream's answer.
#[verifier::ext_equal]
pub enum AnswerView {
    Switch { record: RecordView, headers: Seq<HeaderView> },
    Forward { record: RecordView, status: u16, headers: Seq<HeaderView> },
    Finished(FinishedView),
}

impl View for Answer {
    type V = AnswerView;

    open spec fn view(&self) -> AnswerView {
        match self {
            Answer::Switch { record, headers } => AnswerView::Switch {
                record: record@,
                headers: pair_texts(headers@),
            },
            Answer::Forward { record, status, headers } => AnswerView::Forward {
                record: record@,
                status: *status,
                headers: pair_texts(headers@),
            },
            Answer::Finished(f) => AnswerView::Finished(f@),
        }
    }
}

/// The end of an exchange by what the response path decided.
pub open spec fn relayed(
    record: RecordView,
    traces: Seq<TraceView>,
    action: ResponseActionView,
    status: u16,
    headers: Seq<RawHeader>,
) -> AnswerView {
    let record = RecordView { response_transforms: traces, ..record };
    match action {
        ResponseActionView::Forward => AnswerView::Forward {
            record: RecordView { action: Action::Allow, status_code: Some(status), ..record },
            status,
            headers: stripped(shown_headers(headers), false),
        },
        ResponseActionView::Replace { by, response, stub } => AnswerView::Finished(
            FinishedView {
                record: if stub {
                    RecordView {
                        action: Action::Stub,
                        status_code: Some(response.status),
                        stubbed_by: Some(by),
                        ..record
                    }
                } else {
                    RecordView {
                        action: Action::Reject,
                        status_code: Some(response.status),
                        rejected_by: Some(by),
                        ..record
                    }
                },
                reply: ReplyView::Response(response),
            },
        ),
        ResponseActionView::Error { by: _, message } => AnswerView::Finished(
            failed_of(record, message),
        ),
    }
}

/// Draws the consequence of the response path.
pub fn relay(
    record: AuditRecord,
    outcome: ResponseOutcome,
    status: u16,
    headers: &Vec<(String, Vec<u8>)>,
) -> (r: Answer)
    ensures
        r@ == relayed(
            record@,
            trace_views(outcome.traces@),
            outcome.action@,
            status,
            raw_headers(headers@),
        ),
{
    let mut record = record;
    record.response_transforms = outcome.traces;
    match outcome.action {
        ResponseAction::Forward => {
            record.action = Action::Allow;
            record.status_code = Some(status);
            let mut out = header_pairs(headers);
            strip_hop_by_hop(&mut out, false);
            Answer::Forward { record, status, headers: out }
        },
        ResponseAction::Replace { by, response, stub } => {
            record.status_code = Some(response.status);
            if stub {
                record.action = Action::Stub;
                record.stubbed_by = Some(by);
            } else {
                record.action = Action::Reject;
                record.rejected_by = Some(by);
            }
            Answer::Finished(Finished { record, reply: Reply::Response(response) })
        },
        ResponseAction::Error { by: _, message } => Answer::Finished(fail(record, message)),
    }
}

/// What is done with the upstream's answer: a WebSocket handshake that it accepts
/// switches, the response path not being asked; any other answer goes through
/// the response path, whose transforms let it pass.
pub open spec fn answered(
    ts: Seq<TransformView>,
    record: RecordView,
    websocket: bool,
    status: u16,
    headers: Seq<RawHeader>,
) -> AnswerView {
    if websocket && status == 101 {
        AnswerView::Switch {
            record: RecordView { action: Action::Allow, status_code: Some(101), ..record },
            headers: stripped(shown_headers(headers), true),
        }
    } else {
        relayed(
            record,
            ts.map_values(|t: TransformView| idle_trace(t)),
            ResponseActionView::Forward,
            status,
            headers,
        )
    }
}

/// Decides on the upstream's answer.
pub fn answer<R: SecretResolver>(
    pipeline: &Pipeline<R>,
    summary: &RequestSummary,
    record: AuditRecord,
    websocket: bool,
    status: u16,
    headers: &Vec<(String, Vec<u8>)>,
) -> (r: Answer)
    ensures
        r@ == answered(pipeline@, record@, websocket, status, raw_headers(headers@)),
{
    if websocket && status == 101 {
        let mut record = record;
        record.action = Action::Allow;
        record.status_code = Some(101);
        let mut out = header_pairs(headers);
        strip_hop_by_hop(&mut out, true);
        return Answer::Switch { record, headers: out };
    }
    let outcome = pipeline.evaluate_response(summary);
    relay(record, outcome, status, headers)
}

// ---- Laws ---------------------------------------------------------------------------------------------

/// The record of an end tells the status that the client is answered with.
pub open spec fn record_agrees(f: FinishedView) -> bool {
    f.record.status_code == Some(reply_status(f.reply))
}

/// However a request ends before the upstream has answered, its record tells the
/// status of the reply, but for a client that went away.
pub proof fn record_tells_the_reply(
    head: HeadView,
    c: ConnView,
    o: PipelineOutcomeView,
    record: RecordView,
    dial: DialErrorView,
    message: Seq<char>,
)
    ensures
        opened(head, c) matches Err(f) ==> record_agrees(f),
        settled(c, head.path, head.method, o) matches Err(f) ==> record_agrees(f),
        record_agrees(dial_failed_of(record, dial)),
        record_agrees(failed_of(record, message)),
{
}

/// So it is once the upstream has answered.
pub proof fn record_tells_the_answer(
    record: RecordView,
    traces: Seq<TraceView>,
    action: ResponseActionView,
    status: u16,
    headers: Seq<RawHeader>,
)
    ensures
        match relayed(record, traces, action, status, headers) {
            AnswerView::Finished(f) => record_agrees(f),
            AnswerView::Forward { record: x, status: s, headers: _ } => x.status_code == Some(s)
                && x.action == Action::Allow,
            AnswerView::Switch { record: _, headers: _ } => false,
        },
{
}

/// A request goes on only where the pipeline let it pass.
pub proof fn only_a_passed_request_goes_on(
    c: ConnView,
    host: Seq<char>,
    method: Seq<char>,
    o: PipelineOutcomeView,
)
    ensures
        settled(c, host, method, o) is Ok <==> o.outcome == OutcomeView::Continue,
{
}

/// No request is opened whose path climbs, in clear or escaped.
pub proof fn no_climbing_path_is_opened(head: HeadView, c: ConnView)
    ensures
        opened(head, c) matches Ok(t) ==> !dotted(t.path),
        dotted(head.path) ==> opened(head, c) is Err,
{
}

/// A body over the cap goes upstream as it came: what was read, then the rest.
/// Any other goes as the pipeline left it.
pub proof fn body_over_the_cap_is_untouched(req: RequestView, b: BufferView, websocket: bool)
    ensures
        is_over(b) ==> outbound_of(req, b, websocket).body == b.bytes && outbound_of(
            req,
            b,
            websocket,
        ).chained,
        !is_over(b) ==> outbound_of(req, b, websocket).body == req.body.bytes && !outbound_of(
            req,
            b,
            websocket,
        ).chained,
        seen_body(b).over_cap <==> is_over(b),
        seen_body(b).bytes.len() <= b.cap,
{
}

proof fn without_length_members(h: Seq<HeaderView>, n: int)
    requires
        0 <= n <= h.len(),
    ensures
        forall|i: int|
            0 <= i < without_length(h, n).len() ==> !crate::text::same_caseless(
                (#[trigger] without_length(h, n)[i]).0,
                "content-length"@,
            ) && h.contains(without_length(h, n)[i]),
    decreases n,
{
    if n > 0 {
        without_length_members(h, n - 1);
        let w = without_length(h, n);
        let v = without_length(h, n - 1);
        assert forall|i: int| 0 <= i < w.len() implies !crate::text::same_caseless(
            (#[trigger] w[i]).0,
            "content-length"@,
        ) && h.contains(w[i]) by {
            if i < v.len() {
                assert(w[i] == v[i]);
            } else {
                assert(w[i] == h[n - 1]);
            }
        }
    }
}

/// Nothing of the client's hop goes upstream but `TE: trailers` and what makes a
/// WebSocket handshake, and no length that the client gave for a body which the
/// pipeline may have rewritten.
pub proof fn outbound_headers_are_clean(req: RequestView, b: BufferView, websocket: bool)
    ensures
        forall|i: int|
            0 <= i < outbound_of(req, b, websocket).headers.len() ==> ({
                let x = #[trigger] outbound_of(req, b, websocket).headers[i];
                &&& crate::hop::may_be_left(req.headers, x, websocket)
                &&& !is_over(b) ==> !crate::text::same_caseless(x.0, "content-length"@)
            }),
{
    let h = stripped(req.headers, websocket);
    crate::hop::no_hop_header_is_left(req.headers, websocket);
    without_length_members(h, h.len() as int);
    assert forall|i: int| 0 <= i < outbound_of(req, b, websocket).headers.len() implies ({
        let x = #[trigger] outbound_of(req, b, websocket).headers[i];
        &&& crate::hop::may_be_left(req.headers, x, websocket)
        &&& !is_over(b) ==> !crate::text::same_caseless(x.0, "content-length"@)
    }) by {
        let x = outbound_of(req, b, websocket).headers[i];
        if is_over(b) {
            assert(x == stripped(req.headers, websocket)[i]);
        } else {
            assert(x == without_length(h, h.len() as int)[i]);
            let k = choose|k: int| 0 <= k < h.len() && h[k] == x;
            assert(stripped(req.headers, websocket)[k] == x);
        }
    }
}

} // verus!
