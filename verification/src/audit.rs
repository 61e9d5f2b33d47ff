//! Audit records: one for every request.
use vstd::prelude::*;

use crate::pipeline::{
    opt_capture, BodyCapture, CaptureView, Outcome, OutcomeView, PipelineOutcome,
    PipelineOutcomeView,
};
use crate::summary::{Mode, RequestSummary, RequestView};
use crate::text::copy_opt;
use crate::verdict::{copy_traces, trace_views, Trace, TraceView};

verus! {

/// What became of a request.
#[derive(Debug, Clone, Copy, PartialEq, Eq, Structural)]
pub enum Action {
    Allow,
    Reject,
    Stub,
    Error,
    ClientCancel,
}

/// A dial that the guard refused: the address, and the prefix it lies in.
#[derive(Debug)]
pub struct GuardDenial {
    pub denied_addr: String,
    pub prefix: String,
}

/// What a denial says.
#[verifier::ext_equal]
pub struct DenialView {
    pub denied_addr: Seq<char>,
    pub prefix: Seq<char>,
}

impl View for GuardDenial {
    type V = DenialView;

    open spec fn view(&self) -> DenialView {
        DenialView { denied_addr: self.denied_addr@, prefix: self.prefix@ }
    }
}

/// The view of an optional denial.
pub open spec fn opt_denial(o: Option<GuardDenial>) -> Option<DenialView> {
    match o {
        Some(d) => Some(d@),
        None => None,
    }
}

/// The tunnel that a request came through, with the traces of its handshake.
pub struct TunnelGroup {
    pub target: String,
    pub request_transforms: Vec<Trace>,
    /// The tunnel was spliced, its TLS not terminated.
    pub passthrough: bool,
}

/// What a tunnel group says.
#[verifier::ext_equal]
pub struct TunnelView {
    pub target: Seq<char>,
    pub request_transforms: Seq<TraceView>,
    pub passthrough: bool,
}

impl View for TunnelGroup {
    type V = TunnelView;

    open spec fn view(&self) -> TunnelView {
        TunnelView {
            target: self.target@,
            request_transforms: trace_views(self.request_transforms@),
            passthrough: self.passthrough,
        }
    }
}

/// The view of an optional tunnel group.
pub open spec fn opt_tunnel(o: Option<TunnelGroup>) -> Option<TunnelView> {
    match o {
        Some(t) => Some(t@),
        None => None,
    }
}

/// The record of one request. It is made of plain data: a secret cannot stand
/// in it. The time that the request took is added where the record is written.
pub struct AuditRecord {
    pub host: String,
    pub method: String,
    pub path: String,
    pub remote_addr: Option<String>,
    pub sni: Option<String>,
    pub mode: Mode,
    pub action: Action,
    pub status_code: Option<u16>,
    pub rejected_by: Option<String>,
    pub stubbed_by: Option<String>,
    pub error: Option<String>,
    pub request_transforms: Vec<Trace>,
    pub response_transforms: Vec<Trace>,
    pub tunnel: Option<TunnelGroup>,
    pub guard: Option<GuardDenial>,
    pub body_capture: Option<BodyCapture>,
}

/// What a record says.
#[verifier::ext_equal]
pub struct RecordView {
    pub host: Seq<char>,
    pub method: Seq<char>,
    pub path: Seq<char>,
    pub remote_addr: Option<Seq<char>>,
    pub sni: Option<Seq<char>>,
    pub mode: Mode,
    pub action: Action,
    pub status_code: Option<u16>,
    pub rejected_by: Option<Seq<char>>,
    pub stubbed_by: Option<Seq<char>>,
    pub error: Option<Seq<char>>,
    pub request_transforms: Seq<TraceView>,
    pub response_transforms: Seq<TraceView>,
    pub tunnel: Option<TunnelView>,
    pub guard: Option<DenialView>,
    pub body_capture: Option<CaptureView>,
}

impl View for AuditRecord {
    type V = RecordView;

    open spec fn view(&self) -> RecordView {
        RecordView {
            host: self.host@,
            method: self.method@,
            path: self.path@,
            remote_addr: crate::text::opt_text(self.remote_addr),
            sni: crate::text::opt_text(self.sni),
            mode: self.mode,
            action: self.action,
            status_code: self.status_code,
            rejected_by: crate::text::opt_text(self.rejected_by),
            stubbed_by: crate::text::opt_text(self.stubbed_by),
            error: crate::text::opt_text(self.error),
            request_transforms: trace_views(self.request_transforms@),
            response_transforms: trace_views(self.response_transforms@),
            tunnel: opt_tunnel(self.tunnel),
            guard: opt_denial(self.guard),
            body_capture: opt_capture(self.body_capture),
        }
    }
}

/// A record with nothing but its head.
pub open spec fn bare_record(
    host: Seq<char>,
    method: Seq<char>,
    path: Seq<char>,
    remote_addr: Option<Seq<char>>,
    sni: Option<Seq<char>>,
    mode: Mode,
    action: Action,
) -> RecordView {
    RecordView {
        host,
        method,
        path,
        remote_addr,
        sni,
        mode,
        action,
        status_code: None,
        rejected_by: None,
        stubbed_by: None,
        error: None,
        request_transforms: Seq::empty(),
        response_transforms: Seq::empty(),
        tunnel: None,
        guard: None,
        body_capture: None,
    }
}

impl AuditRecord {
    pub fn bare(
        host: &str,
        method: &str,
        path: &str,
        remote_addr: Option<String>,
        sni: Option<String>,
        mode: Mode,
        action: Action,
    ) -> (r: AuditRecord)
        ensures
            r@ == bare_record(
                host@,
                method@,
                path@,
                crate::text::opt_text(remote_addr),
                crate::text::opt_text(sni),
                mode,
                action,
            ),
    {
        let r = AuditRecord {
            host: host.to_owned(),
            method: method.to_owned(),
            path: path.to_owned(),
            remote_addr,
            sni,
            mode,
            action,
            status_code: None,
            rejected_by: None,
            stubbed_by: None,
            error: None,
            request_transforms: Vec::new(),
            response_transforms: Vec::new(),
            tunnel: None,
            guard: None,
            body_capture: None,
        };
        proof {
            assert(r@.request_transforms == Seq::<TraceView>::empty());
            assert(r@.response_transforms == Seq::<TraceView>::empty());
        }
        r
    }
}

/// The status of a rejection: that of its response, else 403.
pub open spec fn rejection_status(response: Option<crate::verdict::ResponseView>) -> u16 {
    match response {
        Some(r) => r.status,
        None => 403,
    }
}

/// A record with what the outcome of the request path says.
pub open spec fn with_outcome(r: RecordView, o: OutcomeView) -> RecordView {
    match o {
        OutcomeView::Continue => RecordView { action: Action::Allow, ..r },
        OutcomeView::Reject { by, response } => RecordView {
            action: Action::Reject,
            status_code: Some(rejection_status(response)),
            rejected_by: Some(by),
            ..r
        },
        OutcomeView::Stub { by, response } => RecordView {
            action: Action::Stub,
            status_code: Some(response.status),
            stubbed_by: Some(by),
            ..r
        },
        OutcomeView::Error { by, message } => RecordView {
            action: Action::Error,
            status_code: Some(502),
            error: Some(message),
            ..r
        },
    }
}

/// The record of what the pipeline decided. Its path is the one that the client
/// sent.
pub open spec fn decision_record(s: RequestView, o: PipelineOutcomeView) -> RecordView {
    with_outcome(
        RecordView {
            request_transforms: o.traces,
            body_capture: o.capture,
            ..bare_record(
                s.host,
                s.method,
                o.request_path,
                s.remote_addr,
                s.sni,
                s.mode,
                Action::Allow,
            )
        },
        o.outcome,
    )
}

impl AuditRecord {
    /// Notes the outcome of the request path.
    pub fn note_outcome(&mut self, outcome: &Outcome)
        ensures
            final(self)@ == with_outcome(old(self)@, outcome@),
    {
        match outcome {
            Outcome::Continue(_) => {
                self.action = Action::Allow;
            },
            Outcome::Reject { by, response } => {
                self.action = Action::Reject;
                self.status_code = match response {
                    Some(r) => Some(r.status),
                    None => Some(403),
                };
                self.rejected_by = Some(by.clone());
            },
            Outcome::Stub { by, response } => {
                self.action = Action::Stub;
                self.status_code = Some(response.status);
                self.stubbed_by = Some(by.clone());
            },
            Outcome::Error { by: _, message } => {
                self.action = Action::Error;
                self.status_code = Some(502);
                self.error = Some(message.clone());
            },
        }
    }
}

/// The record of a request and the pipeline's decision on it.
pub fn conformance_record(summary: &RequestSummary, outcome: &PipelineOutcome) -> (r: AuditRecord)
    ensures
        r@ == decision_record(summary@, outcome@),
{
    let mut r = AuditRecord::bare(
        summary.host.as_str(),
        summary.method.as_str(),
        outcome.request_path.as_str(),
        copy_opt(&summary.remote_addr),
        copy_opt(&summary.sni),
        summary.mode,
        Action::Allow,
    );
    r.request_transforms = copy_traces(&outcome.request_traces);
    r.body_capture = match &outcome.body_capture {
        Some(c) => Some(c.copy()),
        None => None,
    };
    r.note_outcome(&outcome.outcome);
    r
}

/// The record of a run holds the path that the client sent, not the one that goes
/// upstream, into which a secret may have been swapped.
pub proof fn record_keeps_the_clients_path(
    ts: Seq<crate::transforms::TransformView>,
    answers: Seq<Seq<Option<Seq<u8>>>>,
    req: RequestView,
)
    ensures
        ({
            let st = crate::pipeline::run(ts, answers, req);
            decision_record(st.req, crate::pipeline::outcome_of(st, req.path)).path == req.path
        }),
{
}

// ---- Levels and emission -----------------------------------------------------------------

/// The level at which a record is logged.
#[derive(Debug, Clone, Copy, PartialEq, Eq, Structural)]
pub enum Level {
    Info,
    Warn,
    Error,
}

/// The level that goes with an action.
pub open spec fn action_level(action: Action) -> Level {
    match action {
        Action::Allow => Level::Info,
        Action::Stub => Level::Info,
        Action::ClientCancel => Level::Info,
        Action::Reject => Level::Warn,
        Action::Error => Level::Error,
    }
}

pub fn level_for(action: Action) -> (r: Level)
    ensures
        r == action_level(action),
{
    match action {
        Action::Allow => Level::Info,
        Action::Stub => Level::Info,
        Action::ClientCancel => Level::Info,
        Action::Reject => Level::Warn,
        Action::Error => Level::Error,
    }
}

/// The record of a request whose handler ended without one.
pub open spec fn lost_record(remote_addr: Option<Seq<char>>) -> RecordView {
    RecordView {
        error: Some("request handler terminated without emitting audit"@),
        ..bare_record(
            Seq::empty(),
            Seq::empty(),
            Seq::empty(),
            remote_addr,
            None,
            Mode::Http,
            Action::Error,
        )
    }
}

/// Watches that an accepted request gets its record.
#[derive(Debug)]
pub struct PendingAudit {
    emitted: bool,
    remote_addr: Option<String>,
}

/// Whether a record was emitted, and for which client.
#[verifier::ext_equal]
pub struct PendingView {
    pub emitted: bool,
    pub remote_addr: Option<Seq<char>>,
}

impl View for PendingAudit {
    type V = PendingView;

    closed spec fn view(&self) -> PendingView {
        PendingView {
            emitted: self.emitted,
            remote_addr: crate::text::opt_text(self.remote_addr),
        }
    }
}

/// A request that was just accepted.
pub open spec fn accepted(remote_addr: Option<Seq<char>>) -> PendingView {
    PendingView { emitted: false, remote_addr }
}

/// A request whose record was emitted.
pub open spec fn noted(p: PendingView) -> PendingView {
    PendingView { emitted: true, ..p }
}

/// The record that is still owed at the end of a request.
pub open spec fn owed(p: PendingView) -> Option<RecordView> {
    if p.emitted {
        None
    } else {
        Some(lost_record(p.remote_addr))
    }
}

/// Every accepted request leaves exactly one record: the one that its handler
/// emits, else the one that is owed at its end, and none after that.
pub proof fn every_request_leaves_one_record(remote_addr: Option<Seq<char>>, handled: bool)
    ensures
        ({
            let p = accepted(remote_addr);
            let end = if handled {
                noted(p)
            } else {
                p
            };
            &&& owed(end) is None <==> handled
            &&& !handled ==> owed(end) == Some(lost_record(remote_addr))
            &&& owed(noted(end)) is None
        }),
{
}

impl PendingAudit {
    pub fn new(remote_addr: Option<String>) -> (r: Self)
        ensures
            r@ == accepted(crate::text::opt_text(remote_addr)),
    {
        PendingAudit { emitted: false, remote_addr }
    }

    /// Notes that the record was emitted; gives the level to emit it at.
    pub fn emit(&mut self, record: &AuditRecord) -> (r: Level)
        ensures
            r == action_level(record.action),
            final(self)@ == noted(old(self)@),
    {
        self.emitted = true;
        level_for(record.action)
    }

    /// The end of the request: where no record was emitted, the one to emit.
    pub fn finish(&mut self) -> (r: Option<AuditRecord>)
        ensures
            final(self)@ == noted(old(self)@),
            match r {
                Some(x) => owed(old(self)@) == Some(x@),
                None => owed(old(self)@) is None,
            },
    {
        if self.emitted {
            return None;
        }
        self.emitted = true;
        let mut r = AuditRecord::bare(
            "",
            "",
            "",
            copy_opt(&self.remote_addr),
            None,
            Mode::Http,
            Action::Error,
        );
        r.error = Some("request handler terminated without emitting audit".to_owned());
        proof {
            reveal_strlit("");
            assert(""@ == Seq::<char>::empty());
        }
        Some(r)
    }
}

} // verus!
