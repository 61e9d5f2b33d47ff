//! The listeners that terminate TLS and that open tunnels, as decisions: which
//! name a leaf is made for, how a tunnel is asked for and answered, and what
//! flows in it. Reading and writing are done elsewhere.
use vstd::prelude::*;
use vstd::string::*;

use crate::audit::{bare_record, Action, AuditRecord, RecordView, TunnelGroup, TunnelView};
use crate::dial::{DialError, DialErrorView};
use crate::http::{ConnCtx, ConnView};
use crate::pipeline::{
    outcome_of, run, run_answered, AllowProof, Outcome, OutcomeView, Pipeline, PipelineOutcome,
    PipelineOutcomeView,
};
use crate::secret::SecretResolver;
use crate::summary::{Body, BodyView, HeaderView, Headers, Mode, RequestSummary, RequestView};
use crate::text::{bytes_text, eq_caseless, lossy, opt_text};
use crate::transforms::{any_domain_matches, glob_views, some_domain_accepts};
use crate::tunnel::{
    connect_of, inner_protocol, opt_target, parse_connect, parse_socks5_methods,
    parse_socks5_request, scan_client_hello_sni, sniff_inner, socks5_failure, socks5_methods,
    socks5_reply, socks5_request, target_text, ConnectTarget, InnerProtocol, SniScan, SniView,
    Socks5Method, TargetView,
};
use crate::verdict::{copy_traces, trace_views, Trace, TraceView};

verus! {

/// How much is read of a head that ends with an empty line, or of a ClientHello.
pub const SNIFF_CAP: usize = 16384;

// ---- Terminating TLS ------------------------------------------------------------------------------

/// The record of a connection that the listener refuses.
pub open spec fn refused_connection(
    remote: Seq<char>,
    host: Seq<char>,
    status: u16,
    mode: Mode,
) -> RecordView {
    RecordView {
        status_code: Some(status),
        rejected_by: Some("listener"@),
        ..bare_record(host, ""@, ""@, Some(remote), None, mode, Action::Reject)
    }
}

fn refuse_connection(remote: &str, host: &str, status: u16, mode: Mode) -> (r: AuditRecord)
    ensures
        r@ == refused_connection(remote@, host@, status, mode),
{
    let mut record = AuditRecord::bare(
        host,
        "",
        "",
        Some(remote.to_owned()),
        None,
        mode,
        Action::Reject,
    );
    record.status_code = Some(status);
    record.rejected_by = Some("listener".to_owned());
    record
}

/// Which name to make a leaf for: in a tunnel what it was opened to, else the
/// server name. A tunnel whose client asks for another name, and a client
/// outside a tunnel that asks for none, are refused.
pub open spec fn leaf_for(
    forced: Option<TargetView>,
    sni: Option<Seq<char>>,
    remote: Seq<char>,
) -> Result<Seq<char>, RecordView> {
    match forced {
        Some(t) => match sni {
            Some(name) => if crate::text::same_caseless(name, t.host) {
                Ok(t.host)
            } else {
                Err(refused_connection(remote, t.host, 0, Mode::Tunnel))
            },
            None => Ok(t.host),
        },
        None => match sni {
            Some(name) => Ok(name),
            None => Err(refused_connection(remote, ""@, 0, Mode::Https)),
        },
    }
}

/// Decides which name to make a leaf for.
pub fn mint_target(forced: &Option<ConnectTarget>, sni: &Option<String>, remote: &str) -> (r:
    Result<String, AuditRecord>)
    ensures
        ({
            let x = leaf_for(opt_target(*forced), opt_text(*sni), remote@);
            match r {
                Ok(name) => x == Ok::<Seq<char>, RecordView>(name@),
                Err(record) => x == Err::<Seq<char>, RecordView>(record@),
            }
        }),
{
    match forced {
        Some(t) => {
            if let Some(name) = sni {
                if !eq_caseless(name.as_str(), t.host.as_str()) {
                    return Err(refuse_connection(remote, t.host.as_str(), 0, Mode::Tunnel));
                }
            }
            Ok(t.host.clone())
        },
        None => match sni {
            Some(name) => Ok(name.clone()),
            None => Err(refuse_connection(remote, "", 0, Mode::Https)),
        },
    }
}

/// The connection of requests behind terminated TLS.
pub open spec fn tls_connection(
    remote: Seq<char>,
    sni: Option<Seq<char>>,
    forced: Option<TargetView>,
    traces: Seq<TraceView>,
) -> ConnView {
    match forced {
        Some(t) => ConnView {
            remote_addr: remote,
            mode: Mode::Tunnel,
            sni,
            scheme_https: true,
            forced_upstream: Some(t),
            tunnel_target: Some(target_text(t)),
            tunnel_traces: traces,
        },
        None => ConnView {
            remote_addr: remote,
            mode: Mode::Https,
            sni,
            scheme_https: true,
            forced_upstream: None,
            tunnel_target: None,
            tunnel_traces: Seq::empty(),
        },
    }
}

/// The connection of plain requests in a tunnel.
pub open spec fn tunnel_connection(
    remote: Seq<char>,
    t: TargetView,
    traces: Seq<TraceView>,
) -> ConnView {
    ConnView {
        remote_addr: remote,
        mode: Mode::Tunnel,
        sni: None,
        scheme_https: false,
        forced_upstream: Some(t),
        tunnel_target: Some(target_text(t)),
        tunnel_traces: traces,
    }
}

/// Sums up a connection whose TLS was terminated; `forced` is what the tunnel it
/// lies in was opened to, with the traces of the handshake.
pub fn tls_context(
    remote: String,
    sni: Option<String>,
    forced: Option<(ConnectTarget, Vec<Trace>)>,
) -> (r: ConnCtx)
    ensures
        r@ == (match forced {
            Some((t, traces)) => tls_connection(
                remote@,
                opt_text(sni),
                Some(t@),
                trace_views(traces@),
            ),
            None => tls_connection(remote@, opt_text(sni), None, Seq::empty()),
        }),
{
    match forced {
        Some((t, traces)) => {
            let text = t.to_text();
            ConnCtx {
                remote_addr: remote,
                mode: Mode::Tunnel,
                sni,
                scheme_https: true,
                forced_upstream: Some(t),
                tunnel_target: Some(text),
                tunnel_traces: traces,
            }
        },
        None => {
            let r = ConnCtx {
                remote_addr: remote,
                mode: Mode::Https,
                sni,
                scheme_https: true,
                forced_upstream: None,
                tunnel_target: None,
                tunnel_traces: Vec::new(),
            };
            assert(r@.tunnel_traces == Seq::<TraceView>::empty());
            r
        },
    }
}

/// Sums up a connection for plain requests in a tunnel.
pub fn tunnel_context(remote: String, target: ConnectTarget, traces: Vec<Trace>) -> (r: ConnCtx)
    ensures
        r@ == tunnel_connection(remote@, target@, trace_views(traces@)),
{
    let text = target.to_text();
    ConnCtx {
        remote_addr: remote,
        mode: Mode::Tunnel,
        sni: None,
        scheme_https: false,
        forced_upstream: Some(target),
        tunnel_target: Some(text),
        tunnel_traces: traces,
    }
}

// ---- Asking for a tunnel: CONNECT -----------------------------------------------------------------

/// The bytes end with an empty line.
pub open spec fn head_complete(b: Seq<u8>) -> bool {
    &&& b.len() >= 4
    &&& b[b.len() - 4] == 13
    &&& b[b.len() - 3] == 10
    &&& b[b.len() - 2] == 13
    &&& b[b.len() - 1] == 10
}

/// The head of a CONNECT request, read byte by byte.
pub struct ConnectReader {
    buf: Vec<u8>,
}

impl View for ConnectReader {
    type V = Seq<u8>;

    closed spec fn view(&self) -> Seq<u8> {
        self.buf@
    }
}

impl ConnectReader {
    pub fn new() -> (r: Self)
        ensures
            r@ == Seq::<u8>::empty(),
    {
        ConnectReader { buf: Vec::new() }
    }

    /// Whether another byte may be read; else the head is too long.
    pub fn wants_more(&self) -> (r: bool)
        ensures
            r == (self@.len() <= SNIFF_CAP),
    {
        self.buf.len() <= SNIFF_CAP
    }

    /// Takes a byte. With the head complete it says where the tunnel is to lead,
    /// if the head asks for one.
    pub fn push(&mut self, b: u8) -> (r: Option<Option<ConnectTarget>>)
        ensures
            final(self)@ == old(self)@.push(b),
            match r {
                None => !head_complete(final(self)@),
                Some(t) => head_complete(final(self)@) && opt_target(t) == connect_of(
                    bytes_text(final(self)@),
                ),
            },
    {
        self.buf.push(b);
        let n: usize = self.buf.len();
        if n >= 4 && self.buf[n - 4] == 13 && self.buf[n - 3] == 10 && self.buf[n - 2] == 13
            && self.buf[n - 1] == 10 {
            let text = lossy(self.buf.as_slice());
            Some(parse_connect(text.as_str()))
        } else {
            None
        }
    }
}

// ---- Asking for a tunnel: SOCKS5 --------------------------------------------------------------------

/// Where a SOCKS5 negotiation stands.
#[derive(Debug, Clone, Copy, PartialEq, Eq, Structural)]
pub enum Socks5Phase {
    /// Version and number of methods.
    Greeting,
    Methods,
    /// The fixed part of the request.
    Fixed,
    /// The length of a name.
    NameLength,
    /// The address or the name, and the port.
    Address,
    Over,
}

/// What to do next in a negotiation.
#[derive(Debug)]
pub enum Socks5Step {
    /// Write these bytes, where there are any, then read so many.
    Read { reply: Vec<u8>, wanted: usize },
    /// Write these bytes, where there are any, and close.
    Close { reply: Vec<u8> },
    /// The tunnel is asked for.
    Done(ConnectTarget),
}

/// What a step says.
#[verifier::ext_equal]
#[allow(inconsistent_fields)]
pub enum Socks5StepView {
    Read { reply: Seq<u8>, wanted: nat },
    Close { reply: Seq<u8> },
    Done(TargetView),
}

impl View for Socks5Step {
    type V = Socks5StepView;

    open spec fn view(&self) -> Socks5StepView {
        match self {
            Socks5Step::Read { reply, wanted } => Socks5StepView::Read {
                reply: reply@,
                wanted: *wanted as nat,
            },
            Socks5Step::Close { reply } => Socks5StepView::Close { reply: reply@ },
            Socks5Step::Done(t) => Socks5StepView::Done(t@),
        }
    }
}

/// A SOCKS5 negotiation under way.
pub struct Socks5 {
    phase: Socks5Phase,
    /// The number of methods, or what was read of the request.
    held: Vec<u8>,
    wanted: usize,
}

/// What a negotiation holds.
#[verifier::ext_equal]
pub struct Socks5View {
    pub phase: Socks5Phase,
    pub held: Seq<u8>,
    /// How many bytes it waits for.
    pub wanted: nat,
}

impl View for Socks5 {
    type V = Socks5View;

    closed spec fn view(&self) -> Socks5View {
        Socks5View { phase: self.phase, held: self.held@, wanted: self.wanted as nat }
    }
}

/// A negotiation that is over.
pub open spec fn socks5_over() -> Socks5View {
    Socks5View { phase: Socks5Phase::Over, held: Seq::empty(), wanted: 0 }
}

/// A negotiation that waits for more.
pub open spec fn socks5_wait(phase: Socks5Phase, held: Seq<u8>, wanted: nat, reply: Seq<u8>) -> (
    Socks5View,
    Socks5StepView,
) {
    (Socks5View { phase, held, wanted }, Socks5StepView::Read { reply, wanted })
}

/// A negotiation that ends without a tunnel.
pub open spec fn socks5_close(reply: Seq<u8>) -> (Socks5View, Socks5StepView) {
    (socks5_over(), Socks5StepView::Close { reply })
}

/// The end of a negotiation by its request.
pub open spec fn socks5_end(request: Seq<u8>) -> (Socks5View, Socks5StepView) {
    match socks5_request(request) {
        Ok(t) => (socks5_over(), Socks5StepView::Done(t)),
        Err(reject) => socks5_close(socks5_reply(crate::tunnel::reject_code(reject))),
    }
}

/// What follows the bytes that were waited for.
pub open spec fn socks5_next(s: Socks5View, b: Seq<u8>) -> (Socks5View, Socks5StepView) {
    match s.phase {
        Socks5Phase::Greeting => if b[0] == 5 {
            socks5_wait(Socks5Phase::Methods, seq![b[1]], b[1] as nat, Seq::empty())
        } else {
            socks5_close(Seq::empty())
        },
        Socks5Phase::Methods => if socks5_methods(s.held + b) == Some(Socks5Method::NoAuth) {
            socks5_wait(Socks5Phase::Fixed, Seq::empty(), 4, seq![5u8, 0u8])
        } else {
            socks5_close(seq![5u8, 0xffu8])
        },
        Socks5Phase::Fixed => if b[3] == 1 {
            socks5_wait(Socks5Phase::Address, b, 6, Seq::empty())
        } else if b[3] == 4 {
            socks5_wait(Socks5Phase::Address, b, 18, Seq::empty())
        } else if b[3] == 3 {
            socks5_wait(Socks5Phase::NameLength, b, 1, Seq::empty())
        } else {
            socks5_close(socks5_reply(8))
        },
        Socks5Phase::NameLength => socks5_wait(
            Socks5Phase::Address,
            s.held + b,
            (b[0] + 2) as nat,
            Seq::empty(),
        ),
        Socks5Phase::Address => socks5_end(s.held + b),
        Socks5Phase::Over => socks5_close(Seq::empty()),
    }
}

impl Socks5 {
    /// Begins a negotiation: two bytes are waited for.
    pub fn start() -> (r: Self)
        ensures
            r@ == (Socks5View { phase: Socks5Phase::Greeting, held: Seq::empty(), wanted: 2 }),
    {
        Socks5 { phase: Socks5Phase::Greeting, held: Vec::new(), wanted: 2 }
    }

    /// How many bytes are waited for.
    pub fn wanted(&self) -> (r: usize)
        ensures
            r == self@.wanted,
    {
        self.wanted
    }

    #[verifier::type_invariant]
    spec fn in_step(self) -> bool {
        &&& self.phase == Socks5Phase::Greeting ==> self.wanted == 2
        &&& self.phase == Socks5Phase::Fixed ==> self.wanted == 4
        &&& self.phase == Socks5Phase::NameLength ==> self.wanted == 1
    }

    fn wait(&mut self, phase: Socks5Phase, held: Vec<u8>, wanted: usize, reply: Vec<u8>) -> (r:
        Socks5Step)
        requires
            phase == Socks5Phase::Greeting ==> wanted == 2,
            phase == Socks5Phase::Fixed ==> wanted == 4,
            phase == Socks5Phase::NameLength ==> wanted == 1,
        ensures
            (final(self)@, r@) == socks5_wait(phase, held@, wanted as nat, reply@),
    {
        *self = Socks5 { phase, held, wanted };
        Socks5Step::Read { reply, wanted }
    }

    fn close(&mut self, reply: Vec<u8>) -> (r: Socks5Step)
        ensures
            (final(self)@, r@) == socks5_close(reply@),
    {
        *self = Socks5 { phase: Socks5Phase::Over, held: Vec::new(), wanted: 0 };
        Socks5Step::Close { reply }
    }

    fn end(&mut self, request: Vec<u8>) -> (r: Socks5Step)
        ensures
            (final(self)@, r@) == socks5_end(request@),
    {
        match parse_socks5_request(request.as_slice()) {
            Ok(t) => {
                *self = Socks5 { phase: Socks5Phase::Over, held: Vec::new(), wanted: 0 };
                Socks5Step::Done(t)
            },
            Err(reject) => {
                let reply = reply_bytes(reject.reply_code());
                self.close(reply)
            },
        }
    }

    /// Goes on with the bytes that were waited for.
    pub fn on_read(&mut self, bytes: Vec<u8>) -> (r: Socks5Step)
        requires
            bytes@.len() == old(self)@.wanted,
        ensures
            (final(self)@, r@) == socks5_next(old(self)@, bytes@),
    {
        proof {
            use_type_invariant(&*self);
        }
        match self.phase {
            Socks5Phase::Greeting => {
                if bytes[0] == 5 {
                    let mut held: Vec<u8> = Vec::new();
                    held.push(bytes[1]);
                    assert(held@ == seq![bytes@[1]]);
                    self.wait(Socks5Phase::Methods, held, bytes[1] as usize, Vec::new())
                } else {
                    self.close(Vec::new())
                }
            },
            Socks5Phase::Methods => {
                let all = joined(&self.held, bytes);
                let accepted: bool = match parse_socks5_methods(all.as_slice()) {
                    Some(Socks5Method::NoAuth) => true,
                    _ => false,
                };
                if accepted {
                    let mut reply: Vec<u8> = Vec::new();
                    reply.push(5);
                    reply.push(0);
                    assert(reply@ == seq![5u8, 0u8]);
                    self.wait(Socks5Phase::Fixed, Vec::new(), 4, reply)
                } else {
                    let mut reply: Vec<u8> = Vec::new();
                    reply.push(5);
                    reply.push(0xff);
                    assert(reply@ == seq![5u8, 0xffu8]);
                    self.close(reply)
                }
            },
            Socks5Phase::Fixed => {
                let kind: u8 = bytes[3];
                if kind == 1 {
                    self.wait(Socks5Phase::Address, bytes, 6, Vec::new())
                } else if kind == 4 {
                    self.wait(Socks5Phase::Address, bytes, 18, Vec::new())
                } else if kind == 3 {
                    self.wait(Socks5Phase::NameLength, bytes, 1, Vec::new())
                } else {
                    let reply = reply_bytes(8);
                    self.close(reply)
                }
            },
            Socks5Phase::NameLength => {
                let n: usize = bytes[0] as usize + 2;
                let held = joined(&self.held, bytes);
                self.wait(Socks5Phase::Address, held, n, Vec::new())
            },
            Socks5Phase::Address => {
                let all = joined(&self.held, bytes);
                self.end(all)
            },
            Socks5Phase::Over => self.close(Vec::new()),
        }
    }
}

fn joined(a: &Vec<u8>, b: Vec<u8>) -> (r: Vec<u8>)
    ensures
        r@ == a@ + b@,
{
    let mut out: Vec<u8> = Vec::new();
    out.extend_from_slice(a.as_slice());
    out.extend_from_slice(b.as_slice());
    assert(out@ == a@ + b@);
    out
}

fn reply_bytes(code: u8) -> (r: Vec<u8>)
    ensures
        r@ == socks5_reply(code),
{
    let a = socks5_failure(code);
    let mut out: Vec<u8> = Vec::new();
    let mut i: usize = 0;
    while i < 10
        invariant
            i <= 10,
            a@.len() == 10,
            out@ == a@.take(i as int),
        decreases 10 - i,
    {
        out.push(a[i]);
        assert(out@ == a@.take(i + 1));
        i += 1;
    }
    assert(a@.take(10) == a@);
    out
}

// ---- Opening a tunnel ---------------------------------------------------------------------------------

/// The request that stands for a tunnel in the pipeline.
pub open spec fn connect_request(t: TargetView, remote: Seq<char>) -> RequestView {
    RequestView {
        mode: Mode::Tunnel,
        method: "CONNECT"@,
        host: t.host,
        port: t.port,
        path: ""@,
        query: ""@,
        headers: Seq::empty(),
        body: BodyView { bytes: Seq::empty(), over_cap: false },
        sni: None,
        remote_addr: Some(remote),
    }
}

/// Makes the request that stands for a tunnel in the pipeline.
pub fn synthetic_connect_summary(target: &ConnectTarget, remote: &str) -> (r: RequestSummary)
    ensures
        r@ == connect_request(target@, remote@),
{
    let headers = Headers::new(Vec::new());
    assert(headers@ == Seq::<HeaderView>::empty());
    RequestSummary {
        mode: Mode::Tunnel,
        method: "CONNECT".to_owned(),
        host: target.host.clone(),
        port: target.port,
        path: "".to_owned(),
        query: "".to_owned(),
        headers,
        body: Body::new(Vec::new(), false),
        sni: None,
        remote_addr: Some(remote.to_owned()),
    }
}

/// The record of a tunnel.
pub open spec fn tunnel_record(
    remote: Seq<char>,
    t: TargetView,
    traces: Seq<TraceView>,
) -> RecordView {
    RecordView {
        request_transforms: traces,
        ..bare_record(t.host, "CONNECT"@, ""@, Some(remote), None, Mode::Tunnel, Action::Allow)
    }
}

/// The record of a tunnel that is spliced.
pub open spec fn spliced_record(
    remote: Seq<char>,
    t: TargetView,
    traces: Seq<TraceView>,
) -> RecordView {
    RecordView {
        tunnel: Some(
            TunnelView { target: target_text(t), request_transforms: traces, passthrough: true },
        ),
        ..tunnel_record(remote, t, traces)
    }
}

fn base_tunnel_record(remote: &str, target: &ConnectTarget, traces: &Vec<Trace>) -> (r: AuditRecord)
    ensures
        r@ == tunnel_record(remote@, target@, trace_views(traces@)),
{
    let mut record = AuditRecord::bare(
        target.host.as_str(),
        "CONNECT",
        "",
        Some(remote.to_owned()),
        None,
        Mode::Tunnel,
        Action::Allow,
    );
    record.request_transforms = copy_traces(traces);
    record
}

fn base_spliced_record(remote: &str, target: &ConnectTarget, traces: &Vec<Trace>) -> (r:
    AuditRecord)
    ensures
        r@ == spliced_record(remote@, target@, trace_views(traces@)),
{
    let mut record = base_tunnel_record(remote, target, traces);
    record.tunnel =
    Some(
        TunnelGroup {
            target: target.to_text(),
            request_transforms: copy_traces(traces),
            passthrough: true,
        },
    );
    record
}

/// How the client asked for its tunnel.
#[derive(Debug, Clone, Copy, PartialEq, Eq, Structural)]
pub enum Asked {
    Connect,
    Socks5,
}

/// The answer to a client whose tunnel is refused by policy.
pub open spec fn refusal(asked: Asked) -> Seq<u8> {
    match asked {
        Asked::Connect => vstd::utf8::encode_utf8("HTTP/1.1 403 Forbidden\r\n\r\n"@),
        Asked::Socks5 => socks5_reply(2),
    }
}

/// The answer to a client whose tunnel is open.
pub open spec fn welcome(asked: Asked) -> Seq<u8> {
    match asked {
        Asked::Connect => vstd::utf8::encode_utf8(
            "HTTP/1.1 200 Connection Established\r\n\r\n"@,
        ),
        Asked::Socks5 => socks5_reply(0),
    }
}

/// The answer to a client whose tunnel leads nowhere.
pub open spec fn dead_end(asked: Asked) -> Seq<u8> {
    match asked {
        Asked::Connect => vstd::utf8::encode_utf8("HTTP/1.1 502 Bad Gateway\r\n\r\n"@),
        Asked::Socks5 => socks5_reply(1),
    }
}

fn text_bytes(s: &str) -> (r: Vec<u8>)
    ensures
        r@ == vstd::utf8::encode_utf8(s@),
{
    let mut out: Vec<u8> = Vec::new();
    out.extend_from_slice(s.as_bytes());
    assert(out@ == vstd::utf8::encode_utf8(s@));
    out
}

fn refusal_bytes(asked: Asked) -> (r: Vec<u8>)
    ensures
        r@ == refusal(asked),
{
    match asked {
        Asked::Connect => text_bytes("HTTP/1.1 403 Forbidden\r\n\r\n"),
        Asked::Socks5 => reply_bytes(2),
    }
}

/// The bytes that tell a client that its tunnel is open.
pub fn welcome_bytes(asked: Asked) -> (r: Vec<u8>)
    ensures
        r@ == welcome(asked),
{
    match asked {
        Asked::Connect => text_bytes("HTTP/1.1 200 Connection Established\r\n\r\n"),
        Asked::Socks5 => reply_bytes(0),
    }
}

fn dead_end_bytes(asked: Asked) -> (r: Vec<u8>)
    ensures
        r@ == dead_end(asked),
{
    match asked {
        Asked::Connect => text_bytes("HTTP/1.1 502 Bad Gateway\r\n\r\n"),
        Asked::Socks5 => reply_bytes(1),
    }
}

/// What becomes of a tunnel that was asked for.
pub enum TunnelStep {
    /// Audit this, answer and close.
    Refuse { record: AuditRecord, reply: Vec<u8> },
    /// Answer that the tunnel is open, then look into it.
    Open { traces: Vec<Trace> },
    /// Dial first; the tunnel is spliced.
    Splice { proof: AllowProof, traces: Vec<Trace> },
}

/// What is said of a tunnel that was asked for.
#[verifier::ext_equal]
#[allow(inconsistent_fields)]
pub enum TunnelStepView {
    Refuse { record: RecordView, reply: Seq<u8> },
    Open { traces: Seq<TraceView> },
    Splice { traces: Seq<TraceView> },
}

impl View for TunnelStep {
    type V = TunnelStepView;

    open spec fn view(&self) -> TunnelStepView {
        match self {
            TunnelStep::Refuse { record, reply } => TunnelStepView::Refuse {
                record: record@,
                reply: reply@,
            },
            TunnelStep::Open { traces } => TunnelStepView::Open { traces: trace_views(traces@) },
            TunnelStep::Splice { proof: _, traces } => TunnelStepView::Splice {
                traces: trace_views(traces@),
            },
        }
    }
}

/// Who refused a tunnel.
pub open spec fn refuser(o: OutcomeView) -> Seq<char> {
    match o {
        OutcomeView::Reject { by, response: _ } => by,
        _ => "listener"@,
    }
}

/// What becomes of a tunnel by what the pipeline decided: only where it let the
/// request pass is the tunnel opened; to some targets it is spliced.
pub open spec fn tunnel_step(
    o: PipelineOutcomeView,
    t: TargetView,
    remote: Seq<char>,
    asked: Asked,
    spliced: bool,
) -> TunnelStepView {
    if o.outcome == OutcomeView::Continue {
        if spliced {
            TunnelStepView::Splice { traces: o.traces }
        } else {
            TunnelStepView::Open { traces: o.traces }
        }
    } else {
        TunnelStepView::Refuse {
            record: RecordView {
                action: Action::Reject,
                rejected_by: Some(refuser(o.outcome)),
                status_code: Some(403),
                ..tunnel_record(remote, t, o.traces)
            },
            reply: refusal(asked),
        }
    }
}

/// Draws the consequence for a tunnel of what the pipeline decided.
pub fn settle_tunnel(
    outcome: PipelineOutcome,
    target: &ConnectTarget,
    remote: &str,
    asked: Asked,
    passthrough: &Vec<crate::matcher::DomainGlob>,
) -> (r: TunnelStep)
    ensures
        r@ == tunnel_step(
            outcome@,
            target@,
            remote@,
            asked,
            some_domain_accepts(glob_views(passthrough@), target@.host),
        ),
{
    let traces = outcome.request_traces;
    match outcome.outcome {
        Outcome::Continue(proof) => {
            if any_domain_matches(passthrough, target.host.as_str()) {
                TunnelStep::Splice { proof, traces }
            } else {
                TunnelStep::Open { traces }
            }
        },
        Outcome::Reject { by, response: _ } => {
            let mut record = base_tunnel_record(remote, target, &traces);
            record.action = Action::Reject;
            record.rejected_by = Some(by);
            record.status_code = Some(403);
            TunnelStep::Refuse { record, reply: refusal_bytes(asked) }
        },
        _ => {
            let mut record = base_tunnel_record(remote, target, &traces);
            record.action = Action::Reject;
            record.rejected_by = Some("listener".to_owned());
            record.status_code = Some(403);
            TunnelStep::Refuse { record, reply: refusal_bytes(asked) }
        },
    }
}

/// Asks the pipeline about a tunnel and draws the consequence.
pub fn decide_tunnel<R: SecretResolver>(
    pipeline: &Pipeline<R>,
    target: &ConnectTarget,
    remote: &str,
    asked: Asked,
    passthrough: &Vec<crate::matcher::DomainGlob>,
) -> (r: TunnelStep)
    ensures
        exists|answers: Seq<Seq<Option<Seq<u8>>>>|
            {
                &&& #[trigger] run_answered(
                    pipeline.resolver_view(),
                    pipeline@,
                    answers,
                    connect_request(target@, remote@),
                )
                &&& r@ == tunnel_step(
                    outcome_of(
                        run(pipeline@, answers, connect_request(target@, remote@)),
                        connect_request(target@, remote@).path,
                    ),
                    target@,
                    remote@,
                    asked,
                    some_domain_accepts(glob_views(passthrough@), target@.host),
                )
            },
{
    let mut summary = synthetic_connect_summary(target, remote);
    let outcome = pipeline.evaluate_request(&mut summary);
    settle_tunnel(outcome, target, remote, asked, passthrough)
}

// ---- Inside a tunnel ------------------------------------------------------------------------------------

/// What to do with an open tunnel.
pub enum InnerStep {
    /// Nothing came: the handshake is all there is to audit.
    Quiet(AuditRecord),
    /// Terminate TLS.
    Terminate,
    /// Serve plain requests.
    Serve,
    Close,
}

/// What is done with an open tunnel.
#[verifier::ext_equal]
pub enum InnerStepView {
    Quiet(RecordView),
    Terminate,
    Serve,
    Close,
}

impl View for InnerStep {
    type V = InnerStepView;

    open spec fn view(&self) -> InnerStepView {
        match self {
            InnerStep::Quiet(r) => InnerStepView::Quiet(r@),
            InnerStep::Terminate => InnerStepView::Terminate,
            InnerStep::Serve => InnerStepView::Serve,
            InnerStep::Close => InnerStepView::Close,
        }
    }
}

/// What is done with an open tunnel by the first byte in it.
pub open spec fn inner_step(
    first: Option<u8>,
    remote: Seq<char>,
    t: TargetView,
    traces: Seq<TraceView>,
) -> InnerStepView {
    match first {
        None => InnerStepView::Quiet(
            RecordView { status_code: Some(200), ..tunnel_record(remote, t, traces) },
        ),
        Some(b) => match inner_protocol(b) {
            InnerProtocol::Tls => InnerStepView::Terminate,
            InnerProtocol::Http => InnerStepView::Serve,
            InnerProtocol::Unknown => InnerStepView::Close,
        },
    }
}

/// Decides on an open tunnel by the first byte in it, if one came.
pub fn look_inside(
    first: Option<u8>,
    remote: &str,
    target: &ConnectTarget,
    traces: &Vec<Trace>,
) -> (r: InnerStep)
    ensures
        r@ == inner_step(first, remote@, target@, trace_views(traces@)),
{
    match first {
        None => {
            let mut record = base_tunnel_record(remote, target, traces);
            record.status_code = Some(200);
            InnerStep::Quiet(record)
        },
        Some(b) => match sniff_inner(b) {
            InnerProtocol::Tls => InnerStep::Terminate,
            InnerProtocol::Http => InnerStep::Serve,
            InnerProtocol::Unknown => InnerStep::Close,
        },
    }
}

/// The end of a tunnel that was to be spliced and whose target could not be
/// reached.
pub open spec fn splice_failed_record(
    remote: Seq<char>,
    t: TargetView,
    traces: Seq<TraceView>,
    e: DialErrorView,
) -> RecordView {
    let record = spliced_record(remote, t, traces);
    match e {
        DialErrorView::Denied(d) => RecordView {
            action: Action::Reject,
            rejected_by: Some("guard"@),
            status_code: Some(502),
            guard: Some(d),
            ..record
        },
        DialErrorView::Failed(message) => RecordView {
            action: Action::Error,
            status_code: Some(502),
            error: Some(message),
            ..record
        },
    }
}

/// Ends a tunnel that was to be spliced and whose target could not be reached:
/// the record, and the answer to the client.
pub fn splice_failed(
    remote: &str,
    target: &ConnectTarget,
    traces: &Vec<Trace>,
    e: DialError,
    asked: Asked,
) -> (r: (AuditRecord, Vec<u8>))
    ensures
        r.0@ == splice_failed_record(remote@, target@, trace_views(traces@), e@),
        r.1@ == dead_end(asked),
{
    let mut record = base_spliced_record(remote, target, traces);
    match e {
        DialError::Denied(denial) => {
            record.action = Action::Reject;
            record.rejected_by = Some("guard".to_owned());
            record.guard = Some(denial);
        },
        DialError::Failed(message) => {
            record.action = Action::Error;
            record.error = Some(message);
        },
    }
    record.status_code = Some(502);
    (record, dead_end_bytes(asked))
}

/// What to do with a tunnel that is to be spliced.
pub enum SpliceStep {
    /// Read more of what the client sends first.
    ReadMore,
    /// Audit this and close.
    Refuse(AuditRecord),
    /// Audit this and copy bytes both ways, beginning with what was read.
    Splice(AuditRecord),
}

/// What is done with a tunnel that is to be spliced.
#[verifier::ext_equal]
pub enum SpliceStepView {
    ReadMore,
    Refuse(RecordView),
    Splice(RecordView),
}

impl View for SpliceStep {
    type V = SpliceStepView;

    open spec fn view(&self) -> SpliceStepView {
        match self {
            SpliceStep::ReadMore => SpliceStepView::ReadMore,
            SpliceStep::Refuse(r) => SpliceStepView::Refuse(r@),
            SpliceStep::Splice(r) => SpliceStepView::Splice(r@),
        }
    }
}

/// What is done with a tunnel that is to be spliced, by what the client sent
/// first: a server name that can be seen must be the target's. `ended` says that
/// no more comes.
pub open spec fn splice_step(
    buf: Seq<u8>,
    ended: bool,
    remote: Seq<char>,
    t: TargetView,
    traces: Seq<TraceView>,
) -> SpliceStepView {
    let record = spliced_record(remote, t, traces);
    match crate::tunnel::client_hello_name(buf) {
        SniView::Incomplete => if ended || buf.len() > SNIFF_CAP {
            SpliceStepView::Splice(RecordView { status_code: Some(200), ..record })
        } else {
            SpliceStepView::ReadMore
        },
        SniView::Sni(name) => if crate::text::same_caseless(name, t.host) {
            SpliceStepView::Splice(
                RecordView { status_code: Some(200), sni: Some(name), ..record },
            )
        } else {
            SpliceStepView::Refuse(
                RecordView {
                    action: Action::Reject,
                    rejected_by: Some("listener"@),
                    status_code: Some(0),
                    sni: Some(name),
                    ..record
                },
            )
        },
        SniView::NoSni => SpliceStepView::Splice(
            RecordView { status_code: Some(200), ..record },
        ),
        SniView::NotTls => SpliceStepView::Splice(
            RecordView { status_code: Some(200), ..record },
        ),
    }
}

/// Decides on a tunnel that is to be spliced, by what the client sent first.
pub fn check_splice(
    buf: &[u8],
    ended: bool,
    remote: &str,
    target: &ConnectTarget,
    traces: &Vec<Trace>,
) -> (r: SpliceStep)
    ensures
        r@ == splice_step(buf@, ended, remote@, target@, trace_views(traces@)),
{
    let mut record = base_spliced_record(remote, target, traces);
    record.status_code = Some(200);
    match scan_client_hello_sni(buf) {
        SniScan::Incomplete => {
            if ended || buf.len() > SNIFF_CAP {
                SpliceStep::Splice(record)
            } else {
                SpliceStep::ReadMore
            }
        },
        SniScan::Sni(name) => {
            let agrees: bool = eq_caseless(name.as_str(), target.host.as_str());
            record.sni = Some(name);
            if agrees {
                SpliceStep::Splice(record)
            } else {
                record.action = Action::Reject;
                record.rejected_by = Some("listener".to_owned());
                record.status_code = Some(0);
                SpliceStep::Refuse(record)
            }
        },
        SniScan::NoSni => SpliceStep::Splice(record),
        SniScan::NotTls => SpliceStep::Splice(record),
    }
}

// ---- Laws -----------------------------------------------------------------------------------------------

/// A tunnel is opened or spliced only where the pipeline let its request pass;
/// else the client is told so and the refusal is audited.
pub proof fn tunnel_opens_only_on_a_pass(
    o: PipelineOutcomeView,
    t: TargetView,
    remote: Seq<char>,
    asked: Asked,
    spliced: bool,
)
    ensures
        ({
            let step = tunnel_step(o, t, remote, asked, spliced);
            &&& step is Refuse <==> o.outcome != OutcomeView::Continue
            &&& step matches TunnelStepView::Refuse { record, reply } ==> record.action
                == Action::Reject && record.status_code == Some(403u16) && reply == refusal(asked)
        }),
{
}

/// TLS in a tunnel is terminated under the name of what the tunnel was opened
/// to, and for no client that asks for another; outside a tunnel under the name
/// that the client asks for.
pub proof fn leaf_is_for_the_target(
    forced: Option<TargetView>,
    sni: Option<Seq<char>>,
    remote: Seq<char>,
    name: Seq<char>,
)
    requires
        leaf_for(forced, sni, remote) == Ok::<Seq<char>, RecordView>(name),
    ensures
        match forced {
            Some(t) => name == t.host && (sni matches Some(n) ==> crate::text::same_caseless(
                n,
                t.host,
            )),
            None => sni == Some(name),
        },
{
}

/// A spliced tunnel carries no client that is seen to ask for another name than
/// the tunnel's target.
pub proof fn spliced_name_is_the_target(
    buf: Seq<u8>,
    ended: bool,
    remote: Seq<char>,
    t: TargetView,
    traces: Seq<TraceView>,
)
    ensures
        ({
            let step = splice_step(buf, ended, remote, t, traces);
            &&& (step is Splice && crate::tunnel::client_hello_name(buf) is Sni)
                ==> crate::text::same_caseless(crate::tunnel::client_hello_name(buf)->Sni_0, t.host)
            &&& ended ==> !(step is ReadMore)
            &&& buf.len() > SNIFF_CAP ==> !(step is ReadMore)
        }),
{
}

/// A SOCKS5 negotiation waits for whole requests: one for an address is complete
/// when its bytes have come, and so is one for a name that is UTF-8.
pub proof fn socks5_reads_whole_requests(fixed: Seq<u8>, rest: Seq<u8>)
    requires
        fixed.len() == 4,
        fixed[0] == 5,
        fixed[1] == 1,
        ({
            ||| fixed[3] == 1 && rest.len() == 6
            ||| fixed[3] == 4 && rest.len() == 18
            ||| fixed[3] == 3 && rest.len() > 0 && rest.len() == rest[0] + 3
                && vstd::utf8::valid_utf8(rest.subrange(1, 1 + rest[0]))
        }),
    ensures
        socks5_end(fixed + rest).1 is Done,
{
    let r = fixed + rest;
    assert(r[0] == fixed[0] && r[1] == fixed[1] && r[3] == fixed[3]);
    if fixed[3] == 3 {
        assert(r[4] == rest[0]);
        assert(r.subrange(5, 5 + r[4]) == rest.subrange(1, 1 + rest[0]));
    }
}

} // verus!
