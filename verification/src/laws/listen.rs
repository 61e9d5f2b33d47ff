//! What listeners do with a connection.
use vstd::prelude::*;
use vstd::string::*;
use vstd::utf8::*;

use crate::audit::{Action, DenialView, RecordView, TunnelView};
use crate::dial::DialErrorView;
use crate::http::ConnView;
use crate::listen::{
    Asked, InnerStepView, Socks5Phase, Socks5StepView, Socks5View, SpliceStepView, TunnelStepView,
};
use crate::pipeline::{OutcomeView, PipelineOutcomeView};
use crate::summary::{BodyView, Mode, RequestView};
use crate::tunnel::{SniView, TargetView};
use crate::verdict::TraceView;

verus! {

/// The record of a connection that the listener closes.
pub open spec fn closed(remote: Seq<char>, host: Seq<char>, status: u16, mode: Mode) -> RecordView {
    RecordView {
        host,
        method: Seq::empty(),
        path: Seq::empty(),
        remote_addr: Some(remote),
        sni: None,
        mode,
        action: Action::Reject,
        status_code: Some(status),
        rejected_by: Some("listener"@),
        stubbed_by: None,
        error: None,
        request_transforms: Seq::empty(),
        response_transforms: Seq::empty(),
        tunnel: None,
        guard: None,
        body_capture: None,
    }
}

proof fn nothing()
    ensures
        ""@ == Seq::<char>::empty(),
{
    reveal_strlit("");
    assert(""@ =~= Seq::<char>::empty());
}

/// In a tunnel TLS is terminated for the tunnel's target, and only where the client names it or
/// names nobody. Outside, it is terminated for the name that the client gives.
pub proof fn tls_is_terminated_for_the_target(t: TargetView, name: Seq<char>, remote: Seq<char>)
    ensures
        crate::listen::leaf_for(Some(t), None, remote) == Ok::<Seq<char>, RecordView>(t.host),
        crate::listen::leaf_for(Some(t), Some(name), remote) == (if super::words::small(name)
            == super::words::small(t.host) {
            Ok::<Seq<char>, RecordView>(t.host)
        } else {
            Err::<Seq<char>, RecordView>(closed(remote, t.host, 0, Mode::Tunnel))
        }),
        crate::listen::leaf_for(None, Some(name), remote) == Ok::<Seq<char>, RecordView>(name),
        crate::listen::leaf_for(None, None, remote) == Err::<Seq<char>, RecordView>(
            closed(remote, Seq::empty(), 0, Mode::Https),
        ),
{
    nothing();
    super::text::caseless_is_equal_in_lowercase(name, t.host);
}

/// What requests on a connection are seen with: whether TLS was terminated, the name that was
/// given, and the target of the tunnel.
pub proof fn connections_know_where_they_are(
    remote: Seq<char>,
    sni: Option<Seq<char>>,
    t: TargetView,
    traces: Seq<TraceView>,
)
    ensures
        ({
            let target = t.host + seq![':'] + super::words::written(t.port as nat);
            let inside = ConnView {
                remote_addr: remote,
                mode: Mode::Tunnel,
                sni,
                scheme_https: true,
                forced_upstream: Some(t),
                tunnel_target: Some(target),
                tunnel_traces: traces,
            };
            let outside = ConnView {
                remote_addr: remote,
                mode: Mode::Http,
                sni: None,
                scheme_https: false,
                forced_upstream: None,
                tunnel_target: None,
                tunnel_traces: Seq::empty(),
            };
            &&& crate::listen::tls_connection(remote, sni, Some(t), traces) == inside
            &&& crate::listen::tunnel_connection(remote, t, traces) == (ConnView {
                sni: None,
                scheme_https: false,
                ..inside
            })
            &&& crate::listen::tls_connection(remote, sni, None, traces) == (ConnView {
                mode: Mode::Https,
                sni,
                scheme_https: true,
                ..outside
            })
            &&& crate::http::plain_connection(remote) == outside
        }),
{
    super::text::numbers_are_decimal(t.port as nat, 65535);
    assert(crate::tunnel::target_text(t) =~= t.host + seq![':'] + super::words::written(
        t.port as nat,
    ));
}

/// The head of a request is complete once it ends in an empty line, and not before.
pub proof fn a_head_ends_in_an_empty_line(b: Seq<u8>)
    ensures
        crate::listen::head_complete(b + seq![13u8, 10, 13, 10]),
        crate::listen::head_complete(b) ==> b.len() >= 4 && b.skip(b.len() - 4) == seq![
            13u8,
            10,
            13,
            10,
        ],
{
    if crate::listen::head_complete(b) {
        assert(b.skip(b.len() - 4) =~= seq![13u8, 10, 13, 10]);
    }
}

// ---- SOCKS 5 ------------------------------------------------------------------------------------------

/// A SOCKS client says how many methods it offers, and then offers them; it is told that it needs
/// no authentication, or that nothing it offers will do.
pub proof fn socks_clients_are_greeted(s: Socks5View, m: Socks5View, methods: Seq<u8>, version: u8)
    requires
        s.phase is Greeting,
        m.phase is Methods,
        methods.len() <= 255,
        m.held == seq![methods.len() as u8],
    ensures
        ({
            let g = crate::listen::socks5_next(s, seq![version, methods.len() as u8]);
            if version == 5 {
                &&& g.1 == (Socks5StepView::Read { reply: Seq::empty(), wanted: methods.len() })
                &&& g.0.phase is Methods
                &&& g.0.held == seq![methods.len() as u8]
                &&& g.0.wanted == methods.len()
            } else {
                g.1 == (Socks5StepView::Close { reply: Seq::empty() })
            }
        }),
        ({
            let a = crate::listen::socks5_next(m, methods);
            if exists|i: int| 0 <= i < methods.len() && methods[i] == 0 {
                &&& a.1 == (Socks5StepView::Read { reply: seq![5u8, 0], wanted: 4 })
                &&& a.0.phase is Fixed
                &&& a.0.wanted == 4
            } else {
                a.1 == (Socks5StepView::Close { reply: seq![5u8, 255] })
            }
        }),
{
    super::tunnel::greetings_offer_methods(methods, Seq::empty());
    assert(seq![methods.len() as u8] + methods + Seq::<u8>::empty() =~= m.held + methods);
}

/// Of a request so many bytes are read as its kind of address takes, and the port; the rest is
/// decided by the whole of it.
pub proof fn socks_requests_are_read(
    f: Socks5View,
    l: Socks5View,
    a: Socks5View,
    command: u8,
    r: u8,
    kind: u8,
    length: u8,
    rest: Seq<u8>,
)
    requires
        f.phase is Fixed,
        l.phase is NameLength,
        a.phase is Address,
    ensures
        ({
            let b = seq![5u8, command, r, kind];
            let s = crate::listen::socks5_next(f, b);
            let read = |n: nat| (Socks5StepView::Read { reply: Seq::empty(), wanted: n });
            &&& kind == 1 ==> s.1 == read(6) && s.0.phase is Address && s.0.held == b && s.0.wanted
                == 6
            &&& kind == 4 ==> s.1 == read(18) && s.0.phase is Address && s.0.held == b
                && s.0.wanted == 18
            &&& kind == 3 ==> s.1 == read(1) && s.0.phase is NameLength && s.0.held == b
                && s.0.wanted == 1
            &&& kind != 1 && kind != 3 && kind != 4 ==> s.1 == (Socks5StepView::Close {
                reply: seq![5u8, 8, 0, 1, 0, 0, 0, 0, 0, 0],
            })
        }),
        ({
            let s = crate::listen::socks5_next(l, seq![length]);
            &&& s.1 == (Socks5StepView::Read {
                reply: Seq::empty(),
                wanted: (length + 2) as nat,
            })
            &&& s.0.phase is Address
            &&& s.0.held == l.held + seq![length]
            &&& s.0.wanted == length + 2
        }),
        ({
            let s = crate::listen::socks5_next(a, rest);
            match crate::tunnel::socks5_request(a.held + rest) {
                Ok(t) => s.1 == Socks5StepView::Done(t),
                Err(e) => s.1 == (Socks5StepView::Close {
                    reply: seq![
                        5u8,
                        crate::tunnel::reject_code(e),
                        0,
                        1,
                        0,
                        0,
                        0,
                        0,
                        0,
                        0,
                    ],
                }),
            }
        }),
{
}

// ---- Tunnels ------------------------------------------------------------------------------------------

/// The request that a tunnel is judged by: `CONNECT` to its target, with nothing else.
pub proof fn tunnels_are_judged_by_their_target(t: TargetView, remote: Seq<char>)
    ensures
        crate::listen::connect_request(t, remote) == (RequestView {
            mode: Mode::Tunnel,
            method: "CONNECT"@,
            host: t.host,
            port: t.port,
            path: Seq::empty(),
            query: Seq::empty(),
            headers: Seq::empty(),
            body: BodyView { bytes: Seq::empty(), over_cap: false },
            sni: None,
            remote_addr: Some(remote),
        }),
{
    nothing();
}

/// The record of a tunnel.
pub open spec fn of_tunnel(remote: Seq<char>, t: TargetView, traces: Seq<TraceView>) -> RecordView {
    RecordView {
        host: t.host,
        method: "CONNECT"@,
        path: Seq::empty(),
        remote_addr: Some(remote),
        sni: None,
        mode: Mode::Tunnel,
        action: Action::Allow,
        status_code: None,
        rejected_by: None,
        stubbed_by: None,
        error: None,
        request_transforms: traces,
        response_transforms: Seq::empty(),
        tunnel: None,
        guard: None,
        body_capture: None,
    }
}

/// The record of a tunnel that is spliced.
pub open spec fn of_splice(remote: Seq<char>, t: TargetView, traces: Seq<TraceView>) -> RecordView {
    RecordView {
        tunnel: Some(
            TunnelView {
                target: t.host + seq![':'] + super::words::written(t.port as nat),
                request_transforms: traces,
                passthrough: true,
            },
        ),
        ..of_tunnel(remote, t, traces)
    }
}

proof fn splices_are_told(remote: Seq<char>, t: TargetView, traces: Seq<TraceView>)
    ensures
        crate::listen::tunnel_record(remote, t, traces) == of_tunnel(remote, t, traces),
        crate::listen::spliced_record(remote, t, traces) == of_splice(remote, t, traces),
{
    nothing();
    super::text::numbers_are_decimal(t.port as nat, 65535);
    assert(crate::tunnel::target_text(t) =~= t.host + seq![':'] + super::words::written(
        t.port as nat,
    ));
}

/// A tunnel opens exactly where the pipeline lets it; else the client is told in its protocol,
/// and the record says who rejected it, the listener where no transform did.
pub proof fn tunnels_open_where_the_pipeline_lets_them(
    o: PipelineOutcomeView,
    t: TargetView,
    remote: Seq<char>,
    asked: Asked,
    spliced: bool,
)
    ensures
        ({
            let s = crate::listen::tunnel_step(o, t, remote, asked, spliced);
            match o.outcome {
                OutcomeView::Continue => if spliced {
                    s == (TunnelStepView::Splice { traces: o.traces })
                } else {
                    s == (TunnelStepView::Open { traces: o.traces })
                },
                _ => s == (TunnelStepView::Refuse {
                    record: RecordView {
                        action: Action::Reject,
                        status_code: Some(403),
                        rejected_by: match o.outcome {
                            OutcomeView::Reject { by, response: _ } => Some(by),
                            _ => Some("listener"@),
                        },
                        ..of_tunnel(remote, t, o.traces)
                    },
                    reply: match asked {
                        Asked::Connect => encode_utf8("HTTP/1.1 403 Forbidden\r\n\r\n"@),
                        Asked::Socks5 => seq![5u8, 2, 0, 1, 0, 0, 0, 0, 0, 0],
                    },
                }),
            }
        }),
{
    splices_are_told(remote, t, o.traces);
}

/// What a client is told where its tunnel opens, and where its target cannot be reached.
pub proof fn clients_are_told_of_their_tunnel()
    ensures
        crate::listen::welcome(Asked::Connect) == encode_utf8(
            "HTTP/1.1 200 Connection Established\r\n\r\n"@,
        ),
        crate::listen::welcome(Asked::Socks5) == seq![5u8, 0, 0, 1, 0, 0, 0, 0, 0, 0],
        crate::listen::dead_end(Asked::Connect) == encode_utf8(
            "HTTP/1.1 502 Bad Gateway\r\n\r\n"@,
        ),
        crate::listen::dead_end(Asked::Socks5) == seq![5u8, 1, 0, 1, 0, 0, 0, 0, 0, 0],
{
}

/// In an open tunnel TLS is terminated and plain requests are served; a tunnel that stays empty
/// is recorded, and anything else is closed.
pub proof fn tunnels_are_looked_into(
    b: u8,
    remote: Seq<char>,
    t: TargetView,
    traces: Seq<TraceView>,
)
    ensures
        crate::listen::inner_step(None, remote, t, traces) == InnerStepView::Quiet(
            RecordView { status_code: Some(200), ..of_tunnel(remote, t, traces) },
        ),
        crate::listen::inner_step(Some(b), remote, t, traces) == (if b == 22 {
            InnerStepView::Terminate
        } else if 'A' <= b as char <= 'Z' {
            InnerStepView::Serve
        } else {
            InnerStepView::Close
        }),
{
    splices_are_told(remote, t, traces);
}

/// A spliced tunnel whose target cannot be reached is recorded so.
pub proof fn failed_splices_are_recorded(
    remote: Seq<char>,
    t: TargetView,
    traces: Seq<TraceView>,
    d: DenialView,
    message: Seq<char>,
)
    ensures
        crate::listen::splice_failed_record(remote, t, traces, DialErrorView::Denied(d)) == (
        RecordView {
            action: Action::Reject,
            rejected_by: Some("guard"@),
            status_code: Some(502),
            guard: Some(d),
            ..of_splice(remote, t, traces)
        }),
        crate::listen::splice_failed_record(remote, t, traces, DialErrorView::Failed(message)) == (
        RecordView {
            action: Action::Error,
            status_code: Some(502),
            error: Some(message),
            ..of_splice(remote, t, traces)
        }),
{
    splices_are_told(remote, t, traces);
}

/// A tunnel is spliced unless its ClientHello names another host than its target; that is waited
/// for while it may still come, and for no more than 16384 bytes.
pub proof fn splices_are_checked_by_name(
    buf: Seq<u8>,
    ended: bool,
    remote: Seq<char>,
    t: TargetView,
    traces: Seq<TraceView>,
)
    ensures
        ({
            let s = crate::listen::splice_step(buf, ended, remote, t, traces);
            let good = RecordView { status_code: Some(200), ..of_splice(remote, t, traces) };
            match crate::tunnel::client_hello_name(buf) {
                SniView::Sni(name) => if super::words::small(name) == super::words::small(t.host) {
                    s == SpliceStepView::Splice(RecordView { sni: Some(name), ..good })
                } else {
                    s == SpliceStepView::Refuse(
                        RecordView {
                            sni: Some(name),
                            action: Action::Reject,
                            rejected_by: Some("listener"@),
                            status_code: Some(0),
                            ..good
                        },
                    )
                },
                SniView::Incomplete => if ended || buf.len() > 16384 {
                    s == SpliceStepView::Splice(good)
                } else {
                    s is ReadMore
                },
                _ => s == SpliceStepView::Splice(good),
            }
        }),
{
    splices_are_told(remote, t, traces);
    if let SniView::Sni(name) = crate::tunnel::client_hello_name(buf) {
        super::text::caseless_is_equal_in_lowercase(name, t.host);
    }
}

} // verus!
