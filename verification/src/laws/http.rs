//! What becomes of a request and of its answer.
use vstd::prelude::*;
use vstd::string::*;

use crate::audit::{Action, DenialView, RecordView, TunnelView};
use crate::dial::DialErrorView;
use crate::http::{
    AnswerView, BufferView, ConnView, FailureView, FinishedView, ReplyView,
};
use crate::pipeline::{OutcomeView, PipelineOutcomeView, ResponseActionView};
use crate::summary::{BodyView, HeaderView, RequestView};
use crate::target::{HeadView, RawHeader, RequestTarget};
use crate::transforms::TransformView;
use crate::tunnel::TargetView;
use crate::verdict::{ResponseView, TraceView};

verus! {

/// A record of something on a connection, with nothing said of how it ended.
pub open spec fn told(
    c: ConnView,
    host: Seq<char>,
    method: Seq<char>,
    path: Seq<char>,
    action: Action,
) -> RecordView {
    RecordView {
        host,
        method,
        path,
        remote_addr: Some(c.remote_addr),
        sni: c.sni,
        mode: c.mode,
        action,
        status_code: None,
        rejected_by: None,
        stubbed_by: None,
        error: None,
        request_transforms: Seq::empty(),
        response_transforms: Seq::empty(),
        tunnel: match c.tunnel_target {
            Some(target) => Some(
                TunnelView {
                    target,
                    request_transforms: c.tunnel_traces,
                    passthrough: false,
                },
            ),
            None => None,
        },
        guard: None,
        body_capture: None,
    }
}

/// A request without a target, or with a path that climbs, is answered by 400 and recorded as
/// rejected by the listener; every other one is opened.
pub proof fn requests_without_a_target_are_refused(head: HeadView, c: ConnView)
    ensures
        match crate::target::resolved(head, c.forced_upstream, c.sni, c.scheme_https) {
            Ok(t) => if crate::target::dotted(t.path) {
                crate::http::opened(head, c) == Err::<RequestTarget, FinishedView>(
                    FinishedView {
                        record: RecordView {
                            status_code: Some(400),
                            rejected_by: Some("listener"@),
                            ..told(c, t.host, head.method, t.path, Action::Reject)
                        },
                        reply: ReplyView::Status(400),
                    },
                )
            } else {
                crate::http::opened(head, c) == Ok::<RequestTarget, FinishedView>(t)
            },
            Err((_, host)) => crate::http::opened(head, c) == Err::<RequestTarget, FinishedView>(
                FinishedView {
                    record: RecordView {
                        status_code: Some(400),
                        rejected_by: Some("listener"@),
                        ..told(c, host, head.method, head.path, Action::Reject)
                    },
                    reply: ReplyView::Status(400),
                },
            ),
        },
{
}

/// A body is seen whole up to its cap; a longer one is seen up to the cap and is marked.
pub proof fn bodies_are_seen_up_to_their_cap(bytes: Seq<u8>, cap: usize)
    ensures
        ({
            let b = BufferView { bytes, cap };
            &&& bytes.len() <= cap ==> !crate::http::is_over(b) && crate::http::seen_body(b) == (
            BodyView { bytes, over_cap: false })
            &&& bytes.len() > cap ==> crate::http::is_over(b) && crate::http::seen_body(b) == (
            BodyView { bytes: bytes.subrange(0, cap as int), over_cap: true })
        }),
{
    if bytes.len() > cap {
        assert(bytes.take(cap as int) =~= bytes.subrange(0, cap as int));
    }
}

/// The pipeline sees the request as it came: its method, target, headers and body, and where it
/// came from.
pub proof fn the_pipeline_sees_the_request(
    head: HeadView,
    c: ConnView,
    t: RequestTarget,
    b: BufferView,
)
    ensures
        ({
            let r = crate::http::request_of(head, c, t, b);
            &&& r.mode == c.mode
            &&& r.method == head.method
            &&& r.host == t.host
            &&& r.port == t.port
            &&& r.path == t.path
            &&& r.query == t.query
            &&& r.headers.len() == head.headers.len()
            &&& forall|i: int|
                0 <= i < head.headers.len() ==> #[trigger] r.headers[i] == (
                    head.headers[i].0,
                    crate::text::bytes_text(head.headers[i].1),
                )
            &&& r.body == crate::http::seen_body(b)
            &&& r.sni == c.sni
            &&& r.remote_addr == Some(c.remote_addr)
        }),
{
}

/// A client that left is recorded as that.
pub proof fn clients_that_leave_are_recorded(c: ConnView, t: RequestTarget, method: Seq<char>)
    ensures
        crate::http::cancelled_of(c, t, method).record == told(
            c,
            t.host,
            method,
            t.path,
            Action::ClientCancel,
        ),
        crate::http::cancelled_of(c, t, method).reply == ReplyView::Status(400),
{
}

/// A request goes on exactly where the pipeline lets it, recorded as allowed. Else the client is
/// answered: a rejection by its response or 403, a stub by its response, an error by 502.
pub proof fn a_request_is_settled(
    c: ConnView,
    host: Seq<char>,
    method: Seq<char>,
    o: PipelineOutcomeView,
)
    ensures
        ({
            let r = RecordView {
                request_transforms: o.traces,
                body_capture: o.capture,
                ..told(c, host, method, o.request_path, Action::Allow)
            };
            let s = crate::http::settled(c, host, method, o);
            match o.outcome {
                OutcomeView::Continue => s == Ok::<RecordView, FinishedView>(r),
                OutcomeView::Reject { by, response: None } => s == Err::<RecordView, FinishedView>(
                    FinishedView {
                        record: RecordView {
                            action: Action::Reject,
                            status_code: Some(403),
                            rejected_by: Some(by),
                            ..r
                        },
                        reply: ReplyView::Status(403),
                    },
                ),
                OutcomeView::Reject { by, response: Some(x) } => s == Err::<
                    RecordView,
                    FinishedView,
                >(
                    FinishedView {
                        record: RecordView {
                            action: Action::Reject,
                            status_code: Some(x.status),
                            rejected_by: Some(by),
                            ..r
                        },
                        reply: ReplyView::Response(x),
                    },
                ),
                OutcomeView::Stub { by, response } => s == Err::<RecordView, FinishedView>(
                    FinishedView {
                        record: RecordView {
                            action: Action::Stub,
                            status_code: Some(response.status),
                            stubbed_by: Some(by),
                            ..r
                        },
                        reply: ReplyView::Response(response),
                    },
                ),
                OutcomeView::Error { by: _, message } => s == Err::<RecordView, FinishedView>(
                    FinishedView {
                        record: RecordView {
                            action: Action::Error,
                            status_code: Some(502),
                            error: Some(message),
                            ..r
                        },
                        reply: ReplyView::Status(502),
                    },
                ),
            }
        }),
{
}

/// A request in a tunnel is dialled where the tunnel ends, and every other one at its own host.
pub proof fn requests_are_dialled(c: ConnView, req: RequestView)
    ensures
        crate::http::dialled(c, req) == (match c.forced_upstream {
            Some(t) => t,
            None => TargetView { host: req.host, port: req.port },
        }),
{
}

/// A dial that fails is answered by 502: a denied address as a rejection by the guard, the rest
/// as an error.
pub proof fn failed_dials_are_answered(r: RecordView, d: DenialView, message: Seq<char>)
    ensures
        crate::http::dial_failed_of(r, DialErrorView::Denied(d)) == (FinishedView {
            record: RecordView {
                action: Action::Reject,
                rejected_by: Some("guard"@),
                status_code: Some(502),
                guard: Some(d),
                ..r
            },
            reply: ReplyView::Status(502),
        }),
        crate::http::dial_failed_of(r, DialErrorView::Failed(message)) == (FinishedView {
            record: RecordView {
                action: Action::Error,
                status_code: Some(502),
                error: Some(message),
                ..r
            },
            reply: ReplyView::Status(502),
        }),
        crate::http::failed_of(r, message) == crate::http::dial_failed_of(
            r,
            DialErrorView::Failed(message),
        ),
{
}

proof fn lengths_are_left_out(h: Seq<HeaderView>, n: int)
    requires
        0 <= n <= h.len(),
    ensures
        crate::http::without_length(h, n) == super::words::those(
            h.take(n),
            |x: HeaderView| super::words::small(x.0) != "content-length"@,
        ),
    decreases n,
{
    let keep = |x: HeaderView| super::words::small(x.0) != "content-length"@;
    if n > 0 {
        lengths_are_left_out(h, n - 1);
        assert(h.take(n).take(n - 1) =~= h.take(n - 1));
        assert(h.take(n)[n - 1] == h[n - 1]);
        reveal_strlit("content-length");
        assert(super::words::small("content-length"@) =~= "content-length"@);
        super::text::caseless_is_equal_in_lowercase(h[n - 1].0, "content-length"@);
        assert(crate::http::without_length(h, n) =~= super::words::those(h.take(n), keep));
    } else {
        assert(h.take(0) =~= Seq::<HeaderView>::empty());
        assert(crate::http::without_length(h, 0) =~= super::words::those(h.take(0), keep));
    }
}

/// What goes upstream: the method, the path and the query, the headers that pass more than one
/// hop, and the body. The length is told anew for a body that was seen whole; one over its cap
/// goes on as it came.
pub proof fn what_goes_upstream(req: RequestView, b: BufferView, websocket: bool)
    ensures
        ({
            let o = crate::http::outbound_of(req, b, websocket);
            let h = crate::hop::stripped(req.headers, websocket);
            &&& o.method == req.method
            &&& req.query.len() == 0 ==> o.path_and_query == req.path
            &&& req.query.len() > 0 ==> o.path_and_query == req.path + seq!['?'] + req.query
            &&& b.bytes.len() <= b.cap ==> {
                &&& o.headers == super::words::those(
                    h,
                    |x: HeaderView| super::words::small(x.0) != "content-length"@,
                )
                &&& o.body == req.body.bytes
                &&& !o.chained
            }
            &&& b.bytes.len() > b.cap ==> o.headers == h && o.body == b.bytes && o.chained
        }),
{
    let h = crate::hop::stripped(req.headers, websocket);
    lengths_are_left_out(h, h.len() as int);
    assert(h.take(h.len() as int) =~= h);
    reveal_strlit("?");
    assert("?"@ =~= seq!['?']);
}

/// An answer is relayed with its own status, without the headers of a single hop, and is
/// recorded with it; where a transform put something in its place, that is answered.
pub proof fn answers_are_relayed(
    r: RecordView,
    traces: Seq<TraceView>,
    status: u16,
    headers: Seq<RawHeader>,
    by: Seq<char>,
    response: ResponseView,
    message: Seq<char>,
)
    ensures
        crate::http::relayed(r, traces, ResponseActionView::Forward, status, headers) == (
        AnswerView::Forward {
            record: RecordView {
                response_transforms: traces,
                action: Action::Allow,
                status_code: Some(status),
                ..r
            },
            status,
            headers: crate::hop::stripped(crate::target::shown_headers(headers), false),
        }),
        crate::http::relayed(
            r,
            traces,
            (ResponseActionView::Replace { by, response, stub: false }),
            status,
            headers,
        ) == AnswerView::Finished(
            FinishedView {
                record: RecordView {
                    response_transforms: traces,
                    action: Action::Reject,
                    status_code: Some(response.status),
                    rejected_by: Some(by),
                    ..r
                },
                reply: ReplyView::Response(response),
            },
        ),
        crate::http::relayed(
            r,
            traces,
            (ResponseActionView::Replace { by, response, stub: true }),
            status,
            headers,
        ) == AnswerView::Finished(
            FinishedView {
                record: RecordView {
                    response_transforms: traces,
                    action: Action::Stub,
                    status_code: Some(response.status),
                    stubbed_by: Some(by),
                    ..r
                },
                reply: ReplyView::Response(response),
            },
        ),
        crate::http::relayed(
            r,
            traces,
            (ResponseActionView::Error { by, message }),
            status,
            headers,
        ) == AnswerView::Finished(
            FinishedView {
                record: RecordView {
                    response_transforms: traces,
                    action: Action::Error,
                    status_code: Some(502),
                    error: Some(message),
                    ..r
                },
                reply: ReplyView::Status(502),
            },
        ),
{
}

/// A switch of protocols that was asked for is made where the upstream answers 101; every other
/// answer is relayed, with one trace for each transform.
pub proof fn switches_are_made(
    ts: Seq<TransformView>,
    r: RecordView,
    websocket: bool,
    status: u16,
    headers: Seq<RawHeader>,
)
    ensures
        ({
            let a = crate::http::answered(ts, r, websocket, status, headers);
            if websocket && status == 101 {
                a == (AnswerView::Switch {
                    record: RecordView { action: Action::Allow, status_code: Some(101), ..r },
                    headers: crate::hop::stripped(crate::target::shown_headers(headers), true),
                })
            } else {
                match a {
                    AnswerView::Forward { record, status: s, headers: h } => {
                        &&& s == status
                        &&& h == crate::hop::stripped(crate::target::shown_headers(headers), false)
                        &&& record.response_transforms.len() == ts.len()
                        &&& forall|i: int|
                            0 <= i < ts.len() ==> (#[trigger] record.response_transforms[i]).verdict
                                is Continue && record.response_transforms[i].error is None
                                && record.response_transforms[i].name
                                == crate::transforms::transform_name(ts[i])
                        &&& record == (RecordView {
                            response_transforms: record.response_transforms,
                            action: Action::Allow,
                            status_code: Some(status),
                            ..r
                        })
                    },
                    _ => false,
                }
            }
        }),
{
}

/// What is said of an upstream that fails.
pub proof fn failures_are_told(e: Seq<char>)
    ensures
        crate::http::failure_text(FailureView::Build(e)) == "building upstream request: "@ + e,
        crate::http::failure_text(FailureView::Handshake(e)) == "upstream handshake: "@ + e,
        crate::http::failure_text(FailureView::Request(e)) == "upstream request: "@ + e,
        crate::http::failure_text(FailureView::HeaderTimeout)
            == "upstream response header timeout"@,
{
}

} // verus!
