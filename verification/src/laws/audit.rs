//! What is recorded of a request, and what the management interface answers.
use vstd::prelude::*;
use vstd::string::*;

use crate::audit::{Action, Level, RecordView};
use crate::management::{ManagementStepView, ReloadInputView};
use crate::pipeline::{OutcomeView, PipelineOutcomeView};
use crate::settings::{ConfigView, ListenView};
use crate::summary::RequestView;
use crate::verdict::ResponseView;

verus! {

/// A record tells the outcome: what was done, by whom, and the status that was answered.
pub proof fn outcomes_are_recorded(
    r: RecordView,
    by: Seq<char>,
    response: ResponseView,
    message: Seq<char>,
)
    ensures
        crate::audit::with_outcome(r, OutcomeView::Continue) == (RecordView {
            action: Action::Allow,
            ..r
        }),
        crate::audit::with_outcome(r, OutcomeView::Reject { by, response: None }) == (RecordView {
            action: Action::Reject,
            status_code: Some(403),
            rejected_by: Some(by),
            ..r
        }),
        crate::audit::with_outcome(r, OutcomeView::Reject { by, response: Some(response) }) == (
        RecordView {
            action: Action::Reject,
            status_code: Some(response.status),
            rejected_by: Some(by),
            ..r
        }),
        crate::audit::with_outcome(r, OutcomeView::Stub { by, response }) == (RecordView {
            action: Action::Stub,
            status_code: Some(response.status),
            stubbed_by: Some(by),
            ..r
        }),
        crate::audit::with_outcome(r, OutcomeView::Error { by, message }) == (RecordView {
            action: Action::Error,
            status_code: Some(502),
            error: Some(message),
            ..r
        }),
{
}

/// The record of a request tells its host and method, the path that the client sent, where it
/// came from, and what each transform did.
pub proof fn a_record_tells_the_request(s: RequestView, o: PipelineOutcomeView)
    ensures
        ({
            let r = crate::audit::decision_record(s, o);
            &&& r.host == s.host
            &&& r.method == s.method
            &&& r.path == o.request_path
            &&& r.remote_addr == s.remote_addr
            &&& r.sni == s.sni
            &&& r.mode == s.mode
            &&& r.request_transforms == o.traces
            &&& r.response_transforms.len() == 0
            &&& r.body_capture == o.capture
            &&& r.tunnel is None
            &&& r.guard is None
            &&& match o.outcome {
                OutcomeView::Continue => r.action is Allow && r.status_code is None
                    && r.rejected_by is None && r.stubbed_by is None && r.error is None,
                OutcomeView::Reject { by, response: _ } => r.action is Reject && r.rejected_by
                    == Some(by) && r.stubbed_by is None && r.error is None,
                OutcomeView::Stub { by, response: _ } => r.action is Stub && r.stubbed_by == Some(
                    by,
                ) && r.rejected_by is None && r.error is None,
                OutcomeView::Error { by: _, message } => r.action is Error && r.error == Some(
                    message,
                ) && r.rejected_by is None && r.stubbed_by is None,
            }
        }),
{
}

/// Errors are told as errors, rejections as warnings, and the rest for information.
pub proof fn levels_tell_actions_apart()
    ensures
        crate::audit::action_level(Action::Error) == Level::Error,
        crate::audit::action_level(Action::Reject) == Level::Warn,
        crate::audit::action_level(Action::Allow) == Level::Info,
        crate::audit::action_level(Action::Stub) == Level::Info,
        crate::audit::action_level(Action::ClientCancel) == Level::Info,
{
}

/// A record is owed until one was written; the one that is owed tells an error and the client.
pub proof fn a_record_is_owed_until_written(remote: Option<Seq<char>>)
    ensures
        crate::audit::owed(crate::audit::noted(crate::audit::accepted(remote))) is None,
        match crate::audit::owed(crate::audit::accepted(remote)) {
            Some(r) => {
                &&& r.action is Error
                &&& r.error is Some
                &&& r.remote_addr == remote
                &&& r.status_code is None
                &&& r.mode is Http
                &&& r.host.len() == 0 && r.method.len() == 0 && r.path.len() == 0
            },
            None => false,
        },
{
}

// ---- The management interface -------------------------------------------------------------------------

/// The metrics are answered where they are on, a reload is made for who brings the key, and all
/// else is not found.
pub proof fn the_management_interface_answers(
    method: Seq<char>,
    path: Seq<char>,
    authorization: Option<Seq<char>>,
    key: Seq<char>,
    metrics: bool,
)
    ensures
        ({
            let s = crate::management::management_step(method, path, authorization, key, metrics);
            let asks_metrics = method == "GET"@ && path == "/metrics"@;
            let asks_reload = method == "POST"@ && path == "/v1/reload"@;
            &&& s is Metrics <==> asks_metrics && metrics
            &&& s is Reload <==> asks_reload && authorization == Some("Bearer "@ + key)
            &&& s == (ManagementStepView::Respond { status: 401, body: "unauthorized"@ })
                <==> asks_reload && authorization != Some("Bearer "@ + key)
            &&& s == (ManagementStepView::Respond { status: 404, body: "not found"@ })
                <==> !asks_reload && !(asks_metrics && metrics)
        }),
{
    reveal_strlit("GET");
    reveal_strlit("POST");
    reveal_strlit("unauthorized");
    reveal_strlit("not found");
    assert("GET"@.len() != "POST"@.len());
    assert("unauthorized"@.len() != "not found"@.len());
}

/// A reload is answered by 200 where the new configuration builds and listens where the current
/// one does, by 422 where it is refused, and by 500 where it cannot be read.
pub proof fn reloads_are_answered(
    why: Seq<char>,
    refused: Seq<char>,
    c: ConfigView,
    current: ListenView,
)
    ensures
        crate::management::reload_answer(ReloadInputView::Unreadable(why), current).0 == 500,
        crate::management::reload_answer(ReloadInputView::Refused(refused), current) == (
            422u16,
            refused,
        ),
        ({
            let a = crate::management::reload_answer(ReloadInputView::Loaded(c), current);
            &&& a.0 == 200 || a.0 == 422
            &&& a.0 == 200 <==> c.listen == current && crate::settings::build_error(c) is None
            &&& c.listen == current && crate::settings::build_error(c) is Some ==> a.1
                == crate::settings::build_error(c)->0
        }),
{
}

} // verus!
