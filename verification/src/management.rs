//! The management interface: which requests it takes, and when a new
//! configuration replaces the running one.
use vstd::prelude::*;
use vstd::string::*;
use vstd::utf8::*;

use crate::metrics::{with_reload, Metrics};
use crate::secret::SecretResolver;
use crate::settings::{
    build_error, build_runtime, deny_list_of, Config, ConfigView, ListenKeys, ListenView, LoadError,
};
use crate::state::Runtime;
use crate::text::{join2, same, strip_prefix};

verus! {

// ---- Comparing keys -------------------------------------------------------------------------

proof fn xor_is_zero_on_equals(x: u8, y: u8)
    ensures
        (x ^ y) == 0 <==> x == y,
{
    assert((x ^ y) == 0 <==> x == y) by (bit_vector);
}

proof fn lengths_xor(x: usize, y: usize)
    ensures
        (x ^ y) == 0 <==> x == y,
{
    assert((x ^ y) == 0 <==> x == y) by (bit_vector);
}

proof fn or_is_zero_on_zeros(x: usize, y: usize)
    ensures
        (x | y) == 0 <==> x == 0 && y == 0,
{
    assert((x | y) == 0 <==> x == 0 && y == 0) by (bit_vector);
}

fn byte_or_zero(a: &[u8], i: usize) -> (r: u8)
    ensures
        r == (if i < a@.len() {
            a@[i as int]
        } else {
            0
        }),
{
    if i < a.len() {
        a[i]
    } else {
        0
    }
}

/// Whether two byte strings are equal, in a time that depends on their lengths
/// alone.
pub fn constant_time_eq(a: &[u8], b: &[u8]) -> (r: bool)
    ensures
        r == (a@ == b@),
{
    let n: usize = if a.len() < b.len() {
        b.len()
    } else {
        a.len()
    };
    let mut diff: usize = a.len() ^ b.len();
    proof {
        lengths_xor(a@.len() as usize, b@.len() as usize);
    }
    let mut i: usize = 0;
    while i < n
        invariant
            i <= n,
            n == (if a@.len() < b@.len() {
                b@.len()
            } else {
                a@.len()
            }),
            diff == 0 <==> a@.len() == b@.len() && forall|j: int|
                0 <= j < i ==> a@[j] == b@[j],
        decreases n - i,
    {
        let x: u8 = byte_or_zero(a, i);
        let y: u8 = byte_or_zero(b, i);
        let d: u8 = x ^ y;
        proof {
            xor_is_zero_on_equals(x, y);
            or_is_zero_on_zeros(diff, d as usize);
        }
        diff = diff | (d as usize);
        i += 1;
    }
    proof {
        if diff == 0 {
            assert(a@ == b@);
        }
    }
    diff == 0
}

// ---- Requests -------------------------------------------------------------------------------

/// What to do with a request to the management interface.
#[derive(Debug)]
pub enum ManagementStep {
    /// Answer with this status and text.
    Respond { status: u16, body: String },
    /// Answer with the metrics.
    Metrics,
    /// Reload the configuration.
    Reload,
}

/// What a step says.
#[verifier::ext_equal]
pub enum ManagementStepView {
    Respond { status: u16, body: Seq<char> },
    Metrics,
    Reload,
}

impl View for ManagementStep {
    type V = ManagementStepView;

    open spec fn view(&self) -> ManagementStepView {
        match self {
            ManagementStep::Respond { status, body } => ManagementStepView::Respond {
                status: *status,
                body: body@,
            },
            ManagementStep::Metrics => ManagementStepView::Metrics,
            ManagementStep::Reload => ManagementStepView::Reload,
        }
    }
}

/// The value of the authorization header carries the key.
pub open spec fn carries_key(authorization: Option<Seq<char>>, api_key: Seq<char>) -> bool {
    authorization == Some("Bearer "@ + api_key)
}

/// Metrics are for everyone, where they are enabled; a reload takes the key;
/// there is nothing else.
pub open spec fn management_step(
    method: Seq<char>,
    path: Seq<char>,
    authorization: Option<Seq<char>>,
    api_key: Seq<char>,
    metrics_enabled: bool,
) -> ManagementStepView {
    if method == "GET"@ && path == "/metrics"@ {
        if metrics_enabled {
            ManagementStepView::Metrics
        } else {
            ManagementStepView::Respond { status: 404, body: "not found"@ }
        }
    } else if method == "POST"@ && path == "/v1/reload"@ {
        if carries_key(authorization, api_key) {
            ManagementStepView::Reload
        } else {
            ManagementStepView::Respond { status: 401, body: "unauthorized"@ }
        }
    } else {
        ManagementStepView::Respond { status: 404, body: "not found"@ }
    }
}

fn authorized(authorization: &Option<String>, api_key: &str) -> (r: bool)
    ensures
        r == carries_key(crate::text::opt_text(*authorization), api_key@),
{
    let value: &String = match authorization {
        Some(v) => v,
        None => {
            return false;
        },
    };
    match strip_prefix(value.as_str(), "Bearer ") {
        Some(token) => {
            proof {
                encode_utf8_decode_utf8(token@);
                encode_utf8_decode_utf8(api_key@);
                assert(value@ == "Bearer "@ + token@);
                assert(token@ == value@.skip("Bearer "@.len() as int));
                assert(("Bearer "@ + api_key@).skip("Bearer "@.len() as int) == api_key@);
            }
            constant_time_eq(token.as_str().as_bytes(), api_key.as_bytes())
        },
        None => {
            proof {
                if value@ == "Bearer "@ + api_key@ {
                    assert(value@.take("Bearer "@.len() as int) == "Bearer "@);
                }
            }
            false
        },
    }
}

/// Decides on a request to the management interface.
pub fn route(
    method: &str,
    path: &str,
    authorization: &Option<String>,
    api_key: &str,
    metrics_enabled: bool,
) -> (r: ManagementStep)
    ensures
        r@ == management_step(
            method@,
            path@,
            crate::text::opt_text(*authorization),
            api_key@,
            metrics_enabled,
        ),
{
    if same(method, "GET") && same(path, "/metrics") {
        if metrics_enabled {
            return ManagementStep::Metrics;
        }
        return ManagementStep::Respond { status: 404, body: "not found".to_owned() };
    }
    if !same(method, "POST") || !same(path, "/v1/reload") {
        return ManagementStep::Respond { status: 404, body: "not found".to_owned() };
    }
    if authorized(authorization, api_key) {
        ManagementStep::Reload
    } else {
        ManagementStep::Respond { status: 401, body: "unauthorized".to_owned() }
    }
}

// ---- Reloading ------------------------------------------------------------------------------

/// What was found when the configuration was read again.
pub enum ReloadInput {
    /// The file could not be read, and why.
    Unreadable(String),
    /// The configuration is refused.
    Refused(LoadError),
    Loaded(Config),
}

/// What was found, as a value.
#[verifier::ext_equal]
pub enum ReloadInputView {
    Unreadable(Seq<char>),
    Refused(Seq<char>),
    Loaded(ConfigView),
}

impl View for ReloadInput {
    type V = ReloadInputView;

    open spec fn view(&self) -> ReloadInputView {
        match self {
            ReloadInput::Unreadable(e) => ReloadInputView::Unreadable(e@),
            ReloadInput::Refused(e) => ReloadInputView::Refused(e.0@),
            ReloadInput::Loaded(c) => ReloadInputView::Loaded(c@),
        }
    }
}

/// The answer to a reload: status and text.
pub open spec fn reload_answer(input: ReloadInputView, current: ListenView) -> (u16, Seq<char>) {
    match input {
        ReloadInputView::Unreadable(e) => (500, "cannot read config: "@ + e),
        ReloadInputView::Refused(e) => (422, e),
        ReloadInputView::Loaded(c) => if c.listen != current {
            (422, "listener addresses are not reloadable in v1"@)
        } else {
            match build_error(c) {
                Some(e) => (422, e),
                None => (200, "reloaded"@),
            }
        },
    }
}

/// Decides on a reload: the status, the text, and the runtime that replaces the
/// current one, if one does. Whether it succeeded is counted.
pub fn reload<R: SecretResolver>(
    input: ReloadInput,
    current_listen: &ListenKeys,
    metrics: &mut Metrics,
    resolver: R,
) -> (r: (u16, String, Option<Runtime<R>>))
    ensures
        (r.0, r.1@) == reload_answer(input@, current_listen@),
        final(metrics)@ == with_reload(old(metrics)@, r.0 == 200),
        r.2 is Some <==> r.0 == 200,
        match (input@, r.2) {
            (ReloadInputView::Loaded(c), Some(rt)) => {
                &&& crate::config::pipeline_of(c.transforms, true) == Ok::<
                    Seq<crate::transforms::TransformView>,
                    Seq<char>,
                >(rt.pipeline@)
                &&& rt.pipeline.resolver_view() == resolver
                &&& deny_list_of(c) == Ok::<Seq<crate::state::DenyView>, Seq<char>>(rt.guard@)
                &&& rt.max_request_body_bytes == c.max_request_body_bytes
                &&& rt.upstream_response_header_timeout == c.upstream_response_header_timeout
                &&& rt.dial_timeout == 30000
                &&& rt.tunnel_passthrough@.len() == 0
            },
            (_, Some(_)) => false,
            (_, None) => true,
        },
{
    match input {
        ReloadInput::Unreadable(e) => {
            metrics.inc_reload(false);
            (500, join2("cannot read config: ", e.as_str()), None)
        },
        ReloadInput::Refused(e) => {
            metrics.inc_reload(false);
            (422, e.0, None)
        },
        ReloadInput::Loaded(config) => {
            if !config.listen.agrees(current_listen) {
                metrics.inc_reload(false);
                return (422, "listener addresses are not reloadable in v1".to_owned(), None);
            }
            match build_runtime(&config, resolver) {
                Ok(runtime) => {
                    metrics.inc_reload(true);
                    (200, "reloaded".to_owned(), Some(runtime))
                },
                Err(e) => {
                    metrics.inc_reload(false);
                    (422, e.0, None)
                },
            }
        },
    }
}

// ---- Laws -------------------------------------------------------------------------------

/// Without the key nothing is reloaded, and only a reload asks for it.
pub proof fn reload_takes_the_key(
    method: Seq<char>,
    path: Seq<char>,
    authorization: Option<Seq<char>>,
    api_key: Seq<char>,
    metrics_enabled: bool,
)
    ensures
        ({
            let step = management_step(method, path, authorization, api_key, metrics_enabled);
            &&& step is Reload ==> authorization == Some("Bearer "@ + api_key)
            &&& (step matches ManagementStepView::Respond { status, body: _ } && status == 401)
                ==> method == "POST"@ && path == "/v1/reload"@
        }),
{
}

/// A reload fails closed: whatever is wrong, the answer is no success, and it is
/// one exactly where the configuration was read, keeps the addresses and can be
/// run.
pub proof fn reload_fails_closed(input: ReloadInputView, current: ListenView)
    ensures
        reload_answer(input, current).0 == 200 <==> (input matches ReloadInputView::Loaded(c)
            && c.listen == current && build_error(c) is None),
        reload_answer(input, current).0 == 500 <==> input is Unreadable,
{
}

} // verus!
