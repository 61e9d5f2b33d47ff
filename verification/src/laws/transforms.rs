//! What each transform does to a request.
use vstd::prelude::*;
use vstd::string::*;

use crate::pipeline::{CaptureView, OutcomeView, RunView};
use crate::summary::{HeaderView, RequestView};
use crate::transforms::{
    AllowlistView, BodyCaptureView, GroupView, HeaderAllowlistView, TransformView,
};
use crate::verdict::{NoteView, Notes, ResponseView, TraceVerdict, VerdictView};

verus! {

/// A list names a host: by one of its globs, or by one of its prefixes.
pub open spec fn named_by(a: AllowlistView, host: Seq<char>) -> bool {
    ||| exists|i: int|
        0 <= i < a.domains.len() && crate::matcher::glob_accepts(#[trigger] a.domains[i], host)
    ||| exists|i: int|
        0 <= i < a.cidrs.len() && crate::matcher::cidr_accepts(#[trigger] a.cidrs[i], host)
}

/// An allowlist lets a request go on where it names the host, and where it only warns; then
/// it notes the warning. Else it rejects. The request stays as it came.
pub proof fn an_allowlist_lets_listed_hosts_go_on(
    a: AllowlistView,
    notes: Notes,
    req: RequestView,
    answers: Seq<Option<Seq<u8>>>,
)
    requires
        crate::strmap::sorted(notes),
    ensures
        ({
            let s = crate::transforms::step(TransformView::Allowlist(a), notes, req, answers);
            &&& s.result == Ok::<VerdictView, Seq<char>>(
                if named_by(a, req.host) || a.warn {
                    VerdictView::Continue
                } else {
                    VerdictView::Reject(None)
                },
            )
            &&& s.req == req
            &&& s.capture is None
            &&& if !named_by(a, req.host) && a.warn {
                crate::strmap::found(s.notes, "warn"@) == Some(NoteView::Flag(true))
            } else {
                s.notes == notes
            }
        }),
{
    crate::strmap::put_laws(notes, "warn"@, NoteView::Flag(true));
}

/// The value of a header: that of the first with this name, case aside.
pub open spec fn has_value(h: Seq<HeaderView>, name: Seq<char>, v: Seq<char>) -> bool {
    exists|i: int|
        {
            &&& 0 <= i < h.len()
            &&& super::words::small((#[trigger] h[i]).0) == super::words::small(name)
            &&& h[i].1 == v
            &&& forall|k: int|
                0 <= k < i ==> super::words::small((#[trigger] h[k]).0) != super::words::small(name)
        }
}

proof fn first_from(h: Seq<HeaderView>, name: Seq<char>, i: int)
    requires
        0 <= i <= h.len(),
        forall|k: int|
            0 <= k < i ==> super::words::small((#[trigger] h[k]).0) != super::words::small(name),
    ensures
        match crate::summary::first_value(h, name, i) {
            Some(v) => has_value(h, name, v),
            None => forall|k: int|
                0 <= k < h.len() ==> super::words::small((#[trigger] h[k]).0)
                    != super::words::small(name),
        },
    decreases h.len() - i,
{
    if i < h.len() {
        super::text::caseless_is_equal_in_lowercase(h[i].0, name);
        if super::words::small(h[i].0) != super::words::small(name) {
            first_from(h, name, i + 1);
        } else {
            assert(has_value(h, name, h[i].1));
        }
    }
}

/// A header is looked up without regard to case, and the first one counts.
pub proof fn the_first_header_counts(h: Seq<HeaderView>, name: Seq<char>, v: Seq<char>)
    ensures
        crate::summary::first_value(h, name, 0) == Some(v) <==> has_value(h, name, v),
        crate::summary::first_value(h, name, 0) is None <==> forall|k: int|
            0 <= k < h.len() ==> super::words::small((#[trigger] h[k]).0)
                != super::words::small(name),
{
    first_from(h, name, 0);
    let got = crate::summary::first_value(h, name, 0);
    if has_value(h, name, v) {
        let i = choose|i: int|
            {
                &&& 0 <= i < h.len()
                &&& super::words::small((#[trigger] h[i]).0) == super::words::small(name)
                &&& h[i].1 == v
                &&& forall|k: int|
                    0 <= k < i ==> super::words::small((#[trigger] h[k]).0)
                        != super::words::small(name)
            };
        assert(super::words::small(h[i].0) == super::words::small(name));
        if let Some(w) = got {
            let j = choose|j: int|
                {
                    &&& 0 <= j < h.len()
                    &&& super::words::small((#[trigger] h[j]).0) == super::words::small(name)
                    &&& h[j].1 == w
                    &&& forall|k: int|
                        0 <= k < j ==> super::words::small((#[trigger] h[k]).0)
                            != super::words::small(name)
                };
            if i < j {
                assert(super::words::small(h[i].0) != super::words::small(name));
            } else if j < i {
                assert(super::words::small(h[j].0) != super::words::small(name));
            }
        }
    }
    if got is None && has_value(h, name, v) {
        assert(false);
    }
    if let Some(w) = got {
        let j = choose|j: int|
            {
                &&& 0 <= j < h.len()
                &&& super::words::small((#[trigger] h[j]).0) == super::words::small(name)
                &&& h[j].1 == w
                &&& forall|k: int|
                    0 <= k < j ==> super::words::small((#[trigger] h[k]).0)
                        != super::words::small(name)
            };
        assert(super::words::small(h[j].0) == super::words::small(name));
    }
}

// ---- Annotations ----------------------------------------------------------------------------------

/// The key under which a header is noted.
pub open spec fn note_key(name: Seq<char>) -> Seq<char> {
    "header:"@ + crate::matcher::canonical_header(name)
}

proof fn same_key_same_value(h: Seq<HeaderView>, a: Seq<char>, b: Seq<char>)
    requires
        note_key(a) == note_key(b),
    ensures
        crate::summary::first_value(h, a, 0) == crate::summary::first_value(h, b, 0),
{
    let n = "header:"@.len() as int;
    assert(note_key(a).skip(n) =~= crate::matcher::canonical_header(a));
    assert(note_key(b).skip(n) =~= crate::matcher::canonical_header(b));
    assert(super::words::small(a) == super::words::small(b)) by {
        assert(super::words::small(crate::matcher::canonical_header(a))
            =~= super::words::small(a));
        assert(super::words::small(crate::matcher::canonical_header(b))
            =~= super::words::small(b));
    }
    if let Some(v) = crate::summary::first_value(h, a, 0) {
        the_first_header_counts(h, a, v);
        the_first_header_counts(h, b, v);
        let i = choose|i: int|
            {
                &&& 0 <= i < h.len()
                &&& super::words::small((#[trigger] h[i]).0) == super::words::small(a)
                &&& h[i].1 == v
                &&& forall|k: int|
                    0 <= k < i ==> super::words::small((#[trigger] h[k]).0)
                        != super::words::small(a)
            };
        assert(super::words::small(h[i].0) == super::words::small(b));
    } else {
        the_first_header_counts(h, a, Seq::empty());
        the_first_header_counts(h, b, Seq::empty());
        if let Some(v) = crate::summary::first_value(h, b, 0) {
            the_first_header_counts(h, b, v);
        }
    }
}

proof fn notes_stay(
    notes: Notes,
    names: Seq<Seq<char>>,
    h: Seq<HeaderView>,
    n: int,
    name: Seq<char>,
    v: Seq<char>,
)
    requires
        0 <= n <= names.len(),
        crate::strmap::sorted(notes),
        crate::summary::first_value(h, name, 0) == Some(v),
    ensures
        crate::strmap::sorted(crate::transforms::header_notes(notes, names, h, n)),
        crate::strmap::found(notes, note_key(name)) == Some(NoteView::Text(v)) || (exists|j: int|
            0 <= j < n && #[trigger] names[j] == name) ==> crate::strmap::found(
            crate::transforms::header_notes(notes, names, h, n),
            note_key(name),
        ) == Some(NoteView::Text(v)),
    decreases n,
{
    if n > 0 {
        notes_stay(notes, names, h, n - 1, name, v);
        let before = crate::transforms::header_notes(notes, names, h, n - 1);
        if let Some(w) = crate::summary::first_value(h, names[n - 1], 0) {
            crate::strmap::put_laws(before, note_key(names[n - 1]), NoteView::Text(w));
            if note_key(names[n - 1]) == note_key(name) {
                same_key_same_value(h, names[n - 1], name);
            }
        }
        if exists|j: int| 0 <= j < n && #[trigger] names[j] == name {
            let j = choose|j: int| 0 <= j < n && #[trigger] names[j] == name;
            if j < n - 1 {
                assert(names[j] == name);
            }
        }
    }
}

proof fn group_notes_stay(
    notes: Notes,
    groups: Seq<GroupView>,
    req: RequestView,
    n: int,
    k: int,
    j: int,
    v: Seq<char>,
)
    requires
        0 <= n <= groups.len(),
        crate::strmap::sorted(notes),
        0 <= k < groups.len(),
        0 <= j < groups[k].headers.len(),
        crate::summary::first_value(req.headers, groups[k].headers[j], 0) == Some(v),
        crate::matcher::some_rule_accepts(groups[k].rules, req.host, req.method, req.path),
    ensures
        crate::strmap::sorted(crate::transforms::annotate_notes(notes, groups, req, n)),
        k < n ==> crate::strmap::found(
            crate::transforms::annotate_notes(notes, groups, req, n),
            note_key(groups[k].headers[j]),
        ) == Some(NoteView::Text(v)),
    decreases n,
{
    if n > 0 {
        group_notes_stay(notes, groups, req, n - 1, k, j, v);
        let before = crate::transforms::annotate_notes(notes, groups, req, n - 1);
        let g = groups[n - 1];
        notes_stay(
            before,
            g.headers,
            req.headers,
            g.headers.len() as int,
            groups[k].headers[j],
            v,
        );
    }
}

/// A header that a group lists is noted with its value, where a rule of the group names the
/// request; the request goes on as it came.
pub proof fn listed_headers_are_noted(
    groups: Seq<GroupView>,
    notes: Notes,
    req: RequestView,
    answers: Seq<Option<Seq<u8>>>,
    k: int,
    j: int,
    v: Seq<char>,
)
    requires
        crate::strmap::sorted(notes),
        0 <= k < groups.len(),
        0 <= j < groups[k].headers.len(),
        has_value(req.headers, groups[k].headers[j], v),
        exists|i: int|
            0 <= i < groups[k].rules.len() && crate::matcher::rule_accepts(
                #[trigger] groups[k].rules[i],
                req.host,
                req.method,
                req.path,
            ),
    ensures
        ({
            let s = crate::transforms::step(TransformView::Annotate(groups), notes, req, answers);
            &&& crate::strmap::found(s.notes, note_key(groups[k].headers[j])) == Some(
                NoteView::Text(v),
            )
            &&& s.result == Ok::<VerdictView, Seq<char>>(VerdictView::Continue)
            &&& s.req == req
            &&& s.capture is None
        }),
{
    the_first_header_counts(req.headers, groups[k].headers[j], v);
    group_notes_stay(notes, groups, req, groups.len() as int, k, j, v);
}

proof fn no_group(notes: Notes, groups: Seq<GroupView>, req: RequestView, n: int)
    requires
        0 <= n <= groups.len(),
        forall|k: int|
            0 <= k < groups.len() ==> !crate::matcher::some_rule_accepts(
                (#[trigger] groups[k]).rules,
                req.host,
                req.method,
                req.path,
            ),
    ensures
        crate::transforms::annotate_notes(notes, groups, req, n) == notes,
    decreases n,
{
    if n > 0 {
        no_group(notes, groups, req, n - 1);
        assert(!crate::matcher::some_rule_accepts(
            groups[n - 1].rules,
            req.host,
            req.method,
            req.path,
        ));
    }
}

/// Where no group names the request nothing is noted.
pub proof fn other_requests_are_not_noted(
    groups: Seq<GroupView>,
    notes: Notes,
    req: RequestView,
    answers: Seq<Option<Seq<u8>>>,
)
    requires
        forall|k: int, i: int|
            0 <= k < groups.len() && 0 <= i < groups[k].rules.len()
                ==> !crate::matcher::rule_accepts(
                #[trigger] groups[k].rules[i],
                req.host,
                req.method,
                req.path,
            ),
    ensures
        crate::transforms::step(TransformView::Annotate(groups), notes, req, answers).notes
            == notes,
{
    assert forall|k: int| 0 <= k < groups.len() implies !crate::matcher::some_rule_accepts(
        (#[trigger] groups[k]).rules,
        req.host,
        req.method,
        req.path,
    ) by {
        if crate::matcher::some_rule_accepts(groups[k].rules, req.host, req.method, req.path) {
            let i = choose|i: int|
                0 <= i < groups[k].rules.len() && crate::matcher::rule_accepts(
                    #[trigger] groups[k].rules[i],
                    req.host,
                    req.method,
                    req.path,
                );
            assert(!crate::matcher::rule_accepts(
                groups[k].rules[i],
                req.host,
                req.method,
                req.path,
            ));
        }
    }
    no_group(notes, groups, req, groups.len() as int);
}

// ---- The header filter ----------------------------------------------------------------------------

/// Some entry names a header.
pub open spec fn entered(a: HeaderAllowlistView, x: HeaderView) -> bool {
    exists|i: int|
        0 <= i < a.entries.len() && crate::matcher::entry_accepts(#[trigger] a.entries[i], x.0)
}

/// The filter is for a request: it has no rules, or one that names the request.
pub open spec fn concerns(a: HeaderAllowlistView, req: RequestView) -> bool {
    match a.rules {
        None => true,
        Some(r) => exists|i: int|
            0 <= i < r.len() && crate::matcher::rule_accepts(
                #[trigger] r[i],
                req.host,
                req.method,
                req.path,
            ),
    }
}

proof fn kept_are_those(a: HeaderAllowlistView, h: Seq<HeaderView>, n: int)
    requires
        0 <= n <= h.len(),
    ensures
        crate::summary::kept_headers(h, crate::transforms::kept_by(a.entries, h), n)
            == super::words::those(h.take(n), |x: HeaderView| entered(a, x)),
        ({
            let d = crate::summary::dropped_names(
                h,
                crate::transforms::kept_by(a.entries, h),
                n,
            );
            &&& (d.len() == 0) == (forall|i: int| 0 <= i < n ==> entered(a, #[trigger] h[i]))
            &&& forall|i: int|
                0 <= i < n && !entered(a, #[trigger] h[i]) ==> d.contains(
                    crate::matcher::canonical_header(h[i].0),
                )
        }),
    decreases n,
{
    let kept = crate::transforms::kept_by(a.entries, h);
    let t = h.take(n);
    if n > 0 {
        kept_are_those(a, h, n - 1);
        assert(t.take(t.len() - 1) =~= h.take(n - 1));
        assert(t[t.len() - 1] == h[n - 1]);
        assert(kept[n - 1] == entered(a, h[n - 1]));
        let k0 = crate::summary::kept_headers(h, kept, n - 1);
        assert(k0.push(h[n - 1]) =~= k0 + seq![h[n - 1]]);
        let d0 = crate::summary::dropped_names(h, kept, n - 1);
        let d = crate::summary::dropped_names(h, kept, n);
        if !kept[n - 1] {
            assert(d[d.len() - 1] == crate::matcher::canonical_header(h[n - 1].0));
        }
        assert forall|i: int| 0 <= i < n && !entered(a, #[trigger] h[i]) implies d.contains(
            crate::matcher::canonical_header(h[i].0),
        ) by {
            if i < n - 1 {
                let x = crate::matcher::canonical_header(h[i].0);
                assert(d0.contains(x));
                let m = choose|m: int| 0 <= m < d0.len() && d0[m] == x;
                assert(d[m] == x);
            }
        }
        if forall|i: int| 0 <= i < n ==> entered(a, #[trigger] h[i]) {
            assert(forall|i: int| 0 <= i < n - 1 ==> entered(a, #[trigger] h[i]));
            assert(entered(a, h[n - 1]));
        }
    } else {
        assert(t =~= Seq::<HeaderView>::empty());
    }
}

/// The filter leaves of the headers those that an entry names, in their order and as they
/// are, and of the rest of the request everything. What it took is noted by its display
/// name. A request that it is not for stays as it came.
pub proof fn named_headers_are_left(
    a: HeaderAllowlistView,
    notes: Notes,
    req: RequestView,
    answers: Seq<Option<Seq<u8>>>,
    i: int,
)
    requires
        crate::strmap::sorted(notes),
    ensures
        ({
            let s = crate::transforms::step(
                TransformView::HeaderAllowlist(a),
                notes,
                req,
                answers,
            );
            &&& s.result == Ok::<VerdictView, Seq<char>>(VerdictView::Continue)
            &&& s.capture is None
            &&& s.req == (RequestView { headers: s.req.headers, ..req })
            &&& s.req.headers == (if concerns(a, req) {
                super::words::those(req.headers, |x: HeaderView| entered(a, x))
            } else {
                req.headers
            })
            &&& concerns(a, req) && 0 <= i < req.headers.len() && !entered(a, req.headers[i])
                ==> match crate::strmap::found(s.notes, "stripped_headers"@) {
                Some(NoteView::Texts(t)) => t.contains(
                    crate::matcher::canonical_header(req.headers[i].0),
                ),
                _ => false,
            }
            &&& !concerns(a, req) || (forall|k: int|
                0 <= k < req.headers.len() ==> entered(a, #[trigger] req.headers[k])) ==> s.notes
                == notes
        }),
{
    let n = req.headers.len() as int;
    let kept = crate::transforms::kept_by(a.entries, req.headers);
    let d = crate::summary::dropped_names(req.headers, kept, n);
    kept_are_those(a, req.headers, n);
    assert(req.headers.take(n) =~= req.headers);
    crate::strmap::put_laws(
        notes,
        "stripped_headers"@,
        NoteView::Texts(crate::transforms::sorted_names(d)),
    );
    crate::transforms::sorted_names_are_the_names(d);
    if 0 <= i < n && !entered(a, req.headers[i]) {
        assert(d.contains(crate::matcher::canonical_header(req.headers[i].0)));
    }
}

// ---- Recording bodies -----------------------------------------------------------------------------

/// Where a rule names the request, the first bytes of its body are recorded, no more than
/// the bound, with whether that is all; the request goes on as it came.
pub proof fn a_body_is_recorded_up_to_its_bound(
    b: BodyCaptureView,
    notes: Notes,
    req: RequestView,
    answers: Seq<Option<Seq<u8>>>,
)
    requires
        crate::strmap::sorted(notes),
        req.body.bytes.len() <= u64::MAX,
    ensures
        ({
            let s = crate::transforms::step(TransformView::BodyCapture(b), notes, req, answers);
            let named = exists|i: int|
                0 <= i < b.rules.len() && crate::matcher::rule_accepts(
                    #[trigger] b.rules[i],
                    req.host,
                    req.method,
                    req.path,
                );
            let all = req.body.bytes;
            let cut = all.len() > b.max;
            let recorded = if cut {
                all.take(b.max as int)
            } else {
                all
            };
            &&& s.result == Ok::<VerdictView, Seq<char>>(VerdictView::Continue)
            &&& s.req == req
            &&& !named ==> s.capture is None && s.notes == notes
            &&& named ==> {
                &&& s.capture == Some(
                    CaptureView {
                        request_body: crate::text::bytes_text(recorded),
                        request_body_truncated: cut || req.body.over_cap,
                    },
                )
                &&& crate::strmap::found(s.notes, "captured_bytes"@) == Some(
                    NoteView::Count(recorded.len() as u64),
                )
                &&& crate::strmap::found(s.notes, "truncated"@) == Some(
                    NoteView::Flag(cut || req.body.over_cap),
                )
            }
        }),
{
    let all = req.body.bytes;
    let cap = if all.len() <= b.max {
        all.len() as int
    } else {
        b.max as int
    };
    let one = crate::strmap::put(notes, "captured_bytes"@, NoteView::Count(cap as u64));
    crate::strmap::put_laws(notes, "captured_bytes"@, NoteView::Count(cap as u64));
    crate::strmap::put_laws(
        one,
        "truncated"@,
        NoteView::Flag(all.len() > b.max || req.body.over_cap),
    );
    reveal_strlit("captured_bytes");
    reveal_strlit("truncated");
    assert("captured_bytes"@.len() == 14 && "truncated"@.len() == 9);
    assert(all.take(all.len() as int) =~= all);
}

// ---- The pipeline ---------------------------------------------------------------------------------

/// A pipeline runs its transforms in their order on the request that the one before left,
/// until one does not let it go on. Each leaves a trace under its name with its verdict and
/// its notes. The last body that was recorded is kept.
pub proof fn transforms_run_in_order(
    ts: Seq<TransformView>,
    answers: Seq<Seq<Option<Seq<u8>>>>,
    req: RequestView,
    n: int,
)
    requires
        0 < n <= ts.len(),
    ensures
        ({
            let st = crate::pipeline::run_upto(ts, answers, req, n - 1);
            let next = crate::pipeline::run_upto(ts, answers, req, n);
            let s = crate::transforms::step(
                ts[n - 1],
                Seq::<(Seq<char>, NoteView)>::empty(),
                st.req,
                answers[n - 1],
            );
            let name = match ts[n - 1] {
                TransformView::Allowlist(_) => "allowlist"@,
                TransformView::Annotate(_) => "annotate"@,
                TransformView::HeaderAllowlist(_) => "header_allowlist"@,
                TransformView::BodyCapture(_) => "body_capture"@,
                TransformView::Secrets(_) => "secrets"@,
            };
            if st.stop is Some {
                next == st
            } else {
                let t = next.traces[st.traces.len() as int];
                &&& next.req == s.req
                &&& next.traces.len() == st.traces.len() + 1
                &&& next.traces.take(st.traces.len() as int) == st.traces
                &&& t.name == name
                &&& t.notes == s.notes
                &&& next.capture == (if s.capture is Some {
                    s.capture
                } else {
                    st.capture
                })
                &&& match s.result {
                    Ok(VerdictView::Continue) => next.stop is None && t.verdict
                        == TraceVerdict::Continue && t.error is None,
                    Ok(VerdictView::Reject(response)) => next.stop == Some(
                        OutcomeView::Reject { by: name, response },
                    ) && t.verdict == TraceVerdict::Reject && t.error is None,
                    Ok(VerdictView::Stub(response)) => next.stop == Some(
                        OutcomeView::Stub { by: name, response },
                    ) && t.verdict == TraceVerdict::Stub && t.error is None,
                    Err(message) => next.stop == Some(
                        OutcomeView::Error { by: name, message },
                    ) && t.verdict == TraceVerdict::Error && t.error == Some(message),
                }
            }
        }),
        crate::pipeline::run_upto(ts, answers, req, 0) == (RunView {
            req,
            traces: Seq::empty(),
            capture: None,
            stop: None,
        }),
{
    let st = crate::pipeline::run_upto(ts, answers, req, n - 1);
    let next = crate::pipeline::run_upto(ts, answers, req, n);
    if st.stop is None {
        assert(next.traces.take(st.traces.len() as int) =~= st.traces);
    }
}

/// The outcome of a run is what stopped it, or that the request goes on; it holds the
/// traces, the recorded body and the path that the client sent.
pub proof fn an_outcome_tells_the_run(
    ts: Seq<TransformView>,
    answers: Seq<Seq<Option<Seq<u8>>>>,
    req: RequestView,
)
    ensures
        ({
            let st = crate::pipeline::run_upto(ts, answers, req, ts.len() as int);
            let o = crate::pipeline::outcome_of(
                crate::pipeline::run(ts, answers, req),
                req.path,
            );
            &&& o.outcome == match st.stop {
                Some(x) => x,
                None => OutcomeView::Continue,
            }
            &&& o.traces == st.traces
            &&& o.capture == st.capture
            &&& o.request_path == req.path
        }),
{
}

/// What takes the place of an upstream answer: a rejection without one of its own is an
/// empty 403.
pub proof fn rejections_are_forbidden(by: Seq<char>, r: ResponseView, message: Seq<char>)
    ensures
        crate::pipeline::response_action(OutcomeView::Continue)
            == crate::pipeline::ResponseActionView::Forward,
        crate::pipeline::response_action(OutcomeView::Reject { by, response: None }) == (
        crate::pipeline::ResponseActionView::Replace {
            by,
            response: ResponseView { status: 403, headers: Seq::empty(), body: Seq::empty() },
            stub: false,
        }),
        crate::pipeline::response_action(OutcomeView::Reject { by, response: Some(r) }) == (
        crate::pipeline::ResponseActionView::Replace { by, response: r, stub: false }),
        crate::pipeline::response_action(OutcomeView::Stub { by, response: r }) == (
        crate::pipeline::ResponseActionView::Replace { by, response: r, stub: true }),
        crate::pipeline::response_action(OutcomeView::Error { by, message }) == (
        crate::pipeline::ResponseActionView::Error { by, message }),
{
}

/// A verdict is told as what it is, and every one but to go on ends the run under the name of
/// the transform.
pub proof fn verdicts_are_told(
    name: Seq<char>,
    notes: Notes,
    rejection: Option<ResponseView>,
    stub: ResponseView,
    message: Seq<char>,
)
    ensures
        ({
            let go_on = Ok::<VerdictView, Seq<char>>(VerdictView::Continue);
            let reject = Ok::<VerdictView, Seq<char>>(VerdictView::Reject(rejection));
            let stubbed = Ok::<VerdictView, Seq<char>>(VerdictView::Stub(stub));
            let failed = Err::<VerdictView, Seq<char>>(message);
            &&& crate::pipeline::stop_of(name, go_on) is None
            &&& crate::pipeline::stop_of(name, reject) == Some(
                OutcomeView::Reject { by: name, response: rejection },
            )
            &&& crate::pipeline::stop_of(name, stubbed) == Some(
                OutcomeView::Stub { by: name, response: stub },
            )
            &&& crate::pipeline::stop_of(name, failed) == Some(
                OutcomeView::Error { by: name, message },
            )
            &&& crate::pipeline::trace_of(name, go_on, notes).verdict is Continue
            &&& crate::pipeline::trace_of(name, reject, notes).verdict is Reject
            &&& crate::pipeline::trace_of(name, stubbed, notes).verdict is Stub
            &&& crate::pipeline::trace_of(name, failed, notes).verdict is Error
            &&& crate::pipeline::trace_of(name, failed, notes).error == Some(message)
            &&& crate::pipeline::trace_of(name, stubbed, notes).error is None
            &&& crate::pipeline::trace_of(name, reject, notes).error is None
            &&& crate::pipeline::trace_of(name, failed, notes).name == name
            &&& crate::pipeline::trace_of(name, failed, notes).notes == notes
        }),
{
}

} // verus!
