//! What is counted and how it is shown.
use vstd::prelude::*;
use vstd::string::*;

use crate::audit::{Action, RecordView};
use crate::metrics::{Counts, DialResult, DnsOutcome, HistogramView, MetricsView};
use crate::summary::Mode;
use crate::verdict::{NoteView, TraceView};

verus! {

/// What dials, queries, modes and actions are called.
pub proof fn labels_have_their_names()
    ensures
        crate::metrics::dial_label(DialResult::Dialed) == "ok"@,
        crate::metrics::dial_label(DialResult::Reused) == "reused"@,
        crate::metrics::dial_label(DialResult::GuardDenied) == "guard-denied"@,
        crate::metrics::dial_label(DialResult::DnsError) == "dns-error"@,
        crate::metrics::dial_label(DialResult::ConnectError) == "connect-error"@,
        crate::metrics::dial_label(DialResult::TlsError) == "tls-error"@,
        crate::metrics::dns_label(DnsOutcome::Intercept) == "intercept"@,
        crate::metrics::dns_label(DnsOutcome::Static) == "static"@,
        crate::metrics::dns_label(DnsOutcome::Passthrough) == "passthrough"@,
        crate::metrics::dns_label(DnsOutcome::Error) == "error"@,
        crate::metrics::mode_text(Mode::Http) == "http"@,
        crate::metrics::mode_text(Mode::Https) == "https"@,
        crate::metrics::mode_text(Mode::Tunnel) == "tunnel"@,
        crate::metrics::action_text(Action::Allow) == "allow"@,
        crate::metrics::action_text(Action::Reject) == "reject"@,
        crate::metrics::action_text(Action::Stub) == "stub"@,
        crate::metrics::action_text(Action::Error) == "error"@,
        crate::metrics::action_text(Action::ClientCancel) == "client-cancel"@,
{
}

proof fn escaping_is_by_prefix(s: Seq<char>, t: Seq<char>, n: int)
    requires
        0 <= n <= s.len(),
        n <= t.len(),
        s.take(n) == t.take(n),
    ensures
        crate::metrics::escaped_upto(s, n) == crate::metrics::escaped_upto(t, n),
    decreases n,
{
    if n > 0 {
        assert(s.take(n).take(n - 1) =~= s.take(n - 1));
        assert(t.take(n).take(n - 1) =~= t.take(n - 1));
        assert(s.take(n)[n - 1] == s[n - 1] && t.take(n)[n - 1] == t[n - 1]);
        escaping_is_by_prefix(s, t, n - 1);
    }
}

/// In a label a backslash, a quote and the end of a line stand behind a backslash, the last one
/// as `n`; every other character stands for itself.
pub proof fn labels_are_escaped(s: Seq<char>, c: char)
    ensures
        crate::metrics::escaped(Seq::empty()) == Seq::<char>::empty(),
        crate::metrics::escaped(s + seq![c]) == crate::metrics::escaped(s) + (if c == '\n' {
            seq!['\\', 'n']
        } else if c == '\\' || c == '"' {
            seq!['\\', c]
        } else {
            seq![c]
        }),
{
    let t = s + seq![c];
    let n: int = s.len() as int;
    assert(t.take(n) =~= s && s.take(n) =~= s);
    escaping_is_by_prefix(s, t, n);
    assert(t[n] == c);
}

/// A text without such characters stays as it is.
pub proof fn plain_labels_stay(s: Seq<char>)
    requires
        super::words::free_of(s, '\\'),
        super::words::free_of(s, '"'),
        super::words::free_of(s, '\n'),
    ensures
        crate::metrics::escaped(s) == s,
    decreases s.len(),
{
    if s.len() > 0 {
        let t = s.drop_last();
        assert forall|i: int| 0 <= i < t.len() implies #[trigger] t[i] != '\\' && t[i] != '"'
            && t[i] != '\n' by {
            assert(t[i] == s[i]);
        }
        plain_labels_stay(t);
        labels_are_escaped(t, s.last());
        assert(t + seq![s.last()] =~= s);
        assert(s[s.len() - 1] != '\\' && s[s.len() - 1] != '"' && s[s.len() - 1] != '\n');
    } else {
        assert(s =~= Seq::<char>::empty());
        labels_are_escaped(s, ' ');
    }
}

/// A request is counted under its mode, its action and who rejected it.
pub proof fn requests_are_counted_by_labels(m: Mode, a: Action, by: Option<Seq<char>>)
    ensures
        ({
            let mode = crate::metrics::escaped(crate::metrics::mode_text(m));
            let action = crate::metrics::escaped(crate::metrics::action_text(a));
            let timed = "mode=\""@ + mode + "\",action=\""@ + action + "\""@;
            &&& crate::metrics::duration_key(m, a) == timed
            &&& crate::metrics::request_key(m, a, by) == timed + ",rejected_by=\""@
                + crate::metrics::escaped(
                if by is Some {
                    by->0
                } else {
                    Seq::empty()
                },
            ) + "\""@
        }),
{
    reveal_strlit("mode");
    reveal_strlit("action");
    reveal_strlit("rejected_by");
    reveal_strlit("=\"");
    reveal_strlit("\"");
    reveal_strlit(",");
    reveal_strlit("mode=\"");
    reveal_strlit("\",action=\"");
    reveal_strlit(",rejected_by=\"");
    let mode = crate::metrics::escaped(crate::metrics::mode_text(m));
    let action = crate::metrics::escaped(crate::metrics::action_text(a));
    let timed = "mode=\""@ + mode + "\",action=\""@ + action + "\""@;
    assert(crate::metrics::duration_key(m, a) =~= timed);
    let x = crate::metrics::escaped(
        if by is Some {
            by->0
        } else {
            Seq::empty()
        },
    );
    assert(timed + ","@ + ("rejected_by"@ + "=\""@ + x + "\""@) =~= timed + ",rejected_by=\""@ + x
        + "\""@);
}

/// A number at its ceiling stays there.
pub open spec fn up_to_the_ceiling(n: int) -> u64 {
    if n > u64::MAX {
        u64::MAX
    } else {
        n as u64
    }
}

/// The count under a key; none where there is none.
pub open spec fn counted(s: Counts, k: Seq<char>) -> int {
    match crate::strmap::found(s, k) {
        Some(n) => n as int,
        None => 0,
    }
}

/// Counting adds to one key and to no other.
pub proof fn counting_adds_to_one_key(s: Counts, k: Seq<char>, n: u64, other: Seq<char>)
    requires
        crate::strmap::sorted(s),
    ensures
        counted(crate::metrics::bumped(s, k, n), k) == up_to_the_ceiling(counted(s, k) + n),
        other != k ==> counted(crate::metrics::bumped(s, k, n), other) == counted(s, other),
        crate::strmap::sorted(crate::metrics::bumped(s, k, n)),
{
    crate::strmap::put_laws(s, k, up_to_the_ceiling(counted(s, k) + n));
}

/// How many a note lists.
pub open spec fn listed(o: Option<NoteView>) -> int {
    match o {
        Some(NoteView::Texts(v)) => v.len() as int,
        Some(NoteView::Swaps(v)) => v.len() as int,
        _ => 0,
    }
}

proof fn result_labels_differ()
    ensures
        crate::metrics::label("result"@, "swapped"@) == "result=\"swapped\""@,
        crate::metrics::label("result"@, "source-error"@) == "result=\"source-error\""@,
        crate::metrics::label("result"@, "missing-required"@) == "result=\"missing-required\""@,
        "result=\"swapped\""@ != "result=\"source-error\""@,
        "result=\"swapped\""@ != "result=\"missing-required\""@,
        "result=\"source-error\""@ != "result=\"missing-required\""@,
{
    reveal_strlit("result");
    reveal_strlit("=\"");
    reveal_strlit("\"");
    reveal_strlit("swapped");
    reveal_strlit("source-error");
    reveal_strlit("missing-required");
    reveal_strlit("result=\"swapped\"");
    reveal_strlit("result=\"source-error\"");
    reveal_strlit("result=\"missing-required\"");
    plain_labels_stay("swapped"@);
    plain_labels_stay("source-error"@);
    plain_labels_stay("missing-required"@);
    assert(crate::metrics::label("result"@, "swapped"@) =~= "result=\"swapped\""@);
    assert(crate::metrics::label("result"@, "source-error"@) =~= "result=\"source-error\""@);
    assert(crate::metrics::label("result"@, "missing-required"@)
        =~= "result=\"missing-required\""@);
    assert("result=\"swapped\""@.len() == 16);
    assert("result=\"source-error\""@.len() == 21);
    assert("result=\"missing-required\""@.len() == 25);
}

/// Of what the secrets did to a request the swaps are counted, the sources that failed, and the
/// rejection for a secret that was required; traces of other transforms count for nothing.
pub proof fn secrets_are_counted(
    s: Counts,
    t: TraceView,
    by: Option<Seq<char>>,
    other: Seq<char>,
)
    requires
        crate::strmap::sorted(s),
        listed(crate::strmap::found(t.notes, "swapped"@)) <= u64::MAX,
        listed(crate::strmap::found(t.notes, "secret_unavailable"@)) <= u64::MAX,
    ensures
        ({
            let c = crate::metrics::count_trace(s, t, by);
            let swapped = "result=\"swapped\""@;
            let failed = "result=\"source-error\""@;
            let missing = "result=\"missing-required\""@;
            if t.name != "secrets"@ {
                c == s
            } else {
                &&& counted(c, swapped) == up_to_the_ceiling(
                    counted(s, swapped) + listed(crate::strmap::found(t.notes, "swapped"@)),
                )
                &&& counted(c, failed) == up_to_the_ceiling(
                    counted(s, failed) + listed(
                        crate::strmap::found(t.notes, "secret_unavailable"@),
                    ),
                )
                &&& counted(c, missing) == up_to_the_ceiling(
                    counted(s, missing) + (if by == Some("secrets"@) && t.verdict is Reject {
                        1int
                    } else {
                        0
                    }),
                )
                &&& other != swapped && other != failed && other != missing ==> counted(c, other)
                    == counted(s, other)
                &&& crate::strmap::sorted(c)
            }
        }),
{
    result_labels_differ();
    let swapped = "result=\"swapped\""@;
    let failed = "result=\"source-error\""@;
    let missing = "result=\"missing-required\""@;
    let n = crate::metrics::note_len(crate::strmap::found(t.notes, "swapped"@));
    let m = crate::metrics::note_len(crate::strmap::found(t.notes, "secret_unavailable"@));
    let a = crate::metrics::bumped_some(s, swapped, n);
    counting_adds_to_one_key(s, swapped, n, failed);
    counting_adds_to_one_key(s, swapped, n, missing);
    counting_adds_to_one_key(s, swapped, n, other);
    let b = crate::metrics::bumped_some(a, failed, m);
    counting_adds_to_one_key(a, failed, m, swapped);
    counting_adds_to_one_key(a, failed, m, missing);
    counting_adds_to_one_key(a, failed, m, other);
    counting_adds_to_one_key(b, missing, 1, swapped);
    counting_adds_to_one_key(b, missing, 1, failed);
    counting_adds_to_one_key(b, missing, 1, other);
}

/// What all traces of the secrets list under a note.
pub open spec fn listed_in_all(traces: Seq<TraceView>, note: Seq<char>) -> int
    decreases traces.len(),
{
    if traces.len() == 0 {
        0
    } else {
        let t = traces[traces.len() - 1];
        listed_in_all(traces.take(traces.len() - 1), note) + (if t.name == "secrets"@ {
            listed(crate::strmap::found(t.notes, note))
        } else {
            0
        })
    }
}

proof fn all_listed(traces: Seq<TraceView>, note: Seq<char>)
    ensures
        listed_in_all(traces, note) >= 0,
        traces.len() > 0 ==> listed_in_all(traces, note) >= listed_in_all(
            traces.take(traces.len() - 1),
            note,
        ) >= 0,
    decreases traces.len(),
{
    if traces.len() > 0 {
        all_listed(traces.take(traces.len() - 1), note);
    }
}

proof fn traces_are_counted(s: Counts, traces: Seq<TraceView>, by: Option<Seq<char>>, n: int)
    requires
        crate::strmap::sorted(s),
        0 <= n <= traces.len(),
        listed_in_all(traces.take(n), "swapped"@) + counted(s, "result=\"swapped\""@) <= u64::MAX,
        listed_in_all(traces.take(n), "secret_unavailable"@) + counted(
            s,
            "result=\"source-error\""@,
        ) <= u64::MAX,
    ensures
        ({
            let c = crate::metrics::count_traces(s, traces, by, n);
            &&& crate::strmap::sorted(c)
            &&& counted(c, "result=\"swapped\""@) == counted(s, "result=\"swapped\""@)
                + listed_in_all(traces.take(n), "swapped"@)
            &&& counted(c, "result=\"source-error\""@) == counted(s, "result=\"source-error\""@)
                + listed_in_all(traces.take(n), "secret_unavailable"@)
        }),
    decreases n,
{
    if n > 0 {
        let u = traces.take(n);
        assert(u.take(n - 1) =~= traces.take(n - 1));
        assert(u[n - 1] == traces[n - 1]);
        all_listed(u, "swapped"@);
        all_listed(u, "secret_unavailable"@);
        assert(counted(s, "result=\"swapped\""@) >= 0);
        assert(counted(s, "result=\"source-error\""@) >= 0);
        traces_are_counted(s, traces, by, n - 1);
        if traces[n - 1].name == "secrets"@ {
            secrets_are_counted(
                crate::metrics::count_traces(s, traces, by, n - 1),
                traces[n - 1],
                by,
                Seq::empty(),
            );
        }
    }
}

/// A record counts once under its labels, its time in its band, and what its secrets swapped or
/// could not read under those.
pub proof fn records_are_counted(m: MetricsView, r: RecordView, band: int)
    requires
        crate::strmap::sorted(m.requests),
        crate::strmap::sorted(m.duration),
        crate::strmap::sorted(m.secrets),
        listed_in_all(r.request_transforms, "swapped"@) + counted(
            m.secrets,
            "result=\"swapped\""@,
        ) <= u64::MAX,
        listed_in_all(r.request_transforms, "secret_unavailable"@) + counted(
            m.secrets,
            "result=\"source-error\""@,
        ) <= u64::MAX,
    ensures
        ({
            let after = crate::metrics::with_record(m, r, band);
            let own = crate::metrics::request_key(r.mode, r.action, r.rejected_by);
            let timed = crate::metrics::duration_key(r.mode, r.action);
            &&& counted(after.requests, own) == up_to_the_ceiling(counted(m.requests, own) + 1)
            &&& crate::strmap::found(after.duration, timed) == Some(
                crate::metrics::observed(
                    match crate::strmap::found(m.duration, timed) {
                        Some(h) => h,
                        None => HistogramView { counts: Seq::new(12, |i: int| 0u64), count: 0 },
                    },
                    band,
                ),
            )
            &&& counted(after.secrets, "result=\"swapped\""@) == counted(
                m.secrets,
                "result=\"swapped\""@,
            ) + listed_in_all(r.request_transforms, "swapped"@)
            &&& counted(after.secrets, "result=\"source-error\""@) == counted(
                m.secrets,
                "result=\"source-error\""@,
            ) + listed_in_all(r.request_transforms, "secret_unavailable"@)
            &&& after.dials == m.dials && after.dns == m.dns && after.reloads == m.reloads
            &&& after.tls_cache == m.tls_cache && after.version == m.version
        }),
{
    let t = r.request_transforms;
    assert(t.take(t.len() as int) =~= t);
    traces_are_counted(m.secrets, t, r.rejected_by, t.len() as int);
    let own = crate::metrics::request_key(r.mode, r.action, r.rejected_by);
    counting_adds_to_one_key(m.requests, own, 1, own);
    let timed = crate::metrics::duration_key(r.mode, r.action);
    let h = match crate::strmap::found(m.duration, timed) {
        Some(h) => h,
        None => crate::metrics::empty_histogram(),
    };
    crate::strmap::put_laws(m.duration, timed, crate::metrics::observed(h, band));
}

/// A time adds one to the band it falls into, to no other, and to the whole.
pub proof fn times_fall_into_bands(h: HistogramView, band: int, i: int)
    requires
        0 <= i < h.counts.len(),
    ensures
        ({
            let o = crate::metrics::observed(h, band);
            &&& o.count == up_to_the_ceiling(h.count + 1)
            &&& o.counts.len() == h.counts.len()
            &&& o.counts[i] == (if i == band {
                up_to_the_ceiling(h.counts[i] + 1)
            } else {
                h.counts[i]
            })
        }),
{
}

/// A reload is counted by how it went.
pub proof fn reloads_are_counted(m: MetricsView)
    requires
        crate::strmap::sorted(m.reloads),
    ensures
        counted(crate::metrics::with_reload(m, true).reloads, "result=\"ok\""@)
            == up_to_the_ceiling(counted(m.reloads, "result=\"ok\""@) + 1),
        counted(crate::metrics::with_reload(m, false).reloads, "result=\"error\""@)
            == up_to_the_ceiling(counted(m.reloads, "result=\"error\""@) + 1),
        crate::metrics::with_reload(m, true).requests == m.requests,
        crate::metrics::with_reload(m, false).requests == m.requests,
{
    reveal_strlit("result");
    reveal_strlit("=\"");
    reveal_strlit("\"");
    reveal_strlit("ok");
    reveal_strlit("error");
    reveal_strlit("result=\"ok\"");
    reveal_strlit("result=\"error\"");
    plain_labels_stay("ok"@);
    plain_labels_stay("error"@);
    assert(crate::metrics::label("result"@, "ok"@) =~= "result=\"ok\""@);
    assert(crate::metrics::label("result"@, "error"@) =~= "result=\"error\""@);
    counting_adds_to_one_key(m.reloads, "result=\"ok\""@, 1, "result=\"error\""@);
    counting_adds_to_one_key(m.reloads, "result=\"error\""@, 1, "result=\"ok\""@);
}

// ---- The exposition -----------------------------------------------------------------------------------

proof fn within_more(a: Seq<char>, b: Seq<char>, x: Seq<char>)
    ensures
        super::words::is_within(a, x) ==> super::words::is_within(a + b, x),
        super::words::is_within(b, x) ==> super::words::is_within(a + b, x),
        super::words::is_within(x, x),
{
    assert(super::words::stands(x, x, 0)) by {
        assert forall|k: int| 0 <= k < x.len() implies x[0 + k] == #[trigger] x[k] by {}
    }
    if super::words::is_within(a, x) {
        let i = choose|i: int| #[trigger] super::words::stands(a, x, i);
        assert forall|k: int| 0 <= k < x.len() implies (a + b)[i + k] == #[trigger] x[k] by {
            assert(a[i + k] == x[k]);
        }
        assert(super::words::stands(a + b, x, i));
    }
    if super::words::is_within(b, x) {
        let i = choose|i: int| #[trigger] super::words::stands(b, x, i);
        assert forall|k: int| 0 <= k < x.len() implies (a + b)[a.len() + i + k] == #[trigger] x[k] by {
            assert(b[i + k] == x[k]);
        }
        assert(super::words::stands(a + b, x, a.len() + i));
    }
}

/// A line of the exposition.
pub open spec fn line(name: Seq<char>, labels: Seq<char>, n: nat) -> Seq<char> {
    name + seq!['{'] + labels + seq!['}', ' '] + super::words::written(n) + seq!['\n']
}

proof fn samples_are_lines(name: Seq<char>, labels: Seq<char>, n: nat)
    ensures
        crate::metrics::sample(name, labels, crate::text::decimal_text(n)) == line(
            name,
            labels,
            n,
        ),
{
    reveal_strlit("{");
    reveal_strlit("} ");
    reveal_strlit("\n");
    super::text::numbers_are_decimal(n, n);
    assert("{"@ =~= seq!['{']);
    assert("} "@ =~= seq!['}', ' ']);
    assert("\n"@ =~= seq!['\n']);
}

proof fn counts_are_lines(name: Seq<char>, s: Counts, i: int, n: int)
    requires
        0 <= i < n <= s.len(),
    ensures
        super::words::is_within(
            crate::metrics::count_lines(name, s, n),
            line(name, s[i].0, s[i].1 as nat),
        ),
    decreases n,
{
    let x = line(name, s[i].0, s[i].1 as nat);
    let last = crate::metrics::sample(
        name,
        s[n - 1].0,
        crate::text::decimal_text(s[n - 1].1 as nat),
    );
    if i < n - 1 {
        counts_are_lines(name, s, i, n - 1);
    } else {
        samples_are_lines(name, s[i].0, s[i].1 as nat);
    }
    within_more(crate::metrics::count_lines(name, s, n - 1), last, x);
}

proof fn sections_hold_their_lines(name: Seq<char>, s: Counts, i: int)
    requires
        0 <= i < s.len(),
    ensures
        super::words::is_within(
            crate::metrics::counter_section(name, s),
            line(name, s[i].0, s[i].1 as nat),
        ),
{
    counts_are_lines(name, s, i, s.len() as int);
    within_more(
        "# TYPE "@ + name + " counter\n"@,
        crate::metrics::count_lines(name, s, s.len() as int),
        line(name, s[i].0, s[i].1 as nat),
    );
}

/// Where the exposition holds each of its parts.
proof fn parts_are_shown(m: MetricsView, sums: Seq<(Seq<char>, String)>, x: Seq<char>)
    ensures
        ({
            let e = crate::metrics::exposition(m, sums);
            let part = |name: Seq<char>, s: Counts|
                super::words::is_within(crate::metrics::counter_section(name, s), x);
            &&& part("hematite_requests_total"@, m.requests) ==> super::words::is_within(e, x)
            &&& super::words::is_within(
                crate::metrics::duration_lines(m.duration, sums, m.duration.len() as int),
                x,
            ) ==> super::words::is_within(e, x)
            &&& part("hematite_secrets_swaps_total"@, m.secrets) ==> super::words::is_within(e, x)
            &&& part("hematite_upstream_dials_total"@, m.dials) ==> super::words::is_within(e, x)
            &&& part("hematite_dns_queries_total"@, m.dns) ==> super::words::is_within(e, x)
            &&& part("hematite_tls_leaf_cache_events_total"@, m.tls_cache)
                ==> super::words::is_within(e, x)
            &&& part("hematite_config_reloads_total"@, m.reloads) ==> super::words::is_within(e, x)
        }),
{
    let a0 = "# TYPE hematite_build_info gauge\n"@ + crate::metrics::sample(
        "hematite_build_info"@,
        crate::metrics::label("version"@, m.version),
        "1"@,
    );
    let p1 = crate::metrics::counter_section("hematite_requests_total"@, m.requests);
    let a1 = a0 + p1;
    let p2 = "# TYPE hematite_request_duration_seconds histogram\n"@;
    let a2 = a1 + p2;
    let p3 = crate::metrics::duration_lines(m.duration, sums, m.duration.len() as int);
    let a3 = a2 + p3;
    let p4 = crate::metrics::counter_section("hematite_secrets_swaps_total"@, m.secrets);
    let a4 = a3 + p4;
    let p5 = crate::metrics::counter_section("hematite_upstream_dials_total"@, m.dials);
    let a5 = a4 + p5;
    let p6 = crate::metrics::counter_section("hematite_dns_queries_total"@, m.dns);
    let a6 = a5 + p6;
    let p7 = crate::metrics::counter_section("hematite_tls_leaf_cache_events_total"@, m.tls_cache);
    let a7 = a6 + p7;
    let p8 = crate::metrics::counter_section("hematite_config_reloads_total"@, m.reloads);
    within_more(a0, p1, x);
    within_more(a1, p2, x);
    within_more(a2, p3, x);
    within_more(a3, p4, x);
    within_more(a4, p5, x);
    within_more(a5, p6, x);
    within_more(a6, p7, x);
    within_more(a7, p8, x);
}

/// Every count stands in the exposition, on a line of its own under the name of its family.
pub proof fn counts_are_shown(
    m: MetricsView,
    sums: Seq<(Seq<char>, String)>,
    i: int,
)
    ensures
        ({
            let e = crate::metrics::exposition(m, sums);
            let shown = |name: Seq<char>, s: Counts|
                0 <= i < s.len() ==> super::words::is_within(e, line(name, s[i].0, s[i].1 as nat));
            &&& shown("hematite_requests_total"@, m.requests)
            &&& shown("hematite_secrets_swaps_total"@, m.secrets)
            &&& shown("hematite_upstream_dials_total"@, m.dials)
            &&& shown("hematite_dns_queries_total"@, m.dns)
            &&& shown("hematite_tls_leaf_cache_events_total"@, m.tls_cache)
            &&& shown("hematite_config_reloads_total"@, m.reloads)
        }),
{
    if 0 <= i < m.requests.len() {
        let n = "hematite_requests_total"@;
        sections_hold_their_lines(n, m.requests, i);
        parts_are_shown(m, sums, line(n, m.requests[i].0, m.requests[i].1 as nat));
    }
    if 0 <= i < m.secrets.len() {
        let n = "hematite_secrets_swaps_total"@;
        sections_hold_their_lines(n, m.secrets, i);
        parts_are_shown(m, sums, line(n, m.secrets[i].0, m.secrets[i].1 as nat));
    }
    if 0 <= i < m.dials.len() {
        let n = "hematite_upstream_dials_total"@;
        sections_hold_their_lines(n, m.dials, i);
        parts_are_shown(m, sums, line(n, m.dials[i].0, m.dials[i].1 as nat));
    }
    if 0 <= i < m.dns.len() {
        let n = "hematite_dns_queries_total"@;
        sections_hold_their_lines(n, m.dns, i);
        parts_are_shown(m, sums, line(n, m.dns[i].0, m.dns[i].1 as nat));
    }
    if 0 <= i < m.tls_cache.len() {
        let n = "hematite_tls_leaf_cache_events_total"@;
        sections_hold_their_lines(n, m.tls_cache, i);
        parts_are_shown(m, sums, line(n, m.tls_cache[i].0, m.tls_cache[i].1 as nat));
    }
    if 0 <= i < m.reloads.len() {
        let n = "hematite_config_reloads_total"@;
        sections_hold_their_lines(n, m.reloads, i);
        parts_are_shown(m, sums, line(n, m.reloads[i].0, m.reloads[i].1 as nat));
    }
}

proof fn buckets_are_lines(name: Seq<char>, labels: Seq<char>, h: HistogramView, i: int, n: int)
    requires
        0 <= i < n,
    ensures
        super::words::is_within(
            crate::metrics::bucket_lines(name, labels, h, n),
            line(
                name + "_bucket"@,
                labels + ",le=\""@ + crate::metrics::bound_text(i) + "\""@,
                crate::metrics::cumulated(h.counts, i + 1) as nat,
            ),
        ),
    decreases n,
{
    let x = line(
        name + "_bucket"@,
        labels + ",le=\""@ + crate::metrics::bound_text(i) + "\""@,
        crate::metrics::cumulated(h.counts, i + 1) as nat,
    );
    let last = crate::metrics::sample(
        name + "_bucket"@,
        crate::metrics::bucket_labels(labels, crate::metrics::bound_text(n - 1)),
        crate::text::decimal_text(crate::metrics::cumulated(h.counts, n) as nat),
    );
    if i < n - 1 {
        buckets_are_lines(name, labels, h, i, n - 1);
    } else {
        samples_are_lines(
            name + "_bucket"@,
            crate::metrics::bucket_labels(labels, crate::metrics::bound_text(i)),
            crate::metrics::cumulated(h.counts, n) as nat,
        );
    }
    within_more(crate::metrics::bucket_lines(name, labels, h, n - 1), last, x);
}

/// A histogram is shown by its buckets, each with all that fell up to its bound, by the bucket
/// without a bound, and by its count.
pub proof fn histograms_are_shown(
    name: Seq<char>,
    labels: Seq<char>,
    h: HistogramView,
    sum: Seq<char>,
    i: int,
)
    ensures
        ({
            let s = crate::metrics::histogram_lines(name, labels, h, sum);
            &&& 0 <= i < h.counts.len() ==> super::words::is_within(
                s,
                line(
                    name + "_bucket"@,
                    labels + ",le=\""@ + crate::metrics::bound_text(i) + "\""@,
                    crate::metrics::cumulated(h.counts, i + 1) as nat,
                ),
            )
            &&& super::words::is_within(
                s,
                line(name + "_bucket"@, labels + ",le=\""@ + "+Inf"@ + "\""@, h.count as nat),
            )
            &&& super::words::is_within(s, line(name + "_count"@, labels, h.count as nat))
            &&& super::words::is_within(
                s,
                name + "_sum"@ + seq!['{'] + labels + seq!['}', ' '] + sum + seq!['\n'],
            )
        }),
{
    let inf = line(name + "_bucket"@, labels + ",le=\""@ + "+Inf"@ + "\""@, h.count as nat);
    let count = line(name + "_count"@, labels, h.count as nat);
    let a = crate::metrics::bucket_lines(name, labels, h, h.counts.len() as int);
    let s = crate::metrics::sample(name + "_sum"@, labels, sum);
    samples_are_lines(
        name + "_bucket"@,
        crate::metrics::bucket_labels(labels, "+Inf"@),
        h.count as nat,
    );
    samples_are_lines(name + "_count"@, labels, h.count as nat);
    within_more(a, inf, inf);
    within_more(a + inf, s, inf);
    within_more(a + inf + s, count, inf);
    within_more(a + inf + s, count, count);
    reveal_strlit("{");
    reveal_strlit("} ");
    reveal_strlit("\n");
    assert("{"@ =~= seq!['{']);
    assert("} "@ =~= seq!['}', ' ']);
    assert("\n"@ =~= seq!['\n']);
    within_more(a + inf, s, s);
    within_more(a + inf + s, count, s);
    if 0 <= i < h.counts.len() {
        buckets_are_lines(name, labels, h, i, h.counts.len() as int);
        let x = line(
            name + "_bucket"@,
            labels + ",le=\""@ + crate::metrics::bound_text(i) + "\""@,
            crate::metrics::cumulated(h.counts, i + 1) as nat,
        );
        within_more(a, inf, x);
        within_more(a + inf, s, x);
        within_more(a + inf + s, count, x);
    }
}

/// The bounds of the buckets, in seconds.
pub proof fn buckets_have_their_bounds()
    ensures
        Seq::new(12, |i: int| crate::metrics::bound_text(i)) == seq![
            "0.005"@,
            "0.01"@,
            "0.025"@,
            "0.05"@,
            "0.1"@,
            "0.25"@,
            "0.5"@,
            "1"@,
            "2.5"@,
            "5"@,
            "10"@,
            "30"@,
        ],
        crate::metrics::empty_histogram().counts == Seq::new(12, |i: int| 0u64),
        crate::metrics::empty_histogram().count == 0,
{
}

proof fn durations_are_lines(
    s: Seq<(Seq<char>, HistogramView)>,
    sums: Seq<(Seq<char>, String)>,
    i: int,
    n: int,
    x: Seq<char>,
)
    requires
        0 <= i < n <= s.len(),
        super::words::is_within(
            crate::metrics::histogram_lines(
                "hematite_request_duration_seconds"@,
                s[i].0,
                s[i].1,
                crate::metrics::sum_text(sums, s[i].0),
            ),
            x,
        ),
    ensures
        super::words::is_within(crate::metrics::duration_lines(s, sums, n), x),
    decreases n,
{
    if i < n - 1 {
        durations_are_lines(s, sums, i, n - 1, x);
    }
    within_more(
        crate::metrics::duration_lines(s, sums, n - 1),
        crate::metrics::histogram_lines(
            "hematite_request_duration_seconds"@,
            s[n - 1].0,
            s[n - 1].1,
            crate::metrics::sum_text(sums, s[n - 1].0),
        ),
        x,
    );
}

/// The times of requests are shown as one histogram for each of their labels.
pub proof fn times_are_shown(m: MetricsView, sums: Seq<(Seq<char>, String)>, i: int, b: int)
    requires
        0 <= i < m.duration.len(),
        0 <= b < m.duration[i].1.counts.len(),
    ensures
        ({
            let e = crate::metrics::exposition(m, sums);
            let (k, h) = m.duration[i];
            &&& super::words::is_within(
                e,
                line("hematite_request_duration_seconds"@ + "_count"@, k, h.count as nat),
            )
            &&& super::words::is_within(
                e,
                line(
                    "hematite_request_duration_seconds"@ + "_bucket"@,
                    k + ",le=\""@ + crate::metrics::bound_text(b) + "\""@,
                    crate::metrics::cumulated(h.counts, b + 1) as nat,
                ),
            )
        }),
{
    let name = "hematite_request_duration_seconds"@;
    let (k, h) = m.duration[i];
    let n: int = m.duration.len() as int;
    histograms_are_shown(name, k, h, crate::metrics::sum_text(sums, k), b);
    let x = line(name + "_count"@, k, h.count as nat);
    let y = line(
        name + "_bucket"@,
        k + ",le=\""@ + crate::metrics::bound_text(b) + "\""@,
        crate::metrics::cumulated(h.counts, b + 1) as nat,
    );
    durations_are_lines(m.duration, sums, i, n, x);
    durations_are_lines(m.duration, sums, i, n, y);
    parts_are_shown(m, sums, x);
    parts_are_shown(m, sums, y);
}

/// The exposition begins with the version of the program.
pub proof fn the_version_is_shown(m: MetricsView, sums: Seq<(Seq<char>, String)>)
    ensures
        super::words::is_within(
            crate::metrics::exposition(m, sums),
            "# TYPE hematite_build_info gauge\nhematite_build_info{version=\""@
                + crate::metrics::escaped(m.version) + "\"} 1\n"@,
        ),
{
    let x = "# TYPE hematite_build_info gauge\nhematite_build_info{version=\""@
        + crate::metrics::escaped(m.version) + "\"} 1\n"@;
    let a = "# TYPE hematite_build_info gauge\n"@ + crate::metrics::sample(
        "hematite_build_info"@,
        crate::metrics::label("version"@, m.version),
        "1"@,
    );
    reveal_strlit("# TYPE hematite_build_info gauge\nhematite_build_info{version=\"");
    reveal_strlit("\"} 1\n");
    reveal_strlit("# TYPE hematite_build_info gauge\n");
    reveal_strlit("hematite_build_info");
    reveal_strlit("version");
    reveal_strlit("=\"");
    reveal_strlit("\"");
    reveal_strlit("{");
    reveal_strlit("} ");
    reveal_strlit("1");
    reveal_strlit("\n");
    assert(a =~= x);
    begins_with(m, sums, a, x);
}

proof fn begins_with(
    m: MetricsView,
    sums: Seq<(Seq<char>, String)>,
    a0: Seq<char>,
    x: Seq<char>,
)
    requires
        a0 == x,
        a0 == "# TYPE hematite_build_info gauge\n"@ + crate::metrics::sample(
            "hematite_build_info"@,
            crate::metrics::label("version"@, m.version),
            "1"@,
        ),
    ensures
        super::words::is_within(crate::metrics::exposition(m, sums), x),
{
    let p1 = crate::metrics::counter_section("hematite_requests_total"@, m.requests);
    let a1 = a0 + p1;
    let p2 = "# TYPE hematite_request_duration_seconds histogram\n"@;
    let a2 = a1 + p2;
    let p3 = crate::metrics::duration_lines(m.duration, sums, m.duration.len() as int);
    let a3 = a2 + p3;
    let p4 = crate::metrics::counter_section("hematite_secrets_swaps_total"@, m.secrets);
    let a4 = a3 + p4;
    let p5 = crate::metrics::counter_section("hematite_upstream_dials_total"@, m.dials);
    let a5 = a4 + p5;
    let p6 = crate::metrics::counter_section("hematite_dns_queries_total"@, m.dns);
    let a6 = a5 + p6;
    let p7 = crate::metrics::counter_section("hematite_tls_leaf_cache_events_total"@, m.tls_cache);
    let a7 = a6 + p7;
    let p8 = crate::metrics::counter_section("hematite_config_reloads_total"@, m.reloads);
    within_more(a0, p1, x);
    within_more(a1, p2, x);
    within_more(a2, p3, x);
    within_more(a3, p4, x);
    within_more(a4, p5, x);
    within_more(a5, p6, x);
    within_more(a6, p7, x);
    within_more(a7, p8, x);
}

} // verus!
