//! Counters and histograms, and their text exposition.
//!
//! How long a request took is not known here: the band of the histogram that it
//! falls into is handed in, and the sums are handed in as texts when they are
//! shown.
use vstd::prelude::*;
use vstd::string::*;

use crate::audit::{Action, AuditRecord, RecordView};
use crate::resolve::DnsDecisionKind;
use crate::strmap::{found, mapped, mapping_commutes, put, put_laws, sorted, StrMap};
use crate::summary::Mode;
use crate::text::{join2, join3, number_text, same};
use crate::verdict::{Annotation, NoteView, Trace, TraceVerdict, TraceView};

verus! {

// ---- Labels -----------------------------------------------------------------------------

/// How an attempt to reach an upstream went.
#[derive(Debug, Clone, Copy, PartialEq, Eq, Structural)]
pub enum DialResult {
    Dialed,
    /// An idle connection was used again.
    Reused,
    GuardDenied,
    DnsError,
    ConnectError,
    TlsError,
}

/// The label of a dial result.
pub open spec fn dial_label(r: DialResult) -> Seq<char> {
    match r {
        DialResult::Dialed => "ok"@,
        DialResult::Reused => "reused"@,
        DialResult::GuardDenied => "guard-denied"@,
        DialResult::DnsError => "dns-error"@,
        DialResult::ConnectError => "connect-error"@,
        DialResult::TlsError => "tls-error"@,
    }
}

impl DialResult {
    pub fn as_str(self) -> (r: &'static str)
        ensures
            r@ == dial_label(self),
    {
        match self {
            DialResult::Dialed => "ok",
            DialResult::Reused => "reused",
            DialResult::GuardDenied => "guard-denied",
            DialResult::DnsError => "dns-error",
            DialResult::ConnectError => "connect-error",
            DialResult::TlsError => "tls-error",
        }
    }
}

/// How a DNS query was answered.
#[derive(Debug, Clone, Copy, PartialEq, Eq, Structural)]
pub enum DnsOutcome {
    Intercept,
    Static,
    Passthrough,
    Error,
}

/// The label of a DNS outcome.
pub open spec fn dns_label(o: DnsOutcome) -> Seq<char> {
    match o {
        DnsOutcome::Intercept => "intercept"@,
        DnsOutcome::Static => "static"@,
        DnsOutcome::Passthrough => "passthrough"@,
        DnsOutcome::Error => "error"@,
    }
}

impl DnsOutcome {
    pub fn as_str(self) -> (r: &'static str)
        ensures
            r@ == dns_label(self),
    {
        match self {
            DnsOutcome::Intercept => "intercept",
            DnsOutcome::Static => "static",
            DnsOutcome::Passthrough => "passthrough",
            DnsOutcome::Error => "error",
        }
    }

    /// The outcome under which a decision is counted.
    pub fn of(kind: DnsDecisionKind) -> (r: DnsOutcome)
        ensures
            match kind {
                DnsDecisionKind::Static => r == DnsOutcome::Static,
                DnsDecisionKind::Intercept => r == DnsOutcome::Intercept,
                DnsDecisionKind::Passthrough => r == DnsOutcome::Passthrough,
                DnsDecisionKind::Error => r == DnsOutcome::Error,
            },
    {
        match kind {
            DnsDecisionKind::Static => DnsOutcome::Static,
            DnsDecisionKind::Intercept => DnsOutcome::Intercept,
            DnsDecisionKind::Passthrough => DnsOutcome::Passthrough,
            DnsDecisionKind::Error => DnsOutcome::Error,
        }
    }
}

/// The label of a mode.
pub open spec fn mode_text(m: Mode) -> Seq<char> {
    match m {
        Mode::Http => "http"@,
        Mode::Https => "https"@,
        Mode::Tunnel => "tunnel"@,
    }
}

pub fn mode_label(mode: Mode) -> (r: &'static str)
    ensures
        r@ == mode_text(mode),
{
    match mode {
        Mode::Http => "http",
        Mode::Https => "https",
        Mode::Tunnel => "tunnel",
    }
}

/// The label of an action.
pub open spec fn action_text(a: Action) -> Seq<char> {
    match a {
        Action::Allow => "allow"@,
        Action::Reject => "reject"@,
        Action::Stub => "stub"@,
        Action::Error => "error"@,
        Action::ClientCancel => "client-cancel"@,
    }
}

pub fn action_label(action: Action) -> (r: &'static str)
    ensures
        r@ == action_text(action),
{
    match action {
        Action::Allow => "allow",
        Action::Reject => "reject",
        Action::Stub => "stub",
        Action::Error => "error",
        Action::ClientCancel => "client-cancel",
    }
}

/// A character of a label value: backslash, quote and line feed are escaped.
pub open spec fn escaped_char(c: char) -> Seq<char> {
    if c == '\\' {
        seq!['\\', '\\']
    } else if c == '"' {
        seq!['\\', '"']
    } else if c == '\n' {
        seq!['\\', 'n']
    } else {
        seq![c]
    }
}

/// The first `n` characters of a label value, escaped.
pub open spec fn escaped_upto(s: Seq<char>, n: int) -> Seq<char>
    decreases n,
{
    if n <= 0 {
        Seq::<char>::empty()
    } else {
        escaped_upto(s, n - 1) + escaped_char(s[n - 1])
    }
}

/// A label value, escaped.
pub open spec fn escaped(s: Seq<char>) -> Seq<char> {
    escaped_upto(s, s.len() as int)
}

pub fn escape_label(s: &str) -> (r: String)
    ensures
        r@ == escaped(s@),
{
    let mut out = String::new();
    for c in it: s.chars()
        invariant
            it.seq() == s@,
            out@ == escaped_upto(s@, it.index()),
    {
        let ghost before = out@;
        if c == '\\' {
            out.push('\\');
            out.push('\\');
        } else if c == '"' {
            out.push('\\');
            out.push('"');
        } else if c == '\n' {
            out.push('\\');
            out.push('n');
        } else {
            out.push(c);
        }
        assert(out@ == before + escaped_char(c));
    }
    out
}

/// `name="value"`.
pub open spec fn label(name: Seq<char>, value: Seq<char>) -> Seq<char> {
    name + "=\""@ + escaped(value) + "\""@
}

fn label_text(name: &str, value: &str) -> (r: String)
    ensures
        r@ == label(name@, value@),
{
    let v = escape_label(value);
    let mut out = join3(name, "=\"", v.as_str());
    out.append("\"");
    out
}

// ---- Counters ---------------------------------------------------------------------------

/// Counts by their labels.
pub type Counts = Seq<(Seq<char>, u64)>;

/// A sum that stays at the largest number.
pub open spec fn capped(a: u64, b: u64) -> u64 {
    if a + b > u64::MAX {
        u64::MAX
    } else {
        (a + b) as u64
    }
}

/// The count under a key; zero where there is none.
pub open spec fn count_of(s: Counts, k: Seq<char>) -> u64 {
    match found(s, k) {
        Some(n) => n,
        None => 0,
    }
}

/// The counts with `n` more under a key.
pub open spec fn bumped(s: Counts, k: Seq<char>, n: u64) -> Counts {
    put(s, k, capped(count_of(s, k), n))
}

fn bump(m: &mut StrMap<u64>, key: String, n: u64)
    ensures
        final(m)@ == bumped(old(m)@, key@, n),
{
    let old_count: u64 = match m.get(key.as_str()) {
        Some(c) => *c,
        None => 0,
    };
    m.insert(key, old_count.saturating_add(n));
}

// ---- Histograms -------------------------------------------------------------------------

/// How many requests fell into each of the twelve bands, and how many there
/// were, those above the last band among them.
#[derive(Debug)]
pub struct Histogram {
    counts: Vec<u64>,
    count: u64,
}

/// What a histogram holds.
#[verifier::ext_equal]
pub struct HistogramView {
    pub counts: Seq<u64>,
    pub count: u64,
}

impl View for Histogram {
    type V = HistogramView;

    closed spec fn view(&self) -> HistogramView {
        HistogramView { counts: self.counts@, count: self.count }
    }
}

/// An empty histogram.
pub open spec fn empty_histogram() -> HistogramView {
    HistogramView { counts: Seq::new(12, |i: int| 0u64), count: 0 }
}

/// A histogram with one more request in a band; above the last band it counts
/// only in the total.
pub open spec fn observed(h: HistogramView, band: int) -> HistogramView {
    HistogramView {
        counts: if 0 <= band < h.counts.len() {
            h.counts.update(band, capped(h.counts[band], 1))
        } else {
            h.counts
        },
        count: capped(h.count, 1),
    }
}

/// The text of the upper bound of a band, in seconds.
pub open spec fn bound_text(i: int) -> Seq<char> {
    if i == 0 {
        "0.005"@
    } else if i == 1 {
        "0.01"@
    } else if i == 2 {
        "0.025"@
    } else if i == 3 {
        "0.05"@
    } else if i == 4 {
        "0.1"@
    } else if i == 5 {
        "0.25"@
    } else if i == 6 {
        "0.5"@
    } else if i == 7 {
        "1"@
    } else if i == 8 {
        "2.5"@
    } else if i == 9 {
        "5"@
    } else if i == 10 {
        "10"@
    } else {
        "30"@
    }
}

/// How many requests fell into the first `n` bands.
pub open spec fn cumulated(counts: Seq<u64>, n: int) -> u64
    decreases n,
{
    if n <= 0 {
        0
    } else {
        capped(cumulated(counts, n - 1), counts[n - 1])
    }
}

/// One sample line: name, labels in braces, value.
pub open spec fn sample(name: Seq<char>, labels: Seq<char>, value: Seq<char>) -> Seq<char> {
    name + "{"@ + labels + "} "@ + value + "\n"@
}

/// The labels of a bucket.
pub open spec fn bucket_labels(labels: Seq<char>, bound: Seq<char>) -> Seq<char> {
    labels + ",le=\""@ + bound + "\""@
}

/// The lines of the first `n` buckets.
pub open spec fn bucket_lines(
    name: Seq<char>,
    labels: Seq<char>,
    h: HistogramView,
    n: int,
) -> Seq<char>
    decreases n,
{
    if n <= 0 {
        Seq::<char>::empty()
    } else {
        bucket_lines(name, labels, h, n - 1) + sample(
            name + "_bucket"@,
            bucket_labels(labels, bound_text(n - 1)),
            crate::text::decimal_text(cumulated(h.counts, n) as nat),
        )
    }
}

/// The lines of a histogram: buckets that each hold the ones below, the total,
/// the sum and the count.
pub open spec fn histogram_lines(
    name: Seq<char>,
    labels: Seq<char>,
    h: HistogramView,
    sum: Seq<char>,
) -> Seq<char> {
    bucket_lines(name, labels, h, h.counts.len() as int) + sample(
        name + "_bucket"@,
        bucket_labels(labels, "+Inf"@),
        crate::text::decimal_text(h.count as nat),
    ) + sample(name + "_sum"@, labels, sum) + sample(
        name + "_count"@,
        labels,
        crate::text::decimal_text(h.count as nat),
    )
}

fn sample_line(name: &str, labels: &str, value: &str) -> (r: String)
    ensures
        r@ == sample(name@, labels@, value@),
{
    let mut out = join3(name, "{", labels);
    out.append("} ");
    out.append(value);
    out.append("\n");
    out
}

fn bound_str(i: usize) -> (r: &'static str)
    ensures
        r@ == bound_text(i as int),
{
    if i == 0 {
        "0.005"
    } else if i == 1 {
        "0.01"
    } else if i == 2 {
        "0.025"
    } else if i == 3 {
        "0.05"
    } else if i == 4 {
        "0.1"
    } else if i == 5 {
        "0.25"
    } else if i == 6 {
        "0.5"
    } else if i == 7 {
        "1"
    } else if i == 8 {
        "2.5"
    } else if i == 9 {
        "5"
    } else if i == 10 {
        "10"
    } else {
        "30"
    }
}

impl Histogram {
    pub fn new() -> (r: Histogram)
        ensures
            r@ == empty_histogram(),
    {
        let mut counts: Vec<u64> = Vec::new();
        let mut i: usize = 0;
        while i < 12
            invariant
                i <= 12,
                counts@ == Seq::new(i as nat, |k: int| 0u64),
            decreases 12 - i,
        {
            counts.push(0);
            i += 1;
            assert(counts@ == Seq::new(i as nat, |k: int| 0u64));
        }
        Histogram { counts, count: 0 }
    }

    fn copy(&self) -> (r: Histogram)
        ensures
            r@ == self@,
    {
        let mut counts: Vec<u64> = Vec::new();
        counts.extend_from_slice(self.counts.as_slice());
        assert(counts@ == self.counts@);
        Histogram { counts, count: self.count }
    }

    pub fn observe(&mut self, band: usize)
        ensures
            final(self)@ == observed(old(self)@, band as int),
    {
        if band < self.counts.len() {
            let n: u64 = self.counts[band];
            self.counts.set(band, n.saturating_add(1));
        }
        self.count = self.count.saturating_add(1);
    }

    fn lines(&self, name: &str, labels: &str, sum: &str) -> (r: String)
        ensures
            r@ == histogram_lines(name@, labels@, self@, sum@),
    {
        let bucket = join2(name, "_bucket");
        let mut out = String::new();
        let mut total: u64 = 0;
        let mut i: usize = 0;
        while i < self.counts.len()
            invariant
                i <= self.counts@.len(),
                bucket@ == name@ + "_bucket"@,
                self@.counts == self.counts@,
                total == cumulated(self@.counts, i as int),
                out@ == bucket_lines(name@, labels@, self@, i as int),
            decreases self.counts@.len() - i,
        {
            total = total.saturating_add(self.counts[i]);
            let mut le = join3(labels, ",le=\"", bound_str(i));
            le.append("\"");
            let value = number_text(total);
            out.append(sample_line(bucket.as_str(), le.as_str(), value.as_str()).as_str());
            i += 1;
        }
        let mut le = join3(labels, ",le=\"", "+Inf");
        le.append("\"");
        let count = number_text(self.count);
        out.append(sample_line(bucket.as_str(), le.as_str(), count.as_str()).as_str());
        let sum_name = join2(name, "_sum");
        out.append(sample_line(sum_name.as_str(), labels, sum).as_str());
        let count_name = join2(name, "_count");
        out.append(sample_line(count_name.as_str(), labels, count.as_str()).as_str());
        out
    }
}

// ---- The registry -----------------------------------------------------------------------

/// All metrics.
pub struct Metrics {
    version: String,
    requests: StrMap<u64>,
    duration: StrMap<Histogram>,
    secrets: StrMap<u64>,
    dials: StrMap<u64>,
    dns: StrMap<u64>,
    tls_cache: StrMap<u64>,
    reloads: StrMap<u64>,
}

/// What the metrics hold.
#[verifier::ext_equal]
pub struct MetricsView {
    pub version: Seq<char>,
    pub requests: Counts,
    pub duration: Seq<(Seq<char>, HistogramView)>,
    pub secrets: Counts,
    pub dials: Counts,
    pub dns: Counts,
    pub tls_cache: Counts,
    pub reloads: Counts,
}

/// Histograms by their labels.
pub open spec fn histograms(s: Seq<(Seq<char>, Histogram)>) -> Seq<(Seq<char>, HistogramView)> {
    mapped(s, |h: Histogram| h@)
}

impl View for Metrics {
    type V = MetricsView;

    closed spec fn view(&self) -> MetricsView {
        MetricsView {
            version: self.version@,
            requests: self.requests@,
            duration: histograms(self.duration@),
            secrets: self.secrets@,
            dials: self.dials@,
            dns: self.dns@,
            tls_cache: self.tls_cache@,
            reloads: self.reloads@,
        }
    }
}

/// The labels of a request in the histogram.
pub open spec fn duration_key(mode: Mode, action: Action) -> Seq<char> {
    label("mode"@, mode_text(mode)) + ","@ + label("action"@, action_text(action))
}

/// The labels of a request in the counter. No host and no path is among them.
pub open spec fn request_key(
    mode: Mode,
    action: Action,
    rejected_by: Option<Seq<char>>,
) -> Seq<char> {
    duration_key(mode, action) + ","@ + label(
        "rejected_by"@,
        match rejected_by {
            Some(by) => by,
            None => Seq::empty(),
        },
    )
}

/// How many items an annotation that is a list has.
pub open spec fn note_len(o: Option<NoteView>) -> u64 {
    match o {
        Some(NoteView::Texts(v)) => v.len() as u64,
        Some(NoteView::Swaps(v)) => v.len() as u64,
        _ => 0,
    }
}

/// `n` more under a key, where `n` is not zero.
pub open spec fn bumped_some(s: Counts, k: Seq<char>, n: u64) -> Counts {
    if n > 0 {
        bumped(s, k, n)
    } else {
        s
    }
}

/// The swap counts after one trace: secrets swapped in, sources that failed,
/// and requests rejected for want of a required secret.
pub open spec fn count_trace(s: Counts, t: TraceView, rejected_by: Option<Seq<char>>) -> Counts {
    if t.name != "secrets"@ {
        s
    } else {
        let a = bumped_some(
            s,
            label("result"@, "swapped"@),
            note_len(found(t.notes, "swapped"@)),
        );
        let b = bumped_some(
            a,
            label("result"@, "source-error"@),
            note_len(found(t.notes, "secret_unavailable"@)),
        );
        if rejected_by == Some("secrets"@) && t.verdict == TraceVerdict::Reject {
            bumped(b, label("result"@, "missing-required"@), 1)
        } else {
            b
        }
    }
}

/// The swap counts after the first `n` traces.
pub open spec fn count_traces(
    s: Counts,
    traces: Seq<TraceView>,
    rejected_by: Option<Seq<char>>,
    n: int,
) -> Counts
    decreases n,
{
    if n <= 0 {
        s
    } else {
        count_trace(count_traces(s, traces, rejected_by, n - 1), traces[n - 1], rejected_by)
    }
}

/// The metrics after one more request.
pub open spec fn with_record(m: MetricsView, r: RecordView, band: int) -> MetricsView {
    let key = duration_key(r.mode, r.action);
    let h = match found(m.duration, key) {
        Some(h) => h,
        None => empty_histogram(),
    };
    MetricsView {
        requests: bumped(m.requests, request_key(r.mode, r.action, r.rejected_by), 1),
        duration: put(m.duration, key, observed(h, band)),
        secrets: count_traces(
            m.secrets,
            r.request_transforms,
            r.rejected_by,
            r.request_transforms.len() as int,
        ),
        ..m
    }
}

/// The lines of the first `n` counts.
pub open spec fn count_lines(name: Seq<char>, s: Counts, n: int) -> Seq<char>
    decreases n,
{
    if n <= 0 {
        Seq::<char>::empty()
    } else {
        count_lines(name, s, n - 1) + sample(
            name,
            s[n - 1].0,
            crate::text::decimal_text(s[n - 1].1 as nat),
        )
    }
}

/// A counter with its type line.
pub open spec fn counter_section(name: Seq<char>, s: Counts) -> Seq<char> {
    "# TYPE "@ + name + " counter\n"@ + count_lines(name, s, s.len() as int)
}

/// The text of a sum; `0` where none was handed in.
pub open spec fn sum_text(sums: Seq<(Seq<char>, String)>, k: Seq<char>) -> Seq<char> {
    match found(sums, k) {
        Some(t) => t@,
        None => "0"@,
    }
}

/// The lines of the first `n` histograms.
pub open spec fn duration_lines(
    s: Seq<(Seq<char>, HistogramView)>,
    sums: Seq<(Seq<char>, String)>,
    n: int,
) -> Seq<char>
    decreases n,
{
    if n <= 0 {
        Seq::<char>::empty()
    } else {
        duration_lines(s, sums, n - 1) + histogram_lines(
            "hematite_request_duration_seconds"@,
            s[n - 1].0,
            s[n - 1].1,
            sum_text(sums, s[n - 1].0),
        )
    }
}

/// All metrics in the text exposition format, every family in the order of its
/// labels.
pub open spec fn exposition(m: MetricsView, sums: Seq<(Seq<char>, String)>) -> Seq<char> {
    "# TYPE hematite_build_info gauge\n"@ + sample(
        "hematite_build_info"@,
        label("version"@, m.version),
        "1"@,
    ) + counter_section("hematite_requests_total"@, m.requests)
        + "# TYPE hematite_request_duration_seconds histogram\n"@ + duration_lines(
        m.duration,
        sums,
        m.duration.len() as int,
    ) + counter_section("hematite_secrets_swaps_total"@, m.secrets) + counter_section(
        "hematite_upstream_dials_total"@,
        m.dials,
    ) + counter_section("hematite_dns_queries_total"@, m.dns) + counter_section(
        "hematite_tls_leaf_cache_events_total"@,
        m.tls_cache,
    ) + counter_section("hematite_config_reloads_total"@, m.reloads)
}

fn list_len(a: Option<&Annotation>) -> (r: u64)
    ensures
        r == note_len(
            match a {
                Some(x) => Some(x@),
                None => None,
            },
        ),
{
    match a {
        Some(Annotation::Texts(v)) => v.len() as u64,
        Some(Annotation::Swaps(v)) => v.len() as u64,
        _ => 0,
    }
}

fn note_count(t: &Trace, key: &str) -> (r: u64)
    ensures
        r == note_len(found(t@.notes, key@)),
{
    let n: u64 = list_len(t.annotations.get(key));
    proof {
        let f = |a: Annotation| a@;
        let any = t.annotations@.len() > 0;
        match found(t.annotations@, key@) {
            Some(a) => {
                mapping_commutes(t.annotations@, f, key@, a);
            },
            None => {
                mapping_commutes(t.annotations@, f, key@, Annotation::Flag(any));
            },
        }
    }
    n
}

fn count_one_trace(secrets: &mut StrMap<u64>, t: &Trace, rejected_by: &Option<String>)
    ensures
        final(secrets)@ == count_trace(old(secrets)@, t@, crate::text::opt_text(*rejected_by)),
{
    if !same(t.name.as_str(), "secrets") {
        return;
    }
    let swapped: u64 = note_count(t, "swapped");
    if swapped > 0 {
        bump(secrets, label_text("result", "swapped"), swapped);
    }
    let failed: u64 = note_count(t, "secret_unavailable");
    if failed > 0 {
        bump(secrets, label_text("result", "source-error"), failed);
    }
    let by_secrets: bool = match rejected_by {
        Some(by) => same(by.as_str(), "secrets"),
        None => false,
    };
    if by_secrets && t.verdict == TraceVerdict::Reject {
        bump(secrets, label_text("result", "missing-required"), 1);
    }
}

fn counter_text(name: &str, m: &StrMap<u64>) -> (r: String)
    ensures
        r@ == counter_section(name@, m@),
{
    let mut lines = String::new();
    let n: usize = m.len();
    let mut i: usize = 0;
    while i < n
        invariant
            i <= n,
            n == m@.len(),
            lines@ == count_lines(name@, m@, i as int),
        decreases n - i,
    {
        let value = number_text(*m.value_at(i));
        lines.append(sample_line(name, m.key_at(i), value.as_str()).as_str());
        i += 1;
    }
    let mut out = join3("# TYPE ", name, " counter\n");
    out.append(lines.as_str());
    out
}

impl Metrics {
    pub fn new(version: &str) -> (r: Metrics)
        ensures
            r@ == (MetricsView {
                version: version@,
                requests: Seq::empty(),
                duration: Seq::empty(),
                secrets: Seq::empty(),
                dials: Seq::empty(),
                dns: Seq::empty(),
                tls_cache: Seq::empty(),
                reloads: Seq::empty(),
            }),
    {
        let r = Metrics {
            version: version.to_owned(),
            requests: StrMap::new(),
            duration: StrMap::new(),
            secrets: StrMap::new(),
            dials: StrMap::new(),
            dns: StrMap::new(),
            tls_cache: StrMap::new(),
            reloads: StrMap::new(),
        };
        assert(histograms(r.duration@) == Seq::<(Seq<char>, HistogramView)>::empty());
        r
    }

    /// Counts a request by its audit record; `band` is the band that its
    /// duration falls into.
    pub fn observe_record(&mut self, record: &AuditRecord, band: usize)
        ensures
            final(self)@ == with_record(old(self)@, record@, band as int),
    {
        let ghost m0 = self@;
        let mode = mode_label(record.mode);
        let action = action_label(record.action);
        let mode_part = label_text("mode", mode);
        let action_part = label_text("action", action);
        let dur_key = join3(mode_part.as_str(), ",", action_part.as_str());
        let by = match &record.rejected_by {
            Some(by) => by.clone(),
            None => String::new(),
        };
        let by_part = label_text("rejected_by", by.as_str());
        let req_key = join3(dur_key.as_str(), ",", by_part.as_str());
        assert(req_key@ == request_key(record.mode, record.action, record@.rejected_by));
        bump(&mut self.requests, req_key, 1);
        let ghost key = dur_key@;
        let ghost f = |h: Histogram| h@;
        let ghost before = self.duration@;
        let mut h = match self.duration.get(dur_key.as_str()) {
            Some(h) => h.copy(),
            None => Histogram::new(),
        };
        proof {
            mapping_commutes(before, f, key, h);
        }
        h.observe(band);
        proof {
            mapping_commutes(before, f, key, h);
        }
        self.duration.insert(dur_key, h);
        let ghost traces = record@.request_transforms;
        let ghost secrets0 = self.secrets@;
        let n: usize = record.request_transforms.len();
        let mut i: usize = 0;
        while i < n
            invariant
                i <= n,
                n == record.request_transforms@.len(),
                traces == crate::verdict::trace_views(record.request_transforms@),
                self.secrets@ == count_traces(
                    secrets0,
                    traces,
                    crate::text::opt_text(record.rejected_by),
                    i as int,
                ),
                secrets0 == m0.secrets,
                self@ == (MetricsView {
                    secrets: self.secrets@,
                    ..with_record(m0, record@, band as int)
                }),
            decreases n - i,
        {
            assert(traces[i as int] == record.request_transforms@[i as int]@);
            count_one_trace(&mut self.secrets, &record.request_transforms[i], &record.rejected_by);
            i += 1;
        }
    }

    pub fn inc_dial(&mut self, result: DialResult)
        ensures
            final(self)@ == (MetricsView {
                dials: bumped(old(self)@.dials, label("result"@, dial_label(result)), 1),
                ..old(self)@
            }),
    {
        bump(&mut self.dials, label_text("result", result.as_str()), 1);
    }

    pub fn inc_dns(&mut self, outcome: DnsOutcome)
        ensures
            final(self)@ == (MetricsView {
                dns: bumped(old(self)@.dns, label("outcome"@, dns_label(outcome)), 1),
                ..old(self)@
            }),
    {
        bump(&mut self.dns, label_text("outcome", outcome.as_str()), 1);
    }

    pub fn inc_tls_cache(&mut self, hit: bool)
        ensures
            final(self)@ == (MetricsView {
                tls_cache: bumped(
                    old(self)@.tls_cache,
                    label(
                        "event"@,
                        if hit {
                            "hit"@
                        } else {
                            "miss"@
                        },
                    ),
                    1,
                ),
                ..old(self)@
            }),
    {
        let event = if hit {
            "hit"
        } else {
            "miss"
        };
        bump(&mut self.tls_cache, label_text("event", event), 1);
    }

    pub fn inc_reload(&mut self, ok: bool)
        ensures
            final(self)@ == with_reload(old(self)@, ok),
    {
        let result = if ok {
            "ok"
        } else {
            "error"
        };
        bump(&mut self.reloads, label_text("result", result), 1);
    }

    /// Writes all metrics; `sums` holds the texts of the histogram sums by
    /// their labels.
    pub fn render(&self, sums: &StrMap<String>) -> (r: String)
        ensures
            r@ == exposition(self@, sums@),
    {
        let mut out = "# TYPE hematite_build_info gauge\n".to_owned();
        let version = label_text("version", self.version.as_str());
        out.append(sample_line("hematite_build_info", version.as_str(), "1").as_str());
        out.append(counter_text("hematite_requests_total", &self.requests).as_str());
        out.append("# TYPE hematite_request_duration_seconds histogram\n");
        out.append(self.duration_text(sums).as_str());
        out.append(counter_text("hematite_secrets_swaps_total", &self.secrets).as_str());
        out.append(counter_text("hematite_upstream_dials_total", &self.dials).as_str());
        out.append(counter_text("hematite_dns_queries_total", &self.dns).as_str());
        out.append(counter_text("hematite_tls_leaf_cache_events_total", &self.tls_cache).as_str());
        out.append(counter_text("hematite_config_reloads_total", &self.reloads).as_str());
        out
    }

    fn duration_text(&self, sums: &StrMap<String>) -> (r: String)
        ensures
            r@ == duration_lines(self@.duration, sums@, self@.duration.len() as int),
    {
        let mut out = String::new();
        let n: usize = self.duration.len();
        let mut i: usize = 0;
        while i < n
            invariant
                i <= n,
                n == self.duration@.len(),
                self@.duration == histograms(self.duration@),
                out@ == duration_lines(self@.duration, sums@, i as int),
            decreases n - i,
        {
            let key = self.duration.key_at(i);
            let h = self.duration.value_at(i);
            let sum = match sums.get(key) {
                Some(t) => t.clone(),
                None => "0".to_owned(),
            };
            assert(self@.duration[i as int] == (key@, h@));
            out.append(
                h.lines("hematite_request_duration_seconds", key, sum.as_str()).as_str(),
            );
            i += 1;
        }
        out
    }
}

/// The metrics after one more reload.
pub open spec fn with_reload(m: MetricsView, ok: bool) -> MetricsView {
    MetricsView {
        reloads: bumped(
            m.reloads,
            label(
                "result"@,
                if ok {
                    "ok"@
                } else {
                    "error"@
                },
            ),
            1,
        ),
        ..m
    }
}

// ---- Laws -------------------------------------------------------------------------------

/// Two requests that differ in host, path, method, client or anything else but
/// mode, action, who rejected them and their traces are counted alike: none of
/// it reaches the exposition.
pub proof fn metrics_hold_no_host(m: MetricsView, a: RecordView, b: RecordView, band: int)
    requires
        a.mode == b.mode,
        a.action == b.action,
        a.rejected_by == b.rejected_by,
        a.request_transforms == b.request_transforms,
    ensures
        with_record(m, a, band) == with_record(m, b, band),
{
}

/// Each bucket holds at least what the one below it holds.
pub proof fn buckets_rise(counts: Seq<u64>, n: int, k: int)
    requires
        0 <= n <= k <= counts.len(),
    ensures
        cumulated(counts, n) <= cumulated(counts, k),
    decreases k,
{
    if n < k {
        buckets_rise(counts, n, k - 1);
    }
}

proof fn escaped_by_the_first(s: Seq<char>, n: int)
    requires
        1 <= n <= s.len(),
    ensures
        escaped_upto(s, n) == escaped_char(s[0]) + escaped_upto(s.skip(1), n - 1),
    decreases n,
{
    let e = Seq::<char>::empty();
    if n == 1 {
        reveal_with_fuel(escaped_upto, 2);
        assert(e + escaped_char(s[0]) == escaped_char(s[0]) + e);
    } else {
        escaped_by_the_first(s, n - 1);
        assert(s.skip(1)[n - 2] == s[n - 1]);
        let a = escaped_char(s[0]);
        let b = escaped_upto(s.skip(1), n - 2);
        let c = escaped_char(s[n - 1]);
        assert(a + b + c == a + (b + c));
    }
}

/// Behind an escaped value the closing quote is told apart: what was escaped and
/// what follows can be read back.
proof fn quoted_is_read_back(a: Seq<char>, b: Seq<char>, x: Seq<char>, y: Seq<char>)
    requires
        escaped(a) + seq!['"'] + x == escaped(b) + seq!['"'] + y,
    ensures
        a == b,
        x == y,
    decreases a.len(),
{
    let l = escaped(a) + seq!['"'] + x;
    let r = escaped(b) + seq!['"'] + y;
    if a.len() > 0 {
        escaped_by_the_first(a, a.len() as int);
    }
    if b.len() > 0 {
        escaped_by_the_first(b, b.len() as int);
    }
    if a.len() == 0 {
        assert(l[0] == '"');
        if b.len() > 0 {
            assert(r[0] == escaped_char(b[0])[0]);
            assert(false);
        }
        assert(a == b);
        assert(l.skip(1) == x);
        assert(r.skip(1) == y);
    } else {
        assert(l[0] == escaped_char(a[0])[0]);
        if b.len() == 0 {
            assert(r[0] == '"');
            assert(false);
        }
        assert(r[0] == escaped_char(b[0])[0]);
        let k = escaped_char(a[0]).len() as int;
        if k == 2 {
            assert(l[1] == escaped_char(a[0])[1]);
        }
        if escaped_char(b[0]).len() == 2 {
            assert(r[1] == escaped_char(b[0])[1]);
        }
        assert(a[0] == b[0]);
        assert(l.skip(k) == escaped(a.skip(1)) + seq!['"'] + x);
        assert(r.skip(k) == escaped(b.skip(1)) + seq!['"'] + y);
        quoted_is_read_back(a.skip(1), b.skip(1), x, y);
        assert(a == seq![a[0]] + a.skip(1));
        assert(b == seq![b[0]] + b.skip(1));
    }
}

/// A label and what follows it can be read back.
proof fn label_is_read_back(
    name: Seq<char>,
    a: Seq<char>,
    b: Seq<char>,
    x: Seq<char>,
    y: Seq<char>,
)
    requires
        label(name, a) + x == label(name, b) + y,
    ensures
        a == b,
        x == y,
{
    reveal_strlit("\"");
    assert("\""@ == seq!['"']);
    let p = name + "=\""@;
    let l = label(name, a) + x;
    let r = label(name, b) + y;
    assert(l.skip(p.len() as int) == escaped(a) + seq!['"'] + x);
    assert(r.skip(p.len() as int) == escaped(b) + seq!['"'] + y);
    quoted_is_read_back(a, b, x, y);
}

proof fn texts_tell_apart(m: Mode, n: Mode, a: Action, b: Action)
    ensures
        mode_text(m) == mode_text(n) ==> m == n,
        action_text(a) == action_text(b) ==> a == b,
{
    reveal_strlit("http");
    reveal_strlit("https");
    reveal_strlit("tunnel");
    reveal_strlit("allow");
    reveal_strlit("reject");
    reveal_strlit("stub");
    reveal_strlit("error");
    reveal_strlit("client-cancel");
    assert(mode_text(m).len() == mode_text(n).len() ==> m == n);
    if action_text(a) == action_text(b) {
        assert(action_text(a)[0] == action_text(b)[0]);
        assert(action_text(a).len() == action_text(b).len());
    }
}

/// Who rejected a request, as its label has it: nobody is the empty text.
pub open spec fn rejecter(by: Option<Seq<char>>) -> Seq<char> {
    match by {
        Some(b) => b,
        None => Seq::empty(),
    }
}

proof fn two_labels_are_read_back(m: Seq<char>, a: Seq<char>, n: Seq<char>, b: Seq<char>)
    requires
        label("mode"@, m) + ","@ + label("action"@, a) == label("mode"@, n) + ","@ + label(
            "action"@,
            b,
        ),
    ensures
        m == n,
        a == b,
{
    let e = Seq::<char>::empty();
    let (la, lb) = (label("action"@, a), label("action"@, b));
    assert(label("mode"@, m) + ","@ + la == label("mode"@, m) + (","@ + la));
    assert(label("mode"@, n) + ","@ + lb == label("mode"@, n) + (","@ + lb));
    label_is_read_back("mode"@, m, n, ","@ + la, ","@ + lb);
    behind_a_comma(la, lb);
    assert(la + e == la);
    assert(lb + e == lb);
    label_is_read_back("action"@, a, b, e, e);
}

proof fn behind_a_comma(x: Seq<char>, y: Seq<char>)
    requires
        ","@ + x == ","@ + y,
    ensures
        x == y,
{
    let k = ","@.len() as int;
    assert((","@ + x).skip(k) == x);
    assert((","@ + y).skip(k) == y);
}

proof fn three_labels_are_read_back(
    m: Seq<char>,
    a: Seq<char>,
    x: Seq<char>,
    n: Seq<char>,
    b: Seq<char>,
    y: Seq<char>,
)
    requires
        label("mode"@, m) + ","@ + label("action"@, a) + ","@ + label("rejected_by"@, x) == label(
            "mode"@,
            n,
        ) + ","@ + label("action"@, b) + ","@ + label("rejected_by"@, y),
    ensures
        m == n,
        a == b,
        x == y,
{
    let e = Seq::<char>::empty();
    let (la, lb) = (label("action"@, a), label("action"@, b));
    let (lx, ly) = (label("rejected_by"@, x), label("rejected_by"@, y));
    let (lm, ln) = (label("mode"@, m), label("mode"@, n));
    assert(lm + ","@ + la + ","@ + lx == lm + (","@ + (la + (","@ + lx))));
    assert(ln + ","@ + lb + ","@ + ly == ln + (","@ + (lb + (","@ + ly))));
    label_is_read_back("mode"@, m, n, ","@ + (la + (","@ + lx)), ","@ + (lb + (","@ + ly)));
    behind_a_comma(la + (","@ + lx), lb + (","@ + ly));
    label_is_read_back("action"@, a, b, ","@ + lx, ","@ + ly);
    behind_a_comma(lx, ly);
    assert(lx + e == lx);
    assert(ly + e == ly);
    label_is_read_back("rejected_by"@, x, y, e, e);
}

/// Requests that differ in their labels are counted under different keys.
pub proof fn labels_tell_requests_apart(
    m: Mode,
    a: Action,
    by: Option<Seq<char>>,
    n: Mode,
    b: Action,
    other: Option<Seq<char>>,
)
    ensures
        duration_key(m, a) == duration_key(n, b) ==> m == n && a == b,
        request_key(m, a, by) == request_key(n, b, other) ==> m == n && a == b && rejecter(by)
            == rejecter(other),
{
    texts_tell_apart(m, n, a, b);
    if duration_key(m, a) == duration_key(n, b) {
        two_labels_are_read_back(mode_text(m), action_text(a), mode_text(n), action_text(b));
    }
    if request_key(m, a, by) == request_key(n, b, other) {
        three_labels_are_read_back(
            mode_text(m),
            action_text(a),
            rejecter(by),
            mode_text(n),
            action_text(b),
            rejecter(other),
        );
    }
}

proof fn no_swaps_counted(s: Counts, traces: Seq<TraceView>, by: Option<Seq<char>>, n: int)
    requires
        0 <= n <= traces.len(),
        forall|i: int| 0 <= i < traces.len() ==> (#[trigger] traces[i]).name != "secrets"@,
    ensures
        count_traces(s, traces, by, n) == s,
    decreases n,
{
    if n > 0 {
        no_swaps_counted(s, traces, by, n - 1);
        assert(traces[n - 1].name != "secrets"@);
    }
}

/// The counts of requests and the histograms are in the order of their labels.
pub open spec fn in_label_order(m: MetricsView) -> bool {
    sorted(m.requests) && sorted(m.duration)
}

/// How many requests a histogram counted; none where there is none.
pub open spec fn total_of(s: Seq<(Seq<char>, HistogramView)>, k: Seq<char>) -> u64 {
    match found(s, k) {
        Some(h) => h.count,
        None => 0,
    }
}

/// A request is counted once, under its own labels: the counter and the histogram of
/// its mode, action and rejecter go up by one, until they can go no further, and
/// those of every other stay. Without a trace of secrets no other family changes.
pub proof fn a_request_counts_once(
    m: MetricsView,
    r: RecordView,
    band: int,
    mode: Mode,
    action: Action,
    by: Option<Seq<char>>,
)
    requires
        in_label_order(m),
    ensures
        ({
            let after = with_record(m, r, band);
            let own = request_key(r.mode, r.action, r.rejected_by);
            let key = request_key(mode, action, by);
            let timed = duration_key(r.mode, r.action);
            let time = duration_key(mode, action);
            &&& in_label_order(after)
            &&& count_of(m.requests, own) < u64::MAX ==> count_of(after.requests, own) == count_of(
                m.requests,
                own,
            ) + 1
            &&& total_of(m.duration, timed) < u64::MAX ==> total_of(after.duration, timed)
                == total_of(m.duration, timed) + 1
            &&& !(mode == r.mode && action == r.action && rejecter(by) == rejecter(r.rejected_by))
                ==> found(after.requests, key) == found(m.requests, key)
            &&& !(mode == r.mode && action == r.action) ==> found(after.duration, time) == found(
                m.duration,
                time,
            )
            &&& (forall|i: int|
                0 <= i < r.request_transforms.len() ==> (#[trigger] r.request_transforms[i]).name
                    != "secrets"@) ==> after.secrets == m.secrets
            &&& after.version == m.version
            &&& after.dials == m.dials
            &&& after.dns == m.dns
            &&& after.tls_cache == m.tls_cache
            &&& after.reloads == m.reloads
        }),
{
    let after = with_record(m, r, band);
    let own = request_key(r.mode, r.action, r.rejected_by);
    let timed = duration_key(r.mode, r.action);
    let h = match found(m.duration, timed) {
        Some(h) => h,
        None => empty_histogram(),
    };
    put_laws(m.requests, own, capped(count_of(m.requests, own), 1));
    put_laws(m.duration, timed, observed(h, band));
    labels_tell_requests_apart(mode, action, by, r.mode, r.action, r.rejected_by);
    if forall|i: int|
        0 <= i < r.request_transforms.len() ==> (#[trigger] r.request_transforms[i]).name
            != "secrets"@ {
        no_swaps_counted(
            m.secrets,
            r.request_transforms,
            r.rejected_by,
            r.request_transforms.len() as int,
        );
    }
}

/// The histogram of requests that fell into these bands.
pub open spec fn histogram_of(bands: Seq<int>) -> HistogramView
    decreases bands.len(),
{
    if bands.len() == 0 {
        empty_histogram()
    } else {
        observed(histogram_of(bands.drop_last()), bands.last())
    }
}

/// How many of the bands are among the first `n`.
pub open spec fn among_first(bands: Seq<int>, n: int) -> nat
    decreases bands.len(),
{
    if bands.len() == 0 {
        0
    } else {
        among_first(bands.drop_last(), n) + (if 0 <= bands.last() < n {
            1nat
        } else {
            0
        })
    }
}

proof fn among_first_bounded(bands: Seq<int>, n: int)
    ensures
        among_first(bands, n) <= bands.len(),
    decreases bands.len(),
{
    if bands.len() > 0 {
        among_first_bounded(bands.drop_last(), n);
    }
}

/// One more in a band is one more in every bucket from that band on.
proof fn one_more_cumulates(counts: Seq<u64>, band: int, n: int)
    requires
        0 <= band < counts.len(),
        0 <= n <= counts.len(),
        forall|k: int| 0 <= k <= counts.len() ==> #[trigger] cumulated(counts, k) < u64::MAX,
    ensures
        counts[band] < u64::MAX,
        cumulated(counts.update(band, (counts[band] + 1) as u64), n) == cumulated(counts, n) + (
        if band < n {
            1int
        } else {
            0
        }),
    decreases n,
{
    assert(cumulated(counts, band + 1) < u64::MAX);
    if n > 0 {
        one_more_cumulates(counts, band, n - 1);
        assert(cumulated(counts, n) < u64::MAX);
        assert(cumulated(counts, n - 1) < u64::MAX);
    }
}

proof fn empty_cumulates(n: int)
    requires
        n <= 12,
    ensures
        cumulated(empty_histogram().counts, n) == 0,
    decreases n,
{
    if n > 0 {
        empty_cumulates(n - 1);
    }
}

proof fn buckets_of(bands: Seq<int>)
    requires
        bands.len() <= u64::MAX,
    ensures
        histogram_of(bands).counts.len() == 12,
        histogram_of(bands).count == bands.len(),
        forall|n: int|
            0 <= n <= 12 ==> #[trigger] cumulated(histogram_of(bands).counts, n) == among_first(
                bands,
                n,
            ),
    decreases bands.len(),
{
    if bands.len() == 0 {
        assert forall|n: int| 0 <= n <= 12 implies #[trigger] cumulated(
            histogram_of(bands).counts,
            n,
        ) == among_first(bands, n) by {
            empty_cumulates(n);
        }
    } else {
        let before = bands.drop_last();
        let b = bands.last();
        buckets_of(before);
        let h = histogram_of(before);
        assert forall|k: int| 0 <= k <= h.counts.len() implies #[trigger] cumulated(h.counts, k)
            < u64::MAX by {
            among_first_bounded(before, k);
        }
        assert forall|n: int| 0 <= n <= 12 implies #[trigger] cumulated(
            histogram_of(bands).counts,
            n,
        ) == among_first(bands, n) by {
            assert(cumulated(h.counts, n) == among_first(before, n));
            if 0 <= b < 12 {
                one_more_cumulates(h.counts, b, n);
            }
        }
    }
}

/// The metrics after these requests, each with its band.
pub open spec fn observed_all(m: MetricsView, rs: Seq<(RecordView, int)>) -> MetricsView
    decreases rs.len(),
{
    if rs.len() == 0 {
        m
    } else {
        with_record(observed_all(m, rs.drop_last()), rs.last().0, rs.last().1)
    }
}

/// The bands of the requests of a mode and an action.
pub open spec fn bands_of(rs: Seq<(RecordView, int)>, mode: Mode, action: Action) -> Seq<int>
    decreases rs.len(),
{
    if rs.len() == 0 {
        Seq::empty()
    } else {
        let before = bands_of(rs.drop_last(), mode, action);
        if rs.last().0.mode == mode && rs.last().0.action == action {
            before.push(rs.last().1)
        } else {
            before
        }
    }
}

proof fn bands_bounded(rs: Seq<(RecordView, int)>, mode: Mode, action: Action)
    ensures
        bands_of(rs, mode, action).len() <= rs.len(),
    decreases rs.len(),
{
    if rs.len() > 0 {
        bands_bounded(rs.drop_last(), mode, action);
    }
}

proof fn histogram_of_its_requests(
    m: MetricsView,
    rs: Seq<(RecordView, int)>,
    mode: Mode,
    action: Action,
)
    requires
        in_label_order(m),
        found(m.duration, duration_key(mode, action)) is None,
    ensures
        in_label_order(observed_all(m, rs)),
        found(observed_all(m, rs).duration, duration_key(mode, action)) == (if bands_of(
            rs,
            mode,
            action,
        ).len() == 0 {
            None
        } else {
            Some(histogram_of(bands_of(rs, mode, action)))
        }),
    decreases rs.len(),
{
    if rs.len() > 0 {
        let before = rs.drop_last();
        let (r, band) = rs.last();
        histogram_of_its_requests(m, before, mode, action);
        let n = observed_all(m, before);
        a_request_counts_once(n, r, band, mode, action, None);
        if r.mode == mode && r.action == action {
            let old_bands = bands_of(before, mode, action);
            assert(old_bands.push(band).drop_last() == old_bands);
            let h = match found(n.duration, duration_key(mode, action)) {
                Some(h) => h,
                None => empty_histogram(),
            };
            assert(h == histogram_of(old_bands));
            put_laws(n.duration, duration_key(mode, action), observed(h, band));
        }
    }
}

/// A bucket shows how many requests of its mode and action fell into the bands up to
/// its bound, and the last bucket and the count show how many there were; so no
/// bucket shows more than one above it. It is said of metrics that counted none of
/// them before, and of no more requests than 64 bits can count.
pub proof fn a_bucket_holds_the_bands_up_to_it(
    m: MetricsView,
    rs: Seq<(RecordView, int)>,
    mode: Mode,
    action: Action,
    i: int,
)
    requires
        in_label_order(m),
        found(m.duration, duration_key(mode, action)) is None,
        rs.len() <= u64::MAX,
        bands_of(rs, mode, action).len() > 0,
        0 <= i < 12,
    ensures
        ({
            let bands = bands_of(rs, mode, action);
            let h = found(observed_all(m, rs).duration, duration_key(mode, action));
            &&& h is Some
            &&& h->0.counts.len() == 12
            &&& cumulated(h->0.counts, i + 1) == among_first(bands, i + 1)
            &&& h->0.count == bands.len()
        }),
{
    histogram_of_its_requests(m, rs, mode, action);
    bands_bounded(rs, mode, action);
    buckets_of(bands_of(rs, mode, action));
}

} // verus!
