//! Verdicts, the annotations of a transform, and the traces they end up in.
use vstd::prelude::*;

use crate::strmap::{less, mapped, mapping_commutes, put, sorted, StrMap};
use crate::summary::HeaderView;
use crate::text::{copy_opt, copy_texts};

verus! {

/// A response that a transform supplies.
#[derive(Debug)]
pub struct Response {
    pub status: u16,
    pub headers: Vec<(String, String)>,
    pub body: Vec<u8>,
}

/// What a response says.
#[verifier::ext_equal]
pub struct ResponseView {
    pub status: u16,
    pub headers: Seq<HeaderView>,
    pub body: Seq<u8>,
}

impl View for Response {
    type V = ResponseView;

    open spec fn view(&self) -> ResponseView {
        ResponseView {
            status: self.status,
            headers: crate::summary::pair_texts(self.headers@),
            body: self.body@,
        }
    }
}

/// The view of an optional response.
pub open spec fn opt_response(r: Option<Response>) -> Option<ResponseView> {
    match r {
        Some(x) => Some(x@),
        None => None,
    }
}

/// What a transform returns. There is no verdict that allows: a request is
/// allowed where nothing rejected it by the end of the pipeline.
#[derive(Debug)]
pub enum Verdict {
    Continue,
    /// `None`: status 403 with an empty body.
    Reject(Option<Response>),
    /// A response served by the proxy itself that is no denial.
    Stub(Response),
}

/// What a verdict says.
#[verifier::ext_equal]
pub enum VerdictView {
    Continue,
    Reject(Option<ResponseView>),
    Stub(ResponseView),
}

impl View for Verdict {
    type V = VerdictView;

    open spec fn view(&self) -> VerdictView {
        match self {
            Verdict::Continue => VerdictView::Continue,
            Verdict::Reject(r) => VerdictView::Reject(opt_response(*r)),
            Verdict::Stub(r) => VerdictView::Stub(r@),
        }
    }
}

/// The verdict in a trace. No transform returns `Error`: it records that the
/// transform failed.
#[derive(Debug, Clone, Copy, PartialEq, Eq, Structural)]
pub enum TraceVerdict {
    Continue,
    Reject,
    Stub,
    Error,
}

// ---- Annotations --------------------------------------------------------------------

/// Where one secret was swapped in.
#[derive(Debug)]
pub struct Swap {
    /// The name of the secret's source.
    pub secret: String,
    pub locations: Vec<String>,
}

/// What a swap says.
#[verifier::ext_equal]
pub struct SwapView {
    pub secret: Seq<char>,
    pub locations: Seq<Seq<char>>,
}

impl View for Swap {
    type V = SwapView;

    open spec fn view(&self) -> SwapView {
        SwapView { secret: self.secret@, locations: crate::text::texts(self.locations@) }
    }
}

/// The views of a list of swaps.
pub open spec fn swap_views(v: Seq<Swap>) -> Seq<SwapView> {
    v.map_values(|s: Swap| s@)
}

/// The value of an annotation.
#[derive(Debug)]
pub enum Annotation {
    Flag(bool),
    Count(u64),
    Text(String),
    Texts(Vec<String>),
    Swaps(Vec<Swap>),
}

/// What an annotation says.
#[verifier::ext_equal]
pub enum NoteView {
    Flag(bool),
    Count(u64),
    Text(Seq<char>),
    Texts(Seq<Seq<char>>),
    Swaps(Seq<SwapView>),
}

impl View for Annotation {
    type V = NoteView;

    open spec fn view(&self) -> NoteView {
        match self {
            Annotation::Flag(b) => NoteView::Flag(*b),
            Annotation::Count(n) => NoteView::Count(*n),
            Annotation::Text(t) => NoteView::Text(t@),
            Annotation::Texts(t) => NoteView::Texts(crate::text::texts(t@)),
            Annotation::Swaps(s) => NoteView::Swaps(swap_views(s@)),
        }
    }
}

fn copy_swaps(v: &Vec<Swap>) -> (r: Vec<Swap>)
    ensures
        swap_views(r@) == swap_views(v@),
{
    let mut out: Vec<Swap> = Vec::new();
    let mut i: usize = 0;
    while i < v.len()
        invariant
            i <= v@.len(),
            out@.len() == i,
            forall|j: int| 0 <= j < i ==> (#[trigger] out@[j])@ == v@[j]@,
        decreases v@.len() - i,
    {
        out.push(Swap { secret: v[i].secret.clone(), locations: copy_texts(&v[i].locations) });
        i += 1;
    }
    assert(swap_views(out@) == swap_views(v@));
    out
}

impl Annotation {
    pub fn copy(&self) -> (r: Annotation)
        ensures
            r@ == self@,
    {
        match self {
            Annotation::Flag(b) => Annotation::Flag(*b),
            Annotation::Count(n) => Annotation::Count(*n),
            Annotation::Text(t) => Annotation::Text(t.clone()),
            Annotation::Texts(t) => Annotation::Texts(copy_texts(t)),
            Annotation::Swaps(s) => Annotation::Swaps(copy_swaps(s)),
        }
    }
}

/// The annotations of a transform, in the order of their keys.
pub type Notes = Seq<(Seq<char>, NoteView)>;

/// The entries of an annotation map.
pub open spec fn notes_of(s: Seq<(Seq<char>, Annotation)>) -> Notes {
    mapped(s, |a: Annotation| a@)
}

/// Adding an annotation adds its view.
pub proof fn notes_put(s: Seq<(Seq<char>, Annotation)>, k: Seq<char>, v: Annotation)
    ensures
        notes_of(put(s, k, v)) == put(notes_of(s), k, v@),
{
    mapping_commutes(s, |a: Annotation| a@, k, v);
}

// ---- Traces -------------------------------------------------------------------------

/// What one transform did with a request.
pub struct Trace {
    pub name: String,
    pub verdict: TraceVerdict,
    pub error: Option<String>,
    pub annotations: StrMap<Annotation>,
}

/// What a trace says.
#[verifier::ext_equal]
pub struct TraceView {
    pub name: Seq<char>,
    pub verdict: TraceVerdict,
    pub error: Option<Seq<char>>,
    pub notes: Notes,
}

impl View for Trace {
    type V = TraceView;

    open spec fn view(&self) -> TraceView {
        TraceView {
            name: self.name@,
            verdict: self.verdict,
            error: crate::text::opt_text(self.error),
            notes: notes_of(self.annotations@),
        }
    }
}

/// The views of a list of traces.
pub open spec fn trace_views(v: Seq<Trace>) -> Seq<TraceView> {
    v.map_values(|t: Trace| t@)
}

fn copy_notes(m: &StrMap<Annotation>) -> (r: StrMap<Annotation>)
    ensures
        notes_of(r@) == notes_of(m@),
{
    let mut out: Vec<(String, Annotation)> = Vec::new();
    let n: usize = m.len();
    let mut i: usize = 0;
    while i < n
        invariant
            i <= n,
            n == m@.len(),
            out@.len() == i,
            forall|j: int|
                0 <= j < i ==> (#[trigger] out@[j]).0@ == m@[j].0 && out@[j].1@ == m@[j].1@,
        decreases n - i,
    {
        let key = m.key_at(i).to_owned();
        out.push((key, m.value_at(i).copy()));
        i += 1;
    }
    let ghost e = crate::strmap::keyed(out@);
    assert(sorted(e)) by {
        assert forall|a: int, b: int| 0 <= a < b < e.len() implies less(
            #[trigger] e[a].0,
            #[trigger] e[b].0,
        ) by {
            assert(e[a].0 == m@[a].0 && e[b].0 == m@[b].0);
        }
    }
    assert(notes_of(e) == notes_of(m@));
    StrMap::of_sorted(out)
}

impl Trace {
    pub fn copy(&self) -> (r: Trace)
        ensures
            r@ == self@,
    {
        Trace {
            name: self.name.clone(),
            verdict: self.verdict,
            error: copy_opt(&self.error),
            annotations: copy_notes(&self.annotations),
        }
    }
}

pub fn copy_traces(v: &Vec<Trace>) -> (r: Vec<Trace>)
    ensures
        trace_views(r@) == trace_views(v@),
{
    let mut out: Vec<Trace> = Vec::new();
    let mut i: usize = 0;
    while i < v.len()
        invariant
            i <= v@.len(),
            out@.len() == i,
            forall|j: int| 0 <= j < i ==> (#[trigger] out@[j])@ == v@[j]@,
        decreases v@.len() - i,
    {
        out.push(v[i].copy());
        i += 1;
    }
    assert(trace_views(out@) == trace_views(v@));
    out
}

} // verus!
