//! What the pipeline decides on: a request as plain data.
use vstd::prelude::*;
use vstd::string::*;

use crate::matcher::canonical_name;
use crate::text::eq_caseless;

verus! {

/// How a request reached the proxy.
#[derive(Debug, Clone, Copy, PartialEq, Eq, Structural)]
pub enum Mode {
    Http,
    Https,
    Tunnel,
}

// ---- Headers ------------------------------------------------------------------------

/// A header: its name as on the wire, and its value.
pub type HeaderView = (Seq<char>, Seq<char>);

/// The texts of a list of string pairs.
pub open spec fn pair_texts(v: Seq<(String, String)>) -> Seq<HeaderView> {
    v.map_values(|p: (String, String)| (p.0@, p.1@))
}

/// The headers in wire order, names with their wire casing. Lookups disregard
/// case.
#[derive(Debug)]
pub struct Headers(Vec<(String, String)>);

impl View for Headers {
    type V = Seq<HeaderView>;

    closed spec fn view(&self) -> Seq<HeaderView> {
        pair_texts(self.0@)
    }
}

/// The value of the first header at or after `i` of that name.
pub open spec fn first_value(h: Seq<HeaderView>, name: Seq<char>, i: int) -> Option<Seq<char>>
    decreases h.len() - i,
{
    if i < 0 || i >= h.len() {
        None
    } else if crate::text::same_caseless(h[i].0, name) {
        Some(h[i].1)
    } else {
        first_value(h, name, i + 1)
    }
}

/// The headers among the first `n` for which `kept` holds.
pub open spec fn kept_headers(h: Seq<HeaderView>, kept: Seq<bool>, n: int) -> Seq<HeaderView>
    decreases n,
{
    if n <= 0 {
        Seq::<HeaderView>::empty()
    } else if kept[n - 1] {
        kept_headers(h, kept, n - 1).push(h[n - 1])
    } else {
        kept_headers(h, kept, n - 1)
    }
}

/// The display names of the headers among the first `n` for which `kept` does
/// not hold.
pub open spec fn dropped_names(h: Seq<HeaderView>, kept: Seq<bool>, n: int) -> Seq<Seq<char>>
    decreases n,
{
    if n <= 0 {
        Seq::<Seq<char>>::empty()
    } else if kept[n - 1] {
        dropped_names(h, kept, n - 1)
    } else {
        dropped_names(h, kept, n - 1).push(crate::matcher::canonical_header(h[n - 1].0))
    }
}

impl Headers {
    pub fn new(pairs: Vec<(String, String)>) -> (r: Self)
        ensures
            r@ == pair_texts(pairs@),
    {
        Headers(pairs)
    }

    /// The headers in wire order.
    pub fn iter(&self) -> (r: Vec<(&str, &str)>)
        ensures
            r@.len() == self@.len(),
            forall|i: int|
                0 <= i < self@.len() ==> (#[trigger] r@[i]).0@ == self@[i].0 && r@[i].1@
                    == self@[i].1,
    {
        let mut out: Vec<(&str, &str)> = Vec::new();
        let mut i: usize = 0;
        while i < self.0.len()
            invariant
                i <= self.0@.len(),
                self@ == pair_texts(self.0@),
                out@.len() == i,
                forall|j: int|
                    0 <= j < i ==> (#[trigger] out@[j]).0@ == self@[j].0 && out@[j].1@
                        == self@[j].1,
            decreases self.0@.len() - i,
        {
            out.push((self.0[i].0.as_str(), self.0[i].1.as_str()));
            i += 1;
        }
        out
    }

    pub(crate) fn name_at(&self, i: usize) -> (r: &str)
        requires
            i < self@.len(),
        ensures
            r@ == self@[i as int].0,
    {
        self.0[i].0.as_str()
    }

    pub(crate) fn value_at(&self, i: usize) -> (r: &str)
        requires
            i < self@.len(),
        ensures
            r@ == self@[i as int].1,
    {
        self.0[i].1.as_str()
    }

    pub(crate) fn set_value(&mut self, i: usize, value: String)
        requires
            i < old(self)@.len(),
        ensures
            final(self)@ == old(self)@.update(i as int, (old(self)@[i as int].0, value@)),
    {
        let ghost before = self.0@;
        let name = self.0[i].0.clone();
        let ghost pair = (name, value);
        self.0.set(i, (name, value));
        assert(pair_texts(self.0@) == pair_texts(before).update(
            i as int,
            (pair.0@, pair.1@),
        ));
    }

    /// The value of the first header of that name.
    pub fn first(&self, name: &str) -> (r: Option<&str>)
        ensures
            match r {
                Some(v) => first_value(self@, name@, 0) == Some(v@),
                None => first_value(self@, name@, 0) is None,
            },
    {
        let mut i: usize = 0;
        while i < self.0.len()
            invariant
                i <= self.0@.len(),
                self@ == pair_texts(self.0@),
                first_value(self@, name@, 0) == first_value(self@, name@, i as int),
            decreases self.0@.len() - i,
        {
            if eq_caseless(self.0[i].0.as_str(), name) {
                return Some(self.0[i].1.as_str());
            }
            i += 1;
        }
        None
    }

    /// Rewrites values in place: where `f` gives a text it becomes the value.
    /// Names keep their wire casing.
    pub fn map_values<F: Fn(&str, &str) -> Option<String>>(&mut self, f: F)
        requires
            forall|n: &str, v: &str| #[trigger] f.requires((n, v)),
        ensures
            final(self)@.len() == old(self)@.len(),
            forall|i: int|
                0 <= i < old(self)@.len() ==> rewritten_by(
                    f,
                    old(self)@[i],
                    #[trigger] final(self)@[i],
                ),
    {
        let mut i: usize = 0;
        let ghost start = self@;
        let n: usize = self.0.len();
        while i < n
            invariant
                i <= n,
                n == self.0@.len(),
                self@ == pair_texts(self.0@),
                self@.len() == start.len(),
                forall|n: &str, v: &str| #[trigger] f.requires((n, v)),
                forall|j: int| 0 <= j < i ==> rewritten_by(f, start[j], #[trigger] self@[j]),
                forall|j: int| i <= j < start.len() ==> start[j] == #[trigger] self@[j],
            decreases n - i,
        {
            let ghost before = self@;
            let name_text = self.0[i].0.as_str();
            let value_text = self.0[i].1.as_str();
            let ghost name = name_text;
            let ghost value = value_text;
            let new = f(name_text, value_text);
            let ghost given = new;
            proof {
                assert(f.ensures((name, value), given));
                assert(before[i as int] == (name@, value@));
            }
            match new {
                Some(text) => {
                    self.set_value(i, text);
                },
                None => {},
            }
            assert(rewritten_by(f, start[i as int], self@[i as int]));
            assert(pair_texts(self.0@).len() == self@.len());
            i += 1;
        }
    }

    /// Keeps the headers whose name `keep` accepts; gives the display names of
    /// the others, in wire order.
    pub fn retain<F: Fn(&str) -> bool>(&mut self, keep: F) -> (r: Vec<String>)
        requires
            forall|n: &str| #[trigger] keep.requires((n,)),
        ensures
            exists|kept: Seq<bool>|
                {
                    &&& #[trigger] chosen_by(keep, old(self)@, kept)
                    &&& final(self)@ == kept_headers(old(self)@, kept, old(self)@.len() as int)
                    &&& crate::text::texts(r@) == dropped_names(
                        old(self)@,
                        kept,
                        old(self)@.len() as int,
                    )
                },
    {
        let mut out: Vec<(String, String)> = Vec::new();
        let mut removed: Vec<String> = Vec::new();
        let ghost mut kept = Seq::<bool>::empty();
        let ghost start = self@;
        let mut i: usize = 0;
        proof {
            assert(pair_texts(out@) == kept_headers(start, kept, 0));
            assert(crate::text::texts(removed@) == dropped_names(start, kept, 0));
        }
        while i < self.0.len()
            invariant
                i <= self.0@.len(),
                self@ == start,
                self@ == pair_texts(self.0@),
                kept.len() == i,
                forall|n: &str| #[trigger] keep.requires((n,)),
                forall|j: int|
                    0 <= j < i ==> picked(keep, start[j].0, #[trigger] kept[j]),
                pair_texts(out@) == kept_headers(start, kept, i as int),
                crate::text::texts(removed@) == dropped_names(start, kept, i as int),
            decreases self.0@.len() - i,
        {
            let n = self.0[i].0.as_str();
            let ghost name = n;
            let k: bool = keep(n);
            let ghost before = kept;
            proof {
                kept = kept.push(k);
                assert(keep.ensures((name,), k));
                assert(picked(keep, start[i as int].0, k));
                kept_prefix(start, before, kept, i as int);
                assert(kept[i as int] == k);
            }
            if k {
                let ghost old_out = out@;
                out.push((self.0[i].0.clone(), self.0[i].1.clone()));
                assert(pair_texts(out@) == pair_texts(old_out).push(start[i as int]));
            } else {
                let ghost old_removed = removed@;
                removed.push(canonical_name(n));
                assert(crate::text::texts(removed@) == crate::text::texts(old_removed).push(
                    crate::matcher::canonical_header(start[i as int].0),
                ));
            }
            i += 1;
        }
        self.0 = out;
        assert(chosen_by(keep, start, kept));
        removed
    }

    pub fn len(&self) -> (r: usize)
        ensures
            r == self@.len(),
    {
        self.0.len()
    }

    pub fn is_empty(&self) -> (r: bool)
        ensures
            r == (self@.len() == 0),
    {
        self.0.len() == 0
    }
}

/// `after` is `before` with the value that a call of `f` on it gave, if any.
pub open spec fn rewritten_by<F: Fn(&str, &str) -> Option<String>>(
    f: F,
    before: HeaderView,
    after: HeaderView,
) -> bool {
    exists|n: &str, v: &str, new: Option<String>|
        {
            &&& n@ == before.0
            &&& v@ == before.1
            &&& #[trigger] f.ensures((n, v), new)
            &&& after == (
                before.0,
                match new {
                    Some(t) => t@,
                    None => before.1,
                },
            )
        }
}

/// `b` is what a call of `keep` on the name gave.
pub open spec fn picked<F: Fn(&str) -> bool>(keep: F, name: Seq<char>, b: bool) -> bool {
    exists|n: &str| n@ == name && #[trigger] keep.ensures((n,), b)
}

/// `kept` holds what calls of `keep` on the names gave.
pub open spec fn chosen_by<F: Fn(&str) -> bool>(
    keep: F,
    h: Seq<HeaderView>,
    kept: Seq<bool>,
) -> bool {
    &&& kept.len() == h.len()
    &&& forall|j: int|
        0 <= j < h.len() ==> picked(keep, h[j].0, #[trigger] kept[j])
}

proof fn kept_prefix(h: Seq<HeaderView>, a: Seq<bool>, b: Seq<bool>, n: int)
    requires
        0 <= n <= a.len() <= b.len(),
        forall|j: int| 0 <= j < n ==> a[j] == b[j],
    ensures
        kept_headers(h, a, n) == kept_headers(h, b, n),
        dropped_names(h, a, n) == dropped_names(h, b, n),
    decreases n,
{
    if n > 0 {
        kept_prefix(h, a, b, n - 1);
    }
}

// ---- Bodies -------------------------------------------------------------------------

/// A buffered body. Where the stream was longer than the cap, only its
/// beginning is there and it is read-only.
#[derive(Debug)]
pub struct Body {
    bytes: Vec<u8>,
    over_cap: bool,
}

/// What a body holds.
#[verifier::ext_equal]
pub struct BodyView {
    pub bytes: Seq<u8>,
    pub over_cap: bool,
}

impl View for Body {
    type V = BodyView;

    closed spec fn view(&self) -> BodyView {
        BodyView { bytes: self.bytes@, over_cap: self.over_cap }
    }
}

/// A rewrite of a body that was cut at the cap.
#[derive(Debug, Clone, Copy, PartialEq, Eq, Structural)]
pub struct OverCapError;

impl Body {
    pub fn new(bytes: Vec<u8>, over_cap: bool) -> (r: Self)
        ensures
            r@ == (BodyView { bytes: bytes@, over_cap }),
    {
        Body { bytes, over_cap }
    }

    /// Reading always starts at the first byte.
    pub fn read(&self) -> (r: &[u8])
        ensures
            r@ == self@.bytes,
    {
        self.bytes.as_slice()
    }

    pub fn over_cap(&self) -> (r: bool)
        ensures
            r == self@.over_cap,
    {
        self.over_cap
    }

    /// Replaces the bytes; a body that was cut at the cap refuses and stays.
    pub fn replace(&mut self, bytes: Vec<u8>) -> (r: Result<(), OverCapError>)
        ensures
            r is Err <==> old(self)@.over_cap,
            final(self)@ == (if old(self)@.over_cap {
                old(self)@
            } else {
                (BodyView { bytes: bytes@, over_cap: false })
            }),
    {
        if self.over_cap {
            return Err(OverCapError);
        }
        self.bytes = bytes;
        Ok(())
    }
}

// ---- Requests -----------------------------------------------------------------------

/// A request as the pipeline sees it. Transforms rewrite it in place; what is
/// left is sent upstream.
#[derive(Debug)]
pub struct RequestSummary {
    pub mode: Mode,
    /// Uppercase; `CONNECT` for the request that opens a tunnel.
    pub method: String,
    /// Lowercase name without port, not empty.
    pub host: String,
    pub port: u16,
    /// Still percent-encoded. Empty for a tunnel request.
    pub path: String,
    /// Without the leading `?`.
    pub query: String,
    pub headers: Headers,
    pub body: Body,
    /// The TLS server name, where there was one.
    pub sni: Option<String>,
    /// The client's socket address, where known.
    pub remote_addr: Option<String>,
}

/// What a request says.
#[verifier::ext_equal]
pub struct RequestView {
    pub mode: Mode,
    pub method: Seq<char>,
    pub host: Seq<char>,
    pub port: u16,
    pub path: Seq<char>,
    pub query: Seq<char>,
    pub headers: Seq<HeaderView>,
    pub body: BodyView,
    pub sni: Option<Seq<char>>,
    pub remote_addr: Option<Seq<char>>,
}

impl View for RequestSummary {
    type V = RequestView;

    open spec fn view(&self) -> RequestView {
        RequestView {
            mode: self.mode,
            method: self.method@,
            host: self.host@,
            port: self.port,
            path: self.path@,
            query: self.query@,
            headers: self.headers@,
            body: self.body@,
            sni: crate::text::opt_text(self.sni),
            remote_addr: crate::text::opt_text(self.remote_addr),
        }
    }
}

} // verus!
