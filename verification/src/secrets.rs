//! The `secrets` transform. The workload sends proxy tokens; the real values
//! are swapped in on the way out.
use vstd::prelude::*;
use vstd::string::*;
use vstd::utf8::*;

use crate::codec::{
    b64_decoded, b64_text, base64_decode, base64_encode, percent_encode, percent_text, replace_all,
    replaced, replacements,
};
use crate::matcher::{
    any_entry_matches, any_rule_matches, canonical_name, HeaderNameEntry, HeaderNameView, Rule,
    RuleView,
};
use crate::pipeline::{Ctx, TransformError};
use crate::secret::{source_name, SecretResolver, SourceRef, SourceView};
use crate::strmap::put;
use crate::summary::{BodyView, HeaderView, RequestSummary, RequestView};
use crate::text::{bytes_text, join2, join3, lossy, quoted, split, split_once, strip_prefix};
use crate::verdict::{Annotation, Notes, NoteView, Swap, SwapView, Verdict, VerdictView};

verus! {

/// One configured secret.
struct ConfiguredSecret {
    source: SourceRef,
    proxy_value: Vec<u8>,
    /// `None`: every header is scanned.
    match_headers: Option<Vec<HeaderNameEntry>>,
    match_query: bool,
    match_path: bool,
    match_body: bool,
    require: bool,
    rules: Vec<Rule>,
}

/// What a configured secret says.
#[verifier::ext_equal]
pub struct SecretView {
    pub source: SourceView,
    pub proxy: Seq<u8>,
    pub match_headers: Option<Seq<HeaderNameView>>,
    pub match_query: bool,
    pub match_path: bool,
    pub match_body: bool,
    pub require: bool,
    pub rules: Seq<RuleView>,
}

/// The entries of an optional list.
pub open spec fn opt_entries(o: Option<Vec<HeaderNameEntry>>) -> Option<Seq<HeaderNameView>> {
    match o {
        Some(v) => Some(crate::matcher::entry_views(v@)),
        None => None,
    }
}

impl View for ConfiguredSecret {
    type V = SecretView;

    closed spec fn view(&self) -> SecretView {
        SecretView {
            source: self.source@,
            proxy: self.proxy_value@,
            match_headers: opt_entries(self.match_headers),
            match_query: self.match_query,
            match_path: self.match_path,
            match_body: self.match_body,
            require: self.require,
            rules: crate::matcher::rule_views(self.rules@),
        }
    }
}

/// The `secrets` transform. Values are resolved while a request is evaluated,
/// so a source with a lifetime can be read anew without a new pipeline.
pub struct Secrets {
    secrets: Vec<ConfiguredSecret>,
}

spec fn secret_views(v: Seq<ConfiguredSecret>) -> Seq<SecretView> {
    v.map_values(|s: ConfiguredSecret| s@)
}

impl View for Secrets {
    type V = Seq<SecretView>;

    closed spec fn view(&self) -> Seq<SecretView> {
        secret_views(self.secrets@)
    }
}

/// A secret as configured.
pub struct SecretSpec {
    pub source: SourceRef,
    pub proxy_value: String,
    pub match_headers: Option<Vec<HeaderNameEntry>>,
    pub match_query: bool,
    pub match_path: bool,
    pub match_body: bool,
    pub require: bool,
    pub rules: Vec<Rule>,
}

impl View for SecretSpec {
    type V = SecretView;

    open spec fn view(&self) -> SecretView {
        SecretView {
            source: self.source@,
            proxy: encode_utf8(self.proxy_value@),
            match_headers: opt_entries(self.match_headers),
            match_query: self.match_query,
            match_path: self.match_path,
            match_body: self.match_body,
            require: self.require,
            rules: crate::matcher::rule_views(self.rules@),
        }
    }
}

/// The views of a list of configured secrets.
pub open spec fn spec_views(v: Seq<SecretSpec>) -> Seq<SecretView> {
    v.map_values(|s: SecretSpec| s@)
}

// ---- One location ---------------------------------------------------------------------

/// A header value with the secret swapped in, if the proxy token is in it. The
/// token is looked for inside the decoded text of a `Basic` value that is
/// base64, else in the value as it stands.
pub open spec fn swapped_value(value: Seq<char>, proxy: Seq<u8>, secret: Seq<u8>) -> Option<
    Seq<char>,
> {
    if crate::text::begins(value, "Basic "@) && b64_decoded(value.skip("Basic "@.len() as int)) is Some {
        let d = b64_decoded(value.skip("Basic "@.len() as int))->0;
        if replacements(d, proxy, 0) > 0 {
            Some("Basic "@ + b64_text(replaced(d, proxy, secret, 0)))
        } else {
            None
        }
    } else if replacements(encode_utf8(value), proxy, 0) > 0 {
        Some(bytes_text(replaced(encode_utf8(value), proxy, secret, 0)))
    } else {
        None
    }
}

/// Swaps within one header value; says whether anything was swapped.
fn swap_header_value(value: &str, proxy: &[u8], secret: &[u8]) -> (r: (String, bool))
    ensures
        r.1 == (swapped_value(value@, proxy@, secret@) is Some),
        r.0@ == (match swapped_value(value@, proxy@, secret@) {
            Some(v) => v,
            None => value@,
        }),
{
    if let Some(b64) = strip_prefix(value, "Basic ") {
        if let Some(decoded) = base64_decode(b64.as_str()) {
            let (new, n): (Vec<u8>, usize) = replace_all(decoded.as_slice(), proxy, secret);
            if n > 0 {
                let encoded = base64_encode(new.as_slice());
                return (join2("Basic ", encoded.as_str()), true);
            }
            return (value.to_owned(), false);
        }
    }
    let (new, n): (Vec<u8>, usize) = replace_all(value.as_bytes(), proxy, secret);
    if n > 0 {
        (lossy(new.as_slice()), true)
    } else {
        (value.to_owned(), false)
    }
}

/// One `key=value` pair of a query with the encoded secret swapped into the
/// value; a pair without `=` stays.
pub open spec fn swapped_pair(pair: Seq<char>, proxy: Seq<u8>, secret: Seq<u8>) -> Seq<char> {
    match crate::text::cut_first(pair, '=') {
        Some((k, v)) => k + "="@ + bytes_text(
            replaced(encode_utf8(v), proxy, encode_utf8(percent_text(secret)), 0),
        ),
        None => pair,
    }
}

/// The token occurs in the value of the pair.
pub open spec fn pair_holds(pair: Seq<char>, proxy: Seq<u8>) -> bool {
    match crate::text::cut_first(pair, '=') {
        Some((k, v)) => replacements(encode_utf8(v), proxy, 0) > 0,
        None => false,
    }
}

/// A query with the percent-encoded secret swapped into its values, if the
/// token occurs in one of them.
pub open spec fn swapped_query(query: Seq<char>, proxy: Seq<u8>, secret: Seq<u8>) -> Option<
    Seq<char>,
> {
    let pairs = crate::text::split_on(query, '&');
    if exists|i: int| 0 <= i < pairs.len() && pair_holds(#[trigger] pairs[i], proxy) {
        Some(
            crate::text::joined(
                pairs.map_values(|p: Seq<char>| swapped_pair(p, proxy, secret)),
                '&',
            ),
        )
    } else {
        None
    }
}

/// Swaps within the values of a query only.
fn swap_query(query: &str, proxy: &[u8], secret: &[u8]) -> (r: Option<String>)
    ensures
        match r {
            Some(q) => swapped_query(query@, proxy@, secret@) == Some(q@),
            None => swapped_query(query@, proxy@, secret@) is None,
        },
{
    let repl = percent_encode(secret);
    let parts = split(query, '&');
    let ghost pairs = crate::text::split_on(query@, '&');
    let ghost f = |p: Seq<char>| swapped_pair(p, proxy@, secret@);
    let mut any: bool = false;
    let mut out = String::new();
    let mut i: usize = 0;
    while i < parts.len()
        invariant
            i <= parts@.len(),
            pairs == crate::text::split_on(query@, '&'),
            crate::text::texts(parts@) == pairs,
            repl@ == percent_text(secret@),
            f == (|p: Seq<char>| swapped_pair(p, proxy@, secret@)),
            any == exists|j: int| 0 <= j < i && pair_holds(#[trigger] pairs[j], proxy@),
            out@ == crate::text::joined(pairs.take(i as int).map_values(f), '&'),
        decreases parts@.len() - i,
    {
        let ghost prev = pairs.take(i as int).map_values(f);
        let ghost next = pairs.take(i + 1).map_values(f);
        let ghost was = any;
        assert(pairs[i as int] == parts@[i as int]@);
        if i > 0 {
            out.push('&');
        }
        match split_once(parts[i].as_str(), '=') {
            Some((k, v)) => {
                let (new, n): (Vec<u8>, usize) = replace_all(
                    v.as_str().as_bytes(),
                    proxy,
                    repl.as_str().as_bytes(),
                );
                if n > 0 {
                    any = true;
                }
                let text = lossy(new.as_slice());
                out.append(join3(k.as_str(), "=", text.as_str()).as_str());
            },
            None => {
                out.append(parts[i].as_str());
            },
        }
        proof {
            assert(next.drop_last() == prev);
            assert(next.last() == swapped_pair(pairs[i as int], proxy@, secret@));
            if i == 0 {
                assert(prev == Seq::<Seq<char>>::empty());
                assert(out@ == next[0]);
            }
            if any {
                if pair_holds(pairs[i as int], proxy@) {
                    assert(0 <= i < i + 1 && pair_holds(pairs[i as int], proxy@));
                } else {
                    assert(was);
                    let j = choose|j: int| 0 <= j < i && pair_holds(#[trigger] pairs[j], proxy@);
                    assert(0 <= j < i + 1 && pair_holds(pairs[j], proxy@));
                }
            }
        }
        i += 1;
    }
    assert(pairs.take(pairs.len() as int) == pairs);
    if any {
        Some(out)
    } else {
        None
    }
}

// ---- One secret -------------------------------------------------------------------------

/// The new value of a header under a secret, if it is scanned and holds the
/// token.
pub open spec fn header_swap(h: HeaderView, s: SecretView, secret: Seq<u8>) -> Option<Seq<char>> {
    if s.match_headers matches Some(e) && !crate::matcher::some_entry_accepts(e, h.0) {
        None
    } else {
        swapped_value(h.1, s.proxy, secret)
    }
}

/// A header after the scan.
pub open spec fn header_after(h: HeaderView, s: SecretView, secret: Seq<u8>) -> HeaderView {
    match header_swap(h, s, secret) {
        Some(v) => (h.0, v),
        None => h,
    }
}

/// The headers after the scan.
pub open spec fn headers_after(h: Seq<HeaderView>, s: SecretView, secret: Seq<u8>) -> Seq<
    HeaderView,
> {
    h.map_values(|x: HeaderView| header_after(x, s, secret))
}

/// The locations among the first `n` headers where something was swapped.
pub open spec fn header_locations(
    h: Seq<HeaderView>,
    s: SecretView,
    secret: Seq<u8>,
    n: int,
) -> Seq<Seq<char>>
    decreases n,
{
    if n <= 0 {
        Seq::<Seq<char>>::empty()
    } else {
        let before = header_locations(h, s, secret, n - 1);
        if header_swap(h[n - 1], s, secret) is Some {
            before.push("header:"@ + crate::matcher::canonical_header(h[n - 1].0))
        } else {
            before
        }
    }
}

/// `l` with `x` behind it, where `b` holds.
pub open spec fn with(l: Seq<Seq<char>>, b: bool, x: Seq<char>) -> Seq<Seq<char>> {
    if b {
        l.push(x)
    } else {
        l
    }
}

/// The new query, if the secret is looked for there and the token occurs.
pub open spec fn query_swap(q: Seq<char>, s: SecretView, secret: Seq<u8>) -> Option<Seq<char>> {
    if s.match_query && q.len() > 0 {
        swapped_query(q, s.proxy, secret)
    } else {
        None
    }
}

/// The secret is looked for in the path and the token occurs there.
pub open spec fn path_swaps(path: Seq<char>, s: SecretView) -> bool {
    s.match_path && replacements(encode_utf8(path), s.proxy, 0) > 0
}

/// The secret is looked for in the body and the token occurs there.
pub open spec fn body_swaps(body: BodyView, s: SecretView) -> bool {
    s.match_body && replacements(body.bytes, s.proxy, 0) > 0
}

/// The request with one secret swapped in at all its locations.
pub open spec fn request_after(r: RequestView, s: SecretView, secret: Seq<u8>) -> RequestView {
    RequestView {
        headers: headers_after(r.headers, s, secret),
        query: match query_swap(r.query, s, secret) {
            Some(q) => q,
            None => r.query,
        },
        path: if path_swaps(r.path, s) {
            bytes_text(
                replaced(encode_utf8(r.path), s.proxy, encode_utf8(percent_text(secret)), 0),
            )
        } else {
            r.path
        },
        body: if body_swaps(r.body, s) && !r.body.over_cap {
            BodyView { bytes: replaced(r.body.bytes, s.proxy, secret, 0), over_cap: false }
        } else {
            r.body
        },
        ..r
    }
}

/// Where the secret was swapped in: headers in wire order, query, path, body.
pub open spec fn locations(r: RequestView, s: SecretView, secret: Seq<u8>) -> Seq<Seq<char>> {
    let h = header_locations(r.headers, s, secret, r.headers.len() as int);
    let q = with(h, query_swap(r.query, s, secret) is Some, "query"@);
    let p = with(q, path_swaps(r.path, s), "path"@);
    with(p, body_swaps(r.body, s), "body"@)
}

/// The result of scanning the locations of one secret.
struct ScanResult {
    locations: Vec<String>,
}

fn scan_headers(req: &mut RequestSummary, secret: &ConfiguredSecret, bytes: &[u8]) -> (r: Vec<
    String,
>)
    ensures
        final(req)@ == (RequestView {
            headers: headers_after(old(req)@.headers, secret@, bytes@),
            ..old(req)@
        }),
        crate::text::texts(r@) == header_locations(
            old(req)@.headers,
            secret@,
            bytes@,
            old(req)@.headers.len() as int,
        ),
{
    let mut found: Vec<String> = Vec::new();
    let ghost start = req@;
    let ghost h = req@.headers;
    let n: usize = req.headers.len();
    let mut i: usize = 0;
    assert(crate::text::texts(found@) == header_locations(h, secret@, bytes@, 0));
    while i < n
        invariant
            i <= n,
            n == h.len(),
            h == start.headers,
            req@ == (RequestView { headers: req@.headers, ..start }),
            req@.headers.len() == n,
            forall|j: int|
                0 <= j < i ==> #[trigger] req@.headers[j] == header_after(h[j], secret@, bytes@),
            forall|j: int| i <= j < n ==> #[trigger] req@.headers[j] == h[j],
            crate::text::texts(found@) == header_locations(h, secret@, bytes@, i as int),
        decreases n - i,
    {
        let ghost before = req@.headers;
        assert(before[i as int] == h[i as int]);
        let selected: bool = match &secret.match_headers {
            None => true,
            Some(entries) => any_entry_matches(entries, req.headers.name_at(i)),
        };
        if selected {
            let (new, swapped): (String, bool) = swap_header_value(
                req.headers.value_at(i),
                secret.proxy_value.as_slice(),
                bytes,
            );
            if swapped {
                let name = canonical_name(req.headers.name_at(i));
                let ghost old_found = found@;
                found.push(join2("header:", name.as_str()));
                assert(crate::text::texts(found@) == crate::text::texts(old_found).push(
                    "header:"@ + crate::matcher::canonical_header(h[i as int].0),
                ));
                req.headers.set_value(i, new);
            }
        }
        i += 1;
    }
    assert(req@.headers == headers_after(h, secret@, bytes@));
    found
}

/// Scans every location of one secret and swaps in place; gives the locations
/// where something was swapped.
fn scan_and_swap(req: &mut RequestSummary, secret: &ConfiguredSecret, secret_bytes: &[u8]) -> (r:
    ScanResult)
    ensures
        final(req)@ == request_after(old(req)@, secret@, secret_bytes@),
        crate::text::texts(r.locations@) == locations(old(req)@, secret@, secret_bytes@),
{
    let ghost start = req@;
    let mut found = scan_headers(req, secret, secret_bytes);
    let proxy = secret.proxy_value.as_slice();
    let ghost l0 = crate::text::texts(found@);
    if secret.match_query && !req.query.as_str().is_empty() {
        if let Some(q) = swap_query(req.query.as_str(), proxy, secret_bytes) {
            req.query = q;
            found.push("query".to_owned());
        }
    }
    let ghost l1 = crate::text::texts(found@);
    assert(l1 == with(l0, query_swap(start.query, secret@, secret_bytes@) is Some, "query"@));
    if secret.match_path {
        let repl = percent_encode(secret_bytes);
        let (new, n): (Vec<u8>, usize) = replace_all(
            req.path.as_str().as_bytes(),
            proxy,
            repl.as_str().as_bytes(),
        );
        if n > 0 {
            req.path = lossy(new.as_slice());
            found.push("path".to_owned());
        }
    }
    let ghost l2 = crate::text::texts(found@);
    assert(l2 == with(l1, path_swaps(start.path, secret@), "path"@));
    if secret.match_body {
        let (new, n): (Vec<u8>, usize) = replace_all(req.body.read(), proxy, secret_bytes);
        if n > 0 {
            let _ = req.body.replace(new);
            found.push("body".to_owned());
        }
    }
    assert(crate::text::texts(found@) == with(l2, body_swaps(start.body, secret@), "body"@));
    assert(req@ == request_after(start, secret@, secret_bytes@));
    ScanResult { locations: found }
}

// ---- All secrets --------------------------------------------------------------------------

/// How far the transform has come.
#[verifier::ext_equal]
pub struct SwapState {
    pub req: RequestView,
    pub swapped: Seq<SwapView>,
    pub unavailable: Seq<Seq<char>>,
    /// Set where the transform ended early: a rejection, or the text of an
    /// error.
    pub end: Option<Result<(), Seq<char>>>,
}

/// A rule of the secret matches the request.
pub open spec fn applies(r: RequestView, s: SecretView) -> bool {
    crate::matcher::some_rule_accepts(s.rules, r.host, r.method, r.path)
}

/// The error of a secret that may stand in a body of which not all is there.
pub open spec fn over_cap_text(name: Seq<char>) -> Seq<char> {
    "secret "@ + crate::text::quoted_text(name) + ": cannot swap in an over-cap body"@
}

/// One secret that applies, with the answer of the resolver.
pub open spec fn swap_step(st: SwapState, s: SecretView, answer: Option<Seq<u8>>) -> SwapState {
    match answer {
        None => if s.require {
            SwapState { end: Some(Ok(())), ..st }
        } else {
            SwapState { unavailable: st.unavailable.push(source_name(s.source)), ..st }
        },
        Some(secret) => if s.match_body && st.req.body.over_cap {
            SwapState {
                end: Some(
                    Err(over_cap_text(source_name(s.source))),
                ),
                ..st
            }
        } else {
            let l = locations(st.req, s, secret);
            let req = request_after(st.req, s, secret);
            if l.len() > 0 {
                SwapState {
                    req,
                    swapped: st.swapped.push(
                        SwapView { secret: source_name(s.source), locations: l },
                    ),
                    ..st
                }
            } else if s.require {
                SwapState { req, end: Some(Ok(())), ..st }
            } else {
                SwapState { req, ..st }
            }
        },
    }
}

/// After the first `n` secrets, `answers` being the resolver's answers; an
/// early end stays.
pub open spec fn swap_upto(
    v: Seq<SecretView>,
    answers: Seq<Option<Seq<u8>>>,
    req: RequestView,
    n: int,
) -> SwapState
    decreases n,
{
    if n <= 0 {
        SwapState {
            req,
            swapped: Seq::<SwapView>::empty(),
            unavailable: Seq::<Seq<char>>::empty(),
            end: None,
        }
    } else {
        let st = swap_upto(v, answers, req, n - 1);
        if st.end is Some || !applies(st.req, v[n - 1]) {
            st
        } else {
            swap_step(st, v[n - 1], answers[n - 1])
        }
    }
}

/// The resolver is asked for the secret at `k`.
pub open spec fn consulted(
    v: Seq<SecretView>,
    answers: Seq<Option<Seq<u8>>>,
    req: RequestView,
    k: int,
) -> bool {
    let st = swap_upto(v, answers, req, k);
    st.end is None && applies(st.req, v[k])
}

/// Every answer that was asked for came from the resolver.
pub open spec fn answered<R: SecretResolver>(
    resolver: R,
    v: Seq<SecretView>,
    answers: Seq<Option<Seq<u8>>>,
    req: RequestView,
) -> bool {
    &&& answers.len() == v.len()
    &&& forall|k: int|
        0 <= k < v.len() && #[trigger] consulted(v, answers, req, k) ==> resolver.may_answer(
            v[k].source,
            answers[k],
        )
}

/// The annotations of a run that came to its end.
pub open spec fn swap_notes(notes: Notes, st: SwapState) -> Notes {
    let a = if st.swapped.len() > 0 {
        put(notes, "swapped"@, NoteView::Swaps(st.swapped))
    } else {
        notes
    };
    if st.unavailable.len() > 0 {
        put(a, "secret_unavailable"@, NoteView::Texts(st.unavailable))
    } else {
        a
    }
}

/// What the transform returns.
pub open spec fn swap_result(st: SwapState) -> Result<VerdictView, Seq<char>> {
    match st.end {
        None => Ok(VerdictView::Continue),
        Some(Ok(_)) => Ok(VerdictView::Reject(None)),
        Some(Err(m)) => Err(m),
    }
}

/// The result of a transform as a view.
pub open spec fn result_view(r: Result<Verdict, TransformError>) -> Result<VerdictView, Seq<char>> {
    match r {
        Ok(v) => Ok(v@),
        Err(e) => Err(e.0@),
    }
}

/// What an early end leaves standing, whatever else is still to come.
proof fn end_stays(
    v: Seq<SecretView>,
    a: Seq<Option<Seq<u8>>>,
    req: RequestView,
    n: int,
    m: int,
)
    requires
        n <= m,
        swap_upto(v, a, req, n).end is Some,
    ensures
        swap_upto(v, a, req, m) == swap_upto(v, a, req, n),
    decreases m - n,
{
    if n < m {
        end_stays(v, a, req, n, m - 1);
    }
}

/// Only the first `n` answers matter to the first `n` secrets.
proof fn answers_prefix(
    v: Seq<SecretView>,
    a: Seq<Option<Seq<u8>>>,
    b: Seq<Option<Seq<u8>>>,
    req: RequestView,
    n: int,
)
    requires
        forall|k: int| 0 <= k < n ==> a[k] == b[k],
    ensures
        swap_upto(v, a, req, n) == swap_upto(v, b, req, n),
    decreases n,
{
    if n > 0 {
        answers_prefix(v, a, b, req, n - 1);
    }
}

impl Secrets {
    pub fn build(specs: Vec<SecretSpec>) -> (r: Self)
        ensures
            r@ == spec_views(specs@),
    {
        let ghost views = spec_views(specs@);
        let mut rest: Vec<SecretSpec> = specs;
        let mut secrets: Vec<ConfiguredSecret> = Vec::new();
        let n: usize = rest.len();
        let mut i: usize = 0;
        while i < n
            invariant
                i <= n,
                n == views.len(),
                rest@.len() == n - i,
                forall|j: int| 0 <= j < n - i ==> (#[trigger] rest@[j])@ == views[i + j],
                secrets@.len() == i,
                forall|j: int| 0 <= j < i ==> (#[trigger] secrets@[j])@ == views[j],
            decreases n - i,
        {
            let s = rest.remove(0);
            let mut proxy_value: Vec<u8> = Vec::new();
            proxy_value.extend_from_slice(s.proxy_value.as_str().as_bytes());
            assert(proxy_value@ == encode_utf8(s.proxy_value@));
            let c = ConfiguredSecret {
                source: s.source,
                proxy_value,
                match_headers: s.match_headers,
                match_query: s.match_query,
                match_path: s.match_path,
                match_body: s.match_body,
                require: s.require,
                rules: s.rules,
            };
            assert(c@ == views[i as int]);
            secrets.push(c);
            i += 1;
        }
        assert(secret_views(secrets@) == views);
        Secrets { secrets }
    }

    /// Swaps every secret whose rules match. An answer that is needed and not
    /// there, or a token that is needed and not there, rejects the request.
    pub fn on_request<R: SecretResolver>(
        &self,
        resolver: &R,
        ctx: &mut Ctx,
        req: &mut RequestSummary,
    ) -> (r: Result<Verdict, TransformError>)
        ensures
            exists|answers: Seq<Option<Seq<u8>>>|
                {
                    let st = swap_upto(self@, answers, old(req)@, self@.len() as int);
                    &&& #[trigger] answered(*resolver, self@, answers, old(req)@)
                    &&& final(req)@ == st.req
                    &&& result_view(r) == swap_result(st)
                    &&& final(ctx)@.capture == old(ctx)@.capture
                    &&& final(ctx)@.notes == (if st.end is None {
                        swap_notes(old(ctx)@.notes, st)
                    } else {
                        old(ctx)@.notes
                    })
                },
    {
        let ghost v = self@;
        let ghost start = req@;
        let ghost ctx0 = ctx@;
        let ghost mut answers = Seq::<Option<Seq<u8>>>::empty();
        let mut swapped: Vec<Swap> = Vec::new();
        let mut unavailable: Vec<String> = Vec::new();
        let n: usize = self.secrets.len();
        let mut i: usize = 0;
        proof {
            assert(crate::verdict::swap_views(swapped@) == Seq::<SwapView>::empty());
            assert(crate::text::texts(unavailable@) == Seq::<Seq<char>>::empty());
        }
        while i < n
            invariant
                i <= n,
                n == v.len(),
                n == self.secrets@.len(),
                v == self@,
                v == secret_views(self.secrets@),
                start == old(req)@,
                ctx0 == old(ctx)@,
                ctx@ == ctx0,
                answers.len() == i,
                swap_upto(v, answers, start, i as int) == (SwapState {
                    req: req@,
                    swapped: crate::verdict::swap_views(swapped@),
                    unavailable: crate::text::texts(unavailable@),
                    end: None,
                }),
                forall|k: int|
                    0 <= k < i && #[trigger] consulted(v, answers, start, k)
                        ==> resolver.may_answer(v[k].source, answers[k]),
            decreases n - i,
        {
            let secret = &self.secrets[i];
            let ghost before = answers;
            let ghost st = swap_upto(v, answers, start, i as int);
            assert(v[i as int] == secret@);
            if !any_rule_matches(
                secret.rules.as_slice(),
                req.host.as_str(),
                req.method.as_str(),
                req.path.as_str(),
            ) {
                proof {
                    answers = answers.push(None);
                    extend(resolver, v, before, None, start);
                }
                i += 1;
                continue ;
            }
            let resolved = resolver.resolve(&secret.source);
            let ghost answer = crate::secret::answer_of(resolved);
            proof {
                answers = answers.push(answer);
                extend(resolver, v, before, answer, start);
                assert(swap_upto(v, answers, start, i + 1) == swap_step(st, v[i as int], answer));
            }
            match resolved {
                Err(_) => {
                    if secret.require {
                        let ghost all = finish(resolver, v, answers, start);
                        assert(answered(*resolver, v, all, start));
                        return Ok(Verdict::Reject(None));
                    }
                    let ghost old_list = unavailable@;
                    unavailable.push(secret.source.name().to_owned());
                    assert(crate::text::texts(unavailable@) == crate::text::texts(old_list).push(
                        source_name(secret@.source),
                    ));
                },
                Ok(value) => {
                    if secret.match_body && req.body.over_cap() {
                        let message = join3(
                            "secret ",
                            quoted(secret.source.name()).as_str(),
                            ": cannot swap in an over-cap body",
                        );
                        let ghost all = finish(resolver, v, answers, start);
                        assert(answered(*resolver, v, all, start));
                        return Err(TransformError(message));
                    }
                    let scan = scan_and_swap(req, secret, value.expose_for_swap());
                    if scan.locations.len() > 0 {
                        let ghost old_list = swapped@;
                        let s = Swap {
                            secret: secret.source.name().to_owned(),
                            locations: scan.locations,
                        };
                        let ghost sv = s@;
                        swapped.push(s);
                        assert(crate::verdict::swap_views(swapped@)
                            == crate::verdict::swap_views(old_list).push(sv));
                    } else if secret.require {
                        let ghost all = finish(resolver, v, answers, start);
                        assert(answered(*resolver, v, all, start));
                        return Ok(Verdict::Reject(None));
                    }
                },
            }
            i += 1;
        }
        proof {
            assert(answered(*resolver, v, answers, start));
        }
        if swapped.len() > 0 {
            ctx.annotate("swapped", Annotation::Swaps(swapped));
        }
        if unavailable.len() > 0 {
            ctx.annotate("secret_unavailable", Annotation::Texts(unavailable));
        }
        Ok(Verdict::Continue)
    }
}

/// After an early end no answer is asked for: the rest may be anything.
proof fn finish<R: SecretResolver>(
    resolver: &R,
    v: Seq<SecretView>,
    a: Seq<Option<Seq<u8>>>,
    req: RequestView,
) -> (b: Seq<Option<Seq<u8>>>)
    requires
        a.len() <= v.len(),
        swap_upto(v, a, req, a.len() as int).end is Some,
        forall|k: int|
            0 <= k < a.len() && #[trigger] consulted(v, a, req, k) ==> resolver.may_answer(
                v[k].source,
                a[k],
            ),
    ensures
        answered(*resolver, v, b, req),
        swap_upto(v, b, req, v.len() as int) == swap_upto(v, a, req, a.len() as int),
{
    let b = a + Seq::new((v.len() - a.len()) as nat, |i: int| None::<Seq<u8>>);
    answers_prefix(v, b, a, req, a.len() as int);
    end_stays(v, b, req, a.len() as int, v.len() as int);
    assert forall|k: int|
        0 <= k < v.len() && #[trigger] consulted(v, b, req, k) implies resolver.may_answer(
        v[k].source,
        b[k],
    ) by {
        if k < a.len() {
            answers_prefix(v, b, a, req, k);
            assert(consulted(v, a, req, k));
        } else {
            end_stays(v, b, req, a.len() as int, k);
        }
    }
    b
}

/// One more answer changes nothing of what came before it.
proof fn extend<R: SecretResolver>(
    resolver: &R,
    v: Seq<SecretView>,
    a: Seq<Option<Seq<u8>>>,
    x: Option<Seq<u8>>,
    req: RequestView,
)
    requires
        a.len() < v.len(),
        forall|k: int|
            0 <= k < a.len() && #[trigger] consulted(v, a, req, k) ==> resolver.may_answer(
                v[k].source,
                a[k],
            ),
    ensures
        swap_upto(v, a.push(x), req, a.len() as int) == swap_upto(v, a, req, a.len() as int),
        forall|k: int|
            0 <= k < a.len() && #[trigger] consulted(v, a.push(x), req, k)
                ==> resolver.may_answer(v[k].source, a.push(x)[k]),
{
    let b = a.push(x);
    answers_prefix(v, b, a, req, a.len() as int);
    assert forall|k: int|
        0 <= k < a.len() && #[trigger] consulted(v, b, req, k) implies resolver.may_answer(
        v[k].source,
        b[k],
    ) by {
        answers_prefix(v, b, a, req, k);
        assert(consulted(v, a, req, k));
    }
}

// ---- Laws -----------------------------------------------------------------------------------

/// The location of a swap: a header of the request by its display name, or the
/// query, the path or the body.
pub open spec fn is_location(l: Seq<char>, h: Seq<HeaderView>) -> bool {
    ||| l == "query"@
    ||| l == "path"@
    ||| l == "body"@
    ||| exists|j: int|
        0 <= j < h.len() && l == "header:"@ + crate::matcher::canonical_header(
            (#[trigger] h[j]).0,
        )
}

/// Two header lists have the same names in the same order.
pub open spec fn same_names(a: Seq<HeaderView>, b: Seq<HeaderView>) -> bool {
    &&& a.len() == b.len()
    &&& forall|j: int| 0 <= j < a.len() ==> (#[trigger] a[j]).0 == b[j].0
}

proof fn header_locations_are_locations(
    h: Seq<HeaderView>,
    s: SecretView,
    secret: Seq<u8>,
    n: int,
)
    requires
        0 <= n <= h.len(),
    ensures
        forall|i: int|
            0 <= i < header_locations(h, s, secret, n).len() ==> is_location(
                #[trigger] header_locations(h, s, secret, n)[i],
                h,
            ),
        header_locations(h, s, secret, n).len() == 0 ==> forall|j: int|
            0 <= j < n ==> header_swap(#[trigger] h[j], s, secret) is None,
    decreases n,
{
    if n > 0 {
        header_locations_are_locations(h, s, secret, n - 1);
        assert(h[n - 1].0 == h[n - 1].0);
    }
}

proof fn locations_are_locations(r: RequestView, s: SecretView, secret: Seq<u8>)
    ensures
        forall|i: int|
            0 <= i < locations(r, s, secret).len() ==> is_location(
                #[trigger] locations(r, s, secret)[i],
                r.headers,
            ),
{
    header_locations_are_locations(r.headers, s, secret, r.headers.len() as int);
}

/// A request changes only where a location says so: without one it stays as it
/// came.
pub proof fn no_location_no_change(r: RequestView, s: SecretView, secret: Seq<u8>)
    requires
        locations(r, s, secret).len() == 0,
    ensures
        request_after(r, s, secret) == r,
{
    header_locations_are_locations(r.headers, s, secret, r.headers.len() as int);
    let h = header_locations(r.headers, s, secret, r.headers.len() as int);
    let q = with(h, query_swap(r.query, s, secret) is Some, "query"@);
    let p = with(q, path_swaps(r.path, s), "path"@);
    assert(p.len() == 0 && q.len() == 0 && h.len() == 0);
    assert(headers_after(r.headers, s, secret) == r.headers);
}

proof fn swaps_are_named(
    v: Seq<SecretView>,
    answers: Seq<Option<Seq<u8>>>,
    req: RequestView,
    n: int,
)
    requires
        0 <= n <= v.len(),
    ensures
        ({
            let st = swap_upto(v, answers, req, n);
            &&& same_names(st.req.headers, req.headers)
            &&& forall|i: int|
                0 <= i < st.swapped.len() ==> swap_is_named(#[trigger] st.swapped[i], v, req)
            &&& forall|i: int|
                0 <= i < st.unavailable.len() ==> is_source(#[trigger] st.unavailable[i], v)
            &&& st.end matches Some(Err(m)) ==> exists|name: Seq<char>| #[trigger]
                is_source(name, v) && m == over_cap_text(name)
        }),
    decreases n,
{
    if n > 0 {
        swaps_are_named(v, answers, req, n - 1);
        let st = swap_upto(v, answers, req, n - 1);
        let s = v[n - 1];
        if st.end is None && applies(st.req, s) {
            assert(is_source(source_name(s.source), v)) by {
                assert(v[n - 1].source == s.source);
            }
            if let Some(secret) = answers[n - 1] {
                locations_are_locations(st.req, s, secret);
                let l = locations(st.req, s, secret);
                assert forall|i: int| 0 <= i < l.len() implies is_location(
                    #[trigger] l[i],
                    req.headers,
                ) by {
                    if exists|j: int|
                        0 <= j < st.req.headers.len() && l[i] == "header:"@
                            + crate::matcher::canonical_header((#[trigger] st.req.headers[j]).0) {
                        let j = choose|j: int|
                            0 <= j < st.req.headers.len() && l[i] == "header:"@
                                + crate::matcher::canonical_header(
                                (#[trigger] st.req.headers[j]).0,
                            );
                        assert(req.headers[j].0 == st.req.headers[j].0);
                    }
                }
                if l.len() > 0 && !(s.match_body && st.req.body.over_cap) {
                    assert(swap_is_named(
                        SwapView { secret: source_name(s.source), locations: l },
                        v,
                        req,
                    ));
                }
            }
        }
    }
}

/// A configured source has this name.
pub open spec fn is_source(name: Seq<char>, v: Seq<SecretView>) -> bool {
    exists|k: int| 0 <= k < v.len() && name == source_name((#[trigger] v[k]).source)
}

/// A swap holds the name of a configured source and locations, at least one.
pub open spec fn swap_is_named(s: SwapView, v: Seq<SecretView>, req: RequestView) -> bool {
    &&& is_source(s.secret, v)
    &&& s.locations.len() > 0
    &&& forall|i: int|
        0 <= i < s.locations.len() ==> is_location(#[trigger] s.locations[i], req.headers)
}

/// What the transform records of secrets, and the error it may fail with, is names
/// of configured sources and locations of the request, never anything made from a
/// value; and it changes no header name and no header order.
pub proof fn records_name_sources_only(
    v: Seq<SecretView>,
    answers: Seq<Option<Seq<u8>>>,
    req: RequestView,
)
    ensures
        ({
            let st = swap_upto(v, answers, req, v.len() as int);
            &&& same_names(st.req.headers, req.headers)
            &&& forall|i: int|
                0 <= i < st.swapped.len() ==> swap_is_named(#[trigger] st.swapped[i], v, req)
            &&& forall|i: int|
                0 <= i < st.unavailable.len() ==> is_source(#[trigger] st.unavailable[i], v)
            &&& st.end matches Some(Err(m)) ==> exists|name: Seq<char>| #[trigger]
                is_source(name, v) && m == over_cap_text(name)
        }),
{
    swaps_are_named(v, answers, req, v.len() as int);
}

/// Where the transform lets a request go on, every required secret whose rules
/// matched was resolved and swapped in somewhere.
pub proof fn required_secret_was_swapped(
    v: Seq<SecretView>,
    answers: Seq<Option<Seq<u8>>>,
    req: RequestView,
    k: int,
)
    requires
        0 <= k < v.len(),
        v[k].require,
        consulted(v, answers, req, k),
        swap_result(swap_upto(v, answers, req, v.len() as int)) == Ok::<VerdictView, Seq<char>>(
            VerdictView::Continue,
        ),
    ensures
        answers[k] is Some,
        locations(swap_upto(v, answers, req, k).req, v[k], answers[k]->0).len() > 0,
{
    if swap_upto(v, answers, req, k + 1).end is Some {
        end_stays(v, answers, req, k + 1, v.len() as int);
    }
}

} // verus!
