//! The cache of resolved secrets: how long an answer is kept, when a source is
//! read anew, and when an old value is still served. Reading the environment
//! and the disk is done elsewhere; what was read is handed in.
use vstd::prelude::*;
use vstd::string::*;
use vstd::utf8::*;

use crate::secret::{
    ResolveError, Secret, SourceKind, SourceKindView, SourceRef, SourceView,
};
use crate::strmap::{found, mapped, mapping_commutes, put, StrMap};
use crate::text::{join2, join3, quoted};

verus! {

// ---- JSON values ------------------------------------------------------------------------

/// Declares the value type of `serde_json`.
#[verifier::external_type_specification]
#[verifier::external_body]
pub struct ExJson(serde_json::Value);

/// The JSON value that bytes stand for, if they do.
pub uninterp spec fn json_value(b: Seq<u8>) -> Option<serde_json::Value>;

/// The member of a JSON value under a key, if it has one.
pub uninterp spec fn json_member(v: serde_json::Value, key: Seq<char>) -> Option<
    serde_json::Value,
>;

/// The text of a JSON string; none of any other value.
pub uninterp spec fn json_string(v: serde_json::Value) -> Option<Seq<char>>;

/// Trusts `serde_json::from_slice`: whether bytes are JSON, and which value,
/// depends on the bytes alone.
#[verifier::external_body]
fn parse_json(b: &[u8]) -> (r: Option<serde_json::Value>)
    ensures
        r == json_value(b@),
{
    serde_json::from_slice::<serde_json::Value>(b).ok()
}

/// Trusts `serde_json::Value::get` with a text key: the member depends on the
/// value and the key alone.
#[verifier::external_body]
fn member<'a>(v: &'a serde_json::Value, key: &str) -> (r: Option<&'a serde_json::Value>)
    ensures
        match r {
            Some(m) => json_member(*v, key@) == Some(*m),
            None => json_member(*v, key@) is None,
        },
{
    v.get(key)
}

/// Trusts `serde_json::Value::as_str`: the text depends on the value alone.
#[verifier::external_body]
fn string_of(v: &serde_json::Value) -> (r: Option<&str>)
    ensures
        match r {
            Some(s) => json_string(*v) == Some(s@),
            None => json_string(*v) is None,
        },
{
    v.as_str()
}

/// What a value holds under a key.
#[derive(Debug)]
pub enum JsonField {
    /// The value is not JSON.
    NotJson,
    /// There is no such member, or it is no string.
    Missing,
    Text(String),
}

/// What a field says.
#[verifier::ext_equal]
pub enum FieldView {
    NotJson,
    Missing,
    Text(Seq<char>),
}

impl View for JsonField {
    type V = FieldView;

    open spec fn view(&self) -> FieldView {
        match self {
            JsonField::NotJson => FieldView::NotJson,
            JsonField::Missing => FieldView::Missing,
            JsonField::Text(t) => FieldView::Text(t@),
        }
    }
}

/// The text field of a value read as JSON.
pub open spec fn field_of(b: Seq<u8>, key: Seq<char>) -> FieldView {
    match json_value(b) {
        None => FieldView::NotJson,
        Some(v) => match json_member(v, key) {
            None => FieldView::Missing,
            Some(m) => match json_string(m) {
                None => FieldView::Missing,
                Some(t) => FieldView::Text(t),
            },
        },
    }
}

/// Reads the text field of a value as JSON.
pub fn json_field(b: &[u8], key: &str) -> (r: JsonField)
    ensures
        r@ == field_of(b@, key@),
{
    match parse_json(b) {
        None => JsonField::NotJson,
        Some(v) => match member(&v, key) {
            None => JsonField::Missing,
            Some(m) => match string_of(m) {
                None => JsonField::Missing,
                Some(t) => JsonField::Text(t.to_owned()),
            },
        },
    }
}

/// The value of a field, or why there is none.
pub open spec fn field_value(f: FieldView, key: Seq<char>) -> Result<Seq<u8>, Seq<char>> {
    match f {
        FieldView::NotJson => Err("value is not JSON"@),
        FieldView::Missing => Err(
            "json_key "@ + crate::text::quoted_text(key) + " missing or not a string"@,
        ),
        FieldView::Text(t) => Ok(encode_utf8(t)),
    }
}

/// Turns a field into the value, or into the reason why there is none.
pub fn take_field(f: JsonField, key: &str) -> (r: Result<Secret, String>)
    ensures
        match r {
            Ok(v) => field_value(f@, key@) == Ok::<Seq<u8>, Seq<char>>(v@),
            Err(e) => field_value(f@, key@) == Err::<Seq<u8>, Seq<char>>(e@),
        },
{
    match f {
        JsonField::NotJson => Err("value is not JSON".to_owned()),
        JsonField::Missing => Err(
            join3("json_key ", quoted(key).as_str(), " missing or not a string"),
        ),
        JsonField::Text(t) => {
            let mut v: Vec<u8> = Vec::new();
            v.extend_from_slice(t.as_str().as_bytes());
            assert(v@ == encode_utf8(t@));
            Ok(Secret::new(v))
        },
    }
}

/// The value of a source from the bytes that were read.
pub open spec fn value_of(b: Seq<u8>, json_key: Option<Seq<char>>) -> Result<Seq<u8>, Seq<char>> {
    match json_key {
        None => Ok(b),
        Some(key) => field_value(field_of(b, key), key),
    }
}

/// Takes the value of a source from the bytes that were read: the bytes
/// themselves, or one text field of them.
pub fn apply_json_key(value: Secret, source: &SourceRef) -> (r: Result<Secret, ResolveError>)
    ensures
        match r {
            Ok(v) => value_of(value@, source@.json_key) == Ok::<Seq<u8>, Seq<char>>(v@),
            Err(e) => value_of(value@, source@.json_key) == Err::<Seq<u8>, Seq<char>>(e.reason@)
                && e.source@ == source@,
        },
{
    match &source.json_key {
        None => Ok(value),
        Some(key) => match take_field(
            json_field(value.expose_for_swap(), key.as_str()),
            key.as_str(),
        ) {
            Ok(v) => Ok(v),
            Err(reason) => Err(ResolveError { source: source.copy(), reason }),
        },
    }
}

/// What reading a source gave, before anything is made of it.
pub enum RawRead {
    /// The value of the variable, where it is set.
    Env(Option<Secret>),
    /// The content of the file, or why there is none.
    File(Result<Secret, String>),
}

/// What reading a source gave, as bytes.
#[verifier::ext_equal]
pub enum RawView {
    Env(Option<Seq<u8>>),
    File(Result<Seq<u8>, Seq<char>>),
}

impl View for RawRead {
    type V = RawView;

    open spec fn view(&self) -> RawView {
        match self {
            RawRead::Env(Some(s)) => RawView::Env(Some(s@)),
            RawRead::Env(None) => RawView::Env(None),
            RawRead::File(Ok(s)) => RawView::File(Ok(s@)),
            RawRead::File(Err(e)) => RawView::File(Err(e@)),
        }
    }
}

/// The value of a source by what reading it gave: a variable that is empty counts
/// as one that is not set.
pub open spec fn source_value(raw: RawView, json_key: Option<Seq<char>>) -> Result<
    Seq<u8>,
    Seq<char>,
> {
    match raw {
        RawView::Env(Some(b)) => if b.len() > 0 {
            value_of(b, json_key)
        } else {
            Err("env var unset or empty"@)
        },
        RawView::Env(None) => Err("env var unset or empty"@),
        RawView::File(Ok(b)) => value_of(b, json_key),
        RawView::File(Err(e)) => Err("cannot read file: "@ + e),
    }
}

/// Makes the value of a source of what reading it gave.
pub fn read_value(raw: RawRead, source: &SourceRef) -> (r: Result<Secret, String>)
    ensures
        match r {
            Ok(v) => source_value(raw@, source@.json_key) == Ok::<Seq<u8>, Seq<char>>(v@),
            Err(e) => source_value(raw@, source@.json_key) == Err::<Seq<u8>, Seq<char>>(e@),
        },
{
    let value = match raw {
        RawRead::Env(Some(s)) => {
            if s.expose_for_swap().len() == 0 {
                return Err("env var unset or empty".to_owned());
            }
            s
        },
        RawRead::Env(None) => {
            return Err("env var unset or empty".to_owned());
        },
        RawRead::File(Ok(s)) => s,
        RawRead::File(Err(e)) => {
            return Err(join2("cannot read file: ", e.as_str()));
        },
    };
    match apply_json_key(value, source) {
        Ok(v) => Ok(v),
        Err(e) => Err(e.reason),
    }
}

// ---- The cache --------------------------------------------------------------------------

/// The identity of a source in the cache: its kind, its name and its key.
pub open spec fn key_of(s: SourceView) -> Seq<char> {
    let base = match s.kind {
        SourceKindView::Env { var } => "env:"@ + var,
        SourceKindView::File { path } => "file:"@ + path,
    };
    match s.json_key {
        Some(key) => base + "\0"@ + key,
        None => base,
    }
}

pub fn cache_key(source: &SourceRef) -> (r: String)
    ensures
        r@ == key_of(source@),
{
    let base = match &source.kind {
        SourceKind::Env { var } => join2("env:", var.as_str()),
        SourceKind::File { path } => join2("file:", path.as_str()),
    };
    match &source.json_key {
        Some(key) => join3(base.as_str(), "\0", key.as_str()),
        None => base,
    }
}

/// What is kept of a source.
struct Entry {
    /// The last value that was resolved.
    value: Option<Secret>,
    /// When this was recorded, in milliseconds.
    stamp: u64,
    /// The last attempt succeeded.
    ok: bool,
}

/// What an entry says.
#[verifier::ext_equal]
pub struct EntryView {
    pub value: Option<Seq<u8>>,
    pub stamp: u64,
    pub ok: bool,
}

impl View for Entry {
    type V = EntryView;

    closed spec fn view(&self) -> EntryView {
        EntryView {
            value: match self.value {
                Some(s) => Some(s@),
                None => None,
            },
            stamp: self.stamp,
            ok: self.ok,
        }
    }
}

/// The cached sources by their identity.
pub type CacheView = Seq<(Seq<char>, EntryView)>;

/// Resolves secrets from variables and files, and keeps what it resolved. What a source
/// holds is read by its caller, and only where nothing that is kept can answer.
pub struct EnvFileResolver {
    entries: StrMap<Entry>,
}

spec fn entry_views(s: Seq<(Seq<char>, Entry)>) -> CacheView {
    mapped(s, |e: Entry| e@)
}

impl View for EnvFileResolver {
    type V = CacheView;

    closed spec fn view(&self) -> CacheView {
        entry_views(self.entries@)
    }
}

/// The lifetime of a success, where it has one: a variable is kept for good,
/// whatever its source says.
pub open spec fn lifetime(s: SourceView) -> Option<u128> {
    match s.kind {
        SourceKindView::Env { .. } => None,
        SourceKindView::File { .. } => s.ttl,
    }
}

fn lifetime_of(source: &SourceRef) -> (r: Option<u128>)
    ensures
        r == lifetime(source@),
{
    match &source.kind {
        SourceKind::Env { .. } => None,
        SourceKind::File { .. } => source.ttl,
    }
}

/// The lifetime of a failure; a minute where none is given.
pub open spec fn failure_millis(t: Option<u128>) -> u128 {
    match t {
        Some(t) => t,
        None => 60_000,
    }
}

/// The moment so many milliseconds before another, the first one at the earliest.
pub open spec fn moment_before(now: u64, t: u128) -> u64 {
    if now >= t {
        (now - t) as u64
    } else {
        0
    }
}

/// How long ago something was.
pub open spec fn age(now: u64, stamp: u64) -> u64 {
    if now >= stamp {
        (now - stamp) as u64
    } else {
        0
    }
}

/// What the cache has to say on a source.
#[verifier::ext_equal]
pub enum PlanView {
    /// The value is fresh.
    Serve(Seq<u8>),
    /// A failure is still held.
    Refuse,
    /// The source must be read.
    Read,
}

/// A value serves for its lifetime, for good where it has none, as a variable never
/// has; a failure is
/// held for its lifetime. Else the source is read.
pub open spec fn plan_of(c: CacheView, s: SourceView, now: u64) -> PlanView {
    match found(c, key_of(s)) {
        None => PlanView::Read,
        Some(e) => if e.ok {
            if lifetime(s) is None || age(now, e.stamp) < lifetime(s)->0 {
                PlanView::Serve(
                    match e.value {
                        Some(v) => v,
                        None => Seq::empty(),
                    },
                )
            } else {
                PlanView::Read
            }
        } else if age(now, e.stamp) < failure_millis(s.failure_ttl) {
            PlanView::Refuse
        } else {
            PlanView::Read
        },
    }
}

/// What is remembered of a source that was read, and what is answered. A failed
/// read after a success serves the old value, and the next read is due after
/// half the lifetime; a failed read without one is held as a failure.
pub open spec fn read_result(
    c: CacheView,
    s: SourceView,
    now: u64,
    read: Result<Seq<u8>, Seq<char>>,
) -> (EntryView, Result<Seq<u8>, Seq<char>>) {
    match read {
        Ok(v) => (EntryView { value: Some(v), stamp: now, ok: true }, Ok(v)),
        Err(reason) => match found(c, key_of(s)) {
            Some(e) if e.ok => {
                let stale = match e.value {
                    Some(v) => v,
                    None => Seq::empty(),
                };
                let stamp = match lifetime(s) {
                    Some(t) => moment_before(now, t / 2),
                    None => now,
                };
                (EntryView { value: Some(stale), stamp, ok: true }, Ok(stale))
            },
            _ => (EntryView { value: None, stamp: now, ok: false }, Err(reason)),
        },
    }
}

/// The cache after a source was read.
pub open spec fn after_read(
    c: CacheView,
    s: SourceView,
    now: u64,
    read: Result<Seq<u8>, Seq<char>>,
) -> CacheView {
    put(c, key_of(s), read_result(c, s, now, read).0)
}

/// What the cache has to say on a source.
pub enum CachePlan {
    Serve(Secret),
    Refuse(ResolveError),
    Read,
}

fn opt_copy(o: &Option<Secret>) -> (r: Secret)
    ensures
        r@ == (match o {
            Some(s) => s@,
            None => Seq::<u8>::empty(),
        }),
{
    match o {
        Some(s) => s.copy(),
        None => {
            let none: Vec<u8> = Vec::new();
            Secret::new(none)
        },
    }
}

/// What was read, as a view.
pub open spec fn read_of(r: Result<Secret, String>) -> Result<Seq<u8>, Seq<char>> {
    match r {
        Ok(v) => Ok(v@),
        Err(e) => Err(e@),
    }
}

/// One whole call for a source: the answer of the cache where it has one, else of
/// what reading the source gives, which is then remembered.
pub open spec fn called(
    c: CacheView,
    s: SourceView,
    now: u64,
    read: Result<Seq<u8>, Seq<char>>,
) -> (CacheView, Result<Seq<u8>, Seq<char>>) {
    match plan_of(c, s, now) {
        PlanView::Serve(v) => (c, Ok(v)),
        PlanView::Refuse => (c, Err("cached failure"@)),
        PlanView::Read => (after_read(c, s, now, read), read_result(c, s, now, read).1),
    }
}

/// An answer, as a view.
pub open spec fn answer_of(r: Result<Secret, ResolveError>) -> Result<Seq<u8>, Seq<char>> {
    match r {
        Ok(s) => Ok(s@),
        Err(e) => Err(e.reason@),
    }
}

impl EnvFileResolver {
    pub fn new() -> (r: Self)
        ensures
            r@ == Seq::<(Seq<char>, EntryView)>::empty(),
    {
        let entries: StrMap<Entry> = StrMap::new();
        assert(entry_views(entries@) == Seq::<(Seq<char>, EntryView)>::empty());
        EnvFileResolver { entries }
    }

    /// Whether a source can be answered without reading it.
    pub fn plan(&self, source: &SourceRef, now: u64) -> (r: CachePlan)
        ensures
            match r {
                CachePlan::Serve(s) => plan_of(self@, source@, now) == PlanView::Serve(s@),
                CachePlan::Refuse(e) => plan_of(self@, source@, now) == PlanView::Refuse
                    && e.source@ == source@ && e.reason@ == "cached failure"@,
                CachePlan::Read => plan_of(self@, source@, now) == PlanView::Read,
            },
    {
        let key = cache_key(source);
        match self.entries.get(key.as_str()) {
            None => {
                proof {
                    self.finds_nothing(key@);
                }
                CachePlan::Read
            },
            Some(e) => {
                proof {
                    mapping_commutes(self.entries@, |e: Entry| e@, key@, *e);
                }
                if e.ok {
                    let fresh: bool = match lifetime_of(source) {
                        None => true,
                        Some(t) => (now.saturating_sub(e.stamp) as u128) < t,
                    };
                    if fresh {
                        return CachePlan::Serve(opt_copy(&e.value));
                    }
                    CachePlan::Read
                } else {
                    let hold: u128 = match source.failure_ttl {
                        Some(t) => t,
                        None => 60_000,
                    };
                    if (now.saturating_sub(e.stamp) as u128) < hold {
                        return CachePlan::Refuse(
                            ResolveError {
                                source: source.copy(),
                                reason: "cached failure".to_owned(),
                            },
                        );
                    }
                    CachePlan::Read
                }
            },
        }
    }

    proof fn finds_nothing(&self, key: Seq<char>)
        requires
            found(self.entries@, key) is None,
        ensures
            found(self@, key) is None,
    {
        let any = Entry { value: None, stamp: 0, ok: false };
        mapping_commutes(self.entries@, |e: Entry| e@, key, any);
    }

    /// Remembers what reading a source gave and answers from it.
    pub fn complete(&mut self, source: &SourceRef, now: u64, read: Result<Secret, String>) -> (r:
        Result<Secret, ResolveError>)
        ensures
            final(self)@ == after_read(old(self)@, source@, now, read_of(read)),
            match r {
                Ok(s) => read_result(old(self)@, source@, now, read_of(read)).1 == Ok::<
                    Seq<u8>,
                    Seq<char>,
                >(s@),
                Err(e) => read_result(old(self)@, source@, now, read_of(read)).1 == Err::<
                    Seq<u8>,
                    Seq<char>,
                >(e.reason@) && e.source@ == source@,
            },
    {
        let key = cache_key(source);
        let ghost k = key@;
        let ghost before = self.entries@;
        let ghost f = |e: Entry| e@;
        match read {
            Ok(value) => {
                let answer = value.copy();
                let entry = Entry { value: Some(value), stamp: now, ok: true };
                proof {
                    mapping_commutes(before, f, k, entry);
                }
                self.entries.insert(key, entry);
                Ok(answer)
            },
            Err(reason) => {
                let stale = match self.entries.get(key.as_str()) {
                    Some(e) => {
                        proof {
                            mapping_commutes(before, f, k, *e);
                        }
                        if e.ok {
                            Some(opt_copy(&e.value))
                        } else {
                            None
                        }
                    },
                    None => {
                        proof {
                            self.finds_nothing(k);
                        }
                        None
                    },
                };
                match stale {
                    Some(value) => {
                        let stamp: u64 = match lifetime_of(source) {
                            Some(t) => if now as u128 >= t / 2 {
                                now - (t / 2) as u64
                            } else {
                                0
                            },
                            None => now,
                        };
                        let answer = value.copy();
                        let entry = Entry { value: Some(value), stamp, ok: true };
                        proof {
                            mapping_commutes(before, f, k, entry);
                        }
                        self.entries.insert(key, entry);
                        Ok(answer)
                    },
                    None => {
                        let entry = Entry { value: None, stamp: now, ok: false };
                        proof {
                            mapping_commutes(before, f, k, entry);
                        }
                        self.entries.insert(key, entry);
                        Err(ResolveError { source: source.copy(), reason })
                    },
                }
            },
        }
    }

    /// Resolves a source. `read` reads it and is called only where nothing that is kept
    /// can answer.
    pub fn resolve<F: FnOnce() -> RawRead>(&mut self, source: &SourceRef, now: u64, read: F) -> (r:
        Result<Secret, ResolveError>)
        requires
            read.requires(()),
        ensures
            match plan_of(old(self)@, source@, now) {
                PlanView::Serve(v) => (r matches Ok(s) && s@ == v) && final(self)@ == old(self)@,
                PlanView::Refuse => (r matches Err(e) && e.reason@ == "cached failure"@)
                    && final(self)@ == old(self)@,
                PlanView::Read => exists|raw: RawRead| #[trigger]
                    read.ensures((), raw) && (final(self)@, answer_of(r)) == called(
                        old(self)@,
                        source@,
                        now,
                        source_value(raw@, source@.json_key),
                    ),
            },
            r matches Err(e) ==> e.source@ == source@,
    {
        match self.plan(source, now) {
            CachePlan::Serve(s) => Ok(s),
            CachePlan::Refuse(e) => Err(e),
            CachePlan::Read => {
                let raw = read();
                let ghost given = raw;
                let value = read_value(raw, source);
                assert(read_of(value) == source_value(given@, source@.json_key));
                let r = self.complete(source, now, value);
                assert(read.ensures((), given));
                assert((self@, answer_of(r)) == called(
                    old(self)@,
                    source@,
                    now,
                    source_value(given@, source@.json_key),
                ));
                r
            },
        }
    }
}

// ---- Laws -------------------------------------------------------------------------------

/// What was read serves, without another read, for its lifetime; for good where
/// it has none.
pub proof fn success_is_kept(c: CacheView, s: SourceView, now: u64, v: Seq<u8>, later: u64)
    requires
        crate::strmap::sorted(c),
        lifetime(s) is None || age(later, now) < lifetime(s)->0,
    ensures
        plan_of(after_read(c, s, now, Ok(v)), s, later) == PlanView::Serve(v),
{
    crate::strmap::put_laws(c, key_of(s), read_result(c, s, now, Ok(v)).0);
}

/// A failure without an earlier success is held for its lifetime, and then the
/// source is read again.
pub proof fn failure_is_held_then_retried(
    c: CacheView,
    s: SourceView,
    now: u64,
    reason: Seq<char>,
    later: u64,
)
    requires
        crate::strmap::sorted(c),
        !(found(c, key_of(s)) matches Some(e) && e.ok),
    ensures
        read_result(c, s, now, Err(reason)).1 == Err::<Seq<u8>, Seq<char>>(reason),
        plan_of(after_read(c, s, now, Err(reason)), s, later) == (if age(later, now)
            < failure_millis(s.failure_ttl) {
            PlanView::Refuse
        } else {
            PlanView::Read
        }),
{
    crate::strmap::put_laws(c, key_of(s), read_result(c, s, now, Err(reason)).0);
}

/// After a success a failed read never loses the value: the old one is answered,
/// and the source is read again once half the lifetime has gone by.
pub proof fn stale_value_is_served(
    c: CacheView,
    s: SourceView,
    now: u64,
    reason: Seq<char>,
    later: u64,
)
    requires
        crate::strmap::sorted(c),
        found(c, key_of(s)) matches Some(e) && e.ok && e.value is Some,
        lifetime(s) matches Some(t) && t / 2 <= now <= later,
    ensures
        ({
            let old_value = found(c, key_of(s))->0.value->0;
            let ttl = lifetime(s)->0;
            &&& read_result(c, s, now, Err(reason)).1 == Ok::<Seq<u8>, Seq<char>>(old_value)
            &&& plan_of(after_read(c, s, now, Err(reason)), s, later) == (if later - now < ttl - ttl
                / 2 {
                PlanView::Serve(old_value)
            } else {
                PlanView::Read
            })
        }),
{
    crate::strmap::put_laws(c, key_of(s), read_result(c, s, now, Err(reason)).0);
}

/// Reading one source leaves what is known of every other as it was.
pub proof fn sources_do_not_share(
    c: CacheView,
    s: SourceView,
    other: SourceView,
    now: u64,
    read: Result<Seq<u8>, Seq<char>>,
    later: u64,
)
    requires
        crate::strmap::sorted(c),
        key_of(s) != key_of(other),
    ensures
        plan_of(after_read(c, s, now, read), other, later) == plan_of(c, other, later),
{
    crate::strmap::put_laws(c, key_of(s), read_result(c, s, now, read).0);
}

/// The name of a source holds no NUL, as names of variables and files do not.
pub open spec fn plain_source(s: SourceView) -> bool {
    !crate::secret::source_name(s).contains('\0')
}

spec fn key_base(s: SourceView) -> Seq<char> {
    match s.kind {
        SourceKindView::Env { var } => "env:"@ + var,
        SourceKindView::File { path } => "file:"@ + path,
    }
}

proof fn base_is_plain(s: SourceView)
    requires
        plain_source(s),
    ensures
        forall|i: int| 0 <= i < key_base(s).len() ==> #[trigger] key_base(s)[i] != '\0',
        key_base(s).len() >= 4,
        s.kind is Env ==> key_base(s)[0] == 'e',
        s.kind is File ==> key_base(s)[0] == 'f',
{
    reveal_strlit("env:");
    reveal_strlit("file:");
    let b = key_base(s);
    let n = crate::secret::source_name(s);
    assert forall|i: int| 0 <= i < b.len() implies #[trigger] b[i] != '\0' by {
        let k = if s.kind is Env {
            4int
        } else {
            5int
        };
        if i >= k {
            assert(b[i] == n[i - k]);
        }
    }
}

/// Two sources with the same identity in the cache are of the same kind and have
/// the same name and the same key: a variable never stands for a file, nor one
/// field of a file for another.
pub proof fn cache_keys_tell_sources_apart(a: SourceView, b: SourceView)
    requires
        plain_source(a),
        plain_source(b),
        key_of(a) == key_of(b),
    ensures
        a.kind == b.kind,
        a.json_key == b.json_key,
{
    base_is_plain(a);
    base_is_plain(b);
    reveal_strlit("\0");
    reveal_strlit("env:");
    reveal_strlit("file:");
    let x = key_base(a);
    let y = key_base(b);
    let ka = key_of(a);
    let kb = key_of(b);
    if let Some(k) = a.json_key {
        assert(ka == x + "\0"@ + k);
        assert(ka[x.len() as int] == '\0');
    } else {
        assert(ka == x);
    }
    if let Some(k) = b.json_key {
        assert(kb == y + "\0"@ + k);
        assert(kb[y.len() as int] == '\0');
    } else {
        assert(kb == y);
    }
    if x.len() < y.len() {
        assert(kb[x.len() as int] == y[x.len() as int]);
        assert(false);
    } else if y.len() < x.len() {
        assert(ka[y.len() as int] == x[y.len() as int]);
        assert(false);
    }
    assert(ka.take(x.len() as int) == x);
    assert(kb.take(y.len() as int) == y);
    assert(ka[0] == x[0] && kb[0] == y[0]);
    match (a.kind, b.kind) {
        (SourceKindView::Env { var: m }, SourceKindView::Env { var: n }) => {
            assert(x.skip(4) == m);
            assert(y.skip(4) == n);
        },
        (SourceKindView::File { path: m }, SourceKindView::File { path: n }) => {
            assert(x.skip(5) == m);
            assert(y.skip(5) == n);
        },
        _ => {},
    }
    if let (Some(k), Some(l)) = (a.json_key, b.json_key) {
        assert(ka.skip(x.len() + 1int) == k);
        assert(kb.skip(y.len() + 1int) == l);
    }
}

/// Two calls for a file with a lifetime, the first of which read it. Within the
/// lifetime the second is answered with the value of the first, whatever the file
/// holds by now. After it the file is read again: a new value is answered; where
/// reading fails the old one is, and then the file is left alone for half the
/// lifetime.
pub proof fn file_is_refreshed_after_its_lifetime(
    c: CacheView,
    s: SourceView,
    first: u64,
    v: Seq<u8>,
    second: u64,
    read: Result<Seq<u8>, Seq<char>>,
    third: u64,
)
    requires
        crate::strmap::sorted(c),
        lifetime(s) is Some,
        plan_of(c, s, first) == PlanView::Read,
        first <= second <= third,
    ensures
        ({
            let ttl = lifetime(s)->0;
            let (c1, a1) = called(c, s, first, Ok(v));
            let (c2, a2) = called(c1, s, second, read);
            &&& a1 == Ok::<Seq<u8>, Seq<char>>(v)
            &&& second - first < ttl ==> a2 == Ok::<Seq<u8>, Seq<char>>(v) && c2 == c1
            &&& second - first >= ttl ==> match read {
                Ok(w) => a2 == Ok::<Seq<u8>, Seq<char>>(w),
                Err(_) => {
                    &&& a2 == Ok::<Seq<u8>, Seq<char>>(v)
                    &&& third < second + ttl / 2 ==> plan_of(c2, s, third) == PlanView::Serve(v)
                },
            }
        }),
{
    let (c1, _a1) = called(c, s, first, Ok(v));
    crate::strmap::put_laws(c, key_of(s), read_result(c, s, first, Ok(v)).0);
    crate::strmap::put_laws(c1, key_of(s), read_result(c1, s, second, read).0);
}

/// A variable that was read is answered with that value for good, whatever lifetime
/// its source gives.
pub proof fn variable_is_kept_for_good(
    c: CacheView,
    s: SourceView,
    first: u64,
    v: Seq<u8>,
    second: u64,
    read: Result<Seq<u8>, Seq<char>>,
)
    requires
        crate::strmap::sorted(c),
        s.kind is Env,
        plan_of(c, s, first) == PlanView::Read,
    ensures
        ({
            let (c1, a1) = called(c, s, first, Ok(v));
            &&& a1 == Ok::<Seq<u8>, Seq<char>>(v)
            &&& called(c1, s, second, read) == (c1, Ok::<Seq<u8>, Seq<char>>(v))
        }),
{
    crate::strmap::put_laws(c, key_of(s), read_result(c, s, first, Ok(v)).0);
}

/// A call for one source never changes what a call for another is answered, where
/// they differ in kind, name or key.
pub proof fn calls_keep_sources_apart(
    c: CacheView,
    s: SourceView,
    first: u64,
    read: Result<Seq<u8>, Seq<char>>,
    other: SourceView,
    second: u64,
    other_read: Result<Seq<u8>, Seq<char>>,
)
    requires
        crate::strmap::sorted(c),
        plain_source(s),
        plain_source(other),
        s.kind != other.kind || s.json_key != other.json_key,
    ensures
        called(called(c, s, first, read).0, other, second, other_read).1 == called(
            c,
            other,
            second,
            other_read,
        ).1,
{
    if key_of(s) == key_of(other) {
        cache_keys_tell_sources_apart(s, other);
    }
    crate::strmap::put_laws(c, key_of(s), read_result(c, s, first, read).0);
}

} // verus!
