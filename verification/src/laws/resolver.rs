//! How long what was read of a source is used.
use vstd::prelude::*;
use vstd::string::*;
use vstd::utf8::*;

use crate::resolver::{CacheView, EntryView, FieldView, PlanView, RawView};
use crate::secret::{SourceKindView, SourceView};

verus! {

/// A source is read as it stands, or as one field of what stands there; a variable that is not
/// set or empty has no value, and neither has a file that cannot be read.
pub proof fn sources_are_read(b: Seq<u8>, key: Seq<char>, why: Seq<char>, field: Seq<char>)
    ensures
        crate::resolver::source_value(RawView::Env(None), None) is Err,
        crate::resolver::source_value(RawView::Env(None), Some(key)) is Err,
        crate::resolver::source_value(RawView::File(Err(why)), None) is Err,
        crate::resolver::source_value(RawView::File(Err(why)), Some(key)) is Err,
        crate::resolver::source_value(RawView::File(Ok(b)), None) == Ok::<Seq<u8>, Seq<char>>(b),
        crate::resolver::source_value(RawView::Env(Some(b)), None) == (if b.len() > 0 {
            Ok::<Seq<u8>, Seq<char>>(b)
        } else {
            crate::resolver::source_value(RawView::Env(None), None)
        }),
        b.len() > 0 ==> crate::resolver::source_value(RawView::Env(Some(b)), Some(key))
            == crate::resolver::source_value(RawView::File(Ok(b)), Some(key)),
        crate::resolver::field_value(FieldView::Text(field), key) == Ok::<Seq<u8>, Seq<char>>(
            encode_utf8(field),
        ),
        crate::resolver::field_value(FieldView::NotJson, key) is Err,
        crate::resolver::field_value(FieldView::Missing, key) is Err,
{
}

/// A field is the text of a member of the JSON value that the bytes are.
pub proof fn fields_are_members(b: Seq<u8>, key: Seq<char>, t: Seq<char>)
    ensures
        crate::resolver::source_value(RawView::File(Ok(b)), Some(key)) == Ok::<
            Seq<u8>,
            Seq<char>,
        >(encode_utf8(t)) <== {
            &&& crate::resolver::json_value(b) is Some
            &&& crate::resolver::json_member(crate::resolver::json_value(b)->0, key) is Some
            &&& crate::resolver::json_string(
                crate::resolver::json_member(crate::resolver::json_value(b)->0, key)->0,
            ) == Some(t)
        },
        crate::resolver::json_value(b) is None ==> crate::resolver::source_value(
            RawView::File(Ok(b)),
            Some(key),
        ) is Err,
{
}

/// A value that was read is served: of a variable for good, of a file for good or for its time,
/// after which it is read again.
pub proof fn values_are_kept_for_their_time(
    c: CacheView,
    s: SourceView,
    now: u64,
    v: Seq<u8>,
    later: u64,
)
    requires
        crate::strmap::sorted(c),
        now <= later,
    ensures
        ({
            let d = crate::resolver::after_read(c, s, now, Ok::<Seq<u8>, Seq<char>>(v));
            let p = crate::resolver::plan_of(d, s, later);
            &&& crate::resolver::read_result(c, s, now, Ok::<Seq<u8>, Seq<char>>(v)).1 == Ok::<
                Seq<u8>,
                Seq<char>,
            >(v)
            &&& match s.kind {
                SourceKindView::Env { .. } => p == PlanView::Serve(v),
                SourceKindView::File { .. } => match s.ttl {
                    None => p == PlanView::Serve(v),
                    Some(t) => if later - now < t {
                        p == PlanView::Serve(v)
                    } else {
                        p is Read
                    },
                },
            }
        }),
{
    crate::strmap::put_laws(
        c,
        crate::resolver::key_of(s),
        EntryView { value: Some(v), stamp: now, ok: true },
    );
}

/// A source that was not read before and cannot be read is refused for its time, a minute where
/// nothing is said, and is read again after that.
pub proof fn failures_are_kept_for_their_time(
    c: CacheView,
    s: SourceView,
    now: u64,
    why: Seq<char>,
    later: u64,
)
    requires
        crate::strmap::sorted(c),
        now <= later,
        match crate::strmap::found(c, crate::resolver::key_of(s)) {
            Some(e) => !e.ok,
            None => true,
        },
    ensures
        ({
            let d = crate::resolver::after_read(c, s, now, Err::<Seq<u8>, Seq<char>>(why));
            let p = crate::resolver::plan_of(d, s, later);
            let held = match s.failure_ttl {
                Some(t) => t,
                None => 60000,
            };
            &&& crate::resolver::read_result(c, s, now, Err::<Seq<u8>, Seq<char>>(why)).1 == Err::<
                Seq<u8>,
                Seq<char>,
            >(why)
            &&& later - now < held ==> p is Refuse
            &&& later - now >= held ==> p is Read
        }),
{
    crate::strmap::put_laws(
        c,
        crate::resolver::key_of(s),
        EntryView { value: None, stamp: now, ok: false },
    );
}

/// Where a source was read before and cannot be read now, the old value is served on, and is
/// tried again after half of its time.
pub proof fn old_values_are_served_on(
    c: CacheView,
    s: SourceView,
    now: u64,
    why: Seq<char>,
    old_value: Seq<u8>,
    stamp: u64,
    t: u128,
    later: u64,
)
    requires
        crate::strmap::sorted(c),
        crate::strmap::found(c, crate::resolver::key_of(s)) == Some(
            EntryView { value: Some(old_value), stamp, ok: true },
        ),
        s.kind is File,
        s.ttl == Some(t),
        t / 2 <= now <= later,
    ensures
        ({
            let read = Err::<Seq<u8>, Seq<char>>(why);
            let d = crate::resolver::after_read(c, s, now, read);
            let p = crate::resolver::plan_of(d, s, later);
            &&& crate::resolver::read_result(c, s, now, read).1 == Ok::<Seq<u8>, Seq<char>>(
                old_value,
            )
            &&& later - now + t / 2 < t ==> p == PlanView::Serve(old_value)
            &&& later - now + t / 2 >= t ==> p is Read
        }),
{
    let at = (now - t / 2) as u64;
    crate::strmap::put_laws(
        c,
        crate::resolver::key_of(s),
        EntryView { value: Some(old_value), stamp: at, ok: true },
    );
}

/// A source that was never asked for is read, and its answer changes no other's.
pub proof fn sources_are_kept_apart(
    c: CacheView,
    s: SourceView,
    other: SourceView,
    now: u64,
    read: Result<Seq<u8>, Seq<char>>,
)
    requires
        crate::strmap::sorted(c),
        crate::resolver::key_of(s) != crate::resolver::key_of(other),
    ensures
        crate::strmap::found(c, crate::resolver::key_of(s)) is None ==> crate::resolver::plan_of(
            c,
            s,
            now,
        ) is Read,
        crate::resolver::plan_of(crate::resolver::after_read(c, s, now, read), other, now)
            == crate::resolver::plan_of(c, other, now),
        crate::strmap::sorted(crate::resolver::after_read(c, s, now, read)),
{
    crate::strmap::put_laws(
        c,
        crate::resolver::key_of(s),
        crate::resolver::read_result(c, s, now, read).0,
    );
}

/// A call serves what is fresh, refuses what failed just now, and reads else.
pub proof fn calls_follow_the_plan(
    c: CacheView,
    s: SourceView,
    now: u64,
    read: Result<Seq<u8>, Seq<char>>,
)
    ensures
        ({
            let r = crate::resolver::called(c, s, now, read);
            match crate::resolver::plan_of(c, s, now) {
                PlanView::Serve(v) => r.0 == c && r.1 == Ok::<Seq<u8>, Seq<char>>(v),
                PlanView::Refuse => r.0 == c && r.1 is Err,
                PlanView::Read => r.0 == crate::resolver::after_read(c, s, now, read) && r.1
                    == crate::resolver::read_result(c, s, now, read).1,
            }
        }),
{
}

/// Sources are told apart by their kind, their name and their field.
pub proof fn keys_tell_sources_apart(var: Seq<char>, path: Seq<char>, key: Seq<char>)
    ensures
        ({
            let s = |kind: SourceKindView, json_key: Option<Seq<char>>|
                SourceView { kind, json_key, ttl: None, failure_ttl: None };
            let env = SourceKindView::Env { var };
            let file = SourceKindView::File { path };
            &&& crate::resolver::key_of(s(env, None)) == "env:"@ + var
            &&& crate::resolver::key_of(s(file, None)) == "file:"@ + path
            &&& crate::resolver::key_of(s(env, Some(key))) == "env:"@ + var + seq!['\0'] + key
            &&& crate::resolver::key_of(s(file, Some(key))) == "file:"@ + path + seq!['\0'] + key
        }),
{
    reveal_strlit("\0");
    assert("\0"@ =~= seq!['\0']);
}

} // verus!
