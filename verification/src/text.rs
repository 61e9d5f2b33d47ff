//! Text as sequences of characters: the ASCII case maps, splitting, searching,
//! trimming and decimal numbers that the rest of the crate is stated over.
use vstd::prelude::*;
use vstd::string::*;
use vstd::utf8::*;

verus! {

// ---- Trusted: string building and quoting in std ------------------------

/// Trusts `String::push`: the character goes to the end.
pub assume_specification[ String::push ](s: &mut String, c: char)
    ensures
        final(s)@ == old(s)@.push(c),
;

/// What std's `Debug` writes for a string slice: the text between double
/// quotes, with its escapes.
pub uninterp spec fn quoted_text(s: Seq<char>) -> Seq<char>;

/// Trusts `<str as Debug>::fmt`, reached through `format!`: what it writes
/// depends on the text alone. Which characters it escapes is not stated.
#[verifier::external_body]
pub(crate) fn quoted(s: &str) -> (r: String)
    ensures
        r@ == quoted_text(s@),
{
    format!("{:?}", s)
}

/// What `String::from_utf8_lossy` makes of bytes that are not UTF-8.
pub uninterp spec fn lossy_text(b: Seq<u8>) -> Seq<char>;

/// The text of bytes: decoded where they are UTF-8, else with what is not
/// UTF-8 in them replaced.
pub open spec fn bytes_text(b: Seq<u8>) -> Seq<char> {
    if valid_utf8(b) {
        decode_utf8(b)
    } else {
        lossy_text(b)
    }
}

/// Trusts `String::from_utf8_lossy`: bytes that are UTF-8 are decoded as they
/// are; for others the result depends on the bytes alone. Where the
/// replacement characters go is not stated.
#[verifier::external_body]
pub(crate) fn lossy(b: &[u8]) -> (r: String)
    ensures
        valid_utf8(b@) ==> r@ == decode_utf8(b@),
        !valid_utf8(b@) ==> r@ == lossy_text(b@),
{
    String::from_utf8_lossy(b).into_owned()
}

/// Trusts `str::from_utf8`, followed by a copy: it succeeds on UTF-8 and on
/// nothing else, and keeps the text.
#[verifier::external_body]
pub(crate) fn decode(b: &[u8]) -> (r: Option<String>)
    ensures
        match r {
            Some(s) => valid_utf8(b@) && s@ == decode_utf8(b@),
            None => !valid_utf8(b@),
        },
{
    std::str::from_utf8(b).ok().map(str::to_owned)
}

// ---- Characters -----------------------------------------------------------

/// ASCII lowercase of one character; others stay.
pub open spec fn lower_char(c: char) -> char {
    if 'A' <= c <= 'Z' {
        (c as u32 + 32) as char
    } else {
        c
    }
}

/// ASCII uppercase of one character; others stay.
pub open spec fn upper_char(c: char) -> char {
    if 'a' <= c <= 'z' {
        (c as u32 - 32) as char
    } else {
        c
    }
}

/// ASCII lowercase of a text.
pub open spec fn lower(s: Seq<char>) -> Seq<char> {
    s.map_values(|c: char| lower_char(c))
}

/// ASCII uppercase of a text.
pub open spec fn upper(s: Seq<char>) -> Seq<char> {
    s.map_values(|c: char| upper_char(c))
}

/// The Unicode `White_Space` characters.
pub open spec fn is_space(c: char) -> bool {
    let u = c as u32;
    ||| 0x09 <= u <= 0x0d
    ||| u == 0x20
    ||| u == 0x85
    ||| u == 0xa0
    ||| u == 0x1680
    ||| 0x2000 <= u <= 0x200a
    ||| u == 0x2028
    ||| u == 0x2029
    ||| u == 0x202f
    ||| u == 0x205f
    ||| u == 0x3000
}

/// A decimal digit.
pub open spec fn is_digit(c: char) -> bool {
    '0' <= c <= '9'
}

pub fn lower_of(c: char) -> (r: char)
    ensures
        r == lower_char(c),
{
    if 'A' <= c && c <= 'Z' {
        ((c as u8) + 32) as char
    } else {
        c
    }
}

pub fn upper_of(c: char) -> (r: char)
    ensures
        r == upper_char(c),
{
    if 'a' <= c && c <= 'z' {
        ((c as u8) - 32) as char
    } else {
        c
    }
}

pub fn space(c: char) -> (r: bool)
    ensures
        r == is_space(c),
{
    let u: u32 = c as u32;
    (0x09 <= u && u <= 0x0d) || u == 0x20 || u == 0x85 || u == 0xa0 || u == 0x1680 || (0x2000 <= u
        && u <= 0x200a) || u == 0x2028 || u == 0x2029 || u == 0x202f || u == 0x205f || u == 0x3000
}

// ---- Between strings and character vectors --------------------------------

pub fn chars_of(s: &str) -> (r: Vec<char>)
    ensures
        r@ == s@,
{
    let mut out: Vec<char> = Vec::new();
    for c in it: s.chars()
        invariant
            it.seq() == s@,
            out@ == s@.take(it.index()),
    {
        out.push(c);
        assert(s@.take(it.index() + 1) == s@.take(it.index()).push(s@[it.index()]));
    }
    assert(s@.take(s@.len() as int) == s@);
    out
}

/// The string of the characters `from..to`.
pub fn piece(c: &Vec<char>, from: usize, to: usize) -> (r: String)
    requires
        from <= to <= c@.len(),
    ensures
        r@ == c@.subrange(from as int, to as int),
{
    let mut out = String::new();
    let mut i: usize = from;
    while i < to
        invariant
            from <= i <= to <= c@.len(),
            out@ == c@.subrange(from as int, i as int),
        decreases to - i,
    {
        out.push(c[i]);
        i += 1;
        assert(c@.subrange(from as int, i as int) == c@.subrange(from as int, i - 1).push(
            c@[i - 1],
        ));
    }
    out
}

pub fn same(a: &str, b: &str) -> (r: bool)
    ensures
        r == (a@ == b@),
{
    let x = a.to_owned();
    let y = b.to_owned();
    x == y
}

/// `a` then `b`.
pub fn join2(a: &str, b: &str) -> (r: String)
    ensures
        r@ == a@ + b@,
{
    let mut out = a.to_owned();
    out.append(b);
    out
}

/// `a`, `b`, then `c`.
pub fn join3(a: &str, b: &str, c: &str) -> (r: String)
    ensures
        r@ == a@ + b@ + c@,
{
    let mut out = a.to_owned();
    out.append(b);
    out.append(c);
    out
}

pub fn to_lower(s: &str) -> (r: String)
    ensures
        r@ == lower(s@),
{
    let mut out = String::new();
    for c in it: s.chars()
        invariant
            it.seq() == s@,
            out@ == lower(s@.take(it.index())),
    {
        out.push(lower_of(c));
        assert(s@.take(it.index() + 1) == s@.take(it.index()).push(s@[it.index()]));
    }
    assert(s@.take(s@.len() as int) == s@);
    out
}

pub fn to_upper(s: &str) -> (r: String)
    ensures
        r@ == upper(s@),
{
    let mut out = String::new();
    for c in it: s.chars()
        invariant
            it.seq() == s@,
            out@ == upper(s@.take(it.index())),
    {
        out.push(upper_of(c));
        assert(s@.take(it.index() + 1) == s@.take(it.index()).push(s@[it.index()]));
    }
    assert(s@.take(s@.len() as int) == s@);
    out
}

/// Two texts are equal up to ASCII case.
pub open spec fn same_caseless(a: Seq<char>, b: Seq<char>) -> bool {
    lower(a) == lower(b)
}

pub fn eq_caseless(a: &str, b: &str) -> (r: bool)
    ensures
        r == same_caseless(a@, b@),
{
    let x = to_lower(a);
    let y = to_lower(b);
    x == y
}

// ---- Lists of strings -----------------------------------------------------

/// The texts of a list of strings.
pub open spec fn texts(v: Seq<String>) -> Seq<Seq<char>> {
    v.map_values(|s: String| s@)
}

/// The text of an optional string.
pub open spec fn opt_text(o: Option<String>) -> Option<Seq<char>> {
    match o {
        Some(s) => Some(s@),
        None => None,
    }
}

pub fn has_text(v: &Vec<String>, s: &str) -> (r: bool)
    ensures
        r == texts(v@).contains(s@),
{
    let mut i: usize = 0;
    while i < v.len()
        invariant
            i <= v@.len(),
            forall|j: int| 0 <= j < i ==> texts(v@)[j] != s@,
        decreases v@.len() - i,
    {
        if same(v[i].as_str(), s) {
            assert(texts(v@)[i as int] == s@);
            return true;
        }
        i += 1;
    }
    false
}

pub fn copy_texts(v: &Vec<String>) -> (r: Vec<String>)
    ensures
        texts(r@) == texts(v@),
{
    let mut out: Vec<String> = Vec::new();
    let mut i: usize = 0;
    while i < v.len()
        invariant
            i <= v@.len(),
            out@.len() == i,
            forall|j: int| 0 <= j < i ==> out@[j]@ == (#[trigger] v@[j])@,
        decreases v@.len() - i,
    {
        out.push(v[i].clone());
        i += 1;
    }
    assert(texts(out@) == texts(v@));
    out
}

pub fn copy_opt(o: &Option<String>) -> (r: Option<String>)
    ensures
        opt_text(r) == opt_text(*o),
{
    match o {
        Some(s) => Some(s.clone()),
        None => None,
    }
}

// ---- Searching ------------------------------------------------------------

/// The first index at or after `i` that holds `c`, or the length.
pub open spec fn first_from(s: Seq<char>, c: char, i: int) -> int
    decreases s.len() - i,
{
    if i >= s.len() {
        s.len() as int
    } else if s[i] == c {
        i
    } else {
        first_from(s, c, i + 1)
    }
}

/// The last index before `n` that holds `c`, or `-1`.
pub open spec fn last_before(s: Seq<char>, c: char, n: int) -> int
    decreases n,
{
    if n <= 0 {
        -1
    } else if s[n - 1] == c {
        n - 1
    } else {
        last_before(s, c, n - 1)
    }
}

/// `pat` stands in `s` at index `i`.
pub open spec fn occurs_at<T>(s: Seq<T>, pat: Seq<T>, i: int) -> bool {
    &&& 0 <= i
    &&& i + pat.len() <= s.len()
    &&& s.subrange(i, i + pat.len()) == pat
}

/// The first index at or after `i` where `pat` occurs, if any.
pub open spec fn find_from(s: Seq<char>, pat: Seq<char>, i: int) -> Option<int>
    decreases s.len() + 1 - i,
{
    if i < 0 || i > s.len() {
        None
    } else if occurs_at(s, pat, i) {
        Some(i)
    } else {
        find_from(s, pat, i + 1)
    }
}

/// `s` begins with `pat`.
pub open spec fn begins(s: Seq<char>, pat: Seq<char>) -> bool {
    occurs_at(s, pat, 0)
}

/// `s` ends with `pat`.
pub open spec fn ends(s: Seq<char>, pat: Seq<char>) -> bool {
    occurs_at(s, pat, s.len() - pat.len())
}

pub fn first_index(s: &Vec<char>, c: char, from: usize) -> (r: usize)
    requires
        from <= s@.len(),
    ensures
        r == first_from(s@, c, from as int),
        from <= r <= s@.len(),
        r < s@.len() ==> s@[r as int] == c,
{
    let mut i: usize = from;
    while i < s.len() && s[i] != c
        invariant
            from <= i <= s@.len(),
            first_from(s@, c, from as int) == first_from(s@, c, i as int),
        decreases s@.len() - i,
    {
        i += 1;
    }
    i
}

pub fn last_index(s: &Vec<char>, c: char) -> (r: Option<usize>)
    ensures
        match r {
            Some(i) => i == last_before(s@, c, s@.len() as int) && i < s@.len() && s@[i as int]
                == c,
            None => last_before(s@, c, s@.len() as int) == -1,
        },
{
    let mut n: usize = s.len();
    while n > 0
        invariant
            n <= s@.len(),
            last_before(s@, c, s@.len() as int) == last_before(s@, c, n as int),
        decreases n,
    {
        if s[n - 1] == c {
            return Some(n - 1);
        }
        n -= 1;
    }
    None
}

pub fn occurs(s: &Vec<char>, pat: &Vec<char>, at: usize) -> (r: bool)
    requires
        at <= s@.len(),
    ensures
        r == occurs_at(s@, pat@, at as int),
{
    if pat.len() > s.len() - at {
        return false;
    }
    let mut k: usize = 0;
    while k < pat.len()
        invariant
            k <= pat@.len(),
            at + pat@.len() <= s.len(),
            forall|j: int| 0 <= j < k ==> s@[at + j] == pat@[j],
        decreases pat@.len() - k,
    {
        if s[at + k] != pat[k] {
            assert(s@.subrange(at as int, at + pat@.len())[k as int] == s@[at + k]);
            return false;
        }
        k += 1;
    }
    assert(s@.subrange(at as int, at + pat@.len()) == pat@);
    true
}

pub fn find(s: &Vec<char>, pat: &Vec<char>, from: usize) -> (r: Option<usize>)
    requires
        from <= s@.len(),
    ensures
        match r {
            Some(i) => find_from(s@, pat@, from as int) == Some(i as int) && occurs_at(
                s@,
                pat@,
                i as int,
            ),
            None => find_from(s@, pat@, from as int) is None,
        },
{
    let mut i: usize = from;
    loop
        invariant
            from <= i <= s@.len(),
            find_from(s@, pat@, from as int) == find_from(s@, pat@, i as int),
        decreases s@.len() - i,
    {
        if occurs(s, pat, i) {
            return Some(i);
        }
        if i == s.len() {
            assert(find_from(s@, pat@, i + 1) is None);
            return None;
        }
        i += 1;
    }
}

/// What follows `pat` in a text that begins with it.
pub fn strip_prefix(s: &str, pat: &str) -> (r: Option<String>)
    ensures
        match r {
            Some(rest) => begins(s@, pat@) && rest@ == s@.skip(pat@.len() as int),
            None => !begins(s@, pat@),
        },
{
    let c = chars_of(s);
    let p = chars_of(pat);
    if occurs(&c, &p, 0) {
        let rest = piece(&c, p.len(), c.len());
        assert(rest@ == s@.skip(pat@.len() as int));
        Some(rest)
    } else {
        None
    }
}

// ---- Splitting ------------------------------------------------------------

/// The pieces of the first `n` characters: a separator begins a new piece, any
/// other character extends the last one.
pub open spec fn split_upto(s: Seq<char>, sep: char, n: int) -> Seq<Seq<char>>
    decreases n,
{
    if n <= 0 {
        seq![Seq::<char>::empty()]
    } else {
        let p = split_upto(s, sep, n - 1);
        if s[n - 1] == sep {
            p.push(Seq::<char>::empty())
        } else {
            p.drop_last().push(p.last().push(s[n - 1]))
        }
    }
}

/// The pieces of `s` between separators.
pub open spec fn split_on(s: Seq<char>, sep: char) -> Seq<Seq<char>> {
    split_upto(s, sep, s.len() as int)
}

/// `s` cut at the first `c`.
pub open spec fn cut_first(s: Seq<char>, c: char) -> Option<(Seq<char>, Seq<char>)> {
    let i = first_from(s, c, 0);
    if i < s.len() {
        Some((s.take(i), s.skip(i + 1)))
    } else {
        None
    }
}

/// `s` cut at the last `c`.
pub open spec fn cut_last(s: Seq<char>, c: char) -> Option<(Seq<char>, Seq<char>)> {
    let i = last_before(s, c, s.len() as int);
    if i >= 0 {
        Some((s.take(i), s.skip(i + 1)))
    } else {
        None
    }
}

/// Cuts `s` at the first `c`.
pub fn split_once(s: &str, c: char) -> (r: Option<(String, String)>)
    ensures
        match r {
            Some((a, b)) => cut_first(s@, c) == Some((a@, b@)),
            None => cut_first(s@, c) is None,
        },
{
    let v = chars_of(s);
    let i: usize = first_index(&v, c, 0);
    if i == v.len() {
        return None;
    }
    let a = piece(&v, 0, i);
    let b = piece(&v, i + 1, v.len());
    assert(a@ == s@.take(i as int));
    assert(b@ == s@.skip(i + 1));
    Some((a, b))
}

/// Cuts `s` at the last `c`.
pub fn rsplit_once(s: &str, c: char) -> (r: Option<(String, String)>)
    ensures
        match r {
            Some((a, b)) => cut_last(s@, c) == Some((a@, b@)),
            None => cut_last(s@, c) is None,
        },
{
    let v = chars_of(s);
    match last_index(&v, c) {
        None => None,
        Some(i) => {
            let a = piece(&v, 0, i);
            let b = piece(&v, i + 1, v.len());
            assert(a@ == s@.take(i as int));
            assert(b@ == s@.skip(i + 1));
            Some((a, b))
        },
    }
}

/// Every text has at least one piece.
pub proof fn split_upto_len(s: Seq<char>, sep: char, n: int)
    ensures
        split_upto(s, sep, n).len() >= 1,
    decreases n,
{
    if n > 0 {
        split_upto_len(s, sep, n - 1);
    }
}

pub fn split(s: &str, sep: char) -> (r: Vec<String>)
    ensures
        texts(r@) == split_on(s@, sep),
        r@.len() >= 1,
{
    let c = chars_of(s);
    let mut out: Vec<String> = Vec::new();
    let mut start: usize = 0;
    let mut i: usize = 0;
    proof {
        assert(c@.subrange(0, 0) == Seq::<char>::empty());
        assert(texts(out@).push(c@.subrange(0, 0)) == seq![Seq::<char>::empty()]);
    }
    while i < c.len()
        invariant
            c@ == s@,
            start <= i <= c@.len(),
            texts(out@).push(c@.subrange(start as int, i as int)) == split_upto(s@, sep, i as int),
        decreases c@.len() - i,
    {
        let ghost before = split_upto(s@, sep, i as int);
        assert(before.last() == c@.subrange(start as int, i as int));
        assert(before.drop_last() == texts(out@));
        if c[i] == sep {
            let ghost old_out = out@;
            out.push(piece(&c, start, i));
            i += 1;
            start = i;
            assert(texts(out@) == texts(old_out).push(before.last()));
            assert(c@.subrange(start as int, i as int) == Seq::<char>::empty());
        } else {
            assert(c@.subrange(start as int, i + 1) == c@.subrange(start as int, i as int).push(
                c@[i as int],
            ));
            i += 1;
        }
    }
    let ghost old_out = out@;
    out.push(piece(&c, start, c.len()));
    assert(texts(out@) == texts(old_out).push(c@.subrange(start as int, c@.len() as int)));
    out
}

/// The pieces put together again with the separator between them.
pub open spec fn joined(parts: Seq<Seq<char>>, sep: char) -> Seq<char>
    decreases parts.len(),
{
    if parts.len() == 0 {
        Seq::<char>::empty()
    } else if parts.len() == 1 {
        parts[0]
    } else {
        joined(parts.drop_last(), sep).push(sep) + parts.last()
    }
}

/// Splitting a text and joining the pieces gives the text back.
pub proof fn split_then_join(s: Seq<char>, sep: char)
    ensures
        joined(split_on(s, sep), sep) == s,
{
    split_upto_joined(s, sep, s.len() as int);
    assert(s.take(s.len() as int) == s);
}

proof fn split_upto_joined(s: Seq<char>, sep: char, n: int)
    requires
        0 <= n <= s.len(),
    ensures
        joined(split_upto(s, sep, n), sep) == s.take(n),
    decreases n,
{
    if n == 0 {
        assert(s.take(0) == Seq::<char>::empty());
    } else {
        split_upto_joined(s, sep, n - 1);
        split_upto_len(s, sep, n - 1);
        let p = split_upto(s, sep, n - 1);
        let q = split_upto(s, sep, n);
        assert(s.take(n) == s.take(n - 1).push(s[n - 1]));
        if s[n - 1] == sep {
            assert(q.drop_last() == p);
            assert(joined(q, sep) == s.take(n - 1).push(sep) + Seq::<char>::empty());
        } else {
            assert(q.drop_last() == p.drop_last());
            if p.len() == 1 {
                assert(p[0] == p.last());
            } else {
                assert(joined(q, sep) == joined(p.drop_last(), sep).push(sep) + p.last().push(
                    s[n - 1],
                ));
                assert(joined(q, sep) == joined(p, sep).push(s[n - 1]));
            }
        }
    }
}

/// Splitting goes by the first character: a separator stands behind an empty piece,
/// any other character begins the first piece.
pub proof fn split_by_the_first(s: Seq<char>, sep: char)
    requires
        s.len() > 0,
    ensures
        split_on(s.skip(1), sep).len() >= 1,
        split_on(s, sep) == (if s[0] == sep {
            seq![Seq::<char>::empty()] + split_on(s.skip(1), sep)
        } else {
            let q = split_on(s.skip(1), sep);
            q.update(0, seq![s[0]] + q[0])
        }),
{
    split_upto_by_the_first(s, sep, s.len() as int);
    split_upto_len(s.skip(1), sep, s.len() - 1);
}

proof fn split_upto_by_the_first(s: Seq<char>, sep: char, n: int)
    requires
        1 <= n <= s.len(),
    ensures
        split_upto(s, sep, n) == (if s[0] == sep {
            seq![Seq::<char>::empty()] + split_upto(s.skip(1), sep, n - 1)
        } else {
            let q = split_upto(s.skip(1), sep, n - 1);
            q.update(0, seq![s[0]] + q[0])
        }),
    decreases n,
{
    let t = s.skip(1);
    let e = Seq::<char>::empty();
    if n == 1 {
        reveal_with_fuel(split_upto, 2);
        assert(e.push(s[0]) == seq![s[0]] + e);
    } else {
        split_upto_by_the_first(s, sep, n - 1);
        let p = split_upto(s, sep, n - 1);
        let q = split_upto(t, sep, n - 2);
        split_upto_len(t, sep, n - 2);
        assert(s[n - 1] == t[n - 2]);
        let c = s[n - 1];
        if s[0] == sep {
            assert(p == seq![e] + q);
            if c != sep {
                assert(p.drop_last() == seq![e] + q.drop_last());
                assert(p.last() == q.last());
            }
        } else {
            assert(p == q.update(0, seq![s[0]] + q[0]));
            if c != sep {
                if q.len() == 1 {
                    assert((seq![s[0]] + q[0]).push(c) == seq![s[0]] + q[0].push(c));
                } else {
                    assert(p.drop_last() == q.drop_last().update(0, seq![s[0]] + q[0]));
                    assert(p.last() == q.last());
                }
            }
        }
    }
}

// ---- Trimming ---------------------------------------------------------------

/// The first index at or after `i` that holds no white space, or the length.
pub open spec fn text_start(s: Seq<char>, i: int) -> int
    decreases s.len() - i,
{
    if i >= s.len() {
        s.len() as int
    } else if is_space(s[i]) {
        text_start(s, i + 1)
    } else {
        i
    }
}

/// The end of what is left of the first `n` characters without trailing white
/// space.
pub open spec fn text_end(s: Seq<char>, n: int) -> int
    decreases n,
{
    if n <= 0 {
        0
    } else if is_space(s[n - 1]) {
        text_end(s, n - 1)
    } else {
        n
    }
}

/// `s` without white space at either end.
pub open spec fn trimmed(s: Seq<char>) -> Seq<char> {
    let b = text_start(s, 0);
    let e = text_end(s, s.len() as int);
    if b >= e {
        Seq::<char>::empty()
    } else {
        s.subrange(b, e)
    }
}

pub fn trim(s: &str) -> (r: String)
    ensures
        r@ == trimmed(s@),
{
    let c = chars_of(s);
    let mut b: usize = 0;
    while b < c.len() && space(c[b])
        invariant
            b <= c@.len(),
            text_start(c@, 0) == text_start(c@, b as int),
        decreases c@.len() - b,
    {
        b += 1;
    }
    let mut e: usize = c.len();
    while e > 0 && space(c[e - 1])
        invariant
            e <= c@.len(),
            text_end(c@, c@.len() as int) == text_end(c@, e as int),
        decreases e,
    {
        e -= 1;
    }
    if b >= e {
        String::new()
    } else {
        piece(&c, b, e)
    }
}

// ---- Decimal numbers --------------------------------------------------------

/// The value of a run of decimal digits.
pub open spec fn digits_value(s: Seq<char>) -> nat
    decreases s.len(),
{
    if s.len() == 0 {
        0
    } else {
        digits_value(s.drop_last()) * 10 + (s.last() as u32 - '0' as u32) as nat
    }
}

/// Every character is a decimal digit.
pub open spec fn all_digits(s: Seq<char>) -> bool {
    forall|i: int| 0 <= i < s.len() ==> is_digit(#[trigger] s[i])
}

/// The number that `s` writes: an optional `+`, then one or more decimal
/// digits, for a value of at most `max`.
pub open spec fn decimal(s: Seq<char>, max: nat) -> Option<nat> {
    let d = if s.len() > 0 && s[0] == '+' {
        s.skip(1)
    } else {
        s
    };
    if d.len() > 0 && all_digits(d) && digits_value(d) <= max {
        Some(digits_value(d))
    } else {
        None
    }
}

proof fn digits_value_grows(s: Seq<char>, n: int)
    requires
        0 <= n <= s.len(),
        all_digits(s),
    ensures
        digits_value(s.take(n)) <= digits_value(s),
    decreases s.len(),
{
    if n < s.len() {
        assert(all_digits(s.drop_last()));
        digits_value_grows(s.drop_last(), n);
        assert(s.drop_last().take(n) == s.take(n));
        assert(is_digit(s[s.len() - 1]));
    } else {
        assert(s.take(n) == s);
    }
}

pub fn parse_decimal(s: &str, max: u64) -> (r: Option<u64>)
    ensures
        match r {
            Some(v) => decimal(s@, max as nat) == Some(v as nat) && v <= max,
            None => decimal(s@, max as nat) is None,
        },
{
    let c = chars_of(s);
    let start: usize = if c.len() > 0 && c[0] == '+' {
        1
    } else {
        0
    };
    let ghost d = c@.skip(start as int);
    proof {
        assert(c@.skip(0) == c@);
    }
    if start == c.len() {
        return None;
    }
    let mut v: u64 = 0;
    let mut i: usize = start;
    while i < c.len()
        invariant
            start <= i <= c@.len(),
            c@ == s@,
            d == c@.skip(start as int),
            start == (if s@.len() > 0 && s@[0] == '+' {
                1int
            } else {
                0int
            }),
            s@.skip(0) == s@,
            v == digits_value(d.take(i - start)),
            v <= max,
            all_digits(d.take(i - start)),
        decreases c@.len() - i,
    {
        let ghost k = i - start;
        let ch: char = c[i];
        assert(d[k] == ch);
        if !('0' <= ch && ch <= '9') {
            assert(!is_digit(d[k]));
            return None;
        }
        let digit: u64 = (ch as u32 - '0' as u32) as u64;
        proof {
            assert(d.take(k + 1).drop_last() == d.take(k));
            assert(digits_value(d.take(k + 1)) == v * 10 + digit);
            if all_digits(d) {
                digits_value_grows(d, k + 1);
            }
        }
        if v > (u64::MAX - digit) / 10 || v * 10 + digit > max {
            return None;
        }
        v = v * 10 + digit;
        i += 1;
        assert(all_digits(d.take(k + 1))) by {
            assert forall|j: int| 0 <= j < k + 1 implies is_digit(#[trigger] d.take(k + 1)[j]) by {
                if j < k {
                    assert(d.take(k)[j] == d[j]);
                }
            }
        }
    }
    assert(d.take(d.len() as int) == d);
    Some(v)
}

/// The decimal digit of a value below ten.
pub open spec fn digit_char(d: nat) -> char {
    ('0' as u32 + d) as char
}

/// A number in decimal, without leading zeros.
pub open spec fn decimal_text(n: nat) -> Seq<char>
    decreases n,
{
    if n < 10 {
        seq![digit_char(n)]
    } else {
        decimal_text(n / 10).push(digit_char(n % 10))
    }
}

pub fn number_text(n: u64) -> (r: String)
    ensures
        r@ == decimal_text(n as nat),
    decreases n,
{
    let d: u8 = (n % 10) as u8;
    let ch: char = (48u8 + d) as char;
    assert(ch == digit_char((n % 10) as nat));
    if n < 10 {
        let mut out = String::new();
        out.push(ch);
        assert(out@ == seq![digit_char(n as nat)]);
        out
    } else {
        let mut out = number_text(n / 10);
        out.push(ch);
        out
    }
}

} // verus!
