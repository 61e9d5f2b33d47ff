//! Byte codecs of the swap engine: base64 for `Authorization: Basic`,
//! percent-encoding for query and path values, and replace-all on bytes.
use vstd::prelude::*;
use vstd::string::*;
use vstd::utf8::*;

use crate::text::trim;

verus! {

// ---- base64 -------------------------------------------------------------------

/// The base64 character of a six-bit value.
pub open spec fn b64_char(n: nat) -> char {
    if n < 26 {
        ('A' as u32 + n) as char
    } else if n < 52 {
        ('a' as u32 + n - 26) as char
    } else if n < 62 {
        ('0' as u32 + n - 52) as char
    } else if n == 62 {
        '+'
    } else {
        '/'
    }
}

/// The four characters for one to three bytes; absent bytes count as zero and
/// their characters are `=`.
#[verifier::opaque]
pub open spec fn b64_quad(s: Seq<u8>) -> Seq<char> {
    let b = if s.len() > 1 {
        s[1] as nat
    } else {
        0
    };
    let c = if s.len() > 2 {
        s[2] as nat
    } else {
        0
    };
    let n = s[0] as nat * 65536 + b * 256 + c;
    seq![
        b64_char(n / 262144),
        b64_char(n / 4096 % 64),
        if s.len() > 1 {
            b64_char(n / 64 % 64)
        } else {
            '='
        },
        if s.len() > 2 {
            b64_char(n % 64)
        } else {
            '='
        },
    ]
}

/// The base64 text of bytes, three at a time.
pub open spec fn b64_text(s: Seq<u8>) -> Seq<char>
    decreases s.len(),
{
    if s.len() == 0 {
        Seq::<char>::empty()
    } else if s.len() <= 3 {
        b64_quad(s)
    } else {
        b64_quad(s.take(3)) + b64_text(s.skip(3))
    }
}

/// The six-bit value of a base64 byte.
pub open spec fn b64_digit(c: u8) -> Option<nat> {
    if 65 <= c <= 90 {
        Some((c - 65) as nat)
    } else if 97 <= c <= 122 {
        Some((c - 97 + 26) as nat)
    } else if 48 <= c <= 57 {
        Some((c - 48 + 52) as nat)
    } else if c == 43 {
        Some(62)
    } else if c == 47 {
        Some(63)
    } else {
        None
    }
}

/// The value of a byte in a place that may hold `=`, which counts as zero.
pub open spec fn b64_padded(c: u8) -> Option<nat> {
    if c == 61 {
        Some(0)
    } else {
        b64_digit(c)
    }
}

/// The bytes of four characters. `=` is accepted in the last place and in the last
/// two; each one makes the result a byte shorter.
#[verifier::opaque]
pub open spec fn b64_unquad(s: Seq<u8>) -> Option<Seq<u8>> {
    match (b64_digit(s[0]), b64_digit(s[1]), b64_padded(s[2]), b64_padded(s[3])) {
        (Some(a), Some(b), Some(c), Some(d)) => if s[2] == 61 && s[3] != 61 {
            None
        } else {
            let n = a * 262144 + b * 4096 + c * 64 + d;
            let pad = (if s[2] == 61 {
                1int
            } else {
                0
            }) + (if s[3] == 61 {
                1int
            } else {
                0
            });
            let all = seq![(n / 65536) as u8, (n / 256 % 256) as u8, (n % 256) as u8];
            Some(all.take(3 - pad))
        },
        _ => None,
    }
}

/// The bytes of a whole number of quads, of which only the last may be padded.
pub open spec fn b64_bytes(s: Seq<u8>) -> Option<Seq<u8>>
    decreases s.len(),
{
    if s.len() < 4 {
        Some(Seq::<u8>::empty())
    } else if s.len() > 4 && s[3] == 61 {
        None
    } else {
        match (b64_unquad(s.take(4)), b64_bytes(s.skip(4))) {
            (Some(q), Some(r)) => Some(q + r),
            _ => None,
        }
    }
}

/// What a text decodes to: white space around it is ignored, its length must be
/// a multiple of four.
pub open spec fn b64_decoded(t: Seq<char>) -> Option<Seq<u8>> {
    let b = encode_utf8(crate::text::trimmed(t));
    if b.len() % 4 != 0 {
        None
    } else {
        b64_bytes(b)
    }
}

fn b64_letter(n: u32) -> (r: char)
    requires
        n < 64,
    ensures
        r == b64_char(n as nat),
{
    if n < 26 {
        (65u8 + n as u8) as char
    } else if n < 52 {
        (97u8 + (n - 26) as u8) as char
    } else if n < 62 {
        (48u8 + (n - 52) as u8) as char
    } else if n == 62 {
        '+'
    } else {
        '/'
    }
}

pub fn base64_encode(input: &[u8]) -> (r: String)
    ensures
        r@ == b64_text(input@),
{
    let mut out = String::new();
    let mut i: usize = 0;
    assert(input@.skip(0) == input@);
    while i < input.len()
        invariant
            i <= input@.len(),
            out@ + b64_text(input@.skip(i as int)) == b64_text(input@),
        decreases input@.len() - i,
    {
        let ghost rest = input@.skip(i as int);
        let ghost before = out@;
        let left: usize = input.len() - i;
        let take: usize = if left > 3 {
            3
        } else {
            left
        };
        let ghost head = rest.take(take as int);
        let b: u32 = if left > 1 {
            input[i + 1] as u32
        } else {
            0
        };
        let c: u32 = if left > 2 {
            input[i + 2] as u32
        } else {
            0
        };
        let n: u32 = input[i] as u32 * 65536 + b * 256 + c;
        out.push(b64_letter(n / 262144));
        out.push(b64_letter(n / 4096 % 64));
        out.push(
            if left > 1 {
                b64_letter(n / 64 % 64)
            } else {
                '='
            },
        );
        out.push(
            if left > 2 {
                b64_letter(n % 64)
            } else {
                '='
            },
        );
        proof {
            reveal(b64_quad);
            assert(out@ == before + b64_quad(head));
        }
        i += take;
        proof {
            assert(input@.skip(i as int) == rest.skip(take as int));
            if left <= 3 {
                assert(head == rest);
                assert(rest.skip(take as int) == Seq::<u8>::empty());
            }
            assert(out@ + b64_text(rest.skip(take as int)) == before + (b64_quad(head) + b64_text(
                rest.skip(take as int),
            )));
            if left <= 3 {
                assert(b64_quad(head) + b64_text(rest.skip(take as int)) == b64_quad(head));
            }
        }
    }
    assert(input@.skip(i as int) == Seq::<u8>::empty());
    assert(out@ + Seq::<char>::empty() == out@);
    out
}

fn b64_val(c: u8) -> (r: Option<u32>)
    ensures
        match r {
            Some(v) => b64_digit(c) == Some(v as nat) && v < 64,
            None => b64_digit(c) is None,
        },
{
    if 65 <= c && c <= 90 {
        Some((c - 65) as u32)
    } else if 97 <= c && c <= 122 {
        Some((c - 97 + 26) as u32)
    } else if 48 <= c && c <= 57 {
        Some((c - 48 + 52) as u32)
    } else if c == 43 {
        Some(62)
    } else if c == 47 {
        Some(63)
    } else {
        None
    }
}

fn b64_val_padded(c: u8) -> (r: Option<u32>)
    ensures
        match r {
            Some(v) => b64_padded(c) == Some(v as nat) && v < 64,
            None => b64_padded(c) is None,
        },
{
    if c == 61 {
        Some(0)
    } else {
        b64_val(c)
    }
}

fn b64_decode_quad(c0: u8, c1: u8, c2: u8, c3: u8) -> (r: Option<Vec<u8>>)
    ensures
        match r {
            Some(v) => b64_unquad(seq![c0, c1, c2, c3]) == Some(v@),
            None => b64_unquad(seq![c0, c1, c2, c3]) is None,
        },
{
    proof {
        reveal(b64_unquad);
    }
    match (b64_val(c0), b64_val(c1), b64_val_padded(c2), b64_val_padded(c3)) {
        (Some(a), Some(b), Some(c), Some(d)) => {
            if c2 == 61 && c3 != 61 {
                return None;
            }
            let n: u32 = a * 262144 + b * 4096 + c * 64 + d;
            let mut out: Vec<u8> = Vec::new();
            out.push((n / 65536) as u8);
            if c2 != 61 {
                out.push((n / 256 % 256) as u8);
            }
            if c3 != 61 {
                out.push((n % 256) as u8);
            }
            assert(out@ == b64_unquad(seq![c0, c1, c2, c3])->0);
            Some(out)
        },
        _ => None,
    }
}

/// Decodes standard base64. `None` on any invalid input, so that a value that
/// is not base64 is left alone by callers.
pub fn base64_decode(input: &str) -> (r: Option<Vec<u8>>)
    ensures
        match r {
            Some(v) => b64_decoded(input@) == Some(v@),
            None => b64_decoded(input@) is None,
        },
{
    let t = trim(input);
    let bytes = t.as_str().as_bytes();
    let mut out: Vec<u8> = Vec::new();
    if bytes.len() % 4 != 0 {
        return None;
    }
    let mut i: usize = 0;
    assert(bytes@.skip(0) == bytes@);
    while i < bytes.len()
        invariant
            bytes@ == encode_utf8(crate::text::trimmed(input@)),
            bytes@.len() % 4 == 0,
            i <= bytes@.len(),
            i % 4 == 0,
            b64_bytes(bytes@) == (match b64_bytes(bytes@.skip(i as int)) {
                Some(rest) => Some(out@ + rest),
                None => None::<Seq<u8>>,
            }),
        decreases bytes@.len() - i,
    {
        let ghost rest = bytes@.skip(i as int);
        let ghost before = out@;
        proof {
            assert(rest.take(4) == seq![
                bytes@[i as int],
                bytes@[i + 1],
                bytes@[i + 2],
                bytes@[i + 3],
            ]);
            assert(rest.skip(4) == bytes@.skip(i + 4));
            assert(rest[3] == bytes@[i + 3]);
        }
        if bytes.len() - i > 4 && bytes[i + 3] == 61 {
            return None;
        }
        match b64_decode_quad(bytes[i], bytes[i + 1], bytes[i + 2], bytes[i + 3]) {
            Some(q) => {
                out.extend_from_slice(q.as_slice());
                proof {
                    if let Some(r) = b64_bytes(rest.skip(4)) {
                        assert(before + (q@ + r) == out@ + r);
                    }
                }
            },
            None => {
                return None;
            },
        }
        i += 4;
    }
    assert(bytes@.skip(i as int) == Seq::<u8>::empty());
    assert(out@ + Seq::<u8>::empty() == out@);
    Some(out)
}

proof fn b64_char_digit(n: nat)
    requires
        n < 64,
    ensures
        b64_char(n) as u32 <= 127,
        b64_digit(b64_char(n) as u8) == Some(n),
        !crate::text::is_space(b64_char(n)),
        b64_char(n) as u8 != 61,
{
}

/// The characters of a quad are ASCII, none is white space.
proof fn b64_quad_plain(s: Seq<u8>)
    requires
        1 <= s.len() <= 3,
    ensures
        b64_quad(s).len() == 4,
        is_ascii_chars(b64_quad(s)),
        forall|i: int| 0 <= i < 4 ==> !crate::text::is_space(#[trigger] b64_quad(s)[i]),
{
    reveal(b64_quad);
    let b = if s.len() > 1 {
        s[1] as nat
    } else {
        0
    };
    let c = if s.len() > 2 {
        s[2] as nat
    } else {
        0
    };
    let n = s[0] as nat * 65536 + b * 256 + c;
    b64_char_digit(n / 262144);
    b64_char_digit(n / 4096 % 64);
    b64_char_digit(n / 64 % 64);
    b64_char_digit(n % 64);
}

proof fn b64_text_plain(s: Seq<u8>)
    ensures
        is_ascii_chars(b64_text(s)),
        b64_text(s).len() % 4 == 0,
        forall|i: int|
            0 <= i < b64_text(s).len() ==> !crate::text::is_space(#[trigger] b64_text(s)[i]),
    decreases s.len(),
{
    if s.len() == 0 {
    } else if s.len() <= 3 {
        b64_quad_plain(s);
    } else {
        b64_quad_plain(s.take(3));
        b64_text_plain(s.skip(3));
        let q = b64_quad(s.take(3));
        let r = b64_text(s.skip(3));
        let t = b64_text(s);
        assert forall|i: int| 0 <= i < t.len() implies '\0' <= #[trigger] t[i] <= '\u{7f}'
            && !crate::text::is_space(t[i]) by {
            if i < 4 {
                assert(t[i] == q[i]);
            } else {
                assert(t[i] == r[i - 4]);
            }
        }
    }
}

/// An ASCII text as bytes.
spec fn ascii_bytes(t: Seq<char>) -> Seq<u8> {
    t.map_values(|c: char| c as u8)
}

/// Three bytes and the four six-bit values that hold the same bits.
pub(crate) proof fn sextets(a: nat, b: nat, c: nat)
    requires
        a < 256,
        b < 256,
        c < 256,
    ensures
        ({
            let n = a * 65536 + b * 256 + c;
            &&& n / 262144 == a / 4
            &&& n / 4096 % 64 == (a % 4) * 16 + b / 16
            &&& n / 64 % 64 == (b % 16) * 4 + c / 64
            &&& n % 64 == c % 64
            &&& n / 65536 == a
            &&& n / 256 % 256 == b
            &&& n % 256 == c
        }),
{
    let n = a * 65536 + b * 256 + c;
    assert(n / 262144 == a / 4);
    assert(n / 4096 == a * 16 + b / 16);
    assert(n / 64 == a * 1024 + b * 4 + c / 64);
    assert(n / 256 == a * 256 + b);
}

proof fn b64_unquad_quad(s: Seq<u8>)
    requires
        1 <= s.len() <= 3,
    ensures
        b64_unquad(ascii_bytes(b64_quad(s))) == Some(s),
        b64_quad(s).len() == 4,
        s.len() == 3 ==> ascii_bytes(b64_quad(s))[3] != 61,
{
    reveal(b64_quad);
    reveal(b64_unquad);
    let a = s[0] as nat;
    let b = if s.len() > 1 {
        s[1] as nat
    } else {
        0
    };
    let c = if s.len() > 2 {
        s[2] as nat
    } else {
        0
    };
    let n = a * 65536 + b * 256 + c;
    sextets(a, b, c);
    let d0 = n / 262144;
    let d1 = n / 4096 % 64;
    let d2 = n / 64 % 64;
    let d3 = n % 64;
    b64_char_digit(d0);
    b64_char_digit(d1);
    b64_char_digit(d2);
    b64_char_digit(d3);
    assert(d0 * 262144 + d1 * 4096 + d2 * 64 + d3 == n);
    let t = ascii_bytes(b64_quad(s));
    assert(b64_digit(t[0]) == Some(d0));
    assert(b64_digit(t[1]) == Some(d1));
    assert(b64_padded(t[2]) == Some(d2));
    assert(b64_padded(t[3]) == Some(d3));
    let all = seq![(n / 65536) as u8, (n / 256 % 256) as u8, (n % 256) as u8];
    assert(all.take(s.len() as int) == s);
}

proof fn b64_bytes_text(s: Seq<u8>)
    ensures
        b64_bytes(ascii_bytes(b64_text(s))) == Some(s),
    decreases s.len(),
{
    let t = ascii_bytes(b64_text(s));
    if s.len() == 0 {
        assert(s == Seq::<u8>::empty());
    } else if s.len() <= 3 {
        b64_unquad_quad(s);
        assert(t.take(4) == t);
        assert(t.skip(4) == Seq::<u8>::empty());
        assert(b64_bytes(Seq::<u8>::empty()) == Some(Seq::<u8>::empty()));
        assert(s + Seq::<u8>::empty() == s);
    } else {
        b64_unquad_quad(s.take(3));
        b64_bytes_text(s.skip(3));
        assert(t.take(4) == ascii_bytes(b64_quad(s.take(3))));
        assert(t[3] == t.take(4)[3]);
        assert(t.skip(4) == ascii_bytes(b64_text(s.skip(3))));
        assert(s.take(3) + s.skip(3) == s);
    }
}

pub(crate) proof fn trimmed_keeps(t: Seq<char>)
    requires
        forall|i: int| 0 <= i < t.len() ==> !crate::text::is_space(#[trigger] t[i]),
    ensures
        crate::text::trimmed(t) == t,
{
    if t.len() > 0 {
        assert(!crate::text::is_space(t[0]));
        assert(!crate::text::is_space(t[t.len() - 1]));
        assert(t.subrange(0, t.len() as int) == t);
    }
}

proof fn quad_padding(q: Seq<u8>)
    requires
        q.len() == 4,
        b64_unquad(q) is Some,
    ensures
        q[0] != 61,
        q[1] != 61,
        q[2] == 61 ==> q[3] == 61,
{
    reveal(b64_unquad);
    assert(b64_digit(q[0]) is Some);
    assert(b64_digit(q[1]) is Some);
}

proof fn padding_comes_last(s: Seq<u8>, i: int)
    requires
        s.len() % 4 == 0,
        b64_bytes(s) is Some,
        0 <= i < s.len(),
        s[i] == 61,
    ensures
        i + 2 >= s.len(),
        i + 2 == s.len() ==> s[i + 1] == 61,
    decreases s.len(),
{
    let q = s.take(4);
    let rest = s.skip(4);
    assert(b64_unquad(q) is Some && b64_bytes(rest) is Some);
    quad_padding(q);
    assert(q[0] == s[0] && q[1] == s[1] && q[2] == s[2] && q[3] == s[3]);
    if i < 4 {
        assert(s[3] == 61);
        assert(s.len() == 4);
    } else {
        assert(rest[i - 4] == s[i]);
        padding_comes_last(rest, i - 4);
        if i + 2 == s.len() {
            assert(rest[i - 3] == s[i + 1]);
        }
    }
}

/// What decodes is standard base64: it has its padding at its end and nowhere else,
/// in the last place or in the last two.
pub proof fn padding_ends_a_text(t: Seq<char>, i: int)
    requires
        b64_decoded(t) is Some,
        0 <= i < encode_utf8(crate::text::trimmed(t)).len(),
        encode_utf8(crate::text::trimmed(t))[i] == 61,
    ensures
        ({
            let b = encode_utf8(crate::text::trimmed(t));
            &&& i + 2 >= b.len()
            &&& i + 2 == b.len() ==> b[i + 1] == 61
        }),
{
    padding_comes_last(encode_utf8(crate::text::trimmed(t)), i);
}

/// Decoding the base64 text of any bytes gives the bytes back.
pub proof fn base64_round_trip(s: Seq<u8>)
    ensures
        b64_decoded(b64_text(s)) == Some(s),
{
    let t = b64_text(s);
    b64_text_plain(s);
    trimmed_keeps(t);
    is_ascii_chars_encode_utf8(t);
    assert(encode_utf8(t) == ascii_bytes(t));
    b64_bytes_text(s);
}

// ---- Percent-encoding ---------------------------------------------------------

/// Bytes that stand for themselves in a URL: letters, digits, `-`, `.`, `_`, `~`.
pub open spec fn unreserved(b: u8) -> bool {
    ||| 48 <= b <= 57
    ||| 65 <= b <= 90
    ||| 97 <= b <= 122
    ||| b == 45
    ||| b == 46
    ||| b == 95
    ||| b == 126
}

/// An uppercase hexadecimal digit.
pub open spec fn upper_hex(d: nat) -> char {
    if d < 10 {
        ('0' as u32 + d) as char
    } else {
        ('A' as u32 + d - 10) as char
    }
}

/// One byte: itself where it is unreserved, else `%` and two hexadecimal digits.
pub open spec fn percent_byte(b: u8) -> Seq<char> {
    if unreserved(b) {
        seq![b as char]
    } else {
        seq!['%', upper_hex((b / 16) as nat), upper_hex((b % 16) as nat)]
    }
}

/// The percent-encoded text of bytes.
pub open spec fn percent_text(s: Seq<u8>) -> Seq<char>
    decreases s.len(),
{
    if s.len() == 0 {
        Seq::<char>::empty()
    } else {
        percent_text(s.drop_last()) + percent_byte(s.last())
    }
}

fn upper_hex_of(d: u8) -> (r: char)
    requires
        d < 16,
    ensures
        r == upper_hex(d as nat),
{
    if d < 10 {
        (48u8 + d) as char
    } else {
        (55u8 + d) as char
    }
}

pub fn percent_encode(bytes: &[u8]) -> (r: String)
    ensures
        r@ == percent_text(bytes@),
{
    let mut out = String::new();
    let mut i: usize = 0;
    while i < bytes.len()
        invariant
            i <= bytes@.len(),
            out@ == percent_text(bytes@.take(i as int)),
        decreases bytes@.len() - i,
    {
        let b: u8 = bytes[i];
        let ghost before = out@;
        if (48 <= b && b <= 57) || (65 <= b && b <= 90) || (97 <= b && b <= 122) || b == 45 || b
            == 46 || b == 95 || b == 126 {
            out.push(b as char);
        } else {
            out.push('%');
            out.push(upper_hex_of(b / 16));
            out.push(upper_hex_of(b % 16));
        }
        assert(out@ == before + percent_byte(b));
        assert(bytes@.take(i + 1).drop_last() == bytes@.take(i as int));
        i += 1;
    }
    assert(bytes@.take(bytes@.len() as int) == bytes@);
    out
}

// ---- Replace-all --------------------------------------------------------------

/// `h` from index `i` on, with every occurrence of `n`, taken from the left and
/// not overlapping, replaced by `r`.
pub open spec fn replaced(h: Seq<u8>, n: Seq<u8>, r: Seq<u8>, i: int) -> Seq<u8>
    decreases h.len() - i,
{
    if i < 0 || i >= h.len() || n.len() == 0 {
        h.skip(i)
    } else if crate::text::occurs_at(h, n, i) {
        r + replaced(h, n, r, i + n.len())
    } else {
        seq![h[i]] + replaced(h, n, r, i + 1)
    }
}

/// How many occurrences are replaced from index `i` on.
pub open spec fn replacements(h: Seq<u8>, n: Seq<u8>, i: int) -> nat
    decreases h.len() - i,
{
    if i < 0 || i >= h.len() || n.len() == 0 {
        0
    } else if crate::text::occurs_at(h, n, i) {
        1 + replacements(h, n, i + n.len())
    } else {
        replacements(h, n, i + 1)
    }
}

fn stands_at(h: &[u8], n: &[u8], at: usize) -> (r: bool)
    requires
        at <= h@.len(),
    ensures
        r == crate::text::occurs_at(h@, n@, at as int),
{
    if n.len() > h.len() - at {
        return false;
    }
    let mut k: usize = 0;
    while k < n.len()
        invariant
            k <= n@.len(),
            at + n@.len() <= h.len(),
            forall|j: int| 0 <= j < k ==> h@[at + j] == n@[j],
        decreases n@.len() - k,
    {
        if h[at + k] != n[k] {
            assert(h@.subrange(at as int, at + n@.len())[k as int] == h@[at + k]);
            return false;
        }
        k += 1;
    }
    assert(h@.subrange(at as int, at + n@.len()) == n@);
    true
}

/// Replaces every occurrence of `needle`; also says how many there were. An
/// empty needle occurs nowhere.
pub fn replace_all(haystack: &[u8], needle: &[u8], replacement: &[u8]) -> (r: (Vec<u8>, usize))
    ensures
        r.0@ == replaced(haystack@, needle@, replacement@, 0),
        r.1 == replacements(haystack@, needle@, 0),
{
    let mut out: Vec<u8> = Vec::new();
    let mut count: usize = 0;
    if needle.len() == 0 {
        out.extend_from_slice(haystack);
        assert(out@ == haystack@.skip(0));
        return (out, 0);
    }
    let mut i: usize = 0;
    assert(Seq::<u8>::empty() + replaced(haystack@, needle@, replacement@, 0) == replaced(
        haystack@,
        needle@,
        replacement@,
        0,
    ));
    while i < haystack.len()
        invariant
            needle@.len() > 0,
            i <= haystack.len(),
            count <= i,
            out@ + replaced(haystack@, needle@, replacement@, i as int) == replaced(
                haystack@,
                needle@,
                replacement@,
                0,
            ),
            count + replacements(haystack@, needle@, i as int) == replacements(
                haystack@,
                needle@,
                0,
            ),
        decreases haystack@.len() - i,
    {
        let ghost before = out@;
        if stands_at(haystack, needle, i) {
            out.extend_from_slice(replacement);
            proof {
                let rest = replaced(haystack@, needle@, replacement@, i + needle@.len());
                assert(out@ + rest == before + (replacement@ + rest));
            }
            i += needle.len();
            count += 1;
        } else {
            out.push(haystack[i]);
            proof {
                let rest = replaced(haystack@, needle@, replacement@, i + 1);
                assert(out@ + rest == before + (seq![haystack@[i as int]] + rest));
            }
            i += 1;
        }
    }
    assert(haystack@.skip(i as int) == Seq::<u8>::empty());
    assert(out@ + Seq::<u8>::empty() == out@);
    (out, count)
}

/// Where the needle occurs nowhere, nothing is replaced and nothing changes.
pub proof fn replace_all_absent(h: Seq<u8>, n: Seq<u8>, r: Seq<u8>)
    requires
        forall|i: int| n.len() > 0 ==> !#[trigger] crate::text::occurs_at(h, n, i),
    ensures
        replaced(h, n, r, 0) == h,
        replacements(h, n, 0) == 0,
{
    absent_from(h, n, r, 0);
    assert(h.skip(0) == h);
}

proof fn absent_from(h: Seq<u8>, n: Seq<u8>, r: Seq<u8>, i: int)
    requires
        0 <= i <= h.len(),
        forall|i: int| n.len() > 0 ==> !#[trigger] crate::text::occurs_at(h, n, i),
    ensures
        replaced(h, n, r, i) == h.skip(i),
        replacements(h, n, i) == 0,
    decreases h.len() - i,
{
    if i < h.len() && n.len() > 0 {
        absent_from(h, n, r, i + 1);
        assert(!crate::text::occurs_at(h, n, i));
        assert(seq![h[i]] + h.skip(i + 1) == h.skip(i));
    }
}

/// A needle that occurs is replaced at least once.
pub proof fn replace_all_present(h: Seq<u8>, n: Seq<u8>, at: int)
    requires
        n.len() > 0,
        crate::text::occurs_at(h, n, at),
    ensures
        replacements(h, n, 0) > 0,
{
    present_from(h, n, 0, at);
}

proof fn present_from(h: Seq<u8>, n: Seq<u8>, i: int, at: int)
    requires
        n.len() > 0,
        0 <= i <= at,
        crate::text::occurs_at(h, n, at),
    ensures
        replacements(h, n, i) > 0,
    decreases at - i,
{
    if !crate::text::occurs_at(h, n, i) {
        present_from(h, n, i + 1, at);
    }
}

} // verus!
