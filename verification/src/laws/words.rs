//! The words in which the laws are told.
use vstd::prelude::*;

verus! {

/// `n` stands in `h` at `i`, item by item.
pub open spec fn stands<T>(h: Seq<T>, n: Seq<T>, i: int) -> bool {
    &&& 0 <= i
    &&& i + n.len() <= h.len()
    &&& forall|k: int| 0 <= k < n.len() ==> h[i + k] == #[trigger] n[k]
}

/// `n` stands somewhere in `h`.
pub open spec fn is_within<T>(h: Seq<T>, n: Seq<T>) -> bool {
    exists|i: int| #[trigger] stands(h, n, i)
}

/// `n` stands in `h` at `at` and nowhere else.
pub open spec fn stands_once<T>(h: Seq<T>, n: Seq<T>, at: int) -> bool {
    &&& stands(h, n, at)
    &&& forall|i: int| #[trigger] stands(h, n, i) ==> i == at
}

/// A character with the case of `A` to `Z` taken off.
pub open spec fn small_char(c: char) -> char {
    let u = c as u32;
    if 65 <= u && u <= 90 {
        (u + 32) as char
    } else {
        c
    }
}

/// A text with the case of `A` to `Z` taken off.
pub open spec fn small(s: Seq<char>) -> Seq<char> {
    Seq::new(s.len(), |i: int| small_char(s[i]))
}

/// A host name as names are compared: without case and without one final dot.
pub open spec fn bare_host(h: Seq<char>) -> Seq<char> {
    if h.len() > 0 && h[h.len() - 1] == '.' {
        small(h.take(h.len() - 1))
    } else {
        small(h)
    }
}

/// No character of `s` is `c`.
pub open spec fn free_of(s: Seq<char>, c: char) -> bool {
    forall|i: int| 0 <= i < s.len() ==> #[trigger] s[i] != c
}

/// A space, a tab or the end of a line.
pub open spec fn is_blank(c: char) -> bool {
    c == ' ' || c == '\t' || c == '\n' || c == '\r'
}

/// Nothing but blanks.
pub open spec fn all_blank(s: Seq<char>) -> bool {
    forall|i: int| 0 <= i < s.len() ==> is_blank(#[trigger] s[i])
}

/// A character that std's `White_Space` does not hold: any printable one of ASCII.
pub open spec fn is_graphic(c: char) -> bool {
    '!' <= c <= '~'
}

/// A number in decimal digits, without leading zeros.
pub open spec fn written(n: nat) -> Seq<char>
    decreases n,
{
    let last = (48 + n % 10) as char;
    if n < 10 {
        seq![last]
    } else {
        written(n / 10) + seq![last]
    }
}

/// A number below 16 as a hexadecimal digit.
pub open spec fn nibble(n: nat) -> char {
    if n < 10 {
        (48 + n) as char
    } else {
        (87 + n) as char
    }
}

/// A number in hexadecimal digits, without leading zeros.
pub open spec fn hexed(n: nat) -> Seq<char>
    decreases n,
{
    if n < 16 {
        seq![nibble(n)]
    } else {
        hexed(n / 16) + seq![nibble(n % 16)]
    }
}

/// Four numbers with dots between them.
pub open spec fn dotted(a: u8, b: u8, c: u8, d: u8) -> Seq<char> {
    written(a as nat) + seq!['.'] + written(b as nat) + seq!['.'] + written(c as nat) + seq!['.']
        + written(d as nat)
}

/// Groups in hexadecimal with colons between them.
pub open spec fn colons(g: Seq<u16>) -> Seq<char>
    decreases g.len(),
{
    if g.len() == 0 {
        Seq::empty()
    } else if g.len() == 1 {
        hexed(g[0] as nat)
    } else {
        colons(g.take(g.len() - 1)) + seq![':'] + hexed(g[g.len() - 1] as nat)
    }
}

/// Groups of sixteen bits as one number, the first the highest.
pub open spec fn number(g: Seq<u16>) -> nat
    decreases g.len(),
{
    if g.len() == 0 {
        0
    } else {
        number(g.take(g.len() - 1)) * 65536 + g[g.len() - 1] as nat
    }
}

/// The items that a test holds of, in their order.
pub open spec fn those<T>(s: Seq<T>, keep: spec_fn(T) -> bool) -> Seq<T>
    decreases s.len(),
{
    if s.len() == 0 {
        s
    } else if keep(s[s.len() - 1]) {
        those(s.take(s.len() - 1), keep) + seq![s[s.len() - 1]]
    } else {
        those(s.take(s.len() - 1), keep)
    }
}

} // verus!
