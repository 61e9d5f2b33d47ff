//! IP addresses as numbers, with their text forms.
use vstd::prelude::*;
use vstd::string::*;

use crate::text::{chars_of, find, number_text, piece, split};

verus! {

broadcast use vstd::seq_lib::group_seq_properties;

/// An address: the value of its 32 or 128 bits in network order.
#[derive(Clone, Copy, Debug, PartialEq, Eq, Structural)]
pub enum IpAddr {
    V4(u32),
    V6(u128),
}

// ---- Reading ------------------------------------------------------------------

/// A dotted-quad part: one to three decimal digits, no leading zero, at most 255.
pub open spec fn octet(s: Seq<char>) -> Option<nat> {
    if 1 <= s.len() <= 3 && crate::text::all_digits(s) && (s.len() == 1 || s[0] != '0')
        && crate::text::digits_value(s) <= 255 {
        Some(crate::text::digits_value(s))
    } else {
        None
    }
}

/// The four parts of a dotted quad, as one number.
pub open spec fn v4_value(s: Seq<char>) -> Option<nat> {
    let p = crate::text::split_on(s, '.');
    if p.len() == 4 && octet(p[0]) is Some && octet(p[1]) is Some && octet(p[2]) is Some && octet(
        p[3],
    ) is Some {
        Some(
            octet(p[0])->0 * 0x100_0000 + octet(p[1])->0 * 0x1_0000 + octet(p[2])->0 * 0x100
                + octet(p[3])->0,
        )
    } else {
        None
    }
}

/// The value of a hexadecimal digit of either case.
pub open spec fn hex_digit(c: char) -> Option<nat> {
    if '0' <= c <= '9' {
        Some((c as u32 - '0' as u32) as nat)
    } else if 'a' <= c <= 'f' {
        Some((c as u32 - 'a' as u32 + 10) as nat)
    } else if 'A' <= c <= 'F' {
        Some((c as u32 - 'A' as u32 + 10) as nat)
    } else {
        None
    }
}

/// The value of a run of hexadecimal digits.
pub open spec fn hex_value(s: Seq<char>) -> nat
    decreases s.len(),
{
    if s.len() == 0 {
        0
    } else {
        hex_value(s.drop_last()) * 16 + hex_digit(s.last())->0
    }
}

/// A group of an IPv6 address: one to four hexadecimal digits.
pub open spec fn hex_group(s: Seq<char>) -> Option<u16> {
    if 1 <= s.len() <= 4 && (forall|i: int|
        0 <= i < s.len() ==> hex_digit(#[trigger] s[i]) is Some) {
        Some(hex_value(s) as u16)
    } else {
        None
    }
}

/// The groups of the first `n` parts; where `quad` holds, the last part of all
/// may be a dotted quad and counts for two groups.
pub open spec fn groups_upto(parts: Seq<Seq<char>>, quad: bool, n: int) -> Option<Seq<u16>>
    decreases n,
{
    if n <= 0 {
        Some(Seq::<u16>::empty())
    } else {
        match groups_upto(parts, quad, n - 1) {
            None => None,
            Some(g) => {
                let s = parts[n - 1];
                if quad && n == parts.len() && v4_value(s) is Some {
                    let v = v4_value(s)->0;
                    Some(g.push((v / 0x1_0000) as u16).push((v % 0x1_0000) as u16))
                } else if hex_group(s) is Some {
                    Some(g.push(hex_group(s)->0))
                } else {
                    None
                }
            },
        }
    }
}

/// The groups of a colon-separated text; none for the empty text.
pub open spec fn groups(s: Seq<char>, quad: bool) -> Option<Seq<u16>> {
    if s.len() == 0 {
        Some(Seq::<u16>::empty())
    } else {
        let p = crate::text::split_on(s, ':');
        groups_upto(p, quad, p.len() as int)
    }
}

/// Eight groups as one number.
pub open spec fn groups_value(g: Seq<u16>) -> nat
    decreases g.len(),
{
    if g.len() == 0 {
        0
    } else {
        groups_value(g.drop_last()) * 0x1_0000 + g.last() as nat
    }
}

/// `n` zero groups.
pub open spec fn zero_groups(n: int) -> Seq<u16> {
    Seq::new(n as nat, |i: int| 0u16)
}

/// The number that an IPv6 text stands for. `::` stands for one or more zero
/// groups and can occur once; a dotted quad can only be last.
pub open spec fn v6_value(s: Seq<char>) -> Option<nat> {
    match crate::text::find_from(s, seq![':', ':'], 0) {
        None => match groups(s, true) {
            Some(g) => if g.len() == 8 {
                Some(groups_value(g))
            } else {
                None
            },
            None => None,
        },
        Some(i) => match (groups(s.take(i), false), groups(s.skip(i + 2), true)) {
            (Some(h), Some(t)) => if h.len() + t.len() <= 7 {
                Some(groups_value(h + zero_groups(8 - h.len() - t.len()) + t))
            } else {
                None
            },
            _ => None,
        },
    }
}

/// The address that a text stands for.
pub open spec fn address(s: Seq<char>) -> Option<IpAddr> {
    match v4_value(s) {
        Some(v) => Some(IpAddr::V4(v as u32)),
        None => match v6_value(s) {
            Some(v) => Some(IpAddr::V6(v as u128)),
            None => None,
        },
    }
}

fn parse_octet(s: &str) -> (r: Option<u32>)
    ensures
        match r {
            Some(v) => octet(s@) == Some(v as nat) && v <= 255,
            None => octet(s@) is None,
        },
{
    let c = chars_of(s);
    if c.len() == 0 || c.len() > 3 || (c.len() > 1 && c[0] == '0') {
        return None;
    }
    if c[0] == '+' {
        assert(!crate::text::is_digit(s@[0]));
        return None;
    }
    match crate::text::parse_decimal(s, 255) {
        Some(v) => Some(v as u32),
        None => None,
    }
}

fn parse_v4(s: &str) -> (r: Option<u32>)
    ensures
        match r {
            Some(v) => v4_value(s@) == Some(v as nat),
            None => v4_value(s@) is None,
        },
{
    let p = split(s, '.');
    if p.len() != 4 {
        return None;
    }
    let ghost q = crate::text::split_on(s@, '.');
    assert(q[0] == p[0]@ && q[1] == p[1]@ && q[2] == p[2]@ && q[3] == p[3]@) by {
        assert(crate::text::texts(p@) == q);
    }
    match (
        parse_octet(p[0].as_str()),
        parse_octet(p[1].as_str()),
        parse_octet(p[2].as_str()),
        parse_octet(p[3].as_str()),
    ) {
        (Some(a), Some(b), Some(c), Some(d)) => Some(a * 0x100_0000 + b * 0x1_0000 + c * 0x100 + d),
        _ => None,
    }
}

pub fn hex_of(c: char) -> (r: Option<u8>)
    ensures
        match r {
            Some(v) => hex_digit(c) == Some(v as nat) && v < 16,
            None => hex_digit(c) is None,
        },
{
    if '0' <= c && c <= '9' {
        Some((c as u32 - '0' as u32) as u8)
    } else if 'a' <= c && c <= 'f' {
        Some((c as u32 - 'a' as u32 + 10) as u8)
    } else if 'A' <= c && c <= 'F' {
        Some((c as u32 - 'A' as u32 + 10) as u8)
    } else {
        None
    }
}

fn parse_group(s: &str) -> (r: Option<u16>)
    ensures
        r == hex_group(s@),
{
    let c = chars_of(s);
    if c.len() == 0 || c.len() > 4 {
        return None;
    }
    let mut v: u32 = 0;
    let mut i: usize = 0;
    while i < c.len()
        invariant
            c@ == s@,
            1 <= c@.len() <= 4,
            i <= c@.len(),
            v == hex_value(c@.take(i as int)),
            i == 0 ==> v == 0,
            i == 1 ==> v < 0x10,
            i == 2 ==> v < 0x100,
            i == 3 ==> v < 0x1000,
            i == 4 ==> v < 0x10000,
            forall|j: int| 0 <= j < i ==> hex_digit(#[trigger] c@[j]) is Some,
        decreases c@.len() - i,
    {
        match hex_of(c[i]) {
            None => {
                assert(hex_digit(s@[i as int]) is None);
                return None;
            },
            Some(d) => {
                assert(c@.take(i + 1).drop_last() == c@.take(i as int));
                assert(c@.take(i + 1).last() == c@[i as int]);
                v = v * 16 + d as u32;
                i += 1;
            },
        }
    }
    assert(c@.take(c@.len() as int) == c@);
    Some(v as u16)
}

fn parse_groups(s: &str, quad: bool) -> (r: Option<Vec<u16>>)
    ensures
        match r {
            Some(v) => groups(s@, quad) == Some(v@),
            None => groups(s@, quad) is None,
        },
{
    let mut out: Vec<u16> = Vec::new();
    if s.is_empty() {
        return Some(out);
    }
    let p = split(s, ':');
    let ghost q = crate::text::split_on(s@, ':');
    let mut i: usize = 0;
    while i < p.len()
        invariant
            i <= p@.len(),
            s@.len() > 0,
            q == crate::text::split_on(s@, ':'),
            crate::text::texts(p@) == q,
            groups_upto(q, quad, i as int) == Some(out@),
        decreases p@.len() - i,
    {
        assert(q[i as int] == p@[i as int]@);
        let mut done = false;
        if quad && i + 1 == p.len() {
            if let Some(v) = parse_v4(p[i].as_str()) {
                out.push((v / 0x1_0000) as u16);
                out.push((v % 0x1_0000) as u16);
                done = true;
            }
        }
        if !done {
            match parse_group(p[i].as_str()) {
                Some(g) => {
                    out.push(g);
                },
                None => {
                    proof {
                        groups_none(q, quad, i + 1, q.len() as int);
                    }
                    return None;
                },
            }
        }
        i += 1;
    }
    Some(out)
}

proof fn groups_none(parts: Seq<Seq<char>>, quad: bool, n: int, m: int)
    requires
        n <= m,
        groups_upto(parts, quad, n) is None,
    ensures
        groups_upto(parts, quad, m) is None,
    decreases m - n,
{
    if n < m {
        groups_none(parts, quad, n, m - 1);
    }
}

/// `65536` to the power `n`.
spec fn group_cap(n: int) -> int
    decreases n,
{
    if n <= 0 {
        1
    } else {
        0x1_0000 * group_cap(n - 1)
    }
}

proof fn group_cap_rises(n: int, m: int)
    requires
        0 <= n <= m,
    ensures
        1 <= group_cap(n) <= group_cap(m),
    decreases m,
{
    if n < m {
        group_cap_rises(n, m - 1);
    } else if n > 0 {
        group_cap_rises(n - 1, m - 1);
    }
}

fn group_number(g: &Vec<u16>) -> (r: u128)
    requires
        g@.len() == 8,
    ensures
        r == groups_value(g@),
{
    let mut v: u128 = 0;
    let mut i: usize = 0;
    proof {
        assert(g@.take(0) == Seq::<u16>::empty());
        reveal_with_fuel(group_cap, 9);
        assert(group_cap(8) == 0x1_0000_0000_0000_0000_0000_0000_0000_0000int);
    }
    while i < 8
        invariant
            i <= 8,
            g@.len() == 8,
            v == groups_value(g@.take(i as int)),
            v < group_cap(i as int),
            group_cap(8) == 0x1_0000_0000_0000_0000_0000_0000_0000_0000int,
        decreases 8 - i,
    {
        proof {
            group_cap_rises(i + 1, 8);
            assert(g@.take(i + 1).drop_last() == g@.take(i as int));
        }
        v = v * 0x1_0000 + g[i] as u128;
        i += 1;
    }
    assert(g@.take(8) == g@);
    v
}

fn parse_v6(s: &str) -> (r: Option<u128>)
    ensures
        match r {
            Some(v) => v6_value(s@) == Some(v as nat),
            None => v6_value(s@) is None,
        },
{
    let c = chars_of(s);
    let sep: Vec<char> = vec![':', ':'];
    assert(sep@ == seq![':', ':']);
    match find(&c, &sep, 0) {
        None => match parse_groups(s, true) {
            Some(g) => if g.len() == 8 {
                Some(group_number(&g))
            } else {
                None
            },
            None => None,
        },
        Some(i) => {
            let head = piece(&c, 0, i);
            let n: usize = c.len();
            let tail = piece(&c, i + 2, n);
            assert(head@ == s@.take(i as int));
            assert(tail@ == s@.skip(i + 2));
            match (parse_groups(head.as_str(), false), parse_groups(tail.as_str(), true)) {
                (Some(h), Some(t)) => {
                    if h.len() > 7 || t.len() > 7 - h.len() {
                        return None;
                    }
                    let ghost h0 = h@;
                    let mut all: Vec<u16> = h;
                    let zeros: usize = 8 - all.len() - t.len();
                    let mut k: usize = 0;
                    while k < zeros
                        invariant
                            k <= zeros,
                            all@ == h0 + zero_groups(k as int),
                        decreases zeros - k,
                    {
                        all.push(0);
                        k += 1;
                        assert(zero_groups(k as int) == zero_groups(k - 1).push(0u16));
                    }
                    all.extend_from_slice(t.as_slice());
                    assert(all@ == h0 + zero_groups(zeros as int) + t@);
                    Some(group_number(&all))
                },
                _ => None,
            }
        },
    }
}

impl IpAddr {
    /// Reads an address; anything but a complete literal is refused.
    pub fn parse(s: &str) -> (r: Option<IpAddr>)
        ensures
            r == address(s@),
    {
        match parse_v4(s) {
            Some(v) => Some(IpAddr::V4(v)),
            None => match parse_v6(s) {
                Some(v) => Some(IpAddr::V6(v)),
                None => None,
            },
        }
    }
}

/// `::ffff:a.b.c.d` as `a.b.c.d`; any other address as it is.
pub open spec fn canonical(ip: IpAddr) -> IpAddr {
    match ip {
        IpAddr::V6(v) if v / 0x1_0000_0000 == 0xffff => IpAddr::V4((v % 0x1_0000_0000) as u32),
        _ => ip,
    }
}

/// The IPv6 form of an IPv4 address: `::ffff:a.b.c.d`.
pub open spec fn mapped_form(v: u32) -> u128 {
    (0xffff_0000_0000 + v as int) as u128
}

/// The mapped form of an address stands for that address.
pub proof fn mapped_form_is_undone(v: u32)
    ensures
        mapped_form(v) == 0xffff_0000_0000 + v,
        mapped_form(v) / 0x1_0000_0000 == 0xffff,
        canonical(IpAddr::V6(mapped_form(v))) == IpAddr::V4(v),
{
    let m = mapped_form(v);
    assert(m / 0x1_0000_0000 == 0xffff);
    assert(m % 0x1_0000_0000 == v);
}

/// The text `::ffff:0:0` stands for the first of the mapped addresses.
pub proof fn first_mapped_address_is_read()
    ensures
        address(seq![':', ':', 'f', 'f', 'f', 'f', ':', '0', ':', '0']) == Some(
            IpAddr::V6(0xffff_0000_0000),
        ),
{
    let s = seq![':', ':', 'f', 'f', 'f', 'f', ':', '0', ':', '0'];
    assert(crate::text::split_on(s, '.').len() == 1) by {
        reveal_with_fuel(crate::text::split_upto, 11);
    }
    assert(crate::text::find_from(s, seq![':', ':'], 0) == Some(0int)) by {
        assert(s.subrange(0, 2) == seq![':', ':']);
    }
    assert(s.take(0) == Seq::<char>::empty());
    let t = s.skip(2);
    assert(t == seq!['f', 'f', 'f', 'f', ':', '0', ':', '0']);
    let f = seq!['f', 'f', 'f', 'f'];
    let z = seq!['0'];
    let p = crate::text::split_on(t, ':');
    assert(p == seq![f, z, z]) by {
        reveal_with_fuel(crate::text::split_upto, 9);
        assert(p[0] == f);
        assert(p[1] == z);
        assert(p[2] == z);
    }
    assert(v4_value(z) is None) by {
        reveal_with_fuel(crate::text::split_upto, 2);
    }
    assert(hex_group(f) == Some(0xffffu16)) by {
        reveal_with_fuel(hex_value, 5);
        assert(f.drop_last() == seq!['f', 'f', 'f']);
        assert(f.drop_last().drop_last() == seq!['f', 'f']);
        assert(f.drop_last().drop_last().drop_last() == seq!['f']);
        assert(hex_value(f) == 0xffff);
    }
    assert(hex_group(z) == Some(0u16)) by {
        reveal_with_fuel(hex_value, 2);
    }
    let g = seq![0xffffu16, 0u16, 0u16];
    assert(groups(t, true) == Some(g)) by {
        reveal_with_fuel(groups_upto, 4);
        assert(Seq::<u16>::empty().push(0xffffu16).push(0u16).push(0u16) == g);
    }
    let all = Seq::<u16>::empty() + zero_groups(5) + g;
    assert(groups_value(all) == 0xffff_0000_0000) by {
        assert(all == seq![0u16, 0u16, 0u16, 0u16, 0u16, 0xffffu16, 0u16, 0u16]);
        reveal_with_fuel(groups_value, 9);
    }
}

impl IpAddr {
    pub fn to_canonical(&self) -> (r: IpAddr)
        ensures
            r == canonical(*self),
    {
        match *self {
            IpAddr::V6(v) => if v / 0x1_0000_0000 == 0xffff {
                IpAddr::V4((v % 0x1_0000_0000) as u32)
            } else {
                IpAddr::V6(v)
            },
            IpAddr::V4(v) => IpAddr::V4(v),
        }
    }
}

// ---- Writing ------------------------------------------------------------------

/// A dotted quad.
pub open spec fn v4_text(v: u32) -> Seq<char> {
    crate::text::decimal_text((v / 0x100_0000) as nat).push('.') + crate::text::decimal_text(
        (v / 0x1_0000 % 0x100) as nat,
    ).push('.') + crate::text::decimal_text((v / 0x100 % 0x100) as nat).push('.')
        + crate::text::decimal_text((v % 0x100) as nat)
}

/// A lowercase hexadecimal digit.
pub open spec fn hex_char(d: nat) -> char {
    if d < 10 {
        ('0' as u32 + d) as char
    } else {
        ('a' as u32 + d - 10) as char
    }
}

/// A number in lowercase hexadecimal, without leading zeros.
pub open spec fn hex_text(n: nat) -> Seq<char>
    decreases n,
{
    if n < 16 {
        seq![hex_char(n)]
    } else {
        hex_text(n / 16).push(hex_char(n % 16))
    }
}

/// The eight groups of an address, first to last.
pub open spec fn segments(v: u128) -> Seq<u16> {
    seq![
        (v / 0x1_0000_0000_0000_0000_0000_0000_0000) as u16,
        (v / 0x1_0000_0000_0000_0000_0000_0000 % 0x1_0000) as u16,
        (v / 0x1_0000_0000_0000_0000_0000 % 0x1_0000) as u16,
        (v / 0x1_0000_0000_0000_0000 % 0x1_0000) as u16,
        (v / 0x1_0000_0000_0000 % 0x1_0000) as u16,
        (v / 0x1_0000_0000 % 0x1_0000) as u16,
        (v / 0x1_0000 % 0x1_0000) as u16,
        (v % 0x1_0000) as u16,
    ]
}

/// The number of zero groups that end just before `n`.
pub open spec fn zeros_before(s: Seq<u16>, n: int) -> int
    decreases n,
{
    if n <= 0 || s[n - 1] != 0 {
        0
    } else {
        zeros_before(s, n - 1) + 1
    }
}

/// Start and length of the longest run of zero groups among the first `n`, the
/// first of them where several are as long.
pub open spec fn longest_zeros(s: Seq<u16>, n: int) -> (int, int)
    decreases n,
{
    if n <= 0 {
        (0, 0)
    } else {
        let l = longest_zeros(s, n - 1);
        let z = zeros_before(s, n);
        if z > l.1 {
            (n - z, z)
        } else {
            l
        }
    }
}

/// Groups in hexadecimal with colons between them.
pub open spec fn colon_text(s: Seq<u16>) -> Seq<char> {
    crate::text::joined(s.map_values(|g: u16| hex_text(g as nat)), ':')
}

/// An IPv6 address: the longest run of two or more zero groups is written `::`,
/// a mapped IPv4 address keeps its dotted quad.
pub open spec fn v6_text(v: u128) -> Seq<char> {
    if v / 0x1_0000_0000 == 0xffff {
        seq![':', ':', 'f', 'f', 'f', 'f', ':'] + v4_text((v % 0x1_0000_0000) as u32)
    } else {
        let s = segments(v);
        let (a, n) = longest_zeros(s, 8);
        if n > 1 {
            colon_text(s.take(a)) + seq![':', ':'] + colon_text(s.skip(a + n))
        } else {
            colon_text(s)
        }
    }
}

/// The text of an address.
pub open spec fn address_text(ip: IpAddr) -> Seq<char> {
    match ip {
        IpAddr::V4(v) => v4_text(v),
        IpAddr::V6(v) => v6_text(v),
    }
}

pub fn v4_string(v: u32) -> (r: String)
    ensures
        r@ == v4_text(v),
{
    let mut out = number_text((v / 0x100_0000) as u64);
    out.push('.');
    out.append(number_text((v / 0x1_0000 % 0x100) as u64).as_str());
    out.push('.');
    out.append(number_text((v / 0x100 % 0x100) as u64).as_str());
    out.push('.');
    out.append(number_text((v % 0x100) as u64).as_str());
    assert(out@ == v4_text(v));
    out
}

fn hex_string(n: u16) -> (r: String)
    ensures
        r@ == hex_text(n as nat),
    decreases n,
{
    let d: u8 = (n % 16) as u8;
    let ch: char = if d < 10 {
        (48u8 + d) as char
    } else {
        (87u8 + d) as char
    };
    assert(ch == hex_char((n % 16) as nat));
    if n < 16 {
        let mut out = String::new();
        out.push(ch);
        assert(out@ == seq![hex_char(n as nat)]);
        out
    } else {
        let mut out = hex_string(n / 16);
        out.push(ch);
        out
    }
}

fn colon_string(s: &Vec<u16>, from: usize, to: usize) -> (r: String)
    requires
        from <= to <= s@.len(),
    ensures
        r@ == colon_text(s@.subrange(from as int, to as int)),
{
    let mut out = String::new();
    let mut i: usize = from;
    let ghost all = s@.subrange(from as int, to as int);
    let ghost f = |g: u16| hex_text(g as nat);
    while i < to
        invariant
            from <= i <= to <= s@.len(),
            all == s@.subrange(from as int, to as int),
            f == (|g: u16| hex_text(g as nat)),
            out@ == crate::text::joined(all.take(i - from).map_values(f), ':'),
        decreases to - i,
    {
        let ghost k = i - from;
        let ghost prev = all.take(k).map_values(f);
        let ghost next = all.take(k + 1).map_values(f);
        if i > from {
            out.push(':');
        }
        out.append(hex_string(s[i]).as_str());
        proof {
            assert(next.drop_last() == prev);
            assert(next.last() == hex_text(s@[i as int] as nat));
            if k == 0 {
                assert(prev == Seq::<Seq<char>>::empty());
                assert(out@ == next[0]);
            }
        }
        i += 1;
    }
    assert(all.take(to - from) == all);
    out
}

fn segment_list(v: u128) -> (r: Vec<u16>)
    ensures
        r@ == segments(v),
{
    vec![
        (v / 0x1_0000_0000_0000_0000_0000_0000_0000) as u16,
        (v / 0x1_0000_0000_0000_0000_0000_0000 % 0x1_0000) as u16,
        (v / 0x1_0000_0000_0000_0000_0000 % 0x1_0000) as u16,
        (v / 0x1_0000_0000_0000_0000 % 0x1_0000) as u16,
        (v / 0x1_0000_0000_0000 % 0x1_0000) as u16,
        (v / 0x1_0000_0000 % 0x1_0000) as u16,
        (v / 0x1_0000 % 0x1_0000) as u16,
        (v % 0x1_0000) as u16,
    ]
}

fn longest_run(s: &Vec<u16>) -> (r: (usize, usize))
    requires
        s@.len() == 8,
    ensures
        (r.0 as int, r.1 as int) == longest_zeros(s@, 8),
        r.0 + r.1 <= 8,
{
    let mut start: usize = 0;
    let mut len: usize = 0;
    let mut run: usize = 0;
    let mut i: usize = 0;
    while i < 8
        invariant
            i <= 8,
            s@.len() == 8,
            run == zeros_before(s@, i as int),
            run <= i,
            (start as int, len as int) == longest_zeros(s@, i as int),
            start + len <= i,
        decreases 8 - i,
    {
        if s[i] == 0 {
            run += 1;
        } else {
            run = 0;
        }
        i += 1;
        if run > len {
            start = i - run;
            len = run;
        }
    }
    (start, len)
}

impl IpAddr {
    pub fn to_text(&self) -> (r: String)
        ensures
            r@ == address_text(*self),
    {
        match *self {
            IpAddr::V4(v) => v4_string(v),
            IpAddr::V6(v) => {
                if v / 0x1_0000_0000 == 0xffff {
                    let mut out = "::ffff:".to_owned();
                    proof {
                        reveal_strlit("::ffff:");
                        assert("::ffff:"@ == seq![':', ':', 'f', 'f', 'f', 'f', ':']);
                    }
                    out.append(v4_string((v % 0x1_0000_0000) as u32).as_str());
                    out
                } else {
                    let s = segment_list(v);
                    let (a, n): (usize, usize) = longest_run(&s);
                    if n > 1 {
                        let mut out = colon_string(&s, 0, a);
                        out.push(':');
                        out.push(':');
                        out.append(colon_string(&s, a + n, 8).as_str());
                        proof {
                            assert(s@.subrange(0, a as int) == s@.take(a as int));
                            assert(s@.subrange(a + n, 8) == s@.skip(a + n));
                            assert(out@ == v6_text(v));
                        }
                        out
                    } else {
                        let out = colon_string(&s, 0, 8);
                        assert(s@.subrange(0, 8) == s@);
                        out
                    }
                }
            },
        }
    }
}

} // verus!
