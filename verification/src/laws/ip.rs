//! Addresses and prefixes.
use vstd::prelude::*;

use crate::ip::IpAddr;

verus! {

proof fn octets_are_written(n: u8)
    ensures
        crate::ip::octet(super::words::written(n as nat)) == Some(n as nat),
        super::words::free_of(super::words::written(n as nat), '.'),
        super::words::free_of(super::words::written(n as nat), '/'),
{
    let w = super::words::written(n as nat);
    super::text::written_in_digits(n as nat);
    super::text::numbers_are_decimal(n as nat, 255);
    assert forall|i: int| 0 <= i < w.len() implies #[trigger] w[i] != '.' && w[i] != '/' by {
        assert('0' <= super::words::written(n as nat)[i] <= '9');
    }
    assert(w[0] != '+') by {
        assert('0' <= super::words::written(n as nat)[0] <= '9');
    }
    assert(crate::text::all_digits(w));
}

/// A dotted quad is read as the address of its four bytes, the first the highest.
pub proof fn a_dotted_quad_is_read(a: u8, b: u8, c: u8, d: u8)
    ensures
        crate::ip::v4_value(super::words::dotted(a, b, c, d)) == Some(
            (a * 16777216 + b * 65536 + c * 256 + d) as nat,
        ),
        crate::ip::address(super::words::dotted(a, b, c, d)) == Some(
            IpAddr::V4((a * 16777216 + b * 65536 + c * 256 + d) as u32),
        ),
        super::words::free_of(super::words::dotted(a, b, c, d), '/'),
{
    let wa = super::words::written(a as nat);
    let wb = super::words::written(b as nat);
    let wc = super::words::written(c as nat);
    let wd = super::words::written(d as nat);
    octets_are_written(a);
    octets_are_written(b);
    octets_are_written(c);
    octets_are_written(d);
    let dot = seq!['.'];
    super::text::pieces_lie_between_separators(Seq::empty(), '.', wa);
    super::text::pieces_lie_between_separators(wa, '.', wb);
    super::text::pieces_lie_between_separators(wa + dot + wb, '.', wc);
    super::text::pieces_lie_between_separators(wa + dot + wb + dot + wc, '.', wd);
    let s = super::words::dotted(a, b, c, d);
    let p = crate::text::split_on(s, '.');
    assert(p =~= seq![wa, wb, wc, wd]);
    assert(super::words::free_of(s, '/')) by {
        assert forall|i: int| 0 <= i < s.len() implies #[trigger] s[i] != '/' by {
            let i1 = i - wa.len() - 1;
            let i2 = i1 - wb.len() - 1;
            let i3 = i2 - wc.len() - 1;
            if i < wa.len() {
                assert(s[i] == wa[i]);
            } else if i == wa.len() {
            } else if i1 < wb.len() {
                assert(s[i] == wb[i1]);
            } else if i1 == wb.len() {
            } else if i2 < wc.len() {
                assert(s[i] == wc[i2]);
            } else if i2 == wc.len() {
            } else {
                assert(s[i] == wd[i3]);
            }
        }
    }
}

/// An address with a part over 255, or with other than four parts, is no dotted quad.
pub proof fn other_quads_are_refused(p: Seq<Seq<char>>, i: int, n: nat)
    requires
        p.len() > 0,
        forall|k: int| 0 <= k < p.len() ==> super::words::free_of(#[trigger] p[k], '.'),
        p.len() != 4 || (0 <= i < 4 && n > 255 && p[i] == super::words::written(n)),
    ensures
        crate::ip::v4_value(crate::text::joined(p, '.')) is None,
{
    super::text::joined_pieces_are_split(p, '.');
    if p.len() == 4 {
        super::text::written_in_digits(n);
        super::text::numbers_are_decimal(n, n);
        assert('0' <= super::words::written(n)[0] <= '9');
        assert(crate::ip::octet(p[i]) is None);
    }
}

proof fn groups_are_hexadecimal(n: nat)
    requires
        n < 65536,
    ensures
        1 <= super::words::hexed(n).len() <= 4,
        crate::ip::hex_group(super::words::hexed(n)) == Some(n as u16),
        crate::ip::hex_value(super::words::hexed(n)) == n,
        forall|i: int|
            0 <= i < super::words::hexed(n).len() ==> crate::ip::hex_digit(
                #[trigger] super::words::hexed(n)[i],
            ) is Some,
        super::words::free_of(super::words::hexed(n), ':'),
        super::words::free_of(super::words::hexed(n), '.'),
        super::words::free_of(super::words::hexed(n), '/'),
        n < 16 ==> super::words::hexed(n).len() == 1,
        n < 256 ==> super::words::hexed(n).len() <= 2,
        n < 4096 ==> super::words::hexed(n).len() <= 3,
    decreases n,
{
    let h = super::words::hexed(n);
    reveal_with_fuel(crate::ip::hex_value, 2);
    if n < 16 {
        assert(h.drop_last() =~= Seq::<char>::empty());
        assert(crate::ip::hex_digit(h[0]) == Some(n));
    } else {
        groups_are_hexadecimal(n / 16);
        let g = super::words::hexed(n / 16);
        assert(h.drop_last() =~= g);
        assert(crate::ip::hex_digit(h[h.len() - 1]) == Some(n % 16));
        assert forall|i: int| 0 <= i < h.len() implies crate::ip::hex_digit(
            #[trigger] super::words::hexed(n)[i],
        ) is Some && h[i] != ':' && h[i] != '.' && h[i] != '/' by {
            if i < g.len() {
                assert(h[i] == super::words::hexed(n / 16)[i]);
            }
        }
    }
    assert(crate::ip::hex_value(h) == n);
}

proof fn hex_is_no_quad(n: nat)
    requires
        n < 65536,
    ensures
        crate::ip::v4_value(super::words::hexed(n)) is None,
{
    groups_are_hexadecimal(n);
    super::text::pieces_lie_between_separators(Seq::empty(), '.', super::words::hexed(n));
}

/// The groups of a colon text, as pieces.
spec fn pieces_of(g: Seq<u16>) -> Seq<Seq<char>> {
    Seq::new(g.len(), |i: int| super::words::hexed(g[i] as nat))
}

/// Neither the first nor the last character is a colon, and no two stand together.
spec fn sparse(s: Seq<char>) -> bool {
    &&& s.len() > 0 ==> s[0] != ':' && s[s.len() - 1] != ':'
    &&& forall|i: int| 0 <= i < s.len() - 1 ==> #[trigger] s[i] != ':' || s[i + 1] != ':'
}

proof fn colon_pieces(g: Seq<u16>)
    ensures
        g.len() > 0 ==> crate::text::split_on(super::words::colons(g), ':') == pieces_of(g),
        g.len() > 0 ==> super::words::colons(g).len() > 0,
        sparse(super::words::colons(g)),
        super::words::free_of(super::words::colons(g), '.'),
        super::words::free_of(super::words::colons(g), '/'),
    decreases g.len(),
{
    let s = super::words::colons(g);
    if g.len() == 1 {
        groups_are_hexadecimal(g[0] as nat);
        super::text::pieces_lie_between_separators(Seq::empty(), ':', s);
        assert(pieces_of(g) =~= seq![s]);
        assert forall|i: int| 0 <= i < s.len() - 1 implies #[trigger] s[i] != ':' || s[i + 1]
            != ':' by {
            assert(super::words::hexed(g[0] as nat)[i] != ':');
        }
        assert(s[0] != ':' && s[s.len() - 1] != ':');
    } else if g.len() > 1 {
        let f = g.take(g.len() - 1);
        colon_pieces(f);
        let a = super::words::colons(f);
        let x = super::words::hexed(g[g.len() - 1] as nat);
        groups_are_hexadecimal(g[g.len() - 1] as nat);
        super::text::pieces_lie_between_separators(a, ':', x);
        assert(pieces_of(g) =~= pieces_of(f) + seq![x]);
        assert forall|i: int| 0 <= i < s.len() implies #[trigger] s[i] != '.' && s[i] != '/' by {
            if i < a.len() {
                assert(s[i] == a[i]);
            } else if i > a.len() {
                assert(s[i] == x[i - a.len() - 1]);
            }
        }
        assert(s[0] == a[0]);
        assert(s[s.len() - 1] == x[x.len() - 1]);
        assert forall|i: int| 0 <= i < s.len() - 1 implies #[trigger] s[i] != ':' || s[i + 1]
            != ':' by {
            if i + 1 < a.len() {
                assert(s[i] == a[i] && s[i + 1] == a[i + 1]);
            } else if i + 1 == a.len() {
                assert(s[i] == a[a.len() - 1]);
            } else if i == a.len() {
                assert(s[i + 1] == x[0]);
            } else {
                assert(s[i] == x[i - a.len() - 1]);
            }
        }
    }
}

proof fn pieces_are_groups(g: Seq<u16>, quad: bool, n: int)
    requires
        0 <= n <= g.len(),
    ensures
        crate::ip::groups_upto(pieces_of(g), quad, n) == Some(g.take(n)),
    decreases n,
{
    if n > 0 {
        pieces_are_groups(g, quad, n - 1);
        groups_are_hexadecimal(g[n - 1] as nat);
        hex_is_no_quad(g[n - 1] as nat);
        assert(pieces_of(g)[n - 1] == super::words::hexed(g[n - 1] as nat));
        assert(g.take(n - 1).push(g[n - 1]) =~= g.take(n));
    } else {
        assert(g.take(0) =~= Seq::<u16>::empty());
    }
}

proof fn colons_are_groups(g: Seq<u16>, quad: bool)
    ensures
        crate::ip::groups(super::words::colons(g), quad) == Some(g),
{
    colon_pieces(g);
    if g.len() > 0 {
        pieces_are_groups(g, quad, g.len() as int);
        assert(g.take(g.len() as int) =~= g);
    } else {
        assert(g =~= Seq::<u16>::empty());
    }
}

proof fn numbers_agree(g: Seq<u16>)
    ensures
        crate::ip::groups_value(g) == super::words::number(g),
    decreases g.len(),
{
    if g.len() > 0 {
        numbers_agree(g.drop_last());
        assert(g.drop_last() =~= g.take(g.len() - 1));
    }
}

proof fn finds_none(s: Seq<char>, i: int)
    requires
        0 <= i <= s.len() + 1,
        forall|k: int| i <= k < s.len() - 1 ==> #[trigger] s[k] != ':' || s[k + 1] != ':',
    ensures
        crate::text::find_from(s, seq![':', ':'], i) is None,
    decreases s.len() + 1 - i,
{
    if i <= s.len() {
        super::text::occurring_is_standing(s, seq![':', ':'], i);
        if super::words::stands(s, seq![':', ':'], i) {
            assert(s[i + 0] == seq![':', ':'][0]);
            assert(s[i + 1] == seq![':', ':'][1]);
        }
        finds_none(s, i + 1);
    }
}

proof fn finds_first(s: Seq<char>, i: int, at: int)
    requires
        0 <= i <= at,
        at + 2 <= s.len(),
        s[at] == ':' && s[at + 1] == ':',
        forall|k: int| i <= k < at ==> #[trigger] s[k] != ':' || s[k + 1] != ':',
    ensures
        crate::text::find_from(s, seq![':', ':'], i) == Some(at),
    decreases at - i,
{
    super::text::occurring_is_standing(s, seq![':', ':'], i);
    if i < at {
        if super::words::stands(s, seq![':', ':'], i) {
            assert(s[i + 0] == seq![':', ':'][0]);
            assert(s[i + 1] == seq![':', ':'][1]);
        }
        finds_first(s, i + 1, at);
    } else {
        let two = seq![':', ':'];
        assert forall|k: int| 0 <= k < 2 implies s[i + k] == #[trigger] two[k] by {}
        assert(super::words::stands(s, two, i));
    }
}

proof fn dotless_is_no_quad(s: Seq<char>)
    requires
        super::words::free_of(s, '.'),
    ensures
        crate::ip::v4_value(s) is None,
{
    super::text::pieces_lie_between_separators(Seq::empty(), '.', s);
}

proof fn number_fits(g: Seq<u16>)
    requires
        g.len() <= 8,
    ensures
        super::words::number(g) <= u128::MAX,
{
    reveal_with_fuel(super::words::number, 9);
}

/// Eight groups of hexadecimal digits with colons between them are read as the address
/// of these groups, the first the highest.
pub proof fn eight_groups_are_read(g: Seq<u16>)
    requires
        g.len() == 8,
    ensures
        crate::ip::address(super::words::colons(g)) == Some(
            IpAddr::V6(super::words::number(g) as u128),
        ),
        super::words::number(g) <= u128::MAX,
        super::words::free_of(super::words::colons(g), '/'),
{
    let s = super::words::colons(g);
    colon_pieces(g);
    colons_are_groups(g, true);
    finds_none(s, 0);
    numbers_agree(g);
    number_fits(g);
    dotless_is_no_quad(s);
}

/// `::` stands for the zero groups that are missing.
pub proof fn missing_groups_are_zero(a: Seq<u16>, b: Seq<u16>)
    requires
        a.len() + b.len() <= 7,
    ensures
        ({
            let s = super::words::colons(a) + seq![':', ':'] + super::words::colons(b);
            let zeros = Seq::new((8 - a.len() - b.len()) as nat, |i: int| 0u16);
            let n = super::words::number(a + zeros + b);
            &&& crate::ip::address(s) == Some(IpAddr::V6(n as u128))
            &&& n <= u128::MAX
            &&& super::words::free_of(s, '/')
        }),
{
    let x = super::words::colons(a);
    let y = super::words::colons(b);
    let s = x + seq![':', ':'] + y;
    let at = x.len() as int;
    colon_pieces(a);
    colon_pieces(b);
    colons_are_groups(a, false);
    colons_are_groups(b, true);
    assert forall|k: int| 0 <= k < at implies #[trigger] s[k] != ':' || s[k + 1] != ':' by {
        assert(s[k] == x[k]);
        if k + 1 < at {
            assert(s[k + 1] == x[k + 1]);
        } else {
            assert(x[x.len() - 1] != ':');
        }
    }
    finds_first(s, 0, at);
    assert(s.take(at) =~= x);
    assert(s.skip(at + 2) =~= y);
    assert forall|i: int| 0 <= i < s.len() implies #[trigger] s[i] != '.' && s[i] != '/' by {
        if i < at {
            assert(s[i] == x[i]);
        } else if i >= at + 2 {
            assert(s[i] == y[i - at - 2]);
        }
    }
    dotless_is_no_quad(s);
    let zeros = Seq::new((8 - a.len() - b.len()) as nat, |i: int| 0u16);
    assert(zeros =~= crate::ip::zero_groups(8 - a.len() - b.len()));
    numbers_agree(a + zeros + b);
    number_fits(a + zeros + b);
}

/// An address with a length behind a slash is the prefix of the addresses whose leading
/// bits, as many as the length says, are those of the address. The mapped form of an
/// IPv4 address counts as that address, and no other IPv6 address is in an IPv4 prefix,
/// nor an IPv4 address in an IPv6 prefix. A length over that of the address is refused.
pub proof fn a_prefix_holds_what_shares_its_bits(t: Seq<char>, ip: IpAddr, n: nat, v: u32, w: u128)
    requires
        crate::ip::address(t) == Some(ip),
        super::words::free_of(t, '/'),
    ensures
        match (ip, crate::matcher::cidr(t + seq!['/'] + super::words::written(n))) {
            (IpAddr::V4(a), Ok(c)) => {
                let unit = vstd::arithmetic::power2::pow2((32 - n) as nat);
                &&& n <= 32
                &&& crate::matcher::holds(c, IpAddr::V4(v)) == (a as nat / unit == v as nat / unit)
                &&& crate::matcher::holds(c, IpAddr::V6(w)) == (w as nat / 4294967296 == 65535 && (
                w as nat % 4294967296) / unit == a as nat / unit)
            },
            (IpAddr::V6(a), Ok(c)) => {
                let unit = vstd::arithmetic::power2::pow2((128 - n) as nat);
                &&& n <= 128
                &&& crate::matcher::holds(c, IpAddr::V6(w)) == (a as nat / unit == w as nat / unit)
                &&& !crate::matcher::holds(c, IpAddr::V4(v))
            },
            (IpAddr::V4(_), Err(_)) => n > 32,
            (IpAddr::V6(_), Err(_)) => n > 128,
        },
{
    let s = t + seq!['/'] + super::words::written(n);
    super::text::cut_is_at_the_first(t, '/', super::words::written(n));
    super::text::numbers_are_decimal(n, 255);
}

/// So `a.b.c.d/n` is the prefix of the IPv4 addresses that share its first `n` bits.
pub proof fn a_dotted_prefix_is_read(a: u8, b: u8, c: u8, d: u8, n: nat, v: u32)
    requires
        n <= 32,
    ensures
        match crate::matcher::cidr(
            super::words::dotted(a, b, c, d) + seq!['/'] + super::words::written(n),
        ) {
            Ok(p) => crate::matcher::holds(p, IpAddr::V4(v)) == ({
                let unit = vstd::arithmetic::power2::pow2((32 - n) as nat);
                (a * 16777216 + b * 65536 + c * 256 + d) as nat / unit == v as nat / unit
            }),
            Err(_) => false,
        },
{
    a_dotted_quad_is_read(a, b, c, d);
    let ip = (a * 16777216 + b * 65536 + c * 256 + d) as u32;
    a_prefix_holds_what_shares_its_bits(
        super::words::dotted(a, b, c, d),
        IpAddr::V4(ip),
        n,
        v,
        0,
    );
}

/// So eight groups with `/n` behind them are the prefix of the IPv6 addresses that share
/// its first `n` bits.
pub proof fn a_colon_prefix_is_read(g: Seq<u16>, n: nat, w: u128)
    requires
        g.len() == 8,
        n <= 128,
    ensures
        match crate::matcher::cidr(super::words::colons(g) + seq!['/'] + super::words::written(n)) {
            Ok(p) => crate::matcher::holds(p, IpAddr::V6(w)) == ({
                let unit = vstd::arithmetic::power2::pow2((128 - n) as nat);
                super::words::number(g) / unit == w as nat / unit
            }),
            Err(_) => false,
        },
{
    eight_groups_are_read(g);
    a_prefix_holds_what_shares_its_bits(
        super::words::colons(g),
        IpAddr::V6(super::words::number(g) as u128),
        n,
        0,
        w,
    );
}

/// An address without a length is no prefix, nor is anything with a length that is no
/// number or before which stands no address.
pub proof fn other_prefixes_are_refused(t: Seq<char>, l: Seq<char>)
    requires
        super::words::free_of(t, '/'),
    ensures
        crate::matcher::cidr(t) is Err,
        crate::ip::address(t) is None || crate::text::decimal(l, 255) is None
            ==> crate::matcher::cidr(t + seq!['/'] + l) is Err,
{
    super::text::cut_is_at_the_first(t, '/', l);
}

/// A host is in a prefix where it is an address that the prefix holds.
pub proof fn only_addresses_are_in_prefixes(c: crate::matcher::CidrView, host: Seq<char>)
    ensures
        crate::matcher::cidr_accepts(c, host) == match crate::ip::address(host) {
            Some(ip) => crate::matcher::holds(c, ip),
            None => false,
        },
{
}

proof fn quad_text(v: u32)
    ensures
        crate::ip::v4_text(v) == super::words::dotted(
            (v / 16777216) as u8,
            (v / 65536 % 256) as u8,
            (v / 256 % 256) as u8,
            (v % 256) as u8,
        ),
{
    let a = (v / 16777216) as nat;
    let b = (v / 65536 % 256) as nat;
    let c = (v / 256 % 256) as nat;
    let d = (v % 256) as nat;
    super::text::numbers_are_decimal(a, 255);
    super::text::numbers_are_decimal(b, 255);
    super::text::numbers_are_decimal(c, 255);
    super::text::numbers_are_decimal(d, 255);
    assert(crate::ip::v4_text(v) =~= super::words::dotted(
        (v / 16777216) as u8,
        (v / 65536 % 256) as u8,
        (v / 256 % 256) as u8,
        (v % 256) as u8,
    ));
}

/// The text of an IPv4 address is its dotted quad, and is read back.
pub proof fn an_ipv4_address_is_shown_and_read(v: u32)
    ensures
        crate::ip::address_text(IpAddr::V4(v)) == super::words::dotted(
            (v / 16777216) as u8,
            (v / 65536 % 256) as u8,
            (v / 256 % 256) as u8,
            (v % 256) as u8,
        ),
        crate::ip::address(crate::ip::address_text(IpAddr::V4(v))) == Some(IpAddr::V4(v)),
{
    quad_text(v);
    a_dotted_quad_is_read(
        (v / 16777216) as u8,
        (v / 65536 % 256) as u8,
        (v / 256 % 256) as u8,
        (v % 256) as u8,
    );
    bytes_make(
        v,
        (v / 16777216) as u8,
        (v / 65536 % 256) as u8,
        (v / 256 % 256) as u8,
        (v % 256) as u8,
    );
}

proof fn groups_are_shown(g: Seq<u16>)
    ensures
        crate::ip::colon_text(g) == super::words::colons(g),
    decreases g.len(),
{
    let t = g.map_values(|x: u16| crate::ip::hex_text(x as nat));
    if g.len() == 0 {
        assert(t =~= Seq::<Seq<char>>::empty());
        assert(crate::text::joined(t, ':') =~= Seq::<char>::empty());
    } else {
        let n = g.len() as int;
        hex_is_hex(g[n - 1] as nat);
        groups_are_shown(g.take(n - 1));
        assert(g.take(n - 1).map_values(|x: u16| crate::ip::hex_text(x as nat)) =~= t.drop_last());
        assert(t.last() == super::words::hexed(g[n - 1] as nat));
        assert(t.take(n - 1) =~= t.drop_last());
        if n == 1 {
            super::text::joining_puts_separators_between(t, ':', t.last());
            assert(t =~= seq![t.last()]);
        } else {
            super::text::joining_puts_separators_between(t.drop_last(), ':', t.last());
            assert(t.drop_last() + seq![t.last()] =~= t);
        }
    }
}

proof fn hex_is_hex(n: nat)
    ensures
        crate::ip::hex_text(n) == super::words::hexed(n),
    decreases n,
{
    if n >= 16 {
        hex_is_hex(n / 16);
    }
    assert(crate::ip::hex_text(n) =~= super::words::hexed(n));
}

proof fn a_run_of_zeros(s: Seq<u16>, n: int)
    requires
        0 <= n <= s.len(),
    ensures
        0 <= crate::ip::zeros_before(s, n) <= n,
        forall|k: int| n - crate::ip::zeros_before(s, n) <= k < n ==> #[trigger] s[k] == 0,
    decreases n,
{
    if n > 0 && s[n - 1] == 0 {
        a_run_of_zeros(s, n - 1);
    }
}

proof fn the_run_is_of_zeros(s: Seq<u16>, n: int)
    requires
        0 <= n <= s.len(),
    ensures
        ({
            let l = crate::ip::longest_zeros(s, n);
            &&& 0 <= l.0
            &&& 0 <= l.1
            &&& l.0 + l.1 <= n
            &&& forall|k: int| l.0 <= k < l.0 + l.1 ==> #[trigger] s[k] == 0
        }),
    decreases n,
{
    if n > 0 {
        the_run_is_of_zeros(s, n - 1);
        a_run_of_zeros(s, n);
    }
}

proof fn next_group(v: int, d: int)
    requires
        0 <= v,
        0 < d,
    ensures
        v / d == v / (d * 65536) * 65536 + v / d % 65536,
{
    vstd::arithmetic::div_mod::lemma_div_denominator(v, d, 65536);
}

proof fn eight_groups_make(g: Seq<u16>)
    requires
        g.len() == 8,
    ensures
        super::words::number(g) == ((((((g[0] * 65536 + g[1]) * 65536 + g[2]) * 65536 + g[3])
            * 65536 + g[4]) * 65536 + g[5]) * 65536 + g[6]) * 65536 + g[7],
{
    let g7 = g.take(7);
    let g6 = g7.take(6);
    let g5 = g6.take(5);
    let g4 = g5.take(4);
    let g3 = g4.take(3);
    let g2 = g3.take(2);
    let g1 = g2.take(1);
    assert(super::words::number(g1.take(0)) == 0);
    assert(super::words::number(g1) == g[0]);
    assert(super::words::number(g2) == g[0] * 65536 + g[1]);
    assert(super::words::number(g3) == super::words::number(g2) * 65536 + g[2]);
    assert(super::words::number(g4) == super::words::number(g3) * 65536 + g[3]);
    assert(super::words::number(g5) == super::words::number(g4) * 65536 + g[4]);
    assert(super::words::number(g6) == super::words::number(g5) * 65536 + g[5]);
    assert(super::words::number(g7) == super::words::number(g6) * 65536 + g[6]);
    assert(super::words::number(g) == super::words::number(g7) * 65536 + g[7]);
}

#[verifier::spinoff_prover]
proof fn segments_make_the_number(v: u128)
    ensures
        super::words::number(crate::ip::segments(v)) == v,
{
    let x = v as int;
    let s = crate::ip::segments(v);
    eight_groups_make(s);
    next_group(x, 1);
    next_group(x, 0x1_0000);
    next_group(x, 0x1_0000_0000);
    next_group(x, 0x1_0000_0000_0000);
    next_group(x, 0x1_0000_0000_0000_0000);
    next_group(x, 0x1_0000_0000_0000_0000_0000);
    next_group(x, 0x1_0000_0000_0000_0000_0000_0000);
    assert(x / 1 == x);
    assert(v / 0x1_0000_0000_0000_0000_0000_0000_0000 < 0x1_0000);
    assert(s[0] == v / 0x1_0000_0000_0000_0000_0000_0000_0000);
    assert(s[1] == v / 0x1_0000_0000_0000_0000_0000_0000 % 0x1_0000);
    assert(s[2] == v / 0x1_0000_0000_0000_0000_0000 % 0x1_0000);
    assert(s[3] == v / 0x1_0000_0000_0000_0000 % 0x1_0000);
    assert(s[4] == v / 0x1_0000_0000_0000 % 0x1_0000);
    assert(s[5] == v / 0x1_0000_0000 % 0x1_0000);
    assert(s[6] == v / 0x1_0000 % 0x1_0000);
    assert(s[7] == v % 0x1_0000);
}

proof fn mapped_number(x: u16, y: u16)
    ensures
        super::words::number(Seq::new(5, |i: int| 0u16) + seq![0xffffu16] + seq![x, y])
            == 0xffff_0000_0000 + x * 65536 + y,
{
    let g = Seq::new(5, |i: int| 0u16) + seq![0xffffu16] + seq![x, y];
    reveal_with_fuel(super::words::number, 9);
    let s7 = g.take(7);
    let s6 = s7.take(6);
    let s5 = s6.take(5);
    assert(s5.take(4).take(3).take(2).take(1).take(0).len() == 0);
    assert(super::words::number(s5) == 0);
    assert(super::words::number(s6) == 0xffff);
    assert(super::words::number(s7) == 0xffff_0000 + x);
}

proof fn all_ones()
    ensures
        super::words::colons(seq![0xffffu16]) == seq!['f', 'f', 'f', 'f'],
{
    reveal_with_fuel(super::words::hexed, 5);
    assert(super::words::colons(seq![0xffffu16]) =~= seq!['f', 'f', 'f', 'f']);
}

#[verifier::spinoff_prover]
proof fn mapped_is_read(v: u32)
    ensures
        crate::ip::address(seq![':', ':', 'f', 'f', 'f', 'f', ':'] + crate::ip::v4_text(v)) == Some(
            IpAddr::V6((0xffff_0000_0000 + v) as u128),
        ),
        super::words::free_of(
            seq![':', ':', 'f', 'f', 'f', 'f', ':'] + crate::ip::v4_text(v),
            '/',
        ),
{
    quad_text(v);
    a_dotted_quad_is_read(
        (v / 16777216) as u8,
        (v / 65536 % 256) as u8,
        (v / 256 % 256) as u8,
        (v % 256) as u8,
    );
    let a = (v / 16777216) as u8;
    let b = (v / 65536 % 256) as u8;
    let c = (v / 256 % 256) as u8;
    let d = (v % 256) as u8;
    a_quad_may_stand_last(seq![0xffffu16], a, b, c, d);
    all_ones();
    mapped_number((a * 256 + b) as u16, (c * 256 + d) as u16);
    assert(seq![':', ':'] + super::words::colons(seq![0xffffu16]) + seq![':'] + crate::ip::v4_text(
        v,
    ) =~= seq![':', ':', 'f', 'f', 'f', 'f', ':'] + crate::ip::v4_text(v));
    bytes_make(v, a, b, c, d);
}

proof fn bytes_make(v: u32, a: u8, b: u8, c: u8, d: u8)
    requires
        a == v / 16777216,
        b == v / 65536 % 256,
        c == v / 256 % 256,
        d == v % 256,
    ensures
        v == (a * 256 + b) * 65536 + (c * 256 + d),
        v == a * 16777216 + b * 65536 + c * 256 + d,
{
}

/// Behind `::` and at least one group the last two groups may be written as a dotted quad.
pub proof fn a_quad_may_stand_last(g: Seq<u16>, a: u8, b: u8, c: u8, d: u8)
    requires
        1 <= g.len() <= 5,
    ensures
        ({
            let s = seq![':', ':'] + super::words::colons(g) + seq![':'] + super::words::dotted(
                a,
                b,
                c,
                d,
            );
            let zeros = Seq::new((6 - g.len()) as nat, |i: int| 0u16);
            crate::ip::address(s) == Some(
                IpAddr::V6(
                    super::words::number(
                        zeros + g + seq![(a * 256 + b) as u16, (c * 256 + d) as u16],
                    ) as u128,
                ),
            )
        }),
{
    let quad = super::words::dotted(a, b, c, d);
    let t = super::words::colons(g) + seq![':'] + quad;
    let s = seq![':', ':'] + super::words::colons(g) + seq![':'] + quad;
    assert(s =~= seq![':', ':'] + t);
    let last = seq![(a * 256 + b) as u16, (c * 256 + d) as u16];
    groups_with_a_quad(g, a, b, c, d);
    finds_first(s, 0, 0);
    assert(s.take(0).len() == 0);
    assert(s.skip(2) =~= t);
    let zeros = Seq::new((6 - g.len()) as nat, |i: int| 0u16);
    assert(Seq::<u16>::empty() + crate::ip::zero_groups(8 - 0 - (g + last).len()) + (g + last)
        =~= zeros + g + last);
    numbers_agree(zeros + g + last);
    mixed_is_no_quad(g, a, b, c, d);
}

proof fn groups_with_a_quad(g: Seq<u16>, a: u8, b: u8, c: u8, d: u8)
    requires
        g.len() > 0,
    ensures
        crate::ip::groups(
            super::words::colons(g) + seq![':'] + super::words::dotted(a, b, c, d),
            true,
        ) == Some(g + seq![(a * 256 + b) as u16, (c * 256 + d) as u16]),
{
    let quad = super::words::dotted(a, b, c, d);
    a_dotted_quad_is_read(a, b, c, d);
    a_quad_has_no_colon(a, b, c, d);
    colon_pieces(g);
    super::text::pieces_lie_between_separators(super::words::colons(g), ':', quad);
    pieces_and_a_quad(g, quad, g.len() as int);
    assert(g.take(g.len() as int) =~= g);
    let last = seq![(a * 256 + b) as u16, (c * 256 + d) as u16];
    let v = (a * 16777216 + b * 65536 + c * 256 + d) as nat;
    assert(v / 65536 == a * 256 + b && v % 65536 == c * 256 + d);
    assert(g.push((a * 256 + b) as u16).push((c * 256 + d) as u16) =~= g + last);
    assert((pieces_of(g) + seq![quad])[g.len() as int] == quad);
}

proof fn mixed_is_no_quad(g: Seq<u16>, a: u8, b: u8, c: u8, d: u8)
    ensures
        crate::ip::v4_value(
            seq![':', ':'] + super::words::colons(g) + seq![':'] + super::words::dotted(a, b, c, d),
        ) is None,
{
    let s = seq![':', ':'] + super::words::colons(g) + seq![':'] + super::words::dotted(a, b, c, d);
    colon_pieces(g);
    let wa = super::words::written(a as nat);
    let wb = super::words::written(b as nat);
    let wc = super::words::written(c as nat);
    let wd = super::words::written(d as nat);
    octets_are_written(a);
    octets_are_written(b);
    octets_are_written(c);
    octets_are_written(d);
    let x = seq![':', ':'] + super::words::colons(g) + seq![':'] + wa;
    assert(super::words::free_of(x, '.'));
    super::text::pieces_lie_between_separators(x, '.', wb);
    super::text::pieces_lie_between_separators(Seq::empty(), '.', x);
    super::text::pieces_lie_between_separators(x + seq!['.'] + wb, '.', wc);
    super::text::pieces_lie_between_separators(
        x + seq!['.'] + wb + seq!['.'] + wc,
        '.',
        wd,
    );
    assert(s =~= x + seq!['.'] + wb + seq!['.'] + wc + seq!['.'] + wd);
    assert(crate::text::split_on(s, '.')[0] == x);
    assert(x[0] == ':');
    assert(!crate::text::all_digits(x));
}

proof fn a_quad_has_no_colon(a: u8, b: u8, c: u8, d: u8)
    ensures
        super::words::free_of(super::words::dotted(a, b, c, d), ':'),
{
    super::text::written_in_digits(a as nat);
    super::text::written_in_digits(b as nat);
    super::text::written_in_digits(c as nat);
    super::text::written_in_digits(d as nat);
    let wa = super::words::written(a as nat);
    let wb = super::words::written(b as nat);
    let wc = super::words::written(c as nat);
    let q = super::words::dotted(a, b, c, d);
    assert forall|i: int| 0 <= i < q.len() implies #[trigger] q[i] != ':' by {
        let ib: int = i - wa.len() - 1;
        let ic: int = ib - wb.len() - 1;
        let id: int = ic - wc.len() - 1;
        if i < wa.len() {
            assert('0' <= super::words::written(a as nat)[i] <= '9');
        } else if 0 <= ib < wb.len() {
            assert(q[i] == super::words::written(b as nat)[ib]);
        } else if 0 <= ic < wc.len() {
            assert(q[i] == super::words::written(c as nat)[ic]);
        } else if 0 <= id {
            assert(q[i] == super::words::written(d as nat)[id]);
        }
    }
}

proof fn pieces_and_a_quad(g: Seq<u16>, quad: Seq<char>, n: int)
    requires
        0 <= n <= g.len(),
    ensures
        crate::ip::groups_upto(pieces_of(g) + seq![quad], true, n) == Some(g.take(n)),
    decreases n,
{
    if n > 0 {
        pieces_and_a_quad(g, quad, n - 1);
        groups_are_hexadecimal(g[n - 1] as nat);
        assert((pieces_of(g) + seq![quad])[n - 1] == super::words::hexed(g[n - 1] as nat));
        assert(g.take(n - 1).push(g[n - 1]) =~= g.take(n));
    } else {
        assert(g.take(0) =~= Seq::<u16>::empty());
    }
}

proof fn unmapped_is_read(v: u128)
    requires
        v / 0x1_0000_0000 != 0xffff,
    ensures
        crate::ip::address(crate::ip::v6_text(v)) == Some(IpAddr::V6(v)),
        super::words::free_of(crate::ip::v6_text(v), '/'),
{
    let s = crate::ip::segments(v);
    segments_make_the_number(v);
    the_run_is_of_zeros(s, 8);
    let (a, n) = crate::ip::longest_zeros(s, 8);
    assert(s.len() == 8);
    if n > 1 {
        let x = s.take(a);
        let y = s.skip(a + n);
        groups_are_shown(x);
        groups_are_shown(y);
        missing_groups_are_zero(x, y);
        let zeros = Seq::new((8 - x.len() - y.len()) as nat, |i: int| 0u16);
        assert(x + zeros + y =~= s);
    } else {
        groups_are_shown(s);
        eight_groups_are_read(s);
    }
}

/// An IPv6 address is read back from its text.
pub proof fn an_ipv6_address_is_shown_and_read(v: u128)
    ensures
        crate::ip::address(crate::ip::address_text(IpAddr::V6(v))) == Some(IpAddr::V6(v)),
        super::words::free_of(crate::ip::address_text(IpAddr::V6(v)), '/'),
{
    if v / 0x1_0000_0000 == 0xffff {
        let w = (v % 0x1_0000_0000) as u32;
        mapped_is_read(w);
        assert(v == 0xffff_0000_0000 + w);
    } else {
        unmapped_is_read(v);
    }
}

/// A prefix is shown as its address, a slash and its length, and is read back from that.
pub proof fn a_prefix_is_shown_and_read(net: IpAddr, prefix: nat)
    requires
        match net {
            IpAddr::V4(_) => prefix <= 32,
            IpAddr::V6(_) => prefix <= 128,
        },
    ensures
        ({
            let c = crate::matcher::CidrView { net, prefix };
            &&& crate::matcher::cidr_text(c) == crate::ip::address_text(net) + seq!['/']
                + super::words::written(prefix)
            &&& crate::matcher::cidr(crate::matcher::cidr_text(c)) == Ok::<
                crate::matcher::CidrView,
                Seq<char>,
            >(c)
        }),
{
    let c = crate::matcher::CidrView { net, prefix };
    let t = crate::ip::address_text(net);
    match net {
        IpAddr::V4(v) => {
            an_ipv4_address_is_shown_and_read(v);
            a_dotted_quad_is_read(
                (v / 16777216) as u8,
                (v / 65536 % 256) as u8,
                (v / 256 % 256) as u8,
                (v % 256) as u8,
            );
        },
        IpAddr::V6(v) => {
            an_ipv6_address_is_shown_and_read(v);
        },
    }
    super::text::numbers_are_decimal(prefix, 255);
    assert(crate::matcher::cidr_text(c) =~= t + seq!['/'] + super::words::written(prefix));
    super::text::cut_is_at_the_first(t, '/', super::words::written(prefix));
}

proof fn digits_without_a_zero_before(s: Seq<char>)
    requires
        s.len() > 0,
        crate::text::all_digits(s),
        s.len() == 1 || s[0] != '0',
    ensures
        s == super::words::written(crate::text::digits_value(s)),
        s.len() > 1 ==> crate::text::digits_value(s) >= 10,
        s.len() == 1 && s[0] != '0' ==> crate::text::digits_value(s) > 0,
    decreases s.len(),
{
    let t = s.drop_last();
    let d = (s.last() as u32 - '0' as u32) as nat;
    assert('0' <= s[s.len() - 1] <= '9') by {
        assert(crate::text::is_digit(s[s.len() - 1]));
    }
    reveal_with_fuel(crate::text::digits_value, 2);
    if s.len() == 1 {
        assert(t =~= Seq::<char>::empty());
        assert(s =~= super::words::written(d));
    } else {
        assert forall|i: int| 0 <= i < t.len() implies crate::text::is_digit(#[trigger] t[i]) by {
            assert(t[i] == s[i]);
        }
        assert(t[0] == s[0]);
        digits_without_a_zero_before(t);
        let v = crate::text::digits_value(t);
        assert(v > 0);
        assert((v * 10 + d) / 10 == v && (v * 10 + d) % 10 == d);
        assert(s =~= super::words::written(v) + seq![s.last()]);
    }
}

/// A dotted text is an address exactly where it has four parts and each is a number below 256,
/// written without leading zeros.
pub proof fn quads_are_four_numbers(p: Seq<Seq<char>>)
    requires
        p.len() > 0,
        forall|k: int| 0 <= k < p.len() ==> super::words::free_of(#[trigger] p[k], '.'),
    ensures
        crate::ip::v4_value(crate::text::joined(p, '.')) is Some <==> p.len() == 4 && (forall|k: int|
            0 <= k < 4 ==> is_byte(#[trigger] p[k])),
{
    super::text::joined_pieces_are_split(p, '.');
    if p.len() == 4 {
        bytes_are_octets(p[0]);
        bytes_are_octets(p[1]);
        bytes_are_octets(p[2]);
        bytes_are_octets(p[3]);
        if forall|k: int| 0 <= k < 4 ==> is_byte(#[trigger] p[k]) {
            assert(is_byte(p[0]) && is_byte(p[1]) && is_byte(p[2]) && is_byte(p[3]));
        } else {
            let k = choose|k: int| 0 <= k < 4 && !is_byte(#[trigger] p[k]);
            assert(k == 0 || k == 1 || k == 2 || k == 3);
        }
    }
}

/// A number below 256 in decimal.
pub open spec fn is_byte(s: Seq<char>) -> bool {
    exists|n: nat| n < 256 && s == #[trigger] super::words::written(n)
}

proof fn bytes_are_octets(s: Seq<char>)
    ensures
        crate::ip::octet(s) is Some <==> is_byte(s),
{
    if crate::ip::octet(s) is Some {
        digits_without_a_zero_before(s);
        assert(s == super::words::written(crate::text::digits_value(s)));
    }
    if is_byte(s) {
        let n = choose|n: nat| n < 256 && s == #[trigger] super::words::written(n);
        octets_are_written(n as u8);
    }
}

/// Where `::` stands for no group there are too many.
pub proof fn too_many_groups_are_refused(a: Seq<u16>, b: Seq<u16>)
    requires
        a.len() + b.len() >= 8,
    ensures
        crate::ip::address(super::words::colons(a) + seq![':', ':'] + super::words::colons(b))
            is None,
{
    let x = super::words::colons(a);
    let y = super::words::colons(b);
    let s = x + seq![':', ':'] + y;
    let at = x.len() as int;
    colon_pieces(a);
    colon_pieces(b);
    colons_are_groups(a, false);
    colons_are_groups(b, true);
    assert forall|k: int| 0 <= k < at implies #[trigger] s[k] != ':' || s[k + 1] != ':' by {
        assert(s[k] == x[k]);
        if k + 1 < at {
            assert(s[k + 1] == x[k + 1]);
        } else {
            assert(x[x.len() - 1] != ':');
        }
    }
    finds_first(s, 0, at);
    assert(s.take(at) =~= x);
    assert(s.skip(at + 2) =~= y);
    assert forall|i: int| 0 <= i < s.len() implies #[trigger] s[i] != '.' by {
        if i < at {
            assert(s[i] == x[i]);
        } else if i >= at + 2 {
            assert(s[i] == y[i - at - 2]);
        }
    }
    dotless_is_no_quad(s);
}

/// Without `::` there are eight groups.
pub proof fn eight_groups_are_needed(g: Seq<u16>)
    requires
        g.len() != 8,
    ensures
        crate::ip::address(super::words::colons(g)) is None,
{
    let s = super::words::colons(g);
    colon_pieces(g);
    colons_are_groups(g, true);
    finds_none(s, 0);
    dotless_is_no_quad(s);
}

/// A hexadecimal digit has its value in either case, and no other character has one.
pub proof fn hexadecimal_digits_have_values(c: char)
    ensures
        crate::ip::hex_digit(c) == ({
            let u = c as u32;
            if 48 <= u <= 57 {
                Some((u - 48) as nat)
            } else if 97 <= u <= 102 {
                Some((u - 87) as nat)
            } else if 65 <= u <= 70 {
                Some((u - 55) as nat)
            } else {
                None
            }
        }),
{
}

/// A group is one to four hexadecimal digits, the first the highest.
pub proof fn groups_are_up_to_four_digits(s: Seq<char>, c: char)
    ensures
        crate::ip::hex_group(Seq::empty()) is None,
        s.len() > 4 ==> crate::ip::hex_group(s) is None,
        crate::ip::hex_digit(c) is None ==> crate::ip::hex_group(s + seq![c]) is None,
        crate::ip::hex_digit(c) is Some ==> crate::ip::hex_group(seq![c]) == Some(
            crate::ip::hex_digit(c)->0 as u16,
        ),
        crate::ip::hex_digit(c) is Some && crate::ip::hex_group(s) is Some && s.len() < 4
            ==> crate::ip::hex_group(s + seq![c]) == Some(
            (crate::ip::hex_group(s)->0 * 16 + crate::ip::hex_digit(c)->0) as u16,
        ),
{
    let t = s + seq![c];
    assert(t[t.len() - 1] == c);
    assert(t.drop_last() =~= s);
    reveal_with_fuel(crate::ip::hex_value, 2);
    let one = seq![c];
    assert(one.drop_last() =~= Seq::<char>::empty());
    assert(one.last() == c);
    if crate::ip::hex_digit(c) is Some && crate::ip::hex_group(s) is Some && s.len() < 4 {
        assert forall|i: int| 0 <= i < t.len() implies crate::ip::hex_digit(#[trigger] t[i]) is Some by {
            if i < s.len() {
                assert(t[i] == s[i]);
            }
        }
        three_digits_fit(s);
    }
}

proof fn three_digits_fit(s: Seq<char>)
    requires
        s.len() <= 3,
        forall|i: int| 0 <= i < s.len() ==> crate::ip::hex_digit(#[trigger] s[i]) is Some,
    ensures
        crate::ip::hex_value(s) < 4096,
{
    reveal_with_fuel(crate::ip::hex_value, 4);
    if s.len() > 0 {
        let t = s.drop_last();
        assert(crate::ip::hex_digit(s[s.len() - 1]) is Some);
        if t.len() > 0 {
            let u = t.drop_last();
            assert(t[t.len() - 1] == s[t.len() - 1]);
            assert(crate::ip::hex_digit(s[t.len() - 1]) is Some);
            if u.len() > 0 {
                assert(u[0] == s[0]);
                assert(crate::ip::hex_digit(s[0]) is Some);
                assert(u.drop_last().len() == 0);
            }
        }
    }
}

proof fn colons_before_a_quad(g: Seq<u16>, a: u8, b: u8, c: u8, d: u8)
    requires
        g.len() > 0,
    ensures
        crate::ip::v4_value(
            super::words::colons(g) + seq![':'] + super::words::dotted(a, b, c, d),
        ) is None,
        crate::text::find_from(
            super::words::colons(g) + seq![':'] + super::words::dotted(a, b, c, d),
            seq![':', ':'],
            0,
        ) is None,
{
    let x = super::words::colons(g);
    let q = super::words::dotted(a, b, c, d);
    let s = x + seq![':'] + q;
    colon_pieces(g);
    a_quad_has_no_colon(a, b, c, d);
    assert forall|k: int| 0 <= k < s.len() - 1 implies #[trigger] s[k] != ':' || s[k + 1] != ':' by {
        if k + 1 < x.len() {
            assert(s[k] == x[k] && s[k + 1] == x[k + 1]);
        } else if k + 1 == x.len() {
            assert(s[k] == x[x.len() - 1]);
        } else if k == x.len() {
            assert(s[k + 1] == q[0]);
        } else {
            assert(s[k] == q[k - x.len() - 1]);
        }
    }
    finds_none(s, 0);
    let wa = super::words::written(a as nat);
    let wb = super::words::written(b as nat);
    let wc = super::words::written(c as nat);
    let wd = super::words::written(d as nat);
    octets_are_written(a);
    octets_are_written(b);
    octets_are_written(c);
    octets_are_written(d);
    let y = x + seq![':'] + wa;
    assert(super::words::free_of(y, '.'));
    super::text::pieces_lie_between_separators(y, '.', wb);
    super::text::pieces_lie_between_separators(Seq::empty(), '.', y);
    super::text::pieces_lie_between_separators(y + seq!['.'] + wb, '.', wc);
    super::text::pieces_lie_between_separators(y + seq!['.'] + wb + seq!['.'] + wc, '.', wd);
    assert(s =~= y + seq!['.'] + wb + seq!['.'] + wc + seq!['.'] + wd);
    assert(crate::text::split_on(s, '.')[0] == y);
    assert(y[x.len() as int] == ':');
    assert(!crate::text::all_digits(y));
}

/// Six groups and a dotted quad make an address too.
pub proof fn six_groups_and_a_quad_are_read(g: Seq<u16>, a: u8, b: u8, c: u8, d: u8)
    requires
        g.len() == 6,
    ensures
        crate::ip::address(super::words::colons(g) + seq![':'] + super::words::dotted(a, b, c, d))
            == Some(
            IpAddr::V6(
                super::words::number(g + seq![(a * 256 + b) as u16, (c * 256 + d) as u16]) as u128,
            ),
        ),
{
    colons_before_a_quad(g, a, b, c, d);
    groups_with_a_quad(g, a, b, c, d);
    numbers_agree(g + seq![(a * 256 + b) as u16, (c * 256 + d) as u16]);
}

} // verus!
