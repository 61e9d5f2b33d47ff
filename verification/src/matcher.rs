//! The shared matcher: rules, domain globs, CIDR prefixes, path globs and
//! header-name entries. Every transform and the DNS server match through it.
use vstd::prelude::*;
use vstd::string::*;

use crate::ip::IpAddr;
use crate::text::{
    chars_of, has_text, join2, join3, lower_of, parse_decimal, piece, quoted, same,
    to_lower, upper_of,
};

verus! {

/// A matcher that cannot be built.
#[derive(Debug)]
pub struct MatchConfigError(pub String);

impl MatchConfigError {
    /// The error as shown to an operator.
    pub fn to_text(&self) -> (r: String)
        ensures
            r@ == "invalid matcher: "@ + self.0@,
    {
        join2("invalid matcher: ", self.0.as_str())
    }
}

// ---- Header names in display form -----------------------------------------------

/// The display form of a header name: each token between `-` begins with an
/// uppercase letter and goes on in lowercase.
pub open spec fn canonical_header(s: Seq<char>) -> Seq<char> {
    Seq::new(
        s.len(),
        |i: int|
            if i == 0 || s[i - 1] == '-' {
                crate::text::upper_char(s[i])
            } else {
                crate::text::lower_char(s[i])
            },
    )
}

/// Display form of a header name: `x-request-id` becomes `X-Request-Id`.
pub fn canonical_name(name: &str) -> (r: String)
    ensures
        r@ == canonical_header(name@),
{
    let c = chars_of(name);
    let mut out = String::new();
    let mut i: usize = 0;
    while i < c.len()
        invariant
            c@ == name@,
            i <= c@.len(),
            out@ == canonical_header(name@).take(i as int),
        decreases c@.len() - i,
    {
        let first: bool = if i == 0 {
            true
        } else {
            c[i - 1] == '-'
        };
        if first {
            out.push(upper_of(c[i]));
        } else {
            out.push(lower_of(c[i]));
        }
        assert(canonical_header(name@).take(i + 1) == canonical_header(name@).take(i as int).push(
            canonical_header(name@)[i as int],
        ));
        i += 1;
    }
    assert(canonical_header(name@).take(name@.len() as int) == canonical_header(name@));
    out
}

// ---- Domain globs -----------------------------------------------------------------

/// A domain glob: `*.example.com` matches `example.com` itself and every
/// subdomain at any depth; without the leading `*.` only the name itself.
#[derive(Debug)]
pub struct DomainGlob {
    /// Lowercase, without the `*.` prefix.
    suffix: String,
    wildcard: bool,
}

/// What a domain glob says.
#[verifier::ext_equal]
pub struct DomainGlobView {
    pub suffix: Seq<char>,
    pub wildcard: bool,
}

impl View for DomainGlob {
    type V = DomainGlobView;

    closed spec fn view(&self) -> DomainGlobView {
        DomainGlobView { suffix: self.suffix@, wildcard: self.wildcard }
    }
}

/// `*` in any place but the leading label.
pub open spec fn misplaced_star(pattern: Seq<char>) -> Seq<char> {
    "`*` is only valid as the leading label: "@ + crate::text::quoted_text(pattern)
}

/// The glob that a pattern stands for, or why it stands for none.
pub open spec fn domain_glob(pattern: Seq<char>) -> Result<DomainGlobView, Seq<char>> {
    let p = crate::text::lower(pattern);
    if crate::text::begins(p, seq!['*', '.']) {
        let rest = p.skip(2);
        if rest.len() == 0 || rest.contains('*') {
            Err(misplaced_star(pattern))
        } else {
            Ok(DomainGlobView { suffix: rest, wildcard: true })
        }
    } else if p.contains('*') {
        Err(misplaced_star(pattern))
    } else if p.len() == 0 {
        Err("empty domain pattern"@)
    } else {
        Ok(DomainGlobView { suffix: p, wildcard: false })
    }
}

/// A host name as it is compared: lowercase, without a final dot.
pub open spec fn plain_host(host: Seq<char>) -> Seq<char> {
    let h = crate::text::lower(host);
    if h.len() > 0 && h.last() == '.' {
        h.drop_last()
    } else {
        h
    }
}

/// The host is the suffix, or, under a wildcard, ends in a dot and the suffix.
pub open spec fn glob_accepts(g: DomainGlobView, host: Seq<char>) -> bool {
    let h = plain_host(host);
    ||| h == g.suffix
    ||| g.wildcard && crate::text::ends(h, seq!['.'] + g.suffix)
}

fn has_char(c: &Vec<char>, from: usize, x: char) -> (r: bool)
    requires
        from <= c@.len(),
    ensures
        r == c@.skip(from as int).contains(x),
{
    let mut i: usize = from;
    while i < c.len()
        invariant
            from <= i <= c@.len(),
            forall|j: int| from <= j < i ==> c@[j] != x,
        decreases c@.len() - i,
    {
        if c[i] == x {
            assert(c@.skip(from as int)[i - from] == x);
            return true;
        }
        i += 1;
    }
    assert forall|j: int| 0 <= j < c@.skip(from as int).len() implies c@.skip(from as int)[j]
        != x by {
        assert(c@.skip(from as int)[j] == c@[from + j]);
    }
    false
}

impl DomainGlob {
    pub fn parse(pattern: &str) -> (r: Result<Self, MatchConfigError>)
        ensures
            match r {
                Ok(g) => domain_glob(pattern@) == Ok::<DomainGlobView, Seq<char>>(g@),
                Err(e) => domain_glob(pattern@) == Err::<DomainGlobView, Seq<char>>(e.0@),
            },
    {
        let low = to_lower(pattern);
        let p = chars_of(low.as_str());
        let starred: bool = p.len() >= 2 && p[0] == '*' && p[1] == '.';
        proof {
            if p@.len() >= 2 {
                assert(p@.subrange(0, 2) == seq![p@[0], p@[1]]);
                if crate::text::begins(p@, seq!['*', '.']) {
                    assert(p@.subrange(0, 2)[0] == '*');
                    assert(p@.subrange(0, 2)[1] == '.');
                }
            }
            assert(p@.skip(0) == p@);
        }
        if starred {
            if p.len() == 2 || has_char(&p, 2, '*') {
                return Err(
                    MatchConfigError(
                        join2(
                            "`*` is only valid as the leading label: ",
                            quoted(pattern).as_str(),
                        ),
                    ),
                );
            }
            assert(p@.subrange(2, p@.len() as int) == p@.skip(2));
            Ok(DomainGlob { suffix: piece(&p, 2, p.len()), wildcard: true })
        } else if has_char(&p, 0, '*') {
            Err(
                MatchConfigError(
                    join2("`*` is only valid as the leading label: ", quoted(pattern).as_str()),
                ),
            )
        } else if p.len() == 0 {
            Err(MatchConfigError("empty domain pattern".to_owned()))
        } else {
            Ok(DomainGlob { suffix: low, wildcard: false })
        }
    }

    pub fn matches(&self, host: &str) -> (r: bool)
        ensures
            r == glob_accepts(self@, host@),
    {
        let low = to_lower(host);
        let c = chars_of(low.as_str());
        let n: usize = if c.len() > 0 && c[c.len() - 1] == '.' {
            c.len() - 1
        } else {
            c.len()
        };
        let h = piece(&c, 0, n);
        proof {
            if n < c@.len() {
                assert(c@.subrange(0, n as int) == c@.drop_last());
            } else {
                assert(c@.subrange(0, n as int) == c@);
            }
            assert(h@ == plain_host(host@));
        }
        if same(h.as_str(), self.suffix.as_str()) {
            return true;
        }
        if !self.wildcard {
            return false;
        }
        let hc = chars_of(h.as_str());
        let dotted = chars_of(join2(".", self.suffix.as_str()).as_str());
        proof {
            reveal_strlit(".");
            assert("."@ == seq!['.']);
        }
        if dotted.len() > hc.len() {
            return false;
        }
        crate::text::occurs(&hc, &dotted, hc.len() - dotted.len())
    }
}

/// A wildcard glob matches its own suffix and every name below it.
pub proof fn wildcard_covers_subdomains(g: DomainGlobView, sub: Seq<char>, host: Seq<char>)
    requires
        g.wildcard,
        plain_host(host) == g.suffix || plain_host(host) == sub + seq!['.'] + g.suffix,
    ensures
        glob_accepts(g, host),
{
    let h = plain_host(host);
    if h != g.suffix {
        let d = seq!['.'] + g.suffix;
        assert(h.subrange(h.len() - d.len(), h.len() as int) == d);
    }
}

/// What a glob matches is the suffix or a name that ends in a whole label and
/// the suffix: `notexample.com` is no subdomain of `example.com`.
pub proof fn glob_respects_labels(g: DomainGlobView, host: Seq<char>)
    requires
        glob_accepts(g, host),
        plain_host(host) != g.suffix,
    ensures
        g.wildcard,
        plain_host(host).len() > g.suffix.len(),
        plain_host(host)[plain_host(host).len() - g.suffix.len() - 1] == '.',
{
    let h = plain_host(host);
    let d = seq!['.'] + g.suffix;
    assert(h.subrange(h.len() - d.len(), h.len() as int)[0] == d[0]);
}

/// Case and one final dot make no difference to a glob.
pub proof fn glob_ignores_case_and_final_dot(g: DomainGlobView, host: Seq<char>)
    requires
        host.len() > 0,
        host.last() != '.',
    ensures
        glob_accepts(g, host) == glob_accepts(g, crate::text::upper(host)),
        glob_accepts(g, host) == glob_accepts(g, host.push('.')),
{
    let u = crate::text::upper(host);
    assert(crate::text::lower(u) == crate::text::lower(host)) by {
        assert forall|i: int| 0 <= i < host.len() implies crate::text::lower(u)[i]
            == crate::text::lower(host)[i] by {}
    }
    let d = host.push('.');
    assert(crate::text::lower(d).drop_last() == crate::text::lower(host));
    assert(crate::text::lower(host).last() == crate::text::lower_char(host.last()));
}

// ---- CIDR prefixes ------------------------------------------------------------------

/// A CIDR prefix.
#[derive(Debug)]
pub struct Cidr {
    net: IpAddr,
    prefix: u8,
}

/// What a CIDR prefix says.
pub struct CidrView {
    pub net: IpAddr,
    pub prefix: nat,
}

impl View for Cidr {
    type V = CidrView;

    closed spec fn view(&self) -> CidrView {
        CidrView { net: self.net, prefix: self.prefix as nat }
    }
}

/// The bits of an address of the family.
pub open spec fn family_bits(ip: IpAddr) -> nat {
    match ip {
        IpAddr::V4(_) => 32,
        IpAddr::V6(_) => 128,
    }
}

/// The prefix that a text stands for, or why it stands for none.
pub open spec fn cidr(s: Seq<char>) -> Result<CidrView, Seq<char>> {
    match crate::text::cut_first(s, '/') {
        None => Err(
            "bare IP without prefix length: "@ + crate::text::quoted_text(s)
                + " (write /32 or /128 explicitly)"@,
        ),
        Some((addr, len)) => match crate::ip::address(addr) {
            None => Err("invalid CIDR address: "@ + crate::text::quoted_text(s)),
            Some(net) => match crate::text::decimal(len, 255) {
                None => Err("invalid CIDR prefix: "@ + crate::text::quoted_text(s)),
                Some(prefix) => if prefix > family_bits(net) {
                    Err("CIDR prefix out of range: "@ + crate::text::quoted_text(s))
                } else {
                    Ok(CidrView { net, prefix })
                },
            },
        },
    }
}

/// The leading `prefix` bits of `a` and `b` agree, of `bits` bits each.
pub open spec fn leading_bits_agree(a: nat, b: nat, bits: nat, prefix: nat) -> bool {
    a / vstd::arithmetic::power2::pow2((bits - prefix) as nat)
        == b / vstd::arithmetic::power2::pow2((bits - prefix) as nat)
}

/// The address as written lies in the prefix.
pub open spec fn holds_literal(c: CidrView, ip: IpAddr) -> bool {
    match (c.net, ip) {
        (IpAddr::V4(n), IpAddr::V4(a)) => leading_bits_agree(n as nat, a as nat, 32, c.prefix),
        (IpAddr::V6(n), IpAddr::V6(a)) => leading_bits_agree(n as nat, a as nat, 128, c.prefix),
        _ => false,
    }
}

/// The address lies in the prefix, as written or as the IPv4 address it maps.
pub open spec fn holds(c: CidrView, ip: IpAddr) -> bool {
    holds_literal(c, ip) || holds_literal(c, crate::ip::canonical(ip))
}

/// The host is an IP literal inside the prefix.
pub open spec fn cidr_accepts(c: CidrView, host: Seq<char>) -> bool {
    match crate::ip::address(host) {
        Some(ip) => holds(c, ip),
        None => false,
    }
}

impl Cidr {
    /// The prefix is no longer than the address.
    #[verifier::type_invariant]
    spec fn fits(self) -> bool {
        self.prefix <= family_bits(self.net)
    }

    pub fn parse(s: &str) -> (r: Result<Self, MatchConfigError>)
        ensures
            match r {
                Ok(c) => cidr(s@) == Ok::<CidrView, Seq<char>>(c@),
                Err(e) => cidr(s@) == Err::<CidrView, Seq<char>>(e.0@),
            },
    {
        let c = chars_of(s);
        let i: usize = crate::text::first_index(&c, '/', 0);
        if i == c.len() {
            return Err(
                MatchConfigError(
                    join3(
                        "bare IP without prefix length: ",
                        quoted(s).as_str(),
                        " (write /32 or /128 explicitly)",
                    ),
                ),
            );
        }
        let addr = piece(&c, 0, i);
        let len = piece(&c, i + 1, c.len());
        assert(addr@ == s@.take(i as int));
        assert(len@ == s@.skip(i + 1));
        let net = match IpAddr::parse(addr.as_str()) {
            Some(ip) => ip,
            None => {
                return Err(MatchConfigError(join2("invalid CIDR address: ", quoted(s).as_str())));
            },
        };
        let prefix: u8 = match parse_decimal(len.as_str(), 255) {
            Some(p) => p as u8,
            None => {
                return Err(MatchConfigError(join2("invalid CIDR prefix: ", quoted(s).as_str())));
            },
        };
        let max: u8 = match net {
            IpAddr::V4(_) => 32,
            IpAddr::V6(_) => 128,
        };
        if prefix > max {
            return Err(MatchConfigError(join2("CIDR prefix out of range: ", quoted(s).as_str())));
        }
        Ok(Cidr { net, prefix })
    }

    pub(crate) fn of(net: IpAddr, prefix: u8) -> (r: Self)
        requires
            prefix <= family_bits(net),
        ensures
            r@ == (CidrView { net, prefix: prefix as nat }),
    {
        Cidr { net, prefix }
    }

    /// A mapped address (`::ffff:a.b.c.d`) routes as IPv4, so it is in every
    /// prefix that its IPv4 form is in, besides those of its written form.
    pub fn contains(&self, ip: IpAddr) -> (r: bool)
        ensures
            r == holds(self@, ip),
    {
        self.contains_literal(ip) || self.contains_literal(ip.to_canonical())
    }

    fn contains_literal(&self, ip: IpAddr) -> (r: bool)
        ensures
            r == holds_literal(self@, ip),
    {
        proof {
            use_type_invariant(self);
        }
        match (self.net, ip) {
            (IpAddr::V4(n), IpAddr::V4(a)) => {
                if self.prefix == 0 {
                    proof {
                        vstd::arithmetic::power2::lemma2_to64();
                        vstd::arithmetic::div_mod::lemma_basic_div(
                            n as int,
                            vstd::arithmetic::power2::pow2(32) as int,
                        );
                        vstd::arithmetic::div_mod::lemma_basic_div(
                            a as int,
                            vstd::arithmetic::power2::pow2(32) as int,
                        );
                    }
                    true
                } else {
                    let k: u32 = 32 - self.prefix as u32;
                    proof {
                        vstd::bits::lemma_u32_shr_is_div(n, k);
                        vstd::bits::lemma_u32_shr_is_div(a, k);
                    }
                    n >> k == a >> k
                }
            },
            (IpAddr::V6(n), IpAddr::V6(a)) => {
                if self.prefix == 0 {
                    proof {
                        two_to_128();
                        vstd::arithmetic::div_mod::lemma_basic_div(
                            n as int,
                            vstd::arithmetic::power2::pow2(128) as int,
                        );
                        vstd::arithmetic::div_mod::lemma_basic_div(
                            a as int,
                            vstd::arithmetic::power2::pow2(128) as int,
                        );
                    }
                    true
                } else {
                    let k: u128 = 128 - self.prefix as u128;
                    proof {
                        vstd::bits::lemma_u128_shr_is_div(n, k);
                        vstd::bits::lemma_u128_shr_is_div(a, k);
                    }
                    n >> k == a >> k
                }
            },
            _ => false,
        }
    }

    /// True only where `host` is an IP literal inside the prefix.
    pub fn matches_host(&self, host: &str) -> (r: bool)
        ensures
            r == cidr_accepts(self@, host@),
    {
        match IpAddr::parse(host) {
            Some(ip) => self.contains(ip),
            None => false,
        }
    }

    /// `address/length`.
    pub fn to_text(&self) -> (r: String)
        ensures
            r@ == cidr_text(self@),
    {
        let mut out = self.net.to_text();
        out.push('/');
        out.append(crate::text::number_text(self.prefix as u64).as_str());
        out
    }
}

/// `address/length`.
pub open spec fn cidr_text(c: CidrView) -> Seq<char> {
    crate::ip::address_text(c.net).push('/') + crate::text::decimal_text(c.prefix)
}

proof fn two_to_128()
    ensures
        vstd::arithmetic::power2::pow2(128) == 0x1_0000_0000_0000_0000_0000_0000_0000_0000,
{
    vstd::arithmetic::power2::lemma2_to64();
    vstd::arithmetic::power2::lemma_pow2_adds(64, 64);
    assert(0x1_0000_0000_0000_0000 * 0x1_0000_0000_0000_0000
        == 0x1_0000_0000_0000_0000_0000_0000_0000_0000);
}

/// The mapped form of an IPv4 address is in every prefix that the address
/// itself is in.
pub proof fn mapped_address_is_covered(c: CidrView, v: u32)
    requires
        holds(c, IpAddr::V4(v)),
    ensures
        holds(c, IpAddr::V6(crate::ip::mapped_form(v))),
{
    crate::ip::mapped_form_is_undone(v);
}

/// An IPv4 prefix holds an IPv4 address where their leading bits agree. It holds the
/// mapped form of an address exactly where it holds the address, and no other IPv6
/// address. The prefix `::ffff:0:0/96` holds every mapped form.
pub proof fn prefixes_and_mapped_addresses(s: Seq<char>, c: CidrView, v: u32, w: u128)
    requires
        cidr(s) == Ok::<CidrView, Seq<char>>(c),
        c.net is V4,
    ensures
        c.prefix <= 32,
        holds(c, IpAddr::V4(v)) == leading_bits_agree(c.net->V4_0 as nat, v as nat, 32, c.prefix),
        holds(c, IpAddr::V6(crate::ip::mapped_form(v))) == holds(c, IpAddr::V4(v)),
        (forall|u: u32| w != #[trigger] crate::ip::mapped_form(u)) ==> !holds(c, IpAddr::V6(w)),
        match cidr("::ffff:0:0/96"@) {
            Ok(m) => holds(m, IpAddr::V6(crate::ip::mapped_form(v))),
            Err(_) => false,
        },
{
    crate::ip::mapped_form_is_undone(v);
    if w / 0x1_0000_0000 == 0xffff {
        let u = (w % 0x1_0000_0000) as u32;
        assert(w == crate::ip::mapped_form(u));
    }
    mapped_range_is_read();
    let first: u128 = 0xffff_0000_0000;
    assert(leading_bits_agree(first as nat, crate::ip::mapped_form(v) as nat, 128, 96)) by {
        vstd::arithmetic::power2::lemma2_to64();
        assert(vstd::arithmetic::power2::pow2((128 - 96) as nat) == 0x1_0000_0000);
        assert(first as nat / 0x1_0000_0000 == 0xffff);
        assert(crate::ip::mapped_form(v) as nat / 0x1_0000_0000 == 0xffff);
    }
}

/// The prefix `::ffff:0:0/96` is read.
proof fn mapped_range_is_read()
    ensures
        cidr("::ffff:0:0/96"@) == Ok::<CidrView, Seq<char>>(
            CidrView { net: IpAddr::V6(0xffff_0000_0000), prefix: 96 },
        ),
{
    reveal_strlit("::ffff:0:0/96");
    let s = "::ffff:0:0/96"@;
    assert(crate::text::first_from(s, '/', 0) == 10) by {
        reveal_with_fuel(crate::text::first_from, 12);
    }
    assert(s.take(10) == seq![':', ':', 'f', 'f', 'f', 'f', ':', '0', ':', '0']);
    assert(s.skip(11) == seq!['9', '6']);
    crate::ip::first_mapped_address_is_read();
    assert(crate::text::decimal(seq!['9', '6'], 255) == Some(96nat)) by {
        reveal_with_fuel(crate::text::digits_value, 3);
        assert(seq!['9', '6'].drop_last() == seq!['9']);
    }
}

/// A host name that is no IP literal is in no prefix.
pub proof fn names_match_no_cidr(c: CidrView, host: Seq<char>)
    requires
        crate::ip::address(host) is None,
    ensures
        !cidr_accepts(c, host),
{
}

// ---- Path globs -----------------------------------------------------------------------

/// A path glob: `*` matches any run of characters, `/` among them.
#[derive(Debug)]
pub struct PathGlob {
    pattern: String,
}

impl View for PathGlob {
    type V = Seq<char>;

    closed spec fn view(&self) -> Seq<char> {
        self.pattern@
    }
}

/// `*` matches any run of characters, every other character itself.
pub open spec fn glob(p: Seq<char>, s: Seq<char>) -> bool
    decreases p.len() + s.len(),
{
    if p.len() == 0 {
        s.len() == 0
    } else if p[0] == '*' {
        glob(p.skip(1), s) || (s.len() > 0 && glob(p, s.skip(1)))
    } else {
        s.len() > 0 && s[0] == p[0] && glob(p.skip(1), s.skip(1))
    }
}

/// Pieces with a run of characters between each two.
pub open spec fn woven(pieces: Seq<Seq<char>>, runs: Seq<Seq<char>>) -> Seq<char>
    decreases pieces.len(),
{
    if pieces.len() == 0 {
        Seq::<char>::empty()
    } else if pieces.len() == 1 {
        pieces[0]
    } else {
        pieces[0] + runs[0] + woven(pieces.skip(1), runs.skip(1))
    }
}

/// `s` is what lies between the stars of `p`, with one of the runs for each star.
pub open spec fn filled(p: Seq<char>, runs: Seq<Seq<char>>, s: Seq<char>) -> bool {
    let pieces = crate::text::split_on(p, '*');
    runs.len() + 1 == pieces.len() && woven(pieces, runs) == s
}

/// A character before all goes through weaving.
proof fn woven_begins(q: Seq<Seq<char>>, runs: Seq<Seq<char>>, c: char)
    requires
        q.len() >= 1,
    ensures
        woven(q.update(0, seq![c] + q[0]), runs) == seq![c] + woven(q, runs),
{
    let t = q.update(0, seq![c] + q[0]);
    if q.len() > 1 {
        assert(t.skip(1) == q.skip(1));
        let w = woven(q.skip(1), runs.skip(1));
        assert(seq![c] + q[0] + runs[0] + w == seq![c] + (q[0] + runs[0] + w));
    }
}

/// A star first: its run stands before the rest.
proof fn woven_star(q: Seq<Seq<char>>, runs: Seq<Seq<char>>)
    requires
        q.len() >= 1,
        runs.len() == q.len(),
    ensures
        woven(seq![Seq::<char>::empty()] + q, runs) == runs[0] + woven(q, runs.skip(1)),
{
    let t = seq![Seq::<char>::empty()] + q;
    assert(t.skip(1) == q);
    assert(Seq::<char>::empty() + runs[0] == runs[0]);
}

/// Runs for the stars of a glob that matches.
proof fn runs_of(p: Seq<char>, s: Seq<char>) -> (runs: Seq<Seq<char>>)
    requires
        glob(p, s),
    ensures
        filled(p, runs, s),
    decreases p.len() + s.len(),
{
    let none = Seq::<Seq<char>>::empty();
    let e = Seq::<char>::empty();
    if p.len() == 0 {
        assert(s == e);
        none
    } else {
        crate::text::split_by_the_first(p, '*');
        let q = crate::text::split_on(p.skip(1), '*');
        let pieces = crate::text::split_on(p, '*');
        if p[0] == '*' {
            if glob(p.skip(1), s) {
                let rest = runs_of(p.skip(1), s);
                let runs = seq![e] + rest;
                assert(runs.skip(1) == rest);
                woven_star(q, runs);
                assert(e + s == s);
                runs
            } else {
                let rest = runs_of(p, s.skip(1));
                let runs = rest.update(0, seq![s[0]] + rest[0]);
                assert(runs.skip(1) == rest.skip(1));
                woven_star(q, rest);
                woven_star(q, runs);
                let w = woven(q, rest.skip(1));
                assert(seq![s[0]] + rest[0] + w == seq![s[0]] + (rest[0] + w));
                assert(seq![s[0]] + s.skip(1) == s);
                runs
            }
        } else {
            let runs = runs_of(p.skip(1), s.skip(1));
            woven_begins(q, runs, p[0]);
            assert(seq![s[0]] + s.skip(1) == s);
            runs
        }
    }
}

/// Where there are runs for its stars, a glob matches.
proof fn filled_matches(p: Seq<char>, runs: Seq<Seq<char>>, s: Seq<char>)
    requires
        filled(p, runs, s),
    ensures
        glob(p, s),
    decreases p.len() + s.len(),
{
    if p.len() > 0 {
        crate::text::split_by_the_first(p, '*');
        let q = crate::text::split_on(p.skip(1), '*');
        if p[0] == '*' {
            woven_star(q, runs);
            let w = woven(q, runs.skip(1));
            if runs[0].len() == 0 {
                assert(runs[0] + w == w);
                filled_matches(p.skip(1), runs.skip(1), s);
            } else {
                let shorter = runs.update(0, runs[0].skip(1));
                assert(shorter.skip(1) == runs.skip(1));
                woven_star(q, shorter);
                assert(s.skip(1) == runs[0].skip(1) + w);
                filled_matches(p, shorter, s.skip(1));
            }
        } else {
            woven_begins(q, runs, p[0]);
            assert(s[0] == p[0]);
            assert(s.skip(1) == woven(q, runs));
            filled_matches(p.skip(1), runs, s.skip(1));
        }
    }
}

/// A glob matches exactly what is made of the pieces between its stars, in their
/// order and as they are, with any run of characters for each star.
pub proof fn stars_stand_for_runs(p: Seq<char>, s: Seq<char>)
    ensures
        glob(p, s) <==> exists|runs: Seq<Seq<char>>| #[trigger] filled(p, runs, s),
{
    if glob(p, s) {
        let runs = runs_of(p, s);
        assert(filled(p, runs, s));
    }
    if exists|runs: Seq<Seq<char>>| #[trigger] filled(p, runs, s) {
        let runs = choose|runs: Seq<Seq<char>>| #[trigger] filled(p, runs, s);
        filled_matches(p, runs, s);
    }
}

/// A star takes in whatever stands before the rest.
proof fn star_absorbs(p: Seq<char>, s: Seq<char>, a: int, b: int)
    requires
        p.len() > 0,
        p[0] == '*',
        0 <= a <= b <= s.len(),
        glob(p, s.skip(b)),
    ensures
        glob(p, s.skip(a)),
    decreases b - a,
{
    if a < b {
        star_absorbs(p, s, a + 1, b);
        assert(s.skip(a).skip(1) == s.skip(a + 1));
    }
}

/// Where a pattern that begins with a star matches, what follows the star
/// matches somewhere.
proof fn star_ends(p: Seq<char>, s: Seq<char>, a: int) -> (k: int)
    requires
        p.len() > 0,
        p[0] == '*',
        0 <= a <= s.len(),
        glob(p, s.skip(a)),
    ensures
        a <= k <= s.len(),
        glob(p.skip(1), s.skip(k)),
    decreases s.len() - a,
{
    if glob(p.skip(1), s.skip(a)) {
        a
    } else {
        assert(s.skip(a).skip(1) == s.skip(a + 1));
        star_ends(p, s, a + 1)
    }
}

/// Characters that are no stars are matched one by one.
proof fn literal_run(p: Seq<char>, s: Seq<char>, from: int, to: int, k: int)
    requires
        0 <= from <= to <= p.len(),
        0 <= k <= s.len(),
        forall|x: int| from <= x < to ==> p[x] != '*',
        glob(p.skip(from), s.skip(k)),
    ensures
        k + (to - from) <= s.len(),
        glob(p.skip(to), s.skip(k + (to - from))),
    decreases to - from,
{
    if from < to {
        assert(p.skip(from)[0] == p[from]);
        assert(p.skip(from).skip(1) == p.skip(from + 1));
        assert(s.skip(k).skip(1) == s.skip(k + 1));
        literal_run(p, s, from + 1, to, k + 1);
    }
}

impl PathGlob {
    /// Every pattern is a glob.
    pub fn parse(pattern: &str) -> (r: Result<Self, MatchConfigError>)
        ensures
            r matches Ok(g) && g@ == pattern@,
    {
        Ok(PathGlob { pattern: pattern.to_owned() })
    }

    pub fn matches(&self, path: &str) -> (r: bool)
        ensures
            r == glob(self@, path@),
            r == exists|runs: Seq<Seq<char>>| #[trigger] filled(self@, runs, path@),
    {
        proof {
            stars_stand_for_runs(self@, path@);
        }
        let p = chars_of(self.pattern.as_str());
        let s = chars_of(path);
        let mut i: usize = 0;
        let mut j: usize = 0;
        // The last star met: the index behind it, and where its run began to
        // be followed by the rest.
        let mut starred: bool = false;
        let mut after: usize = 0;
        let mut tried: usize = 0;
        proof {
            assert(p@.skip(0) == p@);
            assert(s@.skip(0) == s@);
        }
        while j < s.len()
            invariant
                p@ == self@,
                s@ == path@,
                i <= p@.len(),
                j <= s@.len(),
                starred ==> 1 <= after <= i && tried <= j && j - tried == i - after && p@[after - 1]
                    == '*' && (forall|x: int| after <= x < i ==> p@[x] != '*'),
                glob(p@, s@) == (glob(p@.skip(i as int), s@.skip(j as int)) || (starred && tried
                    < s@.len() && glob(p@.skip(after - 1), s@.skip(tried + 1)))),
            decreases
                    s@.len() + 1 - (if starred {
                        tried + 1
                    } else {
                        0
                    }),
                    p@.len() - i,
        {
            proof {
                if i < p@.len() {
                    assert(p@.skip(i as int)[0] == p@[i as int]);
                    assert(p@.skip(i as int).skip(1) == p@.skip(i + 1));
                }
                assert(s@.skip(j as int)[0] == s@[j as int]);
                assert(s@.skip(j as int).skip(1) == s@.skip(j + 1));
            }
            if i < p.len() && p[i] == '*' {
                proof {
                    if starred && glob(p@.skip(after - 1), s@.skip(tried + 1)) {
                        assert(p@.skip(after - 1)[0] == '*');
                        assert(p@.skip(after - 1).skip(1) == p@.skip(after as int));
                        let k = star_ends(p@.skip(after - 1), s@, tried + 1);
                        literal_run(p@, s@, after as int, i as int, k);
                        star_absorbs(p@.skip(i as int), s@, j as int, k + (i - after));
                    }
                }
                starred = true;
                after = i + 1;
                tried = j;
                i += 1;
            } else if i < p.len() && p[i] == s[j] {
                i += 1;
                j += 1;
            } else if starred {
                proof {
                    assert(!glob(p@.skip(i as int), s@.skip(j as int)));
                    assert(p@.skip(after - 1)[0] == '*');
                    assert(p@.skip(after - 1).skip(1) == p@.skip(after as int));
                    assert(s@.skip(tried + 1).len() > 0 ==> s@.skip(tried + 1).skip(1) == s@.skip(
                        tried + 2,
                    ));
                }
                tried += 1;
                i = after;
                j = tried;
            } else {
                proof {
                    stars_stand_for_runs(self@, path@);
                }
                return false;
            }
        }
        proof {
            if starred && tried < s@.len() && glob(p@.skip(after - 1), s@.skip(tried + 1)) {
                assert(p@.skip(after - 1)[0] == '*');
                assert(p@.skip(after - 1).skip(1) == p@.skip(after as int));
                let k = star_ends(p@.skip(after - 1), s@, tried + 1);
                literal_run(p@, s@, after as int, i as int, k);
            }
            assert(s@.skip(j as int) == Seq::<char>::empty());
        }
        while i < p.len() && p[i] == '*'
            invariant
                i <= p@.len(),
                glob(p@, s@) == glob(p@.skip(i as int), Seq::<char>::empty()),
            decreases p@.len() - i,
        {
            proof {
                assert(p@.skip(i as int)[0] == p@[i as int]);
                assert(p@.skip(i as int).skip(1) == p@.skip(i + 1));
            }
            i += 1;
        }
        proof {
            if i < p@.len() {
                assert(p@.skip(i as int)[0] == p@[i as int]);
            }
        }
        i == p.len()
    }
}

/// A pattern without `*` matches only itself.
pub proof fn plain_pattern_is_literal(p: Seq<char>, s: Seq<char>)
    requires
        !p.contains('*'),
    ensures
        glob(p, s) == (p == s),
    decreases p.len(),
{
    if p.len() == 0 {
        assert(s.len() == 0 ==> s == p);
    } else {
        assert(p[0] != '*');
        assert forall|i: int| 0 <= i < p.skip(1).len() implies p.skip(1)[i] != '*' by {
            assert(p.skip(1)[i] == p[i + 1]);
        }
        if s.len() > 0 {
            plain_pattern_is_literal(p.skip(1), s.skip(1));
            assert(p == seq![p[0]] + p.skip(1));
            assert(s == seq![s[0]] + s.skip(1));
        }
    }
}

/// `prefix*` matches exactly the texts that begin with the prefix.
pub proof fn trailing_star_is_prefix(p: Seq<char>, s: Seq<char>)
    requires
        !p.contains('*'),
    ensures
        glob(p.push('*'), s) == crate::text::begins(s, p),
    decreases p.len(),
{
    let q = p.push('*');
    if p.len() == 0 {
        assert(q.skip(1) == Seq::<char>::empty());
        assert(s.subrange(0, 0) == p);
        assert(s.skip(s.len() as int) == Seq::<char>::empty());
        assert(glob(Seq::<char>::empty(), Seq::<char>::empty()));
        assert(glob(q, s.skip(s.len() as int)));
        star_absorbs(q, s, 0, s.len() as int);
        assert(s.skip(0) == s);
    } else {
        assert(q[0] == p[0] && p[0] != '*');
        assert(q.skip(1) == p.skip(1).push('*'));
        assert forall|i: int| 0 <= i < p.skip(1).len() implies p.skip(1)[i] != '*' by {
            assert(p.skip(1)[i] == p[i + 1]);
        }
        if s.len() > 0 {
            trailing_star_is_prefix(p.skip(1), s.skip(1));
            if s[0] == p[0] {
                if crate::text::begins(s, p) {
                    assert(s.skip(1).subrange(0, p.skip(1).len() as int) == s.subrange(
                        0,
                        p.len() as int,
                    ).skip(1));
                }
                if crate::text::begins(s.skip(1), p.skip(1)) {
                    assert(s.subrange(0, p.len() as int) == seq![s[0]] + s.skip(1).subrange(
                        0,
                        p.skip(1).len() as int,
                    ));
                    assert(p == seq![p[0]] + p.skip(1));
                }
            } else if crate::text::begins(s, p) {
                assert(s.subrange(0, p.len() as int)[0] == s[0]);
            }
        }
    }
}

// ---- Header-name entries -------------------------------------------------------------

/// Declares the compiled regular expression of the `regex` crate.
#[verifier::external_type_specification]
#[verifier::external_body]
pub struct ExRegex(regex::Regex);

/// What compiling a pattern without regard to case gives: the expression, or
/// the text of the error.
pub uninterp spec fn caseless_regex(pattern: Seq<char>) -> Result<regex::Regex, Seq<char>>;

/// Whether an expression matches somewhere in a text.
pub uninterp spec fn regex_accepts(re: regex::Regex, text: Seq<char>) -> bool;

/// Trusts `regex::RegexBuilder::build`, with `case_insensitive(true)` and every
/// other option as it is: what it returns depends on the pattern alone. Which
/// patterns compile is not stated.
#[verifier::external_body]
fn compile_caseless(pattern: &str) -> (r: Result<regex::Regex, String>)
    ensures
        match r {
            Ok(re) => caseless_regex(pattern@) == Ok::<regex::Regex, Seq<char>>(re),
            Err(e) => caseless_regex(pattern@) == Err::<regex::Regex, Seq<char>>(e@),
        },
{
    regex::RegexBuilder::new(pattern).case_insensitive(true).build().map_err(|e| format!("{}", e))
}

/// Trusts `regex::Regex::is_match`: the answer depends on the expression and
/// the text alone.
#[verifier::external_body]
fn regex_is_match(re: &regex::Regex, text: &str) -> (r: bool)
    ensures
        r == regex_accepts(*re, text@),
{
    re.is_match(text)
}

/// A header-name entry: a literal, or a regular expression between slashes;
/// both disregard case.
#[derive(Debug)]
pub enum HeaderNameEntry {
    /// Lowercase.
    Literal(String),
    Regex(regex::Regex),
}

/// What a header-name entry says.
#[verifier::ext_equal]
pub enum HeaderNameView {
    Literal(Seq<char>),
    Regex(regex::Regex),
}

impl View for HeaderNameEntry {
    type V = HeaderNameView;

    open spec fn view(&self) -> HeaderNameView {
        match self {
            HeaderNameEntry::Literal(l) => HeaderNameView::Literal(l@),
            HeaderNameEntry::Regex(re) => HeaderNameView::Regex(*re),
        }
    }
}

/// Written between slashes.
pub open spec fn slashed(s: Seq<char>) -> bool {
    s.len() >= 2 && s[0] == '/' && s.last() == '/'
}

/// The literal name that a text stands for, or why it stands for none.
pub open spec fn literal_entry(s: Seq<char>) -> Result<Seq<char>, Seq<char>> {
    if slashed(s) {
        Err("regex entries are not allowed here: "@ + crate::text::quoted_text(s))
    } else if s.len() == 0 {
        Err("empty header-name entry"@)
    } else {
        Ok(crate::text::lower(s))
    }
}

/// The entry that a text stands for, or why it stands for none.
pub open spec fn header_entry(s: Seq<char>, allow_regex: bool) -> Result<
    HeaderNameView,
    Seq<char>,
> {
    if slashed(s) && allow_regex {
        match caseless_regex(s.subrange(1, s.len() - 1)) {
            Ok(re) => Ok(HeaderNameView::Regex(re)),
            Err(e) => Err("invalid header regex "@ + crate::text::quoted_text(s) + ": "@ + e),
        }
    } else {
        match literal_entry(s) {
            Ok(l) => Ok(HeaderNameView::Literal(l)),
            Err(e) => Err(e),
        }
    }
}

/// The entry matches a header name.
pub open spec fn entry_accepts(e: HeaderNameView, name: Seq<char>) -> bool {
    match e {
        HeaderNameView::Literal(l) => l == crate::text::lower(name),
        HeaderNameView::Regex(re) => regex_accepts(re, crate::text::lower(name)),
    }
}

fn is_slashed(c: &Vec<char>) -> (r: bool)
    ensures
        r == slashed(c@),
{
    c.len() >= 2 && c[0] == '/' && c[c.len() - 1] == '/'
}

/// Reads a literal header name.
pub(crate) fn parse_literal(entry: &str) -> (r: Result<String, MatchConfigError>)
    ensures
        match r {
            Ok(l) => literal_entry(entry@) == Ok::<Seq<char>, Seq<char>>(l@),
            Err(e) => literal_entry(entry@) == Err::<Seq<char>, Seq<char>>(e.0@),
        },
{
    let c = chars_of(entry);
    if is_slashed(&c) {
        Err(
            MatchConfigError(join2("regex entries are not allowed here: ", quoted(entry).as_str())),
        )
    } else if c.len() == 0 {
        Err(MatchConfigError("empty header-name entry".to_owned()))
    } else {
        Ok(to_lower(entry))
    }
}

impl HeaderNameEntry {
    pub fn parse(entry: &str, allow_regex: bool) -> (r: Result<Self, MatchConfigError>)
        ensures
            match r {
                Ok(h) => header_entry(entry@, allow_regex) == Ok::<HeaderNameView, Seq<char>>(h@),
                Err(e) => header_entry(entry@, allow_regex) == Err::<HeaderNameView, Seq<char>>(
                    e.0@,
                ),
            },
    {
        let c = chars_of(entry);
        if is_slashed(&c) && allow_regex {
            let inner = piece(&c, 1, c.len() - 1);
            match compile_caseless(inner.as_str()) {
                Ok(re) => Ok(HeaderNameEntry::Regex(re)),
                Err(e) => {
                    let head = join3("invalid header regex ", quoted(entry).as_str(), ": ");
                    Err(MatchConfigError(join2(head.as_str(), e.as_str())))
                },
            }
        } else {
            match parse_literal(entry) {
                Ok(l) => Ok(HeaderNameEntry::Literal(l)),
                Err(e) => Err(e),
            }
        }
    }

    pub fn matches(&self, header_name: &str) -> (r: bool)
        ensures
            r == entry_accepts(self@, header_name@),
    {
        let lower = to_lower(header_name);
        match self {
            HeaderNameEntry::Literal(l) => same(l.as_str(), lower.as_str()),
            HeaderNameEntry::Regex(re) => regex_is_match(re, lower.as_str()),
        }
    }
}

/// The views of a list of entries.
pub open spec fn entry_views(v: Seq<HeaderNameEntry>) -> Seq<HeaderNameView> {
    v.map_values(|e: HeaderNameEntry| e@)
}

/// Some entry matches the header name.
pub open spec fn some_entry_accepts(v: Seq<HeaderNameView>, name: Seq<char>) -> bool {
    exists|i: int| 0 <= i < v.len() && entry_accepts(#[trigger] v[i], name)
}

pub fn any_entry_matches(entries: &Vec<HeaderNameEntry>, name: &str) -> (r: bool)
    ensures
        r == some_entry_accepts(entry_views(entries@), name@),
{
    let ghost v = entry_views(entries@);
    let mut i: usize = 0;
    while i < entries.len()
        invariant
            i <= entries@.len(),
            v == entry_views(entries@),
            forall|j: int| 0 <= j < i ==> !entry_accepts(#[trigger] v[j], name@),
        decreases entries@.len() - i,
    {
        assert(v[i as int] == entries@[i as int]@);
        if entries[i].matches(name) {
            return true;
        }
        i += 1;
    }
    false
}

// ---- Rules ---------------------------------------------------------------------------

/// The host clause of a rule: a domain glob or a CIDR prefix.
#[derive(Debug)]
pub enum HostClause {
    Glob(DomainGlob),
    Cidr(Cidr),
}

/// What a host clause says.
#[verifier::ext_equal]
pub enum HostView {
    Glob(DomainGlobView),
    Cidr(CidrView),
}

impl View for HostClause {
    type V = HostView;

    open spec fn view(&self) -> HostView {
        match self {
            HostClause::Glob(g) => HostView::Glob(g@),
            HostClause::Cidr(c) => HostView::Cidr(c@),
        }
    }
}

/// The clause that a text stands for: a prefix where it holds a `/`, else a glob.
pub open spec fn host_clause(s: Seq<char>) -> Result<HostView, Seq<char>> {
    if s.contains('/') {
        match cidr(s) {
            Ok(c) => Ok(HostView::Cidr(c)),
            Err(e) => Err(e),
        }
    } else {
        match domain_glob(s) {
            Ok(g) => Ok(HostView::Glob(g)),
            Err(e) => Err(e),
        }
    }
}

/// The clause matches a host.
pub open spec fn host_accepts(h: HostView, host: Seq<char>) -> bool {
    match h {
        HostView::Glob(g) => glob_accepts(g, host),
        HostView::Cidr(c) => cidr_accepts(c, host),
    }
}

impl HostClause {
    pub fn parse(s: &str) -> (r: Result<Self, MatchConfigError>)
        ensures
            match r {
                Ok(h) => host_clause(s@) == Ok::<HostView, Seq<char>>(h@),
                Err(e) => host_clause(s@) == Err::<HostView, Seq<char>>(e.0@),
            },
    {
        let c = chars_of(s);
        assert(c@.skip(0) == c@);
        if has_char(&c, 0, '/') {
            match Cidr::parse(s) {
                Ok(c) => Ok(HostClause::Cidr(c)),
                Err(e) => Err(e),
            }
        } else {
            match DomainGlob::parse(s) {
                Ok(g) => Ok(HostClause::Glob(g)),
                Err(e) => Err(e),
            }
        }
    }

    pub fn matches(&self, host: &str) -> (r: bool)
        ensures
            r == host_accepts(self@, host@),
    {
        match self {
            HostClause::Glob(g) => g.matches(host),
            HostClause::Cidr(c) => c.matches_host(host),
        }
    }
}

/// A rule: its host clause, and where they are present one of its methods and
/// one of its paths, all match.
#[derive(Debug)]
pub struct Rule {
    pub host: HostClause,
    /// Absent: any method. Uppercase.
    pub methods: Option<Vec<String>>,
    /// Absent: any path.
    pub paths: Option<Vec<PathGlob>>,
}

/// What a rule says.
#[verifier::ext_equal]
pub struct RuleView {
    pub host: HostView,
    pub methods: Option<Seq<Seq<char>>>,
    pub paths: Option<Seq<Seq<char>>>,
}

/// The patterns of a list of path globs.
pub open spec fn patterns(v: Seq<PathGlob>) -> Seq<Seq<char>> {
    v.map_values(|p: PathGlob| p@)
}

impl View for Rule {
    type V = RuleView;

    open spec fn view(&self) -> RuleView {
        RuleView {
            host: self.host@,
            methods: match self.methods {
                Some(m) => Some(crate::text::texts(m@)),
                None => None,
            },
            paths: match self.paths {
                Some(p) => Some(patterns(p@)),
                None => None,
            },
        }
    }
}

/// Some pattern matches the path.
pub open spec fn some_glob_accepts(v: Seq<Seq<char>>, path: Seq<char>) -> bool {
    exists|i: int| 0 <= i < v.len() && glob(#[trigger] v[i], path)
}

/// The rule matches a request.
pub open spec fn rule_accepts(
    r: RuleView,
    host: Seq<char>,
    method: Seq<char>,
    path: Seq<char>,
) -> bool {
    &&& host_accepts(r.host, host)
    &&& (r.methods matches Some(m) ==> m.contains(method))
    &&& (r.paths matches Some(p) ==> some_glob_accepts(p, path))
}

fn any_path_matches(paths: &Vec<PathGlob>, path: &str) -> (r: bool)
    ensures
        r == some_glob_accepts(patterns(paths@), path@),
{
    let ghost v = patterns(paths@);
    let mut i: usize = 0;
    while i < paths.len()
        invariant
            i <= paths@.len(),
            v == patterns(paths@),
            forall|j: int| 0 <= j < i ==> !glob(#[trigger] v[j], path@),
        decreases paths@.len() - i,
    {
        assert(v[i as int] == paths@[i as int]@);
        if paths[i].matches(path) {
            return true;
        }
        i += 1;
    }
    false
}

impl Rule {
    pub fn matches(&self, host: &str, method: &str, path: &str) -> (r: bool)
        ensures
            r == rule_accepts(self@, host@, method@, path@),
    {
        if !self.host.matches(host) {
            return false;
        }
        if let Some(methods) = &self.methods {
            if !has_text(methods, method) {
                return false;
            }
        }
        if let Some(paths) = &self.paths {
            if !any_path_matches(paths, path) {
                return false;
            }
        }
        true
    }
}

/// The views of a list of rules.
pub open spec fn rule_views(v: Seq<Rule>) -> Seq<RuleView> {
    v.map_values(|r: Rule| r@)
}

/// Some rule matches a request.
pub open spec fn some_rule_accepts(
    v: Seq<RuleView>,
    host: Seq<char>,
    method: Seq<char>,
    path: Seq<char>,
) -> bool {
    exists|i: int| 0 <= i < v.len() && rule_accepts(#[trigger] v[i], host, method, path)
}

/// A list of rules matches where any of them does.
pub fn any_rule_matches(rules: &[Rule], host: &str, method: &str, path: &str) -> (r: bool)
    ensures
        r == some_rule_accepts(rule_views(rules@), host@, method@, path@),
{
    let ghost v = rule_views(rules@);
    let mut i: usize = 0;
    while i < rules.len()
        invariant
            i <= rules@.len(),
            v == rule_views(rules@),
            forall|j: int|
                0 <= j < i ==> !rule_accepts(#[trigger] v[j], host@, method@, path@),
        decreases rules@.len() - i,
    {
        assert(v[i as int] == rules@[i as int]@);
        if rules[i].matches(host, method, path) {
            return true;
        }
        i += 1;
    }
    false
}

} // verus!
