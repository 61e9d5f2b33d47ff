//! What a request handler runs on: the pipeline, the guard and the limits, and
//! the check of an address before it is dialled.
use vstd::prelude::*;

use crate::audit::{DenialView, GuardDenial};
use crate::config::{all_of, collected, first_error_counts, matcher_error};
use crate::ip::IpAddr;
use crate::matcher::{Cidr, CidrView, DomainGlob};
use crate::pipeline::Pipeline;

verus! {

/// The prefixes that must not be dialled, each with its text.
#[derive(Debug)]
pub struct Guard {
    deny: Vec<(Cidr, String)>,
}

/// A denied prefix and its text.
pub type DenyView = (CidrView, Seq<char>);

spec fn deny_views(v: Seq<(Cidr, String)>) -> Seq<DenyView> {
    v.map_values(|p: (Cidr, String)| (p.0@, p.1@))
}

impl View for Guard {
    type V = Seq<DenyView>;

    closed spec fn view(&self) -> Seq<DenyView> {
        deny_views(self.deny@)
    }
}

/// The denied prefix that a text stands for.
pub open spec fn deny_of(s: Seq<char>) -> Result<DenyView, Seq<char>> {
    match crate::matcher::cidr(s) {
        Ok(c) => Ok((c, s)),
        Err(e) => Err(matcher_error(e)),
    }
}

/// The denied prefixes that a list of texts stands for.
pub open spec fn guard_of(prefixes: Seq<Seq<char>>) -> Result<Seq<DenyView>, Seq<char>> {
    all_of(prefixes, |s: Seq<char>| deny_of(s))
}

/// The first prefix at or after `i` that holds the address.
pub open spec fn denial_from(deny: Seq<DenyView>, ip: IpAddr, i: int) -> Option<DenialView>
    decreases deny.len() - i,
{
    if i < 0 || i >= deny.len() {
        None
    } else if crate::matcher::holds(deny[i].0, ip) {
        Some(DenialView { denied_addr: crate::ip::address_text(ip), prefix: deny[i].1 })
    } else {
        denial_from(deny, ip, i + 1)
    }
}

/// The denial of an address, by the first prefix that holds it.
pub open spec fn denial(deny: Seq<DenyView>, ip: IpAddr) -> Option<DenialView> {
    denial_from(deny, ip, 0)
}

/// The prefixes that are denied where none are configured: the metadata
/// services of clouds, and loopback.
pub open spec fn default_deny() -> Seq<DenyView> {
    seq![
        (CidrView { net: IpAddr::V4(0xa9fe_a9fe), prefix: 32 }, "169.254.169.254/32"@),
        (
            CidrView {
                net: IpAddr::V6(0xfd00_0ec2_0000_0000_0000_0000_0000_0254),
                prefix: 128,
            },
            "fd00:ec2::254/128"@,
        ),
        (
            CidrView {
                net: IpAddr::V6(0xfd20_00ce_0000_0000_0000_0000_0000_0254),
                prefix: 128,
            },
            "fd20:ce::254/128"@,
        ),
        (CidrView { net: IpAddr::V4(0x7f00_0000), prefix: 8 }, "127.0.0.0/8"@),
        (CidrView { net: IpAddr::V6(1), prefix: 128 }, "::1/128"@),
    ]
}

impl Guard {
    pub fn new(prefixes: &Vec<String>) -> (r: Result<Self, String>)
        ensures
            match r {
                Ok(g) => guard_of(crate::text::texts(prefixes@)) == Ok::<
                    Seq<DenyView>,
                    Seq<char>,
                >(g@),
                Err(e) => guard_of(crate::text::texts(prefixes@)) == Err::<
                    Seq<DenyView>,
                    Seq<char>,
                >(e@),
            },
    {
        let ghost s = crate::text::texts(prefixes@);
        let ghost f = |s: Seq<char>| deny_of(s);
        let mut deny: Vec<(Cidr, String)> = Vec::new();
        let mut i: usize = 0;
        assert(deny_views(deny@) == Seq::<DenyView>::empty());
        while i < prefixes.len()
            invariant
                i <= prefixes@.len(),
                s == crate::text::texts(prefixes@),
                f == (|s: Seq<char>| deny_of(s)),
                collected(s, f, i as int) == Ok::<Seq<DenyView>, Seq<char>>(deny_views(deny@)),
            decreases prefixes@.len() - i,
        {
            assert(s[i as int] == prefixes@[i as int]@);
            match Cidr::parse(prefixes[i].as_str()) {
                Ok(c) => {
                    let ghost before = deny@;
                    let ghost cv = c@;
                    deny.push((c, prefixes[i].clone()));
                    assert(deny_views(deny@) == deny_views(before).push(
                        (cv, prefixes@[i as int]@),
                    ));
                },
                Err(e) => {
                    proof {
                        first_error_counts(s, f, i + 1, s.len() as int);
                    }
                    return Err(e.to_text());
                },
            }
            i += 1;
        }
        Ok(Guard { deny })
    }

    pub fn default_set() -> (r: Self)
        ensures
            r@ == default_deny(),
    {
        let mut deny: Vec<(Cidr, String)> = Vec::new();
        deny.push((Cidr::of(IpAddr::V4(0xa9fe_a9fe), 32), "169.254.169.254/32".to_owned()));
        deny.push(
            (
                Cidr::of(IpAddr::V6(0xfd00_0ec2_0000_0000_0000_0000_0000_0254), 128),
                "fd00:ec2::254/128".to_owned(),
            ),
        );
        deny.push(
            (
                Cidr::of(IpAddr::V6(0xfd20_00ce_0000_0000_0000_0000_0000_0254), 128),
                "fd20:ce::254/128".to_owned(),
            ),
        );
        deny.push((Cidr::of(IpAddr::V4(0x7f00_0000), 8), "127.0.0.0/8".to_owned()));
        deny.push((Cidr::of(IpAddr::V6(1), 128), "::1/128".to_owned()));
        assert(deny_views(deny@) == default_deny());
        Guard { deny }
    }

    /// Refuses an address that lies in a denied prefix. A guard without
    /// prefixes refuses nothing.
    pub fn check(&self, ip: IpAddr) -> (r: Result<(), GuardDenial>)
        ensures
            match r {
                Ok(_) => denial(self@, ip) is None,
                Err(d) => denial(self@, ip) == Some(d@),
            },
    {
        let mut i: usize = 0;
        while i < self.deny.len()
            invariant
                i <= self.deny@.len(),
                self@ == deny_views(self.deny@),
                denial(self@, ip) == denial_from(self@, ip, i as int),
            decreases self.deny@.len() - i,
        {
            assert(self@[i as int] == (self.deny@[i as int].0@, self.deny@[i as int].1@));
            if self.deny[i].0.contains(ip) {
                return Err(
                    GuardDenial { denied_addr: ip.to_text(), prefix: self.deny[i].1.clone() },
                );
            }
            i += 1;
        }
        Ok(())
    }
}

/// Everything that a request handler needs, built once for each configuration.
pub struct Runtime<R> {
    pub pipeline: Pipeline<R>,
    pub guard: Guard,
    pub max_request_body_bytes: usize,
    /// In milliseconds.
    pub upstream_response_header_timeout: u128,
    /// In milliseconds.
    pub dial_timeout: u128,
    /// Tunnel targets that are spliced, their TLS not terminated.
    pub tunnel_passthrough: Vec<DomainGlob>,
}

// ---- Laws -------------------------------------------------------------------------------

proof fn denied_at(deny: Seq<DenyView>, ip: IpAddr, i: int, k: int)
    requires
        0 <= i <= k < deny.len(),
        crate::matcher::holds(deny[k].0, ip),
    ensures
        denial_from(deny, ip, i) is Some,
    decreases k - i,
{
    if i < k && !crate::matcher::holds(deny[i].0, ip) {
        denied_at(deny, ip, i + 1, k);
    }
}

/// An address is denied exactly where some prefix holds it.
pub proof fn denied_iff_some_prefix_holds(deny: Seq<DenyView>, ip: IpAddr)
    ensures
        denial(deny, ip) is Some <==> exists|k: int|
            0 <= k < deny.len() && crate::matcher::holds((#[trigger] deny[k]).0, ip),
{
    if exists|k: int| 0 <= k < deny.len() && crate::matcher::holds((#[trigger] deny[k]).0, ip) {
        let k = choose|k: int|
            0 <= k < deny.len() && crate::matcher::holds((#[trigger] deny[k]).0, ip);
        denied_at(deny, ip, 0, k);
    } else {
        none_denied(deny, ip, 0);
    }
}

proof fn none_denied(deny: Seq<DenyView>, ip: IpAddr, i: int)
    requires
        0 <= i <= deny.len(),
        forall|k: int| 0 <= k < deny.len() ==> !crate::matcher::holds((#[trigger] deny[k]).0, ip),
    ensures
        denial_from(deny, ip, i) is None,
    decreases deny.len() - i,
{
    if i < deny.len() {
        none_denied(deny, ip, i + 1);
    }
}

/// No representation of an IPv4 address gets past a guard that denies it: its
/// mapped form is denied too.
pub proof fn mapped_form_is_denied(deny: Seq<DenyView>, v: u32)
    requires
        denial(deny, IpAddr::V4(v)) is Some,
    ensures
        denial(deny, IpAddr::V6(crate::ip::mapped_form(v))) is Some,
{
    denied_iff_some_prefix_holds(deny, IpAddr::V4(v));
    let k = choose|k: int|
        0 <= k < deny.len() && crate::matcher::holds((#[trigger] deny[k]).0, IpAddr::V4(v));
    crate::matcher::mapped_address_is_covered(deny[k].0, v);
    denied_at(deny, IpAddr::V6(crate::ip::mapped_form(v)), 0, k);
}

/// The default guard denies the metadata address and all of loopback.
pub proof fn default_guard_denies(v: u32)
    requires
        v == 0xa9fe_a9fe || v / 0x100_0000 == 127,
    ensures
        denial(default_deny(), IpAddr::V4(v)) is Some,
        denial(default_deny(), IpAddr::V6(1)) is Some,
{
    vstd::arithmetic::power2::lemma2_to64();
    let d = default_deny();
    if v == 0xa9fe_a9fe {
        assert(crate::matcher::holds(d[0].0, IpAddr::V4(v)));
        denied_at(d, IpAddr::V4(v), 0, 0);
    } else {
        assert(0x7f00_0000int / 0x100_0000int == 127);
        assert(crate::matcher::holds(d[3].0, IpAddr::V4(v)));
        denied_at(d, IpAddr::V4(v), 0, 3);
    }
    assert(crate::matcher::holds(d[4].0, IpAddr::V6(1)));
    denied_at(d, IpAddr::V6(1), 0, 4);
}

} // verus!
