//! Which addresses are dialled.
use vstd::prelude::*;
use vstd::string::*;

use crate::audit::DenialView;
use crate::dial::{
    DialActionView, DialErrorView, DialEventView, DialPhase, DialView,
};
use crate::ip::IpAddr;
use crate::metrics::DialResult;
use crate::state::DenyView;

verus! {

// ---- The guard ----------------------------------------------------------------------------------------

proof fn denied_from(deny: Seq<DenyView>, ip: IpAddr, i: int, at: int)
    requires
        0 <= i <= at <= deny.len(),
        forall|k: int| i <= k < at ==> !crate::matcher::holds((#[trigger] deny[k]).0, ip),
        at < deny.len() ==> crate::matcher::holds(deny[at].0, ip),
    ensures
        crate::state::denial_from(deny, ip, i) == (if at < deny.len() {
            Some(
                DenialView { denied_addr: crate::ip::address_text(ip), prefix: deny[at].1 },
            )
        } else {
            None
        }),
    decreases at - i,
{
    if i < at {
        assert(!crate::matcher::holds(deny[i].0, ip));
        denied_from(deny, ip, i + 1, at);
    }
}

/// An address is denied by the first prefix that holds it, and not at all where none does.
pub proof fn the_first_prefix_denies(deny: Seq<DenyView>, ip: IpAddr, at: int)
    requires
        0 <= at <= deny.len(),
        forall|k: int| 0 <= k < at ==> !crate::matcher::holds((#[trigger] deny[k]).0, ip),
        at < deny.len() ==> crate::matcher::holds(deny[at].0, ip),
    ensures
        crate::state::denial(deny, ip) == (if at < deny.len() {
            Some(
                DenialView { denied_addr: crate::ip::address_text(ip), prefix: deny[at].1 },
            )
        } else {
            None
        }),
{
    denied_from(deny, ip, 0, at);
}

/// A guard holds the prefixes of its list, each under its own text; it is refused where one of
/// them is.
pub proof fn a_guard_holds_its_list(prefixes: Seq<Seq<char>>)
    ensures
        match crate::state::guard_of(prefixes) {
            Ok(g) => g.len() == prefixes.len() && forall|i: int|
                0 <= i < prefixes.len() ==> crate::matcher::cidr(#[trigger] prefixes[i]) == Ok::<
                    crate::matcher::CidrView,
                    Seq<char>,
                >(g[i].0) && g[i].1 == prefixes[i],
            Err(_) => exists|i: int|
                0 <= i < prefixes.len() && crate::matcher::cidr(#[trigger] prefixes[i]) is Err,
        },
{
    let f = |s: Seq<char>| crate::state::deny_of(s);
    super::config::lists_are_read_one_by_one(prefixes, f);
    match crate::state::guard_of(prefixes) {
        Ok(g) => {
            assert forall|i: int| 0 <= i < prefixes.len() implies crate::matcher::cidr(
                #[trigger] prefixes[i],
            ) == Ok::<crate::matcher::CidrView, Seq<char>>(g[i].0) && g[i].1 == prefixes[i] by {
                assert(f(prefixes[i]) == Ok::<DenyView, Seq<char>>(g[i]));
            }
        },
        Err(_) => {
            let i = choose|i: int| 0 <= i < prefixes.len() && f(#[trigger] prefixes[i]) is Err;
            assert(crate::matcher::cidr(prefixes[i]) is Err);
        },
    }
}

/// An IPv4 address that no guard lets through where none is configured: that of the metadata
/// services, or one of loopback.
pub open spec fn is_local(v: int) -> bool {
    v == 2852039166 || v / 16777216 == 127
}

/// Where no prefixes are configured, the metadata services and loopback are denied, and nothing
/// else is.
pub proof fn the_usual_guard(v: u32, w: u128)
    ensures
        crate::state::denial(crate::state::default_deny(), IpAddr::V4(v)) is Some <==> is_local(
            v as int,
        ),
        crate::state::denial(crate::state::default_deny(), IpAddr::V6(w)) is Some <==> {
            ||| w == 1
            ||| w == 0xfd00_0ec2_0000_0000_0000_0000_0000_0254
            ||| w == 0xfd20_00ce_0000_0000_0000_0000_0000_0254
            ||| w / 0x1_0000_0000 == 0xffff && is_local((w % 0x1_0000_0000) as int)
        },
{
    let d = crate::state::default_deny();
    crate::state::denied_iff_some_prefix_holds(d, IpAddr::V4(v));
    crate::state::denied_iff_some_prefix_holds(d, IpAddr::V6(w));
    the_usual_prefixes(v, w);
    assert forall|k: int|
        0 <= k < d.len() && crate::matcher::holds(
            (#[trigger] d[k]).0,
            IpAddr::V4(v),
        ) implies is_local(v as int) by {
        assert(k == 0 || k == 1 || k == 2 || k == 3 || k == 4);
    }
    assert forall|k: int|
        0 <= k < d.len() && crate::matcher::holds(
            (#[trigger] d[k]).0,
            IpAddr::V6(w),
        ) implies {
        ||| w == 1
        ||| w == 0xfd00_0ec2_0000_0000_0000_0000_0000_0254
        ||| w == 0xfd20_00ce_0000_0000_0000_0000_0000_0254
        ||| w / 0x1_0000_0000 == 0xffff && is_local((w % 0x1_0000_0000) as int)
    } by {
        assert(k == 0 || k == 1 || k == 2 || k == 3 || k == 4);
    }
}

proof fn the_usual_prefixes(v: u32, w: u128)
    ensures
        ({
            let d = crate::state::default_deny();
            let m = w / 0x1_0000_0000 == 0xffff;
            let x = (w % 0x1_0000_0000) as int;
            &&& d.len() == 5
            &&& crate::matcher::holds(d[0].0, IpAddr::V4(v)) == (v == 2852039166)
            &&& !crate::matcher::holds(d[1].0, IpAddr::V4(v))
            &&& !crate::matcher::holds(d[2].0, IpAddr::V4(v))
            &&& crate::matcher::holds(d[3].0, IpAddr::V4(v)) == (v / 16777216 == 127)
            &&& !crate::matcher::holds(d[4].0, IpAddr::V4(v))
            &&& crate::matcher::holds(d[0].0, IpAddr::V6(w)) == (m && x == 2852039166)
            &&& crate::matcher::holds(d[1].0, IpAddr::V6(w)) == (w
                == 0xfd00_0ec2_0000_0000_0000_0000_0000_0254)
            &&& crate::matcher::holds(d[2].0, IpAddr::V6(w)) == (w
                == 0xfd20_00ce_0000_0000_0000_0000_0000_0254)
            &&& crate::matcher::holds(d[3].0, IpAddr::V6(w)) == (m && x / 16777216 == 127)
            &&& crate::matcher::holds(d[4].0, IpAddr::V6(w)) == (w == 1)
        }),
{
    vstd::arithmetic::power2::lemma2_to64();
    assert((32 - 32) as nat == 0 && (128 - 128) as nat == 0 && (32 - 8) as nat == 24);
    assert(vstd::arithmetic::power2::pow2(0) == 1);
    assert(vstd::arithmetic::power2::pow2(24) == 16777216);
    assert(0x7f00_0000nat / 16777216nat == 127);
    let x = (w % 0x1_0000_0000) as u32;
    assert(v as nat / 1nat == v && w as nat / 1nat == w && x as nat / 1nat == x);
}

// ---- Dialling -----------------------------------------------------------------------------------------

/// What is done about an address: it is connected to, or the dial ends with its denial.
pub open spec fn tried(a: DialActionView, deny: Seq<DenyView>, ip: IpAddr) -> bool {
    match crate::state::denial(deny, ip) {
        None => a == DialActionView::Connect(ip),
        Some(x) => a == DialActionView::Stop(DialErrorView::Denied(x)),
    }
}

/// A host that is an address is tried at once; a name is looked up first.
pub proof fn a_dial_begins(host: Seq<char>, port: u16, https: bool, deny: Seq<DenyView>)
    ensures
        ({
            let s = crate::dial::dial_start(host, port, https, deny);
            &&& match crate::ip::address(host) {
                Some(ip) => tried(s.1, deny, ip) && s.0.addrs == seq![ip],
                None => s.1 is Lookup && s.0.phase is Lookup && s.2 is None,
            }
            &&& s.0.host == host
            &&& s.0.port == port
            &&& s.0.https == https
        }),
{
}

/// The addresses of a name are tried from the first on.
pub proof fn addresses_are_tried_from_the_first(
    d: DialView,
    addrs: Seq<IpAddr>,
    deny: Seq<DenyView>,
)
    ensures
        ({
            let s = crate::dial::dial_step(d, DialEventView::LookedUp(addrs), deny);
            &&& addrs.len() > 0 ==> tried(s.1, deny, addrs[0]) && s.0.addrs == addrs
            &&& addrs.len() > 0 && s.1 is Connect ==> s.0.tried == 1
            &&& addrs.len() == 0 ==> s.1 is Stop && s.1->Stop_0 is Failed && s.2 == Some(
                DialResult::DnsError,
            )
            &&& s.0.https == d.https && s.0.host == d.host && s.0.port == d.port
        }),
{
}

/// Where an address does not answer, the next one is tried; behind the last the dial fails
/// with what was last said.
pub proof fn the_next_address_is_tried(d: DialView, why: Seq<char>, deny: Seq<DenyView>)
    requires
        1 <= d.tried <= d.addrs.len(),
        d.phase is Connect,
    ensures
        ({
            let s = crate::dial::dial_step(d, DialEventView::ConnectFailed(why), deny);
            let t = crate::dial::dial_step(d, DialEventView::ConnectTimedOut, deny);
            let at = crate::dial::socket_text(d.addrs[d.tried - 1], d.port);
            &&& d.tried < d.addrs.len() ==> tried(s.1, deny, d.addrs[d.tried]) && tried(
                t.1,
                deny,
                d.addrs[d.tried],
            )
            &&& s.1 is Connect ==> s.0.tried == d.tried + 1 && s.0.phase is Connect
            &&& d.tried == d.addrs.len() ==> {
                &&& s.1 == DialActionView::Stop(
                    DialErrorView::Failed("connect "@ + at + ": "@ + why),
                )
                &&& t.1 == DialActionView::Stop(
                    DialErrorView::Failed("connect "@ + at + ": dial timeout"@),
                )
                &&& s.2 == Some(DialResult::ConnectError)
                &&& t.2 == Some(DialResult::ConnectError)
            }
            &&& s.0.addrs == d.addrs
            &&& s.0.https == d.https
        }),
{
    reveal_strlit(": ");
    reveal_strlit("dial timeout");
    reveal_strlit(": dial timeout");
    let x = "connect "@ + crate::dial::socket_text(d.addrs[d.tried - 1], d.port);
    assert(x + ": "@ + "dial timeout"@ =~= x + ": dial timeout"@);
}

/// A plain connection is done once it stands; one for HTTPS is secured before, and a failure to
/// secure it ends the dial.
pub proof fn connections_are_secured(d: DialView, why: Seq<char>, deny: Seq<DenyView>)
    requires
        1 <= d.tried <= d.addrs.len(),
    ensures
        ({
            let c = crate::dial::dial_step(d, DialEventView::Connected, deny);
            let s = crate::dial::dial_step(d, DialEventView::Secured, deny);
            let f = crate::dial::dial_step(d, DialEventView::TlsFailed(why), deny);
            let b = crate::dial::dial_step(d, DialEventView::BadServerName, deny);
            let done = DialActionView::Done(d.addrs[d.tried - 1]);
            &&& d.https ==> c.1 is Secure && c.0.phase is Secure && c.2 is None
            &&& !d.https ==> c.1 == done && c.2 == Some(DialResult::Dialed)
            &&& s.1 == done && s.2 == Some(DialResult::Dialed)
            &&& f.1 is Stop && f.1->Stop_0 is Failed && f.2 == Some(DialResult::TlsError)
            &&& b.1 is Stop && b.1->Stop_0 is Failed && b.2 is None
        }),
{
}

/// A lookup that fails ends the dial.
pub proof fn a_failed_lookup_ends_the_dial(d: DialView, why: Seq<char>, deny: Seq<DenyView>)
    ensures
        ({
            let s = crate::dial::dial_step(d, DialEventView::LookupFailed(why), deny);
            s.1 is Stop && s.1->Stop_0 is Failed && s.2 == Some(DialResult::DnsError)
        }),
{
}

/// An address with its port: the address of IPv6 in brackets, a colon, and the port.
pub proof fn sockets_are_shown(a: u32, b: u128, port: u16)
    ensures
        crate::dial::socket_text(IpAddr::V4(a), port) == crate::ip::address_text(IpAddr::V4(a))
            + seq![':'] + super::words::written(port as nat),
        crate::dial::socket_text(IpAddr::V6(b), port) == seq!['['] + crate::ip::address_text(
            IpAddr::V6(b),
        ) + seq![']', ':'] + super::words::written(port as nat),
{
    reveal_strlit(":");
    reveal_strlit("[");
    reveal_strlit("]:");
    assert(":"@ =~= seq![':']);
    assert("["@ =~= seq!['[']);
    assert("]:"@ =~= seq![']', ':']);
    super::text::numbers_are_decimal(port as nat, 65535);
}

} // verus!
