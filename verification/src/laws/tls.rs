//! Signing certificates and the leaves that are kept.
use vstd::prelude::*;
use vstd::string::*;

use crate::mint::{ExtendedUse, KeyUse};
use crate::tls::{CertStep, CertView, LeafNameView};

verus! {

proof fn spaces_are_left_out(s: Seq<char>, n: int)
    requires
        0 <= n <= s.len(),
        forall|i: int|
            0 <= i < s.len() ==> super::words::is_blank(#[trigger] s[i])
                || super::words::is_graphic(s[i]),
    ensures
        crate::tls::unspaced_upto(s, n) == super::words::those(
            s.take(n),
            |c: char| !super::words::is_blank(c),
        ),
    decreases n,
{
    let keep = |c: char| !super::words::is_blank(c);
    if n > 0 {
        spaces_are_left_out(s, n - 1);
        assert(s.take(n).take(n - 1) =~= s.take(n - 1));
        assert(s.take(n)[n - 1] == s[n - 1]);
        assert(super::words::is_blank(s[n - 1]) || super::words::is_graphic(s[n - 1]));
        assert(crate::tls::unspaced_upto(s, n) =~= super::words::those(s.take(n), keep));
    } else {
        assert(s.take(0) =~= Seq::<char>::empty());
        assert(crate::tls::unspaced_upto(s, 0) =~= super::words::those(s.take(0), keep));
    }
}

proof fn found_at(s: Seq<char>, pat: Seq<char>, i: int, at: int)
    requires
        0 <= i <= at,
        super::words::stands(s, pat, at),
        forall|k: int| i <= k < at ==> !super::words::stands(s, pat, k),
    ensures
        crate::text::find_from(s, pat, i) == Some(at),
    decreases at - i,
{
    super::text::occurring_is_standing(s, pat, i);
    if i < at {
        assert(!super::words::stands(s, pat, i));
        found_at(s, pat, i + 1, at);
    }
}

/// The certificate of a PEM text is what stands in base64 between its first opening line and the
/// closing line behind it, wherever the lines of it are broken.
pub proof fn certificates_stand_between_their_lines(
    before: Seq<char>,
    body: Seq<char>,
    after: Seq<char>,
    der: Seq<u8>,
)
    requires
        forall|k: int|
            0 <= k < before.len() ==> !super::words::stands(
                before + "-----BEGIN CERTIFICATE-----"@ + body + "-----END CERTIFICATE-----"@
                    + after,
                "-----BEGIN CERTIFICATE-----"@,
                k,
            ),
        forall|i: int|
            0 <= i < body.len() ==> (super::words::is_blank(#[trigger] body[i])
                || super::words::is_graphic(body[i])) && body[i] != '-',
        super::words::those(body, |c: char| !super::words::is_blank(c)) == crate::codec::b64_text(
            der,
        ),
    ensures
        crate::tls::pem_bytes(
            before + "-----BEGIN CERTIFICATE-----"@ + body + "-----END CERTIFICATE-----"@ + after,
        ) == Ok::<Seq<u8>, Seq<char>>(der),
{
    let head = "-----BEGIN CERTIFICATE-----"@;
    let tail = "-----END CERTIFICATE-----"@;
    reveal_strlit("-----BEGIN CERTIFICATE-----");
    reveal_strlit("-----END CERTIFICATE-----");
    let pem = before + head + body + tail + after;
    let n: int = before.len() as int;
    assert forall|k: int| 0 <= k < head.len() implies pem[n + k] == #[trigger] head[k] by {}
    assert(super::words::stands(pem, head, n));
    found_at(pem, head, 0, n);
    let rest = pem.skip(n + head.len());
    assert(rest =~= body + tail + after);
    let m: int = body.len() as int;
    assert forall|k: int| 0 <= k < tail.len() implies rest[m + k] == #[trigger] tail[k] by {}
    assert(super::words::stands(rest, tail, m));
    assert forall|k: int| 0 <= k < m implies !super::words::stands(rest, tail, k) by {
        if super::words::stands(rest, tail, k) {
            assert(rest[k + 0] == tail[0]);
            assert(rest[k] == body[k]);
        }
    }
    found_at(rest, tail, 0, m);
    assert(rest.take(m) =~= body);
    spaces_are_left_out(body, m);
    assert(body.take(m) =~= body);
    crate::codec::base64_round_trip(der);
}

proof fn not_found(s: Seq<char>, pat: Seq<char>, i: int)
    requires
        0 <= i <= s.len() + 1,
        !super::words::is_within(s, pat),
    ensures
        crate::text::find_from(s, pat, i) is None,
    decreases s.len() + 1 - i,
{
    if i <= s.len() {
        super::text::occurring_is_standing(s, pat, i);
        assert(!super::words::stands(s, pat, i));
        not_found(s, pat, i + 1);
    }
}

/// A PEM text without an opening line is refused, and so is one without a closing line.
pub proof fn certificates_need_their_lines(pem: Seq<char>)
    requires
        !super::words::is_within(pem, "-----BEGIN CERTIFICATE-----"@) || !super::words::is_within(
            pem,
            "-----END CERTIFICATE-----"@,
        ),
    ensures
        crate::tls::pem_bytes(pem) is Err,
{
    let head = "-----BEGIN CERTIFICATE-----"@;
    let tail = "-----END CERTIFICATE-----"@;
    if !super::words::is_within(pem, head) {
        not_found(pem, head, 0);
    } else {
        match crate::text::find_from(pem, head, 0) {
            None => {},
            Some(start) => {
                found_is_within(pem, head, 0);
                let after = pem.skip(start + head.len());
                if super::words::is_within(after, tail) {
                    let i = choose|i: int| #[trigger] super::words::stands(after, tail, i);
                    let j = start + head.len() + i;
                    assert forall|k: int| 0 <= k < tail.len() implies pem[j + k] == #[trigger] tail[k] by {
                        assert(after[i + k] == tail[k]);
                    }
                    assert(super::words::stands(pem, tail, j));
                }
                not_found(after, tail, 0);
            },
        }
    }
}

proof fn found_is_within(s: Seq<char>, pat: Seq<char>, i: int)
    requires
        0 <= i,
    ensures
        match crate::text::find_from(s, pat, i) {
            Some(at) => i <= at && at + pat.len() <= s.len(),
            None => true,
        },
    decreases s.len() + 1 - i,
{
    if i <= s.len() && !crate::text::occurs_at(s, pat, i) {
        found_is_within(s, pat, i + 1);
    }
}

/// A leaf names an address where its target is one, and else the name.
pub proof fn leaves_name_their_target(target: Seq<char>)
    ensures
        crate::tls::leaf_name_of(target) == (match crate::ip::address(target) {
            Some(ip) => LeafNameView::Ip(ip),
            None => LeafNameView::Dns(target),
        }),
{
}

/// A leaf is made for every address and every name in ASCII, and for nothing else. It begins a
/// minute ago, ends after its hours, and serves for signing at a server.
pub proof fn leaves_are_made_for_a_time(target: Seq<char>, serial: u64, now: u64, hours: u64)
    requires
        60 <= now,
        now + hours * 3600 <= u64::MAX,
    ensures
        match crate::mint::plan_of(target, serial, now, hours) {
            Ok(p) => {
                &&& crate::ip::address(target) is Some || vstd::utf8::is_ascii_chars(target)
                &&& p.name == crate::tls::leaf_name_of(target)
                &&& p.common_name == target
                &&& p.serial == serial
                &&& p.not_before == now - 60
                &&& p.not_after == now + hours * 3600
                &&& p.key_uses == seq![KeyUse::DigitalSignature]
                &&& p.extended_uses == seq![ExtendedUse::ServerAuth]
            },
            Err(_) => crate::ip::address(target) is None && !vstd::utf8::is_ascii_chars(target),
        },
{
}

/// A serial comes from the one before by three shifts, each combined with what it shifts: by 13
/// bits up, by 7 bits down, and by 17 bits up.
pub proof fn serials_go_by_shifts(x: u64)
    ensures
        ({
            let a = x ^ ((x * 8192) % 18446744073709551616) as u64;
            let b = a ^ (a / 128) as u64;
            crate::tls::serial_after(x) == b ^ ((b * 131072) % 18446744073709551616) as u64
        }),
{
    assert(x << 13u64 == ((x * 8192) % 18446744073709551616) as u64) by (bit_vector);
    let a = x ^ (x << 13u64);
    assert(a >> 7u64 == a / 128) by (bit_vector);
    let b = a ^ (a >> 7u64);
    assert(b << 17u64 == ((b * 131072) % 18446744073709551616) as u64) by (bit_vector);
}

/// The characters of a printable text, by their code: letters, digits, a space and a few signs.
pub proof fn printable_characters(c: char)
    ensures
        crate::mint::is_printable(c) <==> {
            let u = c as u32;
            ||| u == 32
            ||| 39 <= u <= 41
            ||| 43 <= u <= 58
            ||| u == 61
            ||| 65 <= u <= 90
            ||| 97 <= u <= 122
        },
{
}

/// A time can be written where it lies in the years from 0 to 9999, and in those from 1950 to
/// 2049 where its year is one of them.
pub proof fn times_that_can_be_written(year: i32, seconds: i64)
    ensures
        crate::mint::moment_can_be_written(crate::mint::Moment { year, seconds }) <==> {
            if 1950 <= year <= 2049 {
                -7305 * 86400 <= seconds < 29220 * 86400
            } else {
                -719528 * 86400 <= seconds < 2932897 * 86400
            }
        },
{
}

/// An identifier has two numbers at least; the first is below three, and the second below forty
/// under the first two.
pub proof fn identifiers_begin_with_two_numbers(a: u64, b: u64, more: Seq<u64>)
    ensures
        !crate::mint::is_identifier(Seq::empty()),
        !crate::mint::is_identifier(seq![a]),
        crate::mint::is_identifier(seq![a, b] + more) <==> (a <= 1 && b <= 39) || (a == 2 && b
            <= u64::MAX - 81),
{
}

/// A leaf that is served comes with the signing certificate behind it and its own key, and was
/// signed for what was planned.
pub proof fn leaves_come_with_their_signer(
    leaf: crate::mint::CertifiedLeaf,
    plan: crate::mint::PlanView,
    key: rcgen::KeyPair,
    ca: crate::mint::CaView,
)
    requires
        crate::mint::is_leaf(leaf, plan, key, ca),
    ensures
        leaf.chain@.len() == 2,
        leaf.chain@[1]@ == ca.ca_der,
        leaf.key@ == crate::mint::key_der_of(key),
        crate::mint::may_sign(
            crate::mint::params_with_uses(
                crate::mint::leaf_params_of(
                    match plan.name {
                        LeafNameView::Ip(_) => crate::mint::ip_san_of(plan.common_name),
                        LeafNameView::Dns(n) => crate::mint::dns_san_of(n),
                    },
                    crate::mint::common_name_of(plan.common_name),
                    crate::mint::serial_of(plan.serial),
                    plan.not_before,
                    plan.not_after,
                ),
                plan.key_uses,
                plan.extended_uses,
            ),
            key,
            ca.ca_cert,
            ca.key,
            Ok::<Seq<u8>, Seq<char>>(leaf.chain@[0]@),
        ),
{
}

// ---- The leaves that are kept -------------------------------------------------------------------------

proof fn index_is_first(s: Seq<(Seq<char>, u64)>, k: Seq<char>, i: int, at: int)
    requires
        0 <= i <= at <= s.len(),
        forall|j: int| i <= j < at ==> (#[trigger] s[j]).0 != k,
        at < s.len() ==> s[at].0 == k,
    ensures
        crate::tls::index_of(s, k, i) == at,
    decreases at - i,
{
    if i < at {
        assert(s[i].0 != k);
        index_is_first(s, k, i + 1, at);
    }
}

/// A leaf that is kept is served, and comes first from then on.
pub proof fn kept_leaves_are_served(c: CertView, target: Seq<char>, at: int)
    requires
        0 <= at < c.leaves.len(),
        c.leaves[at].0 == target,
        forall|j: int| 0 <= j < at ==> (#[trigger] c.leaves[j]).0 != target,
    ensures
        ({
            let r = crate::tls::cert_get(c, target);
            &&& r.1 == CertStep::Hit(c.leaves[at].1)
            &&& r.0.leaves == seq![c.leaves[at]] + c.leaves.take(at) + c.leaves.skip(at + 1)
            &&& r.0.inflight == c.inflight
        }),
{
    index_is_first(c.leaves, target, 0, at);
    assert(seq![c.leaves[at]] + c.leaves.remove(at) =~= seq![c.leaves[at]] + c.leaves.take(at)
        + c.leaves.skip(at + 1));
}

/// A leaf that is not kept is minted by the first that asks for it; the others wait for that one.
pub proof fn leaves_are_minted_once(c: CertView, target: Seq<char>)
    requires
        crate::strmap::sorted(c.inflight),
        forall|j: int| 0 <= j < c.leaves.len() ==> (#[trigger] c.leaves[j]).0 != target,
    ensures
        ({
            let r = crate::tls::cert_get(c, target);
            match crate::strmap::found(c.inflight, target) {
                Some(flight) => r.1 == CertStep::Await(flight) && r.0 == c,
                None => {
                    &&& r.1 == CertStep::Mint(c.flights)
                    &&& crate::tls::cert_get(r.0, target).1 == CertStep::Await(c.flights)
                    &&& r.0.leaves == c.leaves
                    &&& c.flights < u64::MAX ==> r.0.flights == c.flights + 1
                },
            }
        }),
{
    index_is_first(c.leaves, target, 0, c.leaves.len() as int);
    crate::strmap::put_laws(c.inflight, target, c.flights);
}

/// A leaf that was minted is kept before the others, the least used of which makes room where
/// there is none; where minting failed nothing changes. Either way it is not under way any more.
pub proof fn minted_leaves_are_kept(c: CertView, target: Seq<char>, leaf: u64)
    requires
        crate::strmap::sorted(c.inflight),
        c.limit > 0,
        c.leaves.len() <= c.limit,
        forall|j: int| 0 <= j < c.leaves.len() ==> (#[trigger] c.leaves[j]).0 != target,
    ensures
        ({
            let done = crate::tls::cert_finish(c, target, Some(leaf));
            let failed = crate::tls::cert_finish(c, target, None);
            &&& done.leaves == seq![(target, leaf)] + c.leaves.take(
                if c.leaves.len() < c.limit {
                    c.leaves.len() as int
                } else {
                    c.limit - 1
                },
            )
            &&& failed.leaves == c.leaves
            &&& crate::strmap::found(done.inflight, target) is None
            &&& crate::strmap::found(failed.inflight, target) is None
            &&& done.limit == c.limit
        }),
{
    index_is_first(c.leaves, target, 0, c.leaves.len() as int);
    crate::strmap::without_laws(c.inflight, target);
    assert(c.leaves.take(c.leaves.len() as int) =~= c.leaves);
    if c.leaves.len() == c.limit {
        assert(c.leaves.drop_last() =~= c.leaves.take(c.limit - 1));
    }
}

} // verus!
