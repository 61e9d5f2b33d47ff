//! What a minted certificate says, and the cache of them. Keys and signatures
//! are made elsewhere; here a minted leaf is a number.
use vstd::prelude::*;
use vstd::string::*;

use crate::codec::{b64_decoded, base64_decode};
use crate::ip::IpAddr;
use crate::strmap::{found, put, without, StrMap};
use crate::text::{chars_of, find, join2, piece, quoted, space};

verus! {

/// A failure of minting or of its configuration.
#[derive(Debug)]
pub struct TlsError(pub String);

impl TlsError {
    /// The error as shown to an operator.
    pub fn to_text(&self) -> (r: String)
        ensures
            r@ == "tls: "@ + self.0@,
    {
        join2("tls: ", self.0.as_str())
    }
}

// ---- The signing certificate ------------------------------------------------------------

/// The first `n` characters without white space.
pub open spec fn unspaced_upto(s: Seq<char>, n: int) -> Seq<char>
    decreases n,
{
    if n <= 0 {
        Seq::<char>::empty()
    } else if crate::text::is_space(s[n - 1]) {
        unspaced_upto(s, n - 1)
    } else {
        unspaced_upto(s, n - 1).push(s[n - 1])
    }
}

/// A text without white space.
pub open spec fn unspaced(s: Seq<char>) -> Seq<char> {
    unspaced_upto(s, s.len() as int)
}

/// The bytes of the first certificate block of a PEM text.
pub open spec fn pem_bytes(pem: Seq<char>) -> Result<Seq<u8>, Seq<char>> {
    let head = "-----BEGIN CERTIFICATE-----"@;
    match crate::text::find_from(pem, head, 0) {
        None => Err("ca_cert PEM has no CERTIFICATE block"@),
        Some(start) => {
            let after = pem.skip(start + head.len());
            match crate::text::find_from(after, "-----END CERTIFICATE-----"@, 0) {
                None => Err("ca_cert PEM CERTIFICATE block unterminated"@),
                Some(end) => match b64_decoded(unspaced(after.take(end))) {
                    None => Err("ca_cert PEM body is not valid base64"@),
                    Some(der) => Ok(der),
                },
            }
        },
    }
}

fn remove_spaces(s: &Vec<char>, n: usize) -> (r: String)
    requires
        n <= s@.len(),
    ensures
        r@ == unspaced(s@.take(n as int)),
{
    let ghost t = s@.take(n as int);
    let mut out = String::new();
    let mut i: usize = 0;
    while i < n
        invariant
            i <= n <= s@.len(),
            t == s@.take(n as int),
            out@ == unspaced_upto(t, i as int),
        decreases n - i,
    {
        assert(t[i as int] == s@[i as int]);
        if !space(s[i]) {
            out.push(s[i]);
        }
        i += 1;
    }
    out
}

/// Decodes the first certificate block of a PEM text.
pub fn pem_cert_to_der(pem: &str) -> (r: Result<Vec<u8>, TlsError>)
    ensures
        match r {
            Ok(v) => pem_bytes(pem@) == Ok::<Seq<u8>, Seq<char>>(v@),
            Err(e) => pem_bytes(pem@) == Err::<Seq<u8>, Seq<char>>(e.0@),
        },
{
    let c = chars_of(pem);
    let head = chars_of("-----BEGIN CERTIFICATE-----");
    let tail = chars_of("-----END CERTIFICATE-----");
    let start: usize = match find(&c, &head, 0) {
        Some(i) => i,
        None => {
            return Err(TlsError("ca_cert PEM has no CERTIFICATE block".to_owned()));
        },
    };
    let n: usize = c.len();
    let from: usize = start + head.len();
    let after_text = piece(&c, from, n);
    assert(after_text@ == pem@.skip(from as int));
    let after = chars_of(after_text.as_str());
    let end: usize = match find(&after, &tail, 0) {
        Some(i) => i,
        None => {
            return Err(TlsError("ca_cert PEM CERTIFICATE block unterminated".to_owned()));
        },
    };
    let body = remove_spaces(&after, end);
    match base64_decode(body.as_str()) {
        Some(der) => Ok(der),
        None => Err(TlsError("ca_cert PEM body is not valid base64".to_owned())),
    }
}

// ---- What a leaf says -------------------------------------------------------------------

/// The name that a leaf is good for.
#[derive(Debug)]
pub enum LeafName {
    Ip(IpAddr),
    Dns(String),
}

/// What a leaf's name says.
#[verifier::ext_equal]
pub enum LeafNameView {
    Ip(IpAddr),
    Dns(Seq<char>),
}

impl View for LeafName {
    type V = LeafNameView;

    open spec fn view(&self) -> LeafNameView {
        match self {
            LeafName::Ip(ip) => LeafNameView::Ip(*ip),
            LeafName::Dns(n) => LeafNameView::Dns(n@),
        }
    }
}

/// An IP literal is named as an address, anything else as a host.
pub open spec fn leaf_name_of(target: Seq<char>) -> LeafNameView {
    match crate::ip::address(target) {
        Some(ip) => LeafNameView::Ip(ip),
        None => LeafNameView::Dns(target),
    }
}

pub fn leaf_name(target: &str) -> (r: LeafName)
    ensures
        r@ == leaf_name_of(target@),
{
    match IpAddr::parse(target) {
        Some(ip) => LeafName::Ip(ip),
        None => LeafName::Dns(target.to_owned()),
    }
}

/// The serial number that follows another.
pub open spec fn serial_after(x: u64) -> u64 {
    let a = x ^ (x << 13u64);
    let b = a ^ (a >> 7u64);
    b ^ (b << 17u64)
}

pub fn next_serial(seed: u64) -> (r: u64)
    ensures
        r == serial_after(seed),
{
    let a: u64 = seed ^ (seed << 13u64);
    let b: u64 = a ^ (a >> 7u64);
    b ^ (b << 17u64)
}

/// Different seeds have different successors, and none but zero leads to zero:
/// a chain of serial numbers that begins elsewhere never comes to it.
pub proof fn serials_do_not_collide(x: u64, y: u64)
    requires
        x != y,
    ensures
        serial_after(x) != serial_after(y),
        x != 0 ==> serial_after(x) != 0,
{
    let a = x ^ (x << 13u64);
    let b = a ^ (a >> 7u64);
    let c = y ^ (y << 13u64);
    let d = c ^ (c >> 7u64);
    assert(a != c) by (bit_vector)
        requires
            x != y,
            a == x ^ (x << 13u64),
            c == y ^ (y << 13u64),
    ;
    assert(b != d) by (bit_vector)
        requires
            a != c,
            b == a ^ (a >> 7u64),
            d == c ^ (c >> 7u64),
    ;
    assert(b ^ (b << 17u64) != d ^ (d << 17u64)) by (bit_vector)
        requires
            b != d,
    ;
    if x != 0 {
        assert(a != 0) by (bit_vector)
            requires
                x != 0,
                a == x ^ (x << 13u64),
        ;
        assert(b != 0) by (bit_vector)
            requires
                a != 0,
                b == a ^ (a >> 7u64),
        ;
        assert(b ^ (b << 17u64) != 0) by (bit_vector)
            requires
                b != 0,
        ;
    }
}

// ---- The collection of the lru crate ------------------------------------------------------

/// Declares the hasher of the `lru` crate's cache.
#[verifier::external_type_specification]
#[verifier::external_body]
pub struct ExLruHasher(lru::DefaultHasher);

/// Declares the cache of the `lru` crate.
#[verifier::external_type_specification]
#[verifier::external_body]
#[verifier::reject_recursive_types(K)]
#[verifier::reject_recursive_types(V)]
#[verifier::reject_recursive_types(S)]
pub struct ExLruCache<K, V, S>(lru::LruCache<K, V, S>);

/// The entries of a cache, the last used first.
pub uninterp spec fn lru_entries(c: lru::LruCache<String, u64, lru::DefaultHasher>) -> Seq<
    (Seq<char>, u64),
>;

/// How many entries a cache holds at most.
pub uninterp spec fn lru_limit(c: lru::LruCache<String, u64, lru::DefaultHasher>) -> nat;

/// The index of the first entry at or after `i` under a key, or the length.
pub open spec fn index_of(s: Seq<(Seq<char>, u64)>, k: Seq<char>, i: int) -> int
    decreases s.len() - i,
{
    if i >= s.len() {
        s.len() as int
    } else if s[i].0 == k {
        i
    } else {
        index_of(s, k, i + 1)
    }
}

/// The value under a key.
pub open spec fn cached(s: Seq<(Seq<char>, u64)>, k: Seq<char>) -> Option<u64> {
    let i = index_of(s, k, 0);
    if i < s.len() {
        Some(s[i].1)
    } else {
        None
    }
}

/// The entries with the one under a key in front.
pub open spec fn touched(s: Seq<(Seq<char>, u64)>, k: Seq<char>) -> Seq<(Seq<char>, u64)> {
    let i = index_of(s, k, 0);
    if i < s.len() {
        seq![s[i]] + s.remove(i)
    } else {
        s
    }
}

/// The entries with a new one in front: it replaces one of the same key, or in a
/// full cache the one used longest ago.
pub open spec fn pushed(s: Seq<(Seq<char>, u64)>, limit: nat, k: Seq<char>, v: u64) -> Seq<
    (Seq<char>, u64),
> {
    let i = index_of(s, k, 0);
    if i < s.len() {
        seq![(k, v)] + s.remove(i)
    } else if s.len() == limit {
        seq![(k, v)] + s.drop_last()
    } else {
        seq![(k, v)] + s
    }
}

/// The value that leaves when a new one comes.
pub open spec fn displaced(s: Seq<(Seq<char>, u64)>, limit: nat, k: Seq<char>) -> Option<u64> {
    let i = index_of(s, k, 0);
    if i < s.len() {
        Some(s[i].1)
    } else if s.len() == limit && s.len() > 0 {
        Some(s.last().1)
    } else {
        None
    }
}

/// Trusts `lru::LruCache::new`: an empty cache of that limit. The limit is kept
/// below what its table can be made for; whether there is memory for it is not
/// stated.
#[verifier::external_body]
fn lru_new(limit: usize) -> (r: lru::LruCache<String, u64, lru::DefaultHasher>)
    requires
        0 < limit <= usize::MAX / 128,
    ensures
        lru_entries(r) == Seq::<(Seq<char>, u64)>::empty(),
        lru_limit(r) == limit,
{
    lru::LruCache::new(std::num::NonZeroUsize::new(limit).unwrap())
}

/// Trusts `lru::LruCache::get`: the value under the key, whose entry comes to
/// the front; without one nothing changes.
#[verifier::external_body]
fn lru_get(c: &mut lru::LruCache<String, u64, lru::DefaultHasher>, key: &str) -> (r: Option<u64>)
    ensures
        r == cached(lru_entries(*old(c)), key@),
        lru_entries(*final(c)) == touched(lru_entries(*old(c)), key@),
        lru_limit(*final(c)) == lru_limit(*old(c)),
{
    c.get(key).copied()
}

/// Trusts `lru::LruCache::push`: the entry comes to the front, in place of one
/// of the same key or, in a full cache, of the one used longest ago, whose value
/// is handed out.
#[verifier::external_body]
fn lru_push(c: &mut lru::LruCache<String, u64, lru::DefaultHasher>, key: String, v: u64) -> (r:
    Option<u64>)
    ensures
        r == displaced(lru_entries(*old(c)), lru_limit(*old(c)), key@),
        lru_entries(*final(c)) == pushed(
            lru_entries(*old(c)),
            lru_limit(*old(c)),
            key@,
            v,
        ),
        lru_limit(*final(c)) == lru_limit(*old(c)),
{
    c.push(key, v).map(|p| p.1)
}

// ---- The leaf cache -----------------------------------------------------------------------

/// The minted leaves by their targets, and the minting under way: concurrent
/// misses of one target mint once.
pub struct CertCache {
    leaves: lru::LruCache<String, u64, lru::DefaultHasher>,
    inflight: StrMap<u64>,
    flights: u64,
}

/// What a leaf cache holds.
#[verifier::ext_equal]
pub struct CertView {
    /// The leaves, the last used first.
    pub leaves: Seq<(Seq<char>, u64)>,
    pub limit: nat,
    /// The minting under way, by target.
    pub inflight: Seq<(Seq<char>, u64)>,
    pub flights: u64,
}

impl View for CertCache {
    type V = CertView;

    closed spec fn view(&self) -> CertView {
        CertView {
            leaves: lru_entries(self.leaves),
            limit: lru_limit(self.leaves),
            inflight: self.inflight@,
            flights: self.flights,
        }
    }
}

/// What to do for a target.
#[derive(Debug, Clone, Copy, PartialEq, Eq, Structural)]
pub enum CertStep {
    /// Serve this leaf.
    Hit(u64),
    /// Another request is minting: wait for it.
    Await(u64),
    /// Mint, and hand the result in.
    Mint(u64),
}

/// What to do for a target, and the cache behind it.
pub open spec fn cert_get(c: CertView, target: Seq<char>) -> (CertView, CertStep) {
    match cached(c.leaves, target) {
        Some(leaf) => (
            CertView { leaves: touched(c.leaves, target), ..c },
            CertStep::Hit(leaf),
        ),
        None => match found(c.inflight, target) {
            Some(flight) => (c, CertStep::Await(flight)),
            None => (
                CertView {
                    inflight: put(c.inflight, target, c.flights),
                    flights: if c.flights == u64::MAX {
                        0
                    } else {
                        (c.flights + 1) as u64
                    },
                    ..c
                },
                CertStep::Mint(c.flights),
            ),
        },
    }
}

/// The cache once minting has ended: the leaf, where there is one, is kept.
pub open spec fn cert_finish(c: CertView, target: Seq<char>, leaf: Option<u64>) -> CertView {
    CertView {
        leaves: match leaf {
            Some(l) => pushed(c.leaves, c.limit, target, l),
            None => c.leaves,
        },
        inflight: without(c.inflight, target),
        ..c
    }
}

impl CertCache {
    /// A cache of at most `capacity` leaves, a thousand where it is zero.
    pub fn new(capacity: usize) -> (r: Self)
        requires
            capacity <= usize::MAX / 128,
        ensures
            r@ == (CertView {
                leaves: Seq::empty(),
                limit: if capacity == 0 {
                    1000
                } else {
                    capacity as nat
                },
                inflight: Seq::empty(),
                flights: 0,
            }),
    {
        let limit: usize = if capacity == 0 {
            1000
        } else {
            capacity
        };
        CertCache { leaves: lru_new(limit), inflight: StrMap::new(), flights: 0 }
    }

    /// What to do for a target.
    pub fn get(&mut self, target: &str) -> (r: CertStep)
        ensures
            (final(self)@, r) == cert_get(old(self)@, target@),
    {
        let ghost c = self@;
        if let Some(leaf) = lru_get(&mut self.leaves, target) {
            return CertStep::Hit(leaf);
        }
        proof {
            assert(touched(c.leaves, target@) == c.leaves);
        }
        let waiting: Option<u64> = match self.inflight.get(target) {
            Some(f) => Some(*f),
            None => None,
        };
        match waiting {
            Some(f) => CertStep::Await(f),
            None => {
                let f: u64 = self.flights;
                self.inflight.insert(target.to_owned(), f);
                self.flights = if f == u64::MAX {
                    0
                } else {
                    f + 1
                };
                CertStep::Mint(f)
            },
        }
    }

    /// Ends the minting for a target. Gives the leaf that left the cache.
    pub fn finish(&mut self, target: &str, leaf: Option<u64>) -> (r: Option<u64>)
        ensures
            final(self)@ == cert_finish(old(self)@, target@, leaf),
            r == (match leaf {
                Some(_) => displaced(old(self)@.leaves, old(self)@.limit, target@),
                None => None,
            }),
    {
        let gone: Option<u64> = match leaf {
            Some(l) => lru_push(&mut self.leaves, target.to_owned(), l),
            None => None,
        };
        self.inflight.remove(target);
        gone
    }
}

/// The error of a target that could not be minted for.
pub fn mint_failed(target: &str) -> (r: TlsError)
    ensures
        r.0@ == "mint failed for "@ + crate::text::quoted_text(target@),
{
    TlsError(join2("mint failed for ", quoted(target).as_str()))
}

// ---- Laws -------------------------------------------------------------------------------

/// While a target is being minted for, every other request for it waits for that
/// same minting: concurrent misses mint once.
pub proof fn misses_mint_once(c: CertView, target: Seq<char>, flight: u64)
    requires
        crate::strmap::sorted(c.inflight),
        cert_get(c, target).1 == CertStep::Mint(flight),
    ensures
        cert_get(cert_get(c, target).0, target).1 == CertStep::Await(flight),
{
    crate::strmap::put_laws(c.inflight, target, c.flights);
}

/// A minted leaf is served from the cache from then on, and no minting for the
/// target is under way any more.
pub proof fn minted_leaf_is_served(c: CertView, target: Seq<char>, leaf: u64)
    requires
        crate::strmap::sorted(c.inflight),
    ensures
        cert_get(cert_finish(c, target, Some(leaf)), target).1 == CertStep::Hit(leaf),
        found(cert_finish(c, target, Some(leaf)).inflight, target) is None,
{
    crate::strmap::without_laws(c.inflight, target);
    let s = pushed(c.leaves, c.limit, target, leaf);
    assert(s[0] == (target, leaf));
}

/// A failed minting leaves no trace: the next request mints again.
pub proof fn failed_minting_is_forgotten(c: CertView, target: Seq<char>)
    requires
        crate::strmap::sorted(c.inflight),
        cached(c.leaves, target) is None,
    ensures
        cert_get(cert_finish(c, target, None), target).1 is Mint,
{
    crate::strmap::without_laws(c.inflight, target);
}

proof fn index_in_range(s: Seq<(Seq<char>, u64)>, k: Seq<char>, i: int)
    requires
        0 <= i <= s.len(),
    ensures
        i <= index_of(s, k, i) <= s.len(),
    decreases s.len() - i,
{
    if i < s.len() && s[i].0 != k {
        index_in_range(s, k, i + 1);
    }
}

/// The cache never holds more leaves than its limit.
pub proof fn cache_stays_within_its_limit(c: CertView, target: Seq<char>, leaf: Option<u64>)
    requires
        c.leaves.len() <= c.limit,
        c.limit > 0,
    ensures
        cert_get(c, target).0.leaves.len() <= c.limit,
        cert_finish(c, target, leaf).leaves.len() <= c.limit,
{
    index_in_range(c.leaves, target, 0);
}

} // verus!
