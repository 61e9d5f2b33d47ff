//! Minting leaves: what a leaf says is decided here, keys and signatures come
//! from the certificate crate.
use vstd::prelude::*;
use vstd::string::*;
use vstd::utf8::*;

use crate::tls::{
    leaf_name, leaf_name_of, next_serial, pem_bytes, pem_cert_to_der, serial_after, LeafName,
    LeafNameView, TlsError,
};
use crate::text::{chars_of, join2, quoted};

verus! {

// ---- The certificate crate ------------------------------------------------------------------------

/// Declares the key pair of `rcgen`.
#[verifier::external_type_specification]
#[verifier::external_body]
pub struct ExKeyPair(rcgen::KeyPair);

/// Declares the certificate of `rcgen`.
#[verifier::external_type_specification]
#[verifier::external_body]
pub struct ExCertificate(rcgen::Certificate);

/// Declares the parameters of a certificate of `rcgen`.
#[verifier::external_type_specification]
#[verifier::external_body]
pub struct ExCertificateParams(rcgen::CertificateParams);

/// Declares the alternative name of `rcgen`.
#[verifier::external_type_specification]
#[verifier::external_body]
pub struct ExSanType(rcgen::SanType);

/// Declares the distinguished name of `rcgen`.
#[verifier::external_type_specification]
#[verifier::external_body]
pub struct ExDistinguishedName(rcgen::DistinguishedName);

/// Declares the serial number of `rcgen`.
#[verifier::external_type_specification]
#[verifier::external_body]
pub struct ExSerialNumber(rcgen::SerialNumber);

/// Reading a PEM text may come to this: a key pair, or an error.
pub uninterp spec fn may_read_key(pem: Seq<char>, r: Result<rcgen::KeyPair, Seq<char>>) -> bool;

/// The parameters of the signing certificate that a PEM text holds, or the error
/// of reading it.
pub uninterp spec fn ca_params_of(pem: Seq<char>) -> Result<rcgen::CertificateParams, Seq<char>>;

/// The distinguished name in parameters.
pub uninterp spec fn subject_of(p: rcgen::CertificateParams) -> rcgen::DistinguishedName;

/// The entries of a distinguished name, in order.
pub uninterp spec fn name_entries(name: rcgen::DistinguishedName) -> Seq<NameEntryView>;

/// The alternative names in parameters, in order: of each that is an other-name the
/// numbers of its type, of any other nothing.
pub uninterp spec fn other_name_types(p: rcgen::CertificateParams) -> Seq<Option<Seq<u64>>>;

/// The name constraints in parameters: the permitted ones, then the excluded ones.
pub uninterp spec fn constraints_of(p: rcgen::CertificateParams) -> Seq<ConstraintView>;

/// From when to when parameters are valid.
pub uninterp spec fn validity_of(p: rcgen::CertificateParams) -> (Moment, Moment);

/// The alternative name of an IP literal.
pub uninterp spec fn ip_san_of(target: Seq<char>) -> rcgen::SanType;

/// The alternative name of a host name.
pub uninterp spec fn dns_san_of(name: Seq<char>) -> rcgen::SanType;

/// The distinguished name that has a common name and nothing else.
pub uninterp spec fn common_name_of(name: Seq<char>) -> rcgen::DistinguishedName;

/// A number as a serial number.
pub uninterp spec fn serial_of(n: u64) -> rcgen::SerialNumber;

/// The parameters of a certificate: its only alternative name, its distinguished
/// name, its serial number, and from when to when it is valid, in seconds.
pub uninterp spec fn leaf_params_of(
    san: rcgen::SanType,
    name: rcgen::DistinguishedName,
    serial: rcgen::SerialNumber,
    not_before: u64,
    not_after: u64,
) -> rcgen::CertificateParams;

/// Parameters with what the key may be used for.
pub uninterp spec fn params_with_uses(
    p: rcgen::CertificateParams,
    key_uses: Seq<KeyUse>,
    extended_uses: Seq<ExtendedUse>,
) -> rcgen::CertificateParams;

/// Generating a key pair may come to this: a key pair, or an error.
pub uninterp spec fn may_generate(r: Result<rcgen::KeyPair, Seq<char>>) -> bool;

/// The private key of a key pair in DER.
pub uninterp spec fn key_der_of(key: rcgen::KeyPair) -> Seq<u8>;

/// Signing parameters by their own key may come to this: a certificate, or an
/// error.
pub uninterp spec fn may_self_sign(
    p: rcgen::CertificateParams,
    key: rcgen::KeyPair,
    r: Result<rcgen::Certificate, Seq<char>>,
) -> bool;

/// Signing parameters and the key they are for by a signing certificate and its
/// key may come to this: a certificate in DER, or an error.
pub uninterp spec fn may_sign(
    p: rcgen::CertificateParams,
    key: rcgen::KeyPair,
    ca_cert: rcgen::Certificate,
    ca_key: rcgen::KeyPair,
    r: Result<Seq<u8>, Seq<char>>,
) -> bool;

/// Trusts `rcgen::KeyPair::from_pem`. The key pair is blinded with random numbers
/// when it is read: the result is one that the text may come to, and no more is
/// stated of it.
#[verifier::external_body]
fn read_key(pem: &str) -> (r: Result<rcgen::KeyPair, String>)
    ensures
        match r {
            Ok(k) => may_read_key(pem@, Ok::<rcgen::KeyPair, Seq<char>>(k)),
            Err(e) => may_read_key(pem@, Err::<rcgen::KeyPair, Seq<char>>(e@)),
        },
{
    rcgen::KeyPair::from_pem(pem).map_err(|e| e.to_string())
}

/// Trusts `rcgen::CertificateParams::from_ca_cert_pem`: which parameters a text
/// holds, or with which error it is refused, depends on the text alone.
#[verifier::external_body]
fn read_ca_params(pem: &str) -> (r: Result<rcgen::CertificateParams, String>)
    ensures
        match r {
            Ok(p) => ca_params_of(pem@) == Ok::<rcgen::CertificateParams, Seq<char>>(p),
            Err(e) => ca_params_of(pem@) == Err::<rcgen::CertificateParams, Seq<char>>(e@),
        },
{
    rcgen::CertificateParams::from_ca_cert_pem(pem).map_err(|e| e.to_string())
}

/// Trusts the field `distinguished_name` of `rcgen::CertificateParams`: it depends on
/// the parameters alone.
#[verifier::external_body]
fn subject(p: &rcgen::CertificateParams) -> (r: &rcgen::DistinguishedName)
    ensures
        *r == subject_of(*p),
{
    &p.distinguished_name
}

/// Trusts `rcgen::DistinguishedName::iter`: the entries depend on the name alone. Of an
/// entry the numbers of a custom type and the text of a printable string are kept.
#[verifier::external_body]
fn entries(name: &rcgen::DistinguishedName) -> (r: Vec<NameEntry>)
    ensures
        name_entry_views(r@) == name_entries(*name),
{
    name.iter().map(|(ty, value)| NameEntry {
        custom_type: match ty {
            rcgen::DnType::CustomDnType(numbers) => Some(numbers.clone()),
            _ => None,
        },
        printable: match value {
            rcgen::DnValue::PrintableString(text) => Some(text.as_str().to_owned()),
            _ => None,
        },
    }).collect()
}

/// Trusts the field `subject_alt_names` of `rcgen::CertificateParams`: it depends on the
/// parameters alone. Of an other-name the numbers of its type are kept.
#[verifier::external_body]
fn other_names(p: &rcgen::CertificateParams) -> (r: Vec<Option<Vec<u64>>>)
    ensures
        opt_numbers_all(r@) == other_name_types(*p),
{
    p.subject_alt_names.iter().map(|san| match san {
        rcgen::SanType::OtherName((numbers, _)) => Some(numbers.clone()),
        _ => None,
    }).collect()
}

/// Trusts the field `name_constraints` of `rcgen::CertificateParams`: it depends on the
/// parameters alone.
#[verifier::external_body]
fn constraints(p: &rcgen::CertificateParams) -> (r: Vec<Constraint>)
    ensures
        constraint_views(r@) == constraints_of(*p),
{
    let all = p.name_constraints.iter().flat_map(|c| {
        c.permitted_subtrees.iter().chain(c.excluded_subtrees.iter())
    });
    all.map(|tree| match tree {
        rcgen::GeneralSubtree::Rfc822Name(text) => Constraint::Text(text.clone()),
        rcgen::GeneralSubtree::DnsName(text) => Constraint::Text(text.clone()),
        rcgen::GeneralSubtree::DirectoryName(name) => Constraint::Name(name.clone()),
        _ => Constraint::Addresses,
    }).collect()
}

/// Trusts the fields `not_before` and `not_after` of `rcgen::CertificateParams`, with
/// `year` and `unix_timestamp` of the times in them: they depend on the parameters
/// alone.
#[verifier::external_body]
fn validity(p: &rcgen::CertificateParams) -> (r: (Moment, Moment))
    ensures
        r == validity_of(*p),
{
    let from = Moment { year: p.not_before.year(), seconds: p.not_before.unix_timestamp() };
    let to = Moment { year: p.not_after.year(), seconds: p.not_after.unix_timestamp() };
    (from, to)
}

/// Trusts `rcgen::CertificateParams::self_signed`. A signature is made with random
/// numbers: the result is one that these arguments may come to, and no more is
/// stated of it. The crate panics on parameters that it cannot write. Those that were
/// read from a certificate hold nothing that it cannot write but names, name constraints
/// and times, and of these they must hold such as it can.
#[verifier::external_body]
fn self_sign(p: rcgen::CertificateParams, key: &rcgen::KeyPair) -> (r: Result<
    rcgen::Certificate,
    String,
>)
    requires
        exists|pem: Seq<char>| #[trigger]
            ca_params_of(pem) == Ok::<rcgen::CertificateParams, Seq<char>>(p),
        can_be_written(p),
    ensures
        match r {
            Ok(c) => may_self_sign(p, *key, Ok::<rcgen::Certificate, Seq<char>>(c)),
            Err(e) => may_self_sign(p, *key, Err::<rcgen::Certificate, Seq<char>>(e@)),
        },
{
    p.self_signed(key).map_err(|e| e.to_string())
}

/// Trusts `rcgen::KeyPair::generate`. It is random: the result is one that it may
/// come to, and no more is stated of it.
#[verifier::external_body]
fn generate_key() -> (r: Result<rcgen::KeyPair, String>)
    ensures
        match r {
            Ok(k) => may_generate(Ok::<rcgen::KeyPair, Seq<char>>(k)),
            Err(e) => may_generate(Err::<rcgen::KeyPair, Seq<char>>(e@)),
        },
{
    rcgen::KeyPair::generate().map_err(|e| e.to_string())
}

/// Trusts `rcgen::KeyPair::serialize_der`: the bytes depend on the key pair alone. It
/// is called on generated key pairs only, which have their private key at hand.
#[verifier::external_body]
fn key_der(key: &rcgen::KeyPair) -> (r: Vec<u8>)
    requires
        may_generate(Ok::<rcgen::KeyPair, Seq<char>>(*key)),
    ensures
        r@ == key_der_of(*key),
{
    key.serialize_der()
}

/// Trusts the variant `rcgen::SanType::IpAddress` over an address that std reads from
/// an IP literal: it depends on the literal alone.
#[verifier::external_body]
fn ip_san(target: &str) -> (r: rcgen::SanType)
    requires
        leaf_name_of(target@) is Ip,
    ensures
        r == ip_san_of(target@),
{
    rcgen::SanType::IpAddress(target.parse().unwrap())
}

/// Trusts the variant `rcgen::SanType::DnsName` over an ASCII name: it depends on the
/// name alone.
#[verifier::external_body]
fn dns_san(name: &str) -> (r: rcgen::SanType)
    requires
        is_ascii_chars(name@),
    ensures
        r == dns_san_of(name@),
{
    rcgen::SanType::DnsName(name.try_into().unwrap())
}

/// Trusts `rcgen::DistinguishedName::push` of a common name on an empty name: the
/// result depends on the common name alone.
#[verifier::external_body]
fn common_name(name: &str) -> (r: rcgen::DistinguishedName)
    ensures
        r == common_name_of(name@),
{
    let mut dn = rcgen::DistinguishedName::new();
    dn.push(rcgen::DnType::CommonName, name);
    dn
}

/// Trusts the conversion of a number into `rcgen::SerialNumber`: it depends on the
/// number alone.
#[verifier::external_body]
fn serial_number(n: u64) -> (r: rcgen::SerialNumber)
    ensures
        r == serial_of(n),
{
    rcgen::SerialNumber::from(n)
}

/// Trusts `rcgen::CertificateParams::default` with the given fields put in: the
/// parameters depend on these alone. The times are before the year 10000, as the
/// crate demands.
#[verifier::external_body]
fn leaf_params(
    san: rcgen::SanType,
    name: rcgen::DistinguishedName,
    serial: rcgen::SerialNumber,
    not_before: u64,
    not_after: u64,
) -> (r: rcgen::CertificateParams)
    requires
        not_before < 253402300800,
        not_after < 253402300800,
    ensures
        r == leaf_params_of(san, name, serial, not_before, not_after),
{
    let mut p = rcgen::CertificateParams::default();
    p.subject_alt_names = vec![san];
    p.distinguished_name = name;
    p.serial_number = Some(serial);
    p.not_before = (std::time::UNIX_EPOCH + std::time::Duration::from_secs(not_before)).into();
    p.not_after = (std::time::UNIX_EPOCH + std::time::Duration::from_secs(not_after)).into();
    p
}

/// Trusts the fields `key_usages` and `extended_key_usages` of
/// `rcgen::CertificateParams`: what results depends on the parameters and on what
/// is put in alone.
#[verifier::external_body]
fn with_uses(
    p: rcgen::CertificateParams,
    key_uses: &Vec<KeyUse>,
    extended_uses: &Vec<ExtendedUse>,
) -> (r: rcgen::CertificateParams)
    ensures
        r == params_with_uses(p, key_uses@, extended_uses@),
{
    let mut p = p;
    p.key_usages = key_uses.iter().map(|u| match u {
        KeyUse::DigitalSignature => rcgen::KeyUsagePurpose::DigitalSignature,
    }).collect();
    p.extended_key_usages = extended_uses.iter().map(|u| match u {
        ExtendedUse::ServerAuth => rcgen::ExtendedKeyUsagePurpose::ServerAuth,
    }).collect();
    p
}

/// Trusts `rcgen::CertificateParams::signed_by`, and gives the certificate in DER.
/// A signature is made with random numbers: the result is one that these arguments
/// may come to, and no more is stated of it. The crate panics on parameters that it
/// cannot write: these are those of a sound plan, which it can. Of the signing
/// certificate it writes the distinguished name, which it wrote once already, when it
/// made that certificate.
#[verifier::external_body]
fn sign(
    p: rcgen::CertificateParams,
    key: &rcgen::KeyPair,
    ca_cert: &rcgen::Certificate,
    ca_key: &rcgen::KeyPair,
) -> (r: Result<Vec<u8>, String>)
    requires
        exists|plan: PlanView| p == #[trigger] plan_params(plan) && is_sound(plan),
    ensures
        match r {
            Ok(der) => may_sign(p, *key, *ca_cert, *ca_key, Ok::<Seq<u8>, Seq<char>>(der@)),
            Err(e) => may_sign(p, *key, *ca_cert, *ca_key, Err::<Seq<u8>, Seq<char>>(e@)),
        },
{
    p.signed_by(key, ca_cert, ca_key).map(|c| c.der().to_vec()).map_err(|e| e.to_string())
}

// ---- What can be written --------------------------------------------------------------------------

/// An entry of a distinguished name: the numbers of its type where that is none of the
/// usual ones, and its text where that is a printable string.
#[derive(Debug)]
pub struct NameEntry {
    pub custom_type: Option<Vec<u64>>,
    pub printable: Option<String>,
}

/// What an entry of a distinguished name says.
#[verifier::ext_equal]
pub struct NameEntryView {
    pub custom_type: Option<Seq<u64>>,
    pub printable: Option<Seq<char>>,
}

impl View for NameEntry {
    type V = NameEntryView;

    open spec fn view(&self) -> NameEntryView {
        NameEntryView {
            custom_type: opt_numbers(self.custom_type),
            printable: crate::text::opt_text(self.printable),
        }
    }
}

/// Numbers, where there are any.
pub open spec fn opt_numbers(o: Option<Vec<u64>>) -> Option<Seq<u64>> {
    match o {
        Some(v) => Some(v@),
        None => None,
    }
}

/// The views of a list of numbers.
pub open spec fn opt_numbers_all(v: Seq<Option<Vec<u64>>>) -> Seq<Option<Seq<u64>>> {
    v.map_values(|o: Option<Vec<u64>>| opt_numbers(o))
}

/// The views of the entries of a distinguished name.
pub open spec fn name_entry_views(v: Seq<NameEntry>) -> Seq<NameEntryView> {
    v.map_values(|e: NameEntry| e@)
}

/// A name constraint: a host name or an e-mail address, a distinguished name, or
/// addresses.
pub enum Constraint {
    Text(String),
    Name(rcgen::DistinguishedName),
    Addresses,
}

/// What a name constraint says.
#[verifier::ext_equal]
pub enum ConstraintView {
    Text(Seq<char>),
    Name(rcgen::DistinguishedName),
    Addresses,
}

impl View for Constraint {
    type V = ConstraintView;

    open spec fn view(&self) -> ConstraintView {
        match self {
            Constraint::Text(t) => ConstraintView::Text(t@),
            Constraint::Name(n) => ConstraintView::Name(*n),
            Constraint::Addresses => ConstraintView::Addresses,
        }
    }
}

/// The views of name constraints.
pub open spec fn constraint_views(v: Seq<Constraint>) -> Seq<ConstraintView> {
    v.map_values(|c: Constraint| c@)
}

/// A point in time: its year where it was written down, and the seconds since 1970.
#[derive(Debug, Clone, Copy, PartialEq, Eq, Structural)]
pub struct Moment {
    pub year: i32,
    pub seconds: i64,
}

/// Numbers that can be written as an object identifier.
pub open spec fn is_identifier(v: Seq<u64>) -> bool {
    &&& v.len() >= 2
    &&& v[0] < 3
    &&& v[1] < 18446744073709551535
    &&& v[0] == 2 || v[1] < 40
}

/// A type that can be written: a usual one, or one with numbers for it.
pub open spec fn is_type(o: Option<Seq<u64>>) -> bool {
    match o {
        Some(v) => is_identifier(v),
        None => true,
    }
}

/// A character that can be written in a printable string. The question mark is not
/// among them.
pub open spec fn is_printable(c: char) -> bool {
    ||| c == ' ' || c == '='
    ||| '\'' <= c <= ':' && c != '*'
    ||| 'A' <= c <= 'Z'
    ||| 'a' <= c <= 'z'
}

/// A text that can be written as a printable string.
pub open spec fn is_printable_text(s: Seq<char>) -> bool {
    forall|i: int| 0 <= i < s.len() ==> is_printable(#[trigger] s[i])
}

/// An entry of a distinguished name that can be written.
pub open spec fn entry_can_be_written(e: NameEntryView) -> bool {
    &&& is_type(e.custom_type)
    &&& match e.printable {
        Some(t) => is_printable_text(t),
        None => true,
    }
}

/// A distinguished name that can be written.
pub open spec fn name_can_be_written(n: rcgen::DistinguishedName) -> bool {
    forall|i: int|
        0 <= i < name_entries(n).len() ==> entry_can_be_written(#[trigger] name_entries(n)[i])
}

/// A name constraint that can be written.
pub open spec fn constraint_can_be_written(c: ConstraintView) -> bool {
    match c {
        ConstraintView::Text(t) => is_ascii_chars(t),
        ConstraintView::Name(n) => name_can_be_written(n),
        ConstraintView::Addresses => true,
    }
}

/// A point in time that can be written. From 1950 to 2049 the year has two digits, and
/// else four, and it must do so in universal time too.
pub open spec fn moment_can_be_written(t: Moment) -> bool {
    if 1950 <= t.year < 2050 {
        -631152000 <= t.seconds < 2524608000
    } else {
        -62167219200 <= t.seconds < 253402300800
    }
}

/// Parameters that can be written in a certificate: their names, their name constraints
/// and their times can.
pub open spec fn can_be_written(p: rcgen::CertificateParams) -> bool {
    &&& name_can_be_written(subject_of(p))
    &&& forall|i: int|
        0 <= i < other_name_types(p).len() ==> is_type(#[trigger] other_name_types(p)[i])
    &&& forall|i: int|
        0 <= i < constraints_of(p).len() ==> constraint_can_be_written(
            #[trigger] constraints_of(p)[i],
        )
    &&& moment_can_be_written(validity_of(p).0)
    &&& moment_can_be_written(validity_of(p).1)
}

fn check_type(o: &Option<Vec<u64>>) -> (r: bool)
    ensures
        r == is_type(opt_numbers(*o)),
{
    match o {
        Some(v) => v.len() >= 2 && v[0] < 3 && v[1] < 18446744073709551535 && (v[0] == 2 || v[1]
            < 40),
        None => true,
    }
}

fn check_printable(s: &str) -> (r: bool)
    ensures
        r == is_printable_text(s@),
{
    let c = chars_of(s);
    let mut i: usize = 0;
    while i < c.len()
        invariant
            c@ == s@,
            i <= c@.len(),
            forall|j: int| 0 <= j < i ==> is_printable(#[trigger] c@[j]),
        decreases c@.len() - i,
    {
        let x: char = c[i];
        if !(x == ' ' || x == '=' || ('\'' <= x && x <= ':' && x != '*') || ('A' <= x && x <= 'Z')
            || ('a' <= x && x <= 'z')) {
            assert(!is_printable(s@[i as int]));
            return false;
        }
        i += 1;
    }
    true
}

fn check_name(name: &rcgen::DistinguishedName) -> (r: bool)
    ensures
        r == name_can_be_written(*name),
{
    let all = entries(name);
    let mut i: usize = 0;
    while i < all.len()
        invariant
            name_entry_views(all@) == name_entries(*name),
            i <= all@.len(),
            forall|j: int|
                0 <= j < i ==> entry_can_be_written(#[trigger] name_entries(*name)[j]),
        decreases all@.len() - i,
    {
        let e = &all[i];
        assert(name_entry_views(all@)[i as int] == e@);
        let text_fits: bool = match &e.printable {
            Some(t) => check_printable(t.as_str()),
            None => true,
        };
        if !check_type(&e.custom_type) || !text_fits {
            assert(!entry_can_be_written(name_entries(*name)[i as int]));
            return false;
        }
        i += 1;
    }
    true
}

fn check_other_names(p: &rcgen::CertificateParams) -> (r: bool)
    ensures
        r == forall|i: int|
            0 <= i < other_name_types(*p).len() ==> is_type(#[trigger] other_name_types(*p)[i]),
{
    let all = other_names(p);
    let mut i: usize = 0;
    while i < all.len()
        invariant
            opt_numbers_all(all@) == other_name_types(*p),
            i <= all@.len(),
            forall|j: int| 0 <= j < i ==> is_type(#[trigger] other_name_types(*p)[j]),
        decreases all@.len() - i,
    {
        assert(opt_numbers_all(all@)[i as int] == opt_numbers(all@[i as int]));
        if !check_type(&all[i]) {
            assert(!is_type(other_name_types(*p)[i as int]));
            return false;
        }
        i += 1;
    }
    true
}

fn check_constraints(p: &rcgen::CertificateParams) -> (r: bool)
    ensures
        r == forall|i: int|
            0 <= i < constraints_of(*p).len() ==> constraint_can_be_written(
                #[trigger] constraints_of(*p)[i],
            ),
{
    let all = constraints(p);
    let mut i: usize = 0;
    while i < all.len()
        invariant
            constraint_views(all@) == constraints_of(*p),
            i <= all@.len(),
            forall|j: int|
                0 <= j < i ==> constraint_can_be_written(#[trigger] constraints_of(*p)[j]),
        decreases all@.len() - i,
    {
        assert(constraint_views(all@)[i as int] == all@[i as int]@);
        let fits: bool = match &all[i] {
            Constraint::Text(t) => all_ascii(t.as_str()),
            Constraint::Name(n) => check_name(n),
            Constraint::Addresses => true,
        };
        if !fits {
            assert(!constraint_can_be_written(constraints_of(*p)[i as int]));
            return false;
        }
        i += 1;
    }
    true
}

fn check_moment(t: &Moment) -> (r: bool)
    ensures
        r == moment_can_be_written(*t),
{
    if 1950 <= t.year && t.year < 2050 {
        -631152000 <= t.seconds && t.seconds < 2524608000
    } else {
        -62167219200 <= t.seconds && t.seconds < 253402300800
    }
}

/// Whether parameters can be written in a certificate.
fn check_params(p: &rcgen::CertificateParams) -> (r: bool)
    ensures
        r == can_be_written(*p),
{
    let (from, to) = validity(p);
    check_name(subject(p)) && check_other_names(p) && check_constraints(p) && check_moment(&from)
        && check_moment(&to)
}

// ---- What a leaf says -------------------------------------------------------------------------------

/// What a key may be used for.
#[derive(Debug, Clone, Copy, PartialEq, Eq, Structural)]
pub enum KeyUse {
    DigitalSignature,
}

/// What a certificate may be used for.
#[derive(Debug, Clone, Copy, PartialEq, Eq, Structural)]
pub enum ExtendedUse {
    ServerAuth,
}

/// What a leaf is to say.
#[derive(Debug)]
pub struct LeafPlan {
    pub name: LeafName,
    pub common_name: String,
    pub serial: u64,
    pub not_before: u64,
    pub not_after: u64,
    pub key_uses: Vec<KeyUse>,
    pub extended_uses: Vec<ExtendedUse>,
}

/// What a plan says.
#[verifier::ext_equal]
pub struct PlanView {
    pub name: LeafNameView,
    pub common_name: Seq<char>,
    pub serial: u64,
    pub not_before: u64,
    pub not_after: u64,
    pub key_uses: Seq<KeyUse>,
    pub extended_uses: Seq<ExtendedUse>,
}

impl View for LeafPlan {
    type V = PlanView;

    open spec fn view(&self) -> PlanView {
        PlanView {
            name: self.name@,
            common_name: self.common_name@,
            serial: self.serial,
            not_before: self.not_before,
            not_after: self.not_after,
            key_uses: self.key_uses@,
            extended_uses: self.extended_uses@,
        }
    }
}

/// A leaf for a target is good for that name alone and for serving, from a minute
/// ago for some hours. A host name that is not ASCII has none.
pub open spec fn plan_of(target: Seq<char>, serial: u64, now: u64, hours: u64) -> Result<
    PlanView,
    Seq<char>,
> {
    let name = leaf_name_of(target);
    if name is Dns && !is_ascii_chars(target) {
        Err("invalid dNSName: "@ + crate::text::quoted_text(target))
    } else {
        Ok(
            PlanView {
                name,
                common_name: target,
                serial,
                not_before: (now - 60) as u64,
                not_after: (now + hours * 3600) as u64,
                key_uses: seq![KeyUse::DigitalSignature],
                extended_uses: seq![ExtendedUse::ServerAuth],
            },
        )
    }
}

/// The parameters of what a plan says.
pub open spec fn plan_params(p: PlanView) -> rcgen::CertificateParams {
    params_with_uses(
        leaf_params_of(
            match p.name {
                LeafNameView::Ip(_) => ip_san_of(p.common_name),
                LeafNameView::Dns(n) => dns_san_of(n),
            },
            common_name_of(p.common_name),
            serial_of(p.serial),
            p.not_before,
            p.not_after,
        ),
        p.key_uses,
        p.extended_uses,
    )
}

/// A plan that parameters can be made of and that can be written: its name is an IP
/// literal or is ASCII, and its times are before the year 10000.
pub open spec fn is_sound(p: PlanView) -> bool {
    &&& p.not_before < 253402300800
    &&& p.not_after < 253402300800
    &&& match p.name {
        LeafNameView::Ip(_) => leaf_name_of(p.common_name) is Ip,
        LeafNameView::Dns(n) => is_ascii_chars(n),
    }
}

fn all_ascii(s: &str) -> (r: bool)
    ensures
        r == is_ascii_chars(s@),
{
    let c = chars_of(s);
    let mut i: usize = 0;
    while i < c.len()
        invariant
            c@ == s@,
            i <= c@.len(),
            forall|j: int| 0 <= j < i ==> '\0' <= #[trigger] c@[j] <= '\u{7f}',
        decreases c@.len() - i,
    {
        let x: char = c[i];
        if !('\0' <= x && x <= '\u{7f}') {
            assert(!('\0' <= s@[i as int] <= '\u{7f}'));
            return false;
        }
        i += 1;
    }
    true
}

/// Decides what a leaf for a target says.
pub fn plan_leaf(target: &str, serial: u64, now: u64, expiry_hours: u64) -> (r: Result<
    LeafPlan,
    TlsError,
>)
    requires
        60 <= now,
        now + expiry_hours * 3600 < 253402300800,
    ensures
        match r {
            Ok(p) => plan_of(target@, serial, now, expiry_hours) == Ok::<PlanView, Seq<char>>(p@),
            Err(e) => plan_of(target@, serial, now, expiry_hours) == Err::<PlanView, Seq<char>>(
                e.0@,
            ),
        },
{
    let name = leaf_name(target);
    if let LeafName::Dns(_) = &name {
        if !all_ascii(target) {
            return Err(TlsError(join2("invalid dNSName: ", quoted(target).as_str())));
        }
    }
    let mut key_uses: Vec<KeyUse> = Vec::new();
    key_uses.push(KeyUse::DigitalSignature);
    let mut extended_uses: Vec<ExtendedUse> = Vec::new();
    extended_uses.push(ExtendedUse::ServerAuth);
    assert(key_uses@ == seq![KeyUse::DigitalSignature]);
    assert(extended_uses@ == seq![ExtendedUse::ServerAuth]);
    Ok(
        LeafPlan {
            name,
            common_name: target.to_owned(),
            serial,
            not_before: now - 60,
            not_after: now + expiry_hours * 3600,
            key_uses,
            extended_uses,
        },
    )
}

// ---- The signing certificate --------------------------------------------------------------------------

/// What signs the leaves.
pub struct SigningCa {
    key: rcgen::KeyPair,
    ca_cert: rcgen::Certificate,
    /// The signing certificate as it was given; every served chain holds it.
    ca_der: Vec<u8>,
    expiry_hours: u64,
    serial_seed: u64,
}

/// What is known of a signing certificate.
#[verifier::ext_equal]
pub struct CaView {
    pub key: rcgen::KeyPair,
    pub ca_cert: rcgen::Certificate,
    pub ca_der: Seq<u8>,
    pub expiry_hours: u64,
    pub serial_seed: u64,
}

impl View for SigningCa {
    type V = CaView;

    closed spec fn view(&self) -> CaView {
        CaView {
            key: self.key,
            ca_cert: self.ca_cert,
            ca_der: self.ca_der@,
            expiry_hours: self.expiry_hours,
            serial_seed: self.serial_seed,
        }
    }
}

/// A leaf with its chain, leaf first, and its private key, all in DER.
#[derive(Debug)]
pub struct CertifiedLeaf {
    pub chain: Vec<Vec<u8>>,
    pub key: Vec<u8>,
}

/// Signing parameters by their own key may fail with this text.
pub open spec fn may_not_self_sign(
    p: rcgen::CertificateParams,
    key: rcgen::KeyPair,
    text: Seq<char>,
) -> bool {
    exists|m: Seq<char>|
        {
            &&& #[trigger] may_self_sign(p, key, Err::<rcgen::Certificate, Seq<char>>(m))
            &&& text == "ca reconstruct: "@ + m
        }
}

/// Reading a key may fail with this text.
pub open spec fn may_not_read_key(pem: Seq<char>, text: Seq<char>) -> bool {
    exists|m: Seq<char>|
        {
            &&& #[trigger] may_read_key(pem, Err::<rcgen::KeyPair, Seq<char>>(m))
            &&& text == "ca key: "@ + m
        }
}

/// Reading a signing certificate and its key may fail with this text: the key comes
/// first, then the parameters of the certificate and whether they can be written, then
/// its signature, and its bytes last.
pub open spec fn may_not_read(cert_pem: Seq<char>, key_pem: Seq<char>, text: Seq<char>) -> bool {
    ||| may_not_read_key(key_pem, text)
    ||| exists|key: rcgen::KeyPair|
        {
            &&& #[trigger] may_read_key(key_pem, Ok::<rcgen::KeyPair, Seq<char>>(key))
            &&& match ca_params_of(cert_pem) {
                Err(m) => text == "ca cert: "@ + m,
                Ok(params) => if can_be_written(params) {
                    ||| may_not_self_sign(params, key, text)
                    ||| pem_bytes(cert_pem) == Err::<Seq<u8>, Seq<char>>(text)
                } else {
                    text == "ca cert: a name or a time cannot be written"@
                },
            }
        }
}

/// Minting a leaf that can be planned may fail with this text: no key, or no
/// signature for it.
pub open spec fn may_not_mint(plan: PlanView, ca: CaView, text: Seq<char>) -> bool {
    ||| exists|m: Seq<char>|
        {
            &&& #[trigger] may_generate(Err::<rcgen::KeyPair, Seq<char>>(m))
            &&& text == "leaf keygen: "@ + m
        }
    ||| exists|key: rcgen::KeyPair, m: Seq<char>|
        {
            &&& may_generate(Ok::<rcgen::KeyPair, Seq<char>>(key))
            &&& #[trigger] may_sign(
                plan_params(plan),
                key,
                ca.ca_cert,
                ca.key,
                Err::<Seq<u8>, Seq<char>>(m),
            )
            &&& text == "leaf sign: "@ + m
        }
}

/// A leaf is what a plan says, for a key: signed for it by the signing certificate,
/// which follows it in the chain, and with its private key.
pub open spec fn is_leaf(
    leaf: CertifiedLeaf,
    plan: PlanView,
    key: rcgen::KeyPair,
    ca: CaView,
) -> bool {
    &&& leaf.chain@.len() == 2
    &&& may_generate(Ok::<rcgen::KeyPair, Seq<char>>(key))
    &&& may_sign(
        plan_params(plan),
        key,
        ca.ca_cert,
        ca.key,
        Ok::<Seq<u8>, Seq<char>>(leaf.chain@[0]@),
    )
    &&& leaf.chain@[1]@ == ca.ca_der
    &&& leaf.key@ == key_der_of(key)
}

/// Puts a signing certificate together once it was signed anew.
pub fn assemble_ca(
    key: rcgen::KeyPair,
    signed: Result<rcgen::Certificate, String>,
    cert_pem: &str,
    expiry_hours: u64,
    seed: u64,
) -> (r: Result<SigningCa, TlsError>)
    ensures
        match r {
            Ok(ca) => {
                &&& signed == Ok::<rcgen::Certificate, String>(ca@.ca_cert)
                &&& pem_bytes(cert_pem@) == Ok::<Seq<u8>, Seq<char>>(ca@.ca_der)
                &&& ca@.key == key
                &&& ca@.expiry_hours == expiry_hours
                &&& ca@.serial_seed == seed
            },
            Err(e) => match signed {
                Err(m) => e.0@ == "ca reconstruct: "@ + m@,
                Ok(_) => pem_bytes(cert_pem@) == Err::<Seq<u8>, Seq<char>>(e.0@),
            },
        },
{
    let ca_cert = match signed {
        Ok(c) => c,
        Err(e) => {
            return Err(TlsError(join2("ca reconstruct: ", e.as_str())));
        },
    };
    match pem_cert_to_der(cert_pem) {
        Ok(ca_der) => Ok(SigningCa { key, ca_cert, ca_der, expiry_hours, serial_seed: seed }),
        Err(e) => Err(e),
    }
}

/// Puts a leaf together once it was signed.
pub fn assemble_leaf(signed: Result<Vec<u8>, String>, key: Vec<u8>, ca_der: &Vec<u8>) -> (r: Result<
    CertifiedLeaf,
    TlsError,
>)
    ensures
        match r {
            Ok(leaf) => signed is Ok && leaf.chain@.len() == 2 && leaf.chain@[0]@
                == signed->Ok_0@ && leaf.chain@[1]@ == ca_der@ && leaf.key@ == key@,
            Err(e) => signed is Err && e.0@ == "leaf sign: "@ + signed->Err_0@,
        },
{
    match signed {
        Ok(der) => {
            let mut ca: Vec<u8> = Vec::new();
            ca.extend_from_slice(ca_der.as_slice());
            assert(ca@ == ca_der@);
            let mut chain: Vec<Vec<u8>> = Vec::new();
            chain.push(der);
            chain.push(ca);
            Ok(CertifiedLeaf { chain, key })
        },
        Err(e) => Err(TlsError(join2("leaf sign: ", e.as_str()))),
    }
}

impl SigningCa {
    /// Reads the signing certificate and its key. The first serial number follows
    /// from `seed`.
    pub fn from_pem(cert_pem: &str, key_pem: &str, expiry_hours: u64, seed: u64) -> (r: Result<
        SigningCa,
        TlsError,
    >)
        ensures
            match r {
                Ok(ca) => {
                    &&& may_read_key(key_pem@, Ok::<rcgen::KeyPair, Seq<char>>(ca@.key))
                    &&& ca_params_of(cert_pem@) is Ok
                    &&& can_be_written(ca_params_of(cert_pem@)->Ok_0)
                    &&& may_self_sign(
                        ca_params_of(cert_pem@)->Ok_0,
                        ca@.key,
                        Ok::<rcgen::Certificate, Seq<char>>(ca@.ca_cert),
                    )
                    &&& pem_bytes(cert_pem@) == Ok::<Seq<u8>, Seq<char>>(ca@.ca_der)
                    &&& ca@.expiry_hours == expiry_hours
                    &&& ca@.serial_seed == seed
                },
                Err(e) => may_not_read(cert_pem@, key_pem@, e.0@),
            },
    {
        let key = match read_key(key_pem) {
            Ok(k) => k,
            Err(e) => {
                assert(may_not_read_key(key_pem@, "ca key: "@ + e@));
                return Err(TlsError(join2("ca key: ", e.as_str())));
            },
        };
        let params = match read_ca_params(cert_pem) {
            Ok(p) => p,
            Err(e) => {
                assert(may_read_key(key_pem@, Ok::<rcgen::KeyPair, Seq<char>>(key)));
                return Err(TlsError(join2("ca cert: ", e.as_str())));
            },
        };
        if !check_params(&params) {
            assert(may_read_key(key_pem@, Ok::<rcgen::KeyPair, Seq<char>>(key)));
            return Err(TlsError("ca cert: a name or a time cannot be written".to_owned()));
        }
        let signed = self_sign(params, &key);
        proof {
            assert(may_read_key(key_pem@, Ok::<rcgen::KeyPair, Seq<char>>(key)));
            if let Err(m) = &signed {
                assert(may_not_self_sign(params, key, "ca reconstruct: "@ + m@));
            }
        }
        assemble_ca(key, signed, cert_pem, expiry_hours, seed)
    }

    /// Mints a leaf for a host name or an IP literal. Each leaf that can be planned
    /// takes a serial number.
    pub fn mint(&mut self, target: &str, now: u64) -> (r: Result<CertifiedLeaf, TlsError>)
        requires
            60 <= now,
            now + old(self)@.expiry_hours * 3600 < 253402300800,
        ensures
            ({
                let next = serial_after(old(self)@.serial_seed);
                match plan_of(target@, next, now, old(self)@.expiry_hours) {
                    Err(m) => (r matches Err(e) && e.0@ == m) && final(self)@ == old(self)@,
                    Ok(plan) => {
                        &&& final(self)@ == (CaView { serial_seed: next, ..old(self)@ })
                        &&& match r {
                            Ok(leaf) => exists|key: rcgen::KeyPair| #[trigger]
                                is_leaf(leaf, plan, key, old(self)@),
                            Err(e) => may_not_mint(plan, old(self)@, e.0@),
                        }
                    },
                }
            }),
    {
        let serial: u64 = next_serial(self.serial_seed);
        let plan = match plan_leaf(target, serial, now, self.expiry_hours) {
            Ok(p) => p,
            Err(e) => {
                return Err(e);
            },
        };
        self.serial_seed = serial;
        let san = match &plan.name {
            LeafName::Ip(_) => ip_san(target),
            LeafName::Dns(n) => dns_san(n.as_str()),
        };
        let params = leaf_params(
            san,
            common_name(plan.common_name.as_str()),
            serial_number(plan.serial),
            plan.not_before,
            plan.not_after,
        );
        let params = with_uses(params, &plan.key_uses, &plan.extended_uses);
        assert(params == plan_params(plan@));
        assert(is_sound(plan@));
        let key = match generate_key() {
            Ok(k) => k,
            Err(e) => {
                let m = join2("leaf keygen: ", e.as_str());
                assert(may_not_mint(plan@, old(self)@, m@));
                return Err(TlsError(m));
            },
        };
        let signed = sign(params, &key, &self.ca_cert, &self.key);
        proof {
            if let Err(m) = &signed {
                assert(may_not_mint(plan@, old(self)@, "leaf sign: "@ + m@));
            }
        }
        let r = assemble_leaf(signed, key_der(&key), &self.ca_der);
        proof {
            if let Ok(leaf) = &r {
                assert(is_leaf(*leaf, plan@, key, old(self)@));
            }
        }
        r
    }
}

// ---- Laws -----------------------------------------------------------------------------------------------

/// A leaf is good for its target alone, is no older than a minute and no younger
/// than it may be, and may sign for serving only.
pub proof fn leaf_says_its_target(target: Seq<char>, serial: u64, now: u64, hours: u64)
    requires
        60 <= now,
        now + hours * 3600 <= u64::MAX,
        plan_of(target, serial, now, hours) is Ok,
    ensures
        ({
            let p = plan_of(target, serial, now, hours)->Ok_0;
            &&& p.name == leaf_name_of(target)
            &&& p.common_name == target
            &&& p.not_before + 60 == now
            &&& p.not_before < p.not_after
            &&& p.not_after - now == hours * 3600
            &&& p.key_uses == seq![KeyUse::DigitalSignature]
            &&& p.extended_uses == seq![ExtendedUse::ServerAuth]
        }),
{
}

} // verus!
