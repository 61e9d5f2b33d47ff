//! Leaves and their cache.
use hematite::mint::{assemble_ca, assemble_leaf, plan_leaf, ExtendedUse, KeyUse, SigningCa};
use hematite::tls::{
    leaf_name, mint_failed, next_serial, pem_cert_to_der, CertCache, CertStep, LeafName, TlsError,
};

const NOW: u64 = 1_700_000_000;
const SEED: u64 = 0x1234_5678_9abc_def0;

/// A throwaway CA (cert PEM, key PEM) for tests.
fn test_ca() -> (String, String) {
    let mut params = rcgen::CertificateParams::new(Vec::new()).unwrap();
    params.is_ca = rcgen::IsCa::Ca(rcgen::BasicConstraints::Unconstrained);
    params.distinguished_name.push(rcgen::DnType::CommonName, "hematite test CA");
    params.key_usages = vec![
        rcgen::KeyUsagePurpose::KeyCertSign,
        rcgen::KeyUsagePurpose::DigitalSignature,
    ];
    let key = rcgen::KeyPair::generate().unwrap();
    let cert = params.self_signed(&key).unwrap();
    (cert.pem(), key.serialize_pem())
}

fn holds(der: &[u8], part: &[u8]) -> bool {
    der.windows(part.len()).any(|w| w == part)
}

#[test]
fn mint_leaf_for_hostname_and_ip() {
    let (cert_pem, key_pem) = test_ca();
    let mut ca = SigningCa::from_pem(&cert_pem, &key_pem, 72, SEED).unwrap();

    let host_leaf = ca.mint("api.example.com", NOW).unwrap();
    assert_eq!(host_leaf.chain.len(), 2, "chain is [leaf, CA]");
    assert!(holds(&host_leaf.chain[0], b"api.example.com"));
    assert!(holds(&host_leaf.chain[0], &next_serial(SEED).to_be_bytes()));
    assert!(!host_leaf.key.is_empty());

    let ip_leaf = ca.mint("10.0.0.5", NOW).unwrap();
    assert_eq!(ip_leaf.chain.len(), 2);
    assert!(holds(&ip_leaf.chain[0], &[0x87, 4, 10, 0, 0, 5]), "the address as such");
    assert!(holds(&ip_leaf.chain[0], &next_serial(next_serial(SEED)).to_be_bytes()));
    assert_eq!(ip_leaf.chain[1], pem_cert_to_der(&cert_pem).unwrap());
    assert_ne!(host_leaf.key, ip_leaf.key);
}

#[test]
fn a_signing_certificate_is_read_or_refused() {
    let (cert_pem, key_pem) = test_ca();
    let error = |cert: &str, key: &str| SigningCa::from_pem(cert, key, 72, 1).err().unwrap().0;
    assert!(error(&cert_pem, "nonsense").starts_with("ca key: "));
    assert!(error("nonsense", &key_pem).starts_with("ca cert: "));
    let key = rcgen::KeyPair::generate().unwrap();
    let e = assemble_ca(key, Err("no luck".into()), &cert_pem, 72, 1).err().unwrap();
    assert_eq!(e.to_text(), "tls: ca reconstruct: no luck");
    let e = assemble_leaf(Err("no luck".into()), vec![], &vec![]).err().unwrap();
    assert_eq!(e.0, "leaf sign: no luck");
    let leaf = assemble_leaf(Ok(vec![1]), vec![2], &vec![3]).unwrap();
    assert_eq!((leaf.chain, leaf.key), (vec![vec![1], vec![3]], vec![2]));
}

/// A CA made of changed parameters, and changed again once it was signed.
fn odd_ca(
    params: impl Fn(&mut rcgen::CertificateParams),
    der: impl Fn(Vec<u8>) -> Vec<u8>,
) -> Result<SigningCa, TlsError> {
    let mut p = rcgen::CertificateParams::new(Vec::new()).unwrap();
    p.is_ca = rcgen::IsCa::Ca(rcgen::BasicConstraints::Unconstrained);
    params(&mut p);
    let key = rcgen::KeyPair::generate().unwrap();
    let cert = der(p.self_signed(&key).unwrap().der().to_vec());
    let pem = format!(
        "-----BEGIN CERTIFICATE-----\n{}\n-----END CERTIFICATE-----\n",
        hematite::codec::base64_encode(&cert)
    );
    SigningCa::from_pem(&pem, &key.serialize_pem(), 72, 1)
}

fn refused(r: Result<SigningCa, TlsError>) {
    assert_eq!(r.err().unwrap().0, "ca cert: a name or a time cannot be written");
}

fn constrained(content: &[u8]) -> Result<SigningCa, TlsError> {
    let ext = rcgen::CustomExtension::from_oid_content(&[2, 5, 29, 30], content.to_vec());
    odd_ca(|p| p.custom_extensions = vec![ext.clone()], |d| d)
}

#[test]
fn names_that_cannot_be_written_are_refused() {
    let custom = |oid: &[u64]| rcgen::DnType::CustomDnType(oid.to_vec());
    assert!(odd_ca(|p| p.distinguished_name.push(custom(&[2, 5, 4, 5]), "x"), |d| d).is_ok());
    refused(odd_ca(|p| p.distinguished_name.push(custom(&[2, 999]), "x"), |d| d));
    let printable = |text: &str| rcgen::DnValue::PrintableString(text.try_into().unwrap());
    let named = |p: &mut rcgen::CertificateParams| {
        p.distinguished_name.push(rcgen::DnType::OrganizationName, printable("quay=hematite"))
    };
    assert!(odd_ca(named, |d| d).is_ok());
    refused(odd_ca(named, |d| {
        let mut out = d.clone();
        for (at, _) in d.windows(13).enumerate().filter(|(_, w)| w == b"quay=hematite") {
            out[at + 4] = b'?';
        }
        out
    }));
    let other = |oid: &[u64]| rcgen::SanType::OtherName((oid.to_vec(), "x".into()));
    assert!(odd_ca(|p| p.subject_alt_names = vec![other(&[1, 3, 6, 1])], |d| d).is_ok());
    refused(odd_ca(|p| p.subject_alt_names = vec![other(&[2, 999, 1])], |d| d));
}

#[test]
fn name_constraints_that_cannot_be_written_are_refused() {
    assert!(constrained(&[0x30, 8, 0xa0, 6, 0x30, 4, 0x82, 2, b'a', b'b']).is_ok());
    refused(constrained(&[0x30, 8, 0xa0, 6, 0x30, 4, 0x82, 2, 0xc3, 0xa9]));
    refused(constrained(&[0x30, 8, 0xa1, 6, 0x30, 4, 0x81, 2, 0xc3, 0xa9]));
    let name = |oid: [u8; 2]| {
        vec![
            0x30, 19, 0xa0, 17, 0x30, 15, 0xa4, 13, 0x30, 11, 0x31, 9, 0x30, 7, 6, 2, oid[0],
            oid[1], 12, 1, b'x',
        ]
    };
    assert!(constrained(&name([0x2a, 3])).is_ok());
    refused(constrained(&name([0x88, 0x37])));
}

#[test]
fn times_that_cannot_be_written_are_refused() {
    let long = "a".repeat(300);
    let made = |time: &[u8]| {
        odd_ca(
            |p| p.distinguished_name.push(rcgen::DnType::CommonName, long.as_str()),
            |d| {
                let at = d.windows(4).position(|w| w == [0x30, 30, 0x17, 13]).unwrap_or_else(|| {
                    d.windows(4).position(|w| w == [0x30, 32, 0x17, 13]).unwrap()
                });
                let grown = time.len() - 13;
                let mut out = d[..at].to_vec();
                assert_eq!((out[1], out[5]), (0x82, 0x82));
                for i in [2, 6] {
                    let n = u16::from_be_bytes([out[i], out[i + 1]]) + grown as u16;
                    out[i..i + 2].copy_from_slice(&n.to_be_bytes());
                }
                out.extend([0x30, d[at + 1] + grown as u8, 0x17, time.len() as u8]);
                out.extend(time);
                out.extend(&d[at + 17..]);
                out
            },
        )
    };
    assert!(made(b"500101000000Z").is_ok());
    assert!(made(b"500101010000+0100").is_ok());
    refused(made(b"500101000000+0100"));
    refused(made(b"491231235959-0100"));
}

#[test]
fn a_leaf_says_its_target() {
    let plan = plan_leaf("api.example.com", 7, NOW, 72).unwrap();
    assert!(matches!(plan.name, LeafName::Dns(ref n) if n == "api.example.com"));
    assert_eq!(plan.common_name, "api.example.com");
    assert_eq!((plan.serial, plan.not_before, plan.not_after), (7, NOW - 60, NOW + 259_200));
    assert_eq!(plan.key_uses, vec![KeyUse::DigitalSignature]);
    assert_eq!(plan.extended_uses, vec![ExtendedUse::ServerAuth]);
    assert!(matches!(leaf_name("::1"), LeafName::Ip(_)));
    assert_eq!(
        plan_leaf("\u{e9}.example", 7, NOW, 72).err().unwrap().0,
        "invalid dNSName: \"\u{e9}.example\""
    );
}

#[test]
fn pem_blocks_are_decoded() {
    let pem = "x\n-----BEGIN CERTIFICATE-----\nAQID\r\n BA==\n-----END CERTIFICATE-----\n";
    assert_eq!(pem_cert_to_der(pem).unwrap(), vec![1, 2, 3, 4]);
    let error = |s: &str| pem_cert_to_der(s).err().unwrap().0;
    assert_eq!(error(""), "ca_cert PEM has no CERTIFICATE block");
    assert_eq!(
        error("-----BEGIN CERTIFICATE-----AQID"),
        "ca_cert PEM CERTIFICATE block unterminated"
    );
    assert_eq!(
        error("-----BEGIN CERTIFICATE-----A-----END CERTIFICATE-----"),
        "ca_cert PEM body is not valid base64"
    );
    assert_eq!(TlsError("x".into()).to_text(), "tls: x");
    assert_eq!(mint_failed("a\"b").0, "mint failed for \"a\\\"b\"");
}

#[test]
fn serials_follow_one_another() {
    assert_eq!(next_serial(1), 0x4082_2041);
    assert_eq!(next_serial(0), 0);
    assert_ne!(next_serial(2), next_serial(3));
}

#[test]
fn concurrent_misses_mint_once() {
    let mut cache = CertCache::new(100);
    let flight = match cache.get("api.example.com") {
        CertStep::Mint(f) => f,
        _ => panic!("expected to mint"),
    };
    for _ in 0..7 {
        assert_eq!(cache.get("api.example.com"), CertStep::Await(flight));
    }
    assert!(matches!(cache.get("other.example.com"), CertStep::Mint(_)));
    assert_eq!(cache.finish("api.example.com", Some(11)), None);
    assert_eq!(cache.get("api.example.com"), CertStep::Hit(11));
    cache.finish("other.example.com", None);
    assert!(matches!(cache.get("other.example.com"), CertStep::Mint(_)), "a failure is forgotten");
}

#[test]
fn the_leaf_used_longest_ago_leaves() {
    let mut cache = CertCache::new(2);
    cache.finish("a", Some(1));
    cache.finish("b", Some(2));
    assert_eq!(cache.get("a"), CertStep::Hit(1), "used again");
    assert_eq!(cache.finish("c", Some(3)), Some(2), "b was used longest ago");
    assert!(matches!(cache.get("b"), CertStep::Mint(_)));
    assert_eq!(cache.get("a"), CertStep::Hit(1));
    assert_eq!(cache.finish("a", Some(4)), Some(1), "the old leaf of a target leaves");
    assert_eq!(cache.get("a"), CertStep::Hit(4));
}

#[test]
fn a_cache_of_no_size_holds_a_thousand() {
    let mut cache = CertCache::new(0);
    for n in 0..1000u64 {
        assert_eq!(cache.finish(&format!("h{n}"), Some(n)), None);
    }
    assert_eq!(cache.finish("one more", Some(1000)), Some(0));
}
