//! The guard at the dialer.
use hematite::ip::IpAddr;
use hematite::state::Guard;

fn ip(s: &str) -> IpAddr {
    IpAddr::parse(s).unwrap()
}

#[test]
fn default_set_denies_ipv4_mapped_forms() {
    let guard = Guard::default_set();
    // The plain IPv4 forms are denied…
    assert!(guard.check(ip("169.254.169.254")).is_err());
    assert!(guard.check(ip("127.0.0.1")).is_err());
    // …and so are the IPv4-mapped IPv6 forms.
    assert!(guard.check(ip("::ffff:169.254.169.254")).is_err());
    assert!(guard.check(ip("::ffff:127.0.0.1")).is_err());
}

#[test]
fn mapped_forms_of_allowed_addresses_still_pass() {
    let guard = Guard::default_set();
    assert!(guard.check(ip("93.184.216.34")).is_ok());
    assert!(guard.check(ip("::ffff:93.184.216.34")).is_ok());
    assert!(guard.check(ip("2606:2800:220:1::1")).is_ok());
}

#[test]
fn configured_v4_rule_covers_mapped_probe() {
    let guard = Guard::new(&vec!["10.0.0.0/8".into()]).unwrap();
    assert!(guard.check(ip("::ffff:10.1.2.3")).is_err());
    assert!(guard.check(ip("::ffff:11.0.0.1")).is_ok());
}

#[test]
fn a_denial_names_address_and_prefix() {
    let guard = Guard::default_set();
    let d = guard.check(ip("::ffff:127.0.0.1")).unwrap_err();
    assert_eq!(d.denied_addr, "::ffff:127.0.0.1");
    assert_eq!(d.prefix, "127.0.0.0/8");
    let d = guard.check(ip("fd00:ec2::254")).unwrap_err();
    assert_eq!(d.prefix, "fd00:ec2::254/128");
    assert!(guard.check(ip("fd20:ce::254")).is_err());
    assert!(guard.check(ip("::1")).is_err());
}

#[test]
fn a_prefix_length_is_needed() {
    assert!(Guard::new(&vec!["10.0.0.1".into()]).is_err());
    assert!(Guard::new(&Vec::new()).unwrap().check(ip("127.0.0.1")).is_ok());
}
