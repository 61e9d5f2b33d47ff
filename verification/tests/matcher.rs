//! Matching hosts, addresses, paths and header names.
use hematite::duration::parse_millis;
use hematite::ip::IpAddr;
use hematite::matcher::{
    any_rule_matches, canonical_name, Cidr, DomainGlob, HeaderNameEntry, HostClause, PathGlob, Rule,
};
use hematite::strmap::StrMap;
use hematite::text::{number_text, parse_decimal, split, trim};

#[test]
fn domain_globs_match_whole_labels() {
    let g = DomainGlob::parse("*.Example.com").unwrap();
    assert!(g.matches("api.example.com"));
    assert!(g.matches("a.b.EXAMPLE.com."));
    assert!(g.matches("example.com"), "a wildcard covers the domain itself");
    assert!(!g.matches("badexample.com"));
    let exact = DomainGlob::parse("example.com").unwrap();
    assert!(exact.matches("Example.com."));
    assert!(!exact.matches("api.example.com"));
    assert_eq!(DomainGlob::parse("").unwrap_err().0, "empty domain pattern");
    assert!(DomainGlob::parse("api.*.com").is_err());
}

#[test]
fn cidrs_cover_mapped_addresses() {
    let c = Cidr::parse("10.0.0.0/8").unwrap();
    assert!(c.contains(IpAddr::parse("10.9.8.7").unwrap()));
    assert!(c.contains(IpAddr::parse("::ffff:10.9.8.7").unwrap()));
    assert!(!c.contains(IpAddr::parse("11.0.0.1").unwrap()));
    assert!(!c.contains(IpAddr::parse("::ffff:11.0.0.1").unwrap()));
    assert!(!c.contains(IpAddr::parse("::10.9.8.7").unwrap()));
    let all = Cidr::parse("0.0.0.0/0").unwrap();
    assert!(!all.contains(IpAddr::parse("2001:db8::1").unwrap()));
    let range = Cidr::parse("::ffff:0:0/96").unwrap();
    assert!(range.contains(IpAddr::parse("::ffff:10.9.8.7").unwrap()));
    assert!(!range.contains(IpAddr::parse("::fffe:10.9.8.7").unwrap()));
    assert!(c.matches_host("10.1.2.3"));
    assert!(!c.matches_host("ten.example"));
    assert_eq!(c.to_text(), "10.0.0.0/8");
    let v6 = Cidr::parse("2001:db8::/32").unwrap();
    assert!(v6.contains(IpAddr::parse("2001:db8:1::1").unwrap()));
    assert_eq!(
        Cidr::parse("10.0.0.1").unwrap_err().to_text(),
        "invalid matcher: bare IP without prefix length: \"10.0.0.1\" (write /32 or /128 explicitly)"
    );
    assert_eq!(Cidr::parse("x/8").unwrap_err().0, "invalid CIDR address: \"x/8\"");
    assert_eq!(Cidr::parse("10.0.0.0/x").unwrap_err().0, "invalid CIDR prefix: \"10.0.0.0/x\"");
    assert_eq!(Cidr::parse("10.0.0.0/33").unwrap_err().0, "CIDR prefix out of range: \"10.0.0.0/33\"");
}

#[test]
fn path_globs_match_any_run() {
    let g = PathGlob::parse("/v1/*/keys").unwrap();
    assert!(g.matches("/v1/a/b/keys"));
    assert!(!g.matches("/v1/keys"));
    assert!(!g.matches("/v1/a/keys/x"));
    assert!(PathGlob::parse("/anything*").unwrap().matches("/anything/else"));
    assert!(PathGlob::parse("/exact").unwrap().matches("/exact"));
    assert!(!PathGlob::parse("/exact").unwrap().matches("/exactly"));
}

#[test]
fn header_names_match_by_text_or_expression() {
    let plain = HeaderNameEntry::parse("Authorization", false).unwrap();
    assert!(plain.matches("authorization"));
    assert!(!plain.matches("authorization-x"));
    let re = HeaderNameEntry::parse("/^x-request-.*$/", true).unwrap();
    assert!(re.matches("X-Request-Id"), "expressions ignore case");
    assert!(!re.matches("y-request-id"));
    assert_eq!(
        HeaderNameEntry::parse("/^x$/", false).unwrap_err().0,
        "regex entries are not allowed here: \"/^x$/\""
    );
    assert!(HeaderNameEntry::parse("/(/", true).unwrap_err().0.starts_with("invalid header regex \"/(/\": "));
    assert_eq!(HeaderNameEntry::parse("", true).unwrap_err().0, "empty header-name entry");
    assert_eq!(canonical_name("x-request-id"), "X-Request-Id");
}

#[test]
fn rules_need_host_method_and_path() {
    let rule = Rule {
        host: HostClause::parse("10.0.0.0/8").unwrap(),
        methods: Some(vec!["POST".to_string()]),
        paths: Some(vec![PathGlob::parse("/v1/*").unwrap()]),
    };
    assert!(rule.matches("10.1.1.1", "POST", "/v1/x"));
    assert!(!rule.matches("10.1.1.1", "GET", "/v1/x"));
    assert!(!rule.matches("10.1.1.1", "POST", "/v2/x"));
    assert!(!rule.matches("example.com", "POST", "/v1/x"));
    assert!(any_rule_matches(&[rule], "10.1.1.1", "POST", "/v1/x"));
    assert!(!any_rule_matches(&[], "10.1.1.1", "POST", "/v1/x"));
}

#[test]
fn addresses_are_read_and_written() {
    for s in ["127.0.0.1", "::1", "2001:db8::1", "::ffff:10.0.0.1", "fe80::1:0:0:1"] {
        assert_eq!(IpAddr::parse(s).unwrap().to_text(), s);
    }
    assert_eq!(IpAddr::parse("2001:0DB8:0:0:0:0:0:1").unwrap().to_text(), "2001:db8::1");
    for s in ["", "1.2.3", "1.2.3.256", "01.2.3.4", ":::", "1::2::3", "::12345"] {
        assert!(IpAddr::parse(s).is_none(), "{s}");
    }
    assert_eq!(
        IpAddr::parse("::ffff:1.2.3.4").unwrap().to_canonical(),
        IpAddr::parse("1.2.3.4").unwrap()
    );
}

#[test]
fn durations_are_read() {
    assert_eq!(parse_millis("30"), Ok(30_000));
    assert_eq!(parse_millis(" 250ms "), Ok(250));
    assert_eq!(parse_millis("5s"), Ok(5_000));
    assert_eq!(parse_millis("2m"), Ok(120_000));
    assert_eq!(parse_millis("x").unwrap_err(), "invalid duration: \"x\"");
    assert_eq!(parse_millis("2h").unwrap_err(), "invalid duration unit: \"2h\"");
}

#[test]
fn texts_and_maps() {
    assert_eq!(trim("\t a b \n"), "a b");
    assert_eq!(split("a,,b", ','), vec!["a", "", "b"]);
    assert_eq!(parse_decimal("+17", 20), Some(17));
    assert_eq!(parse_decimal("21", 20), None);
    assert_eq!(number_text(0), "0");
    assert_eq!(number_text(1203), "1203");
    let mut m: StrMap<u8> = StrMap::new();
    m.insert("b".into(), 1);
    m.insert("a".into(), 2);
    m.insert("b".into(), 3);
    assert_eq!((m.len(), m.key_at(0), *m.value_at(1)), (2, "a", 3));
    m.remove("a");
    assert!(m.get("a").is_none());
    assert_eq!(m.get("b"), Some(&3));
}

#[test]
fn pieces_between_stars_stand_in_order() {
    let g = PathGlob::parse("/a*b*c").unwrap();
    assert!(g.matches("/abc"), "a run may be empty");
    assert!(g.matches("/a/x/b/y/bc"), "a run may hold a slash and a piece again");
    assert!(!g.matches("/acb"));
    assert!(!g.matches("/A/b/c"), "case counts");
    assert!(PathGlob::parse("/a?[b]").unwrap().matches("/a?[b]"), "no other character is special");
    assert!(!PathGlob::parse("/a?").unwrap().matches("/ab"));
}
