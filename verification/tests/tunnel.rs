//! Tunnels: how they are asked for and what flows in them.
use hematite::tunnel::{
    dispatch, parse_connect, parse_socks5_methods, parse_socks5_request, scan_client_hello_sni,
    sniff_inner, socks5_failure, ClientProtocol, ConnectTarget, InnerProtocol, SniScan,
    Socks5Method, Socks5Reject, SOCKS5_SUCCESS,
};

#[test]
fn dispatch_first_byte() {
    assert_eq!(dispatch(0x05), ClientProtocol::Socks5);
    assert_eq!(dispatch(b'C'), ClientProtocol::Http);
    assert_eq!(dispatch(b'G'), ClientProtocol::Http);
    assert_eq!(dispatch(0x16), ClientProtocol::Unknown);
}

#[test]
fn connect_parsing() {
    assert_eq!(
        parse_connect("CONNECT api.example.com:443 HTTP/1.1\r\nHost: x\r\n\r\n"),
        Some(ConnectTarget { host: "api.example.com".into(), port: 443 })
    );
    // Default port 443.
    assert_eq!(
        parse_connect("CONNECT api.example.com HTTP/1.1\r\n\r\n"),
        Some(ConnectTarget { host: "api.example.com".into(), port: 443 })
    );
    assert_eq!(
        parse_connect("CONNECT [2001:db8::1]:8443 HTTP/1.1\r\n\r\n"),
        Some(ConnectTarget { host: "2001:db8::1".into(), port: 8443 })
    );
    assert_eq!(parse_connect("GET / HTTP/1.1\r\n\r\n"), None);
}

#[test]
fn socks5_method_selection() {
    // nmethods=1, method 0x00 (no-auth).
    assert_eq!(parse_socks5_methods(&[0x01, 0x00]), Some(Socks5Method::NoAuth));
    // only method 0x02 (user/pass) → unacceptable.
    assert_eq!(parse_socks5_methods(&[0x01, 0x02]), Some(Socks5Method::Unacceptable));
}

#[test]
fn socks5_request_ipv4_domain_ipv6() {
    // IPv4 10.0.0.5:443.
    let v4 = [0x05, 0x01, 0x00, 0x01, 10, 0, 0, 5, 0x01, 0xBB];
    assert_eq!(
        parse_socks5_request(&v4),
        Ok(ConnectTarget { host: "10.0.0.5".into(), port: 443 })
    );
    // Domain api.example.com:443.
    let host = b"api.example.com";
    let mut dom = vec![0x05, 0x01, 0x00, 0x03, host.len() as u8];
    dom.extend_from_slice(host);
    dom.extend_from_slice(&443u16.to_be_bytes());
    assert_eq!(
        parse_socks5_request(&dom),
        Ok(ConnectTarget { host: "api.example.com".into(), port: 443 })
    );
    // Non-CONNECT command.
    let bind = [0x05, 0x02, 0x00, 0x01, 10, 0, 0, 5, 0x01, 0xBB];
    assert_eq!(parse_socks5_request(&bind), Err(Socks5Reject::CommandNotSupported));
    // Unknown address type.
    let bad_atyp = [0x05, 0x01, 0x00, 0x09, 0, 0];
    assert_eq!(parse_socks5_request(&bad_atyp), Err(Socks5Reject::AddressNotSupported));
}

#[test]
fn socks5_request_ipv6_and_malformed() {
    let mut v6 = vec![5, 1, 0, 4];
    v6.extend_from_slice(&[0x20, 1, 0x0d, 0xb8, 0, 0, 0, 0, 0, 0, 0, 0, 0, 0, 0, 1]);
    v6.extend_from_slice(&[0x20, 0xfb]);
    assert_eq!(
        parse_socks5_request(&v6),
        Ok(ConnectTarget { host: "2001:db8::1".into(), port: 8443 })
    );
    assert_eq!(parse_socks5_request(&[4, 1, 0, 1]), Err(Socks5Reject::Malformed));
    assert_eq!(
        parse_socks5_request(&[5, 1, 0, 3, 1, 0xff, 0, 80]),
        Err(Socks5Reject::Malformed),
        "a name must be UTF-8"
    );
    assert_eq!(Socks5Reject::Malformed.reply_code(), 0x01);
    assert_eq!(Socks5Reject::CommandNotSupported.reply_code(), 0x07);
    assert_eq!(Socks5Reject::AddressNotSupported.reply_code(), 0x08);
    assert_eq!(socks5_failure(2), [5, 2, 0, 1, 0, 0, 0, 0, 0, 0]);
    assert_eq!(SOCKS5_SUCCESS, [5, 0, 0, 1, 0, 0, 0, 0, 0, 0]);
}

#[test]
fn inner_sniff() {
    assert_eq!(sniff_inner(0x16), InnerProtocol::Tls);
    assert_eq!(sniff_inner(b'G'), InnerProtocol::Http);
    assert_eq!(sniff_inner(0x05), InnerProtocol::Unknown);
}

/// Build a minimal ClientHello record with an optional SNI.
fn client_hello(sni: Option<&str>) -> Vec<u8> {
    let mut ext = Vec::new();
    if let Some(name) = sni {
        let n = name.as_bytes();
        let mut sni_ext = Vec::new();
        sni_ext.extend_from_slice(&((n.len() + 3) as u16).to_be_bytes()); // list len
        sni_ext.push(0); // name_type host_name
        sni_ext.extend_from_slice(&(n.len() as u16).to_be_bytes());
        sni_ext.extend_from_slice(n);
        ext.extend_from_slice(&0u16.to_be_bytes()); // ext type server_name
        ext.extend_from_slice(&(sni_ext.len() as u16).to_be_bytes());
        ext.extend_from_slice(&sni_ext);
    }
    let mut body = Vec::new();
    body.extend_from_slice(&[0x03, 0x03]); // client_version
    body.extend_from_slice(&[0u8; 32]); // random
    body.push(0); // session_id len
    body.extend_from_slice(&2u16.to_be_bytes()); // cipher_suites len
    body.extend_from_slice(&[0x13, 0x01]);
    body.push(1); // compression len
    body.push(0);
    body.extend_from_slice(&(ext.len() as u16).to_be_bytes());
    body.extend_from_slice(&ext);
    let mut hs = vec![0x01];
    hs.extend_from_slice(&(body.len() as u32).to_be_bytes()[1..]);
    hs.extend_from_slice(&body);
    let mut rec = vec![0x16, 0x03, 0x01];
    rec.extend_from_slice(&(hs.len() as u16).to_be_bytes());
    rec.extend_from_slice(&hs);
    rec
}

#[test]
fn sni_scan_extracts_name() {
    let hello = client_hello(Some("Upstream.TEST"));
    assert_eq!(scan_client_hello_sni(&hello), SniScan::Sni("upstream.test".into()));
}

#[test]
fn sni_scan_no_extension_is_nosni() {
    assert_eq!(scan_client_hello_sni(&client_hello(None)), SniScan::NoSni);
}

#[test]
fn sni_scan_partial_record_is_incomplete() {
    let hello = client_hello(Some("a.test"));
    assert_eq!(scan_client_hello_sni(&hello[..3]), SniScan::Incomplete);
    assert_eq!(scan_client_hello_sni(&hello[..hello.len() - 1]), SniScan::Incomplete);
}

#[test]
fn sni_scan_non_tls_is_rejected() {
    assert_eq!(scan_client_hello_sni(b"GET / HTTP/1.1\r\n"), SniScan::NotTls);
}

#[test]
fn sni_scan_never_panics_on_truncations() {
    let hello = client_hello(Some("fuzz.test"));
    for cut in 0..hello.len() {
        let _ = scan_client_hello_sni(&hello[..cut]);
    }
}

#[test]
fn sni_scan_is_stable_under_more_bytes() {
    let mut hello = client_hello(Some("a.test"));
    let before = scan_client_hello_sni(&hello);
    hello.extend_from_slice(&[1, 2, 3]);
    assert_eq!(scan_client_hello_sni(&hello), before);
}
