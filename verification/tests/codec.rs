//! Encodings.
use hematite::codec::{base64_decode, base64_encode, percent_encode, replace_all};
use hematite::target::{has_dot_segment, percent_decode};

#[test]
fn base64_roundtrip_and_known_vectors() {
    assert_eq!(base64_encode(b"proxy-tok:x"), "cHJveHktdG9rOng=");
    assert_eq!(base64_decode("cHJveHktdG9rOng=").unwrap(), b"proxy-tok:x");
    assert_eq!(base64_encode(b"sk-real:x"), "c2stcmVhbDp4");
    for s in ["", "f", "fo", "foo", "foob", "fooba", "foobar"] {
        assert_eq!(base64_decode(&base64_encode(s.as_bytes())).unwrap(), s.as_bytes());
    }
    assert!(base64_decode("not base64!!").is_none());
    assert!(base64_decode("abc").is_none()); // not a multiple of 4
}

#[test]
fn percent_encode_unreserved_and_reserved() {
    assert_eq!(percent_encode(b"sk-real"), "sk-real");
    assert_eq!(percent_encode(b"a/b c"), "a%2Fb%20c");
    assert_eq!(percent_encode(b"tok+en="), "tok%2Ben%3D");
}

#[test]
fn replace_all_counts_and_rewrites() {
    assert_eq!(replace_all(b"aXbXc", b"X", b"Y"), (b"aYbYc".to_vec(), 2));
    assert_eq!(replace_all(b"none", b"X", b"Y"), (b"none".to_vec(), 0));
    assert_eq!(replace_all(b"abc", b"", b"Y"), (b"abc".to_vec(), 0));
}

#[test]
fn escapes_are_resolved() {
    assert_eq!(percent_decode("a%2Fb%20c"), b"a/b c");
    assert_eq!(percent_decode(&percent_encode(&[0, 255, 37, 65])), vec![0, 255, 37, 65]);
    assert_eq!(percent_decode("%zz%4"), b"%zz%4", "what is no escape stays");
    assert_eq!(percent_decode("%+f"), b"%+f", "a sign is no digit");
    assert_eq!(percent_decode("%+2"), b"%+2");
}

#[test]
fn dots_are_seen_however_they_are_written() {
    for path in ["/a/../b", "/%2e%2e/etc", "/a/./b", "/.", "..", "/%2E"] {
        assert!(has_dot_segment(path), "{path}");
    }
    for path in ["/", "/a.b/c", "/...", "/a/%2e%2e%2e", "", "/..a"] {
        assert!(!has_dot_segment(path), "{path}");
    }
}

#[test]
fn padding_stands_at_the_end_only() {
    assert_eq!(base64_decode("QQ==QQ=="), None, "padding in a group that is not the last");
    assert_eq!(base64_decode("QUI=QQ=="), None);
    assert_eq!(base64_decode("QQ=A"), None, "a digit behind padding");
    assert_eq!(base64_decode("QUJDQQ=="), Some(b"ABCA".to_vec()));
    assert_eq!(base64_decode("QUI="), Some(b"AB".to_vec()));
}
